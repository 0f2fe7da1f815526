use mqtt_broker::services::topic_service::{add_clients, find_client, same_bytes, TopicService};

fn sorted(mut v: Vec<String>) -> Vec<String> {
    v.sort();
    v
}

#[test]
fn single_level_wildcard_matches_exactly_one_level() {
    let mut tree = TopicService::new();
    tree.subscribe("a/+/c", "client");
    assert_eq!(tree.match_subscribers("a/b/c"), vec!["client".to_string()]);
    assert!(tree.match_subscribers("a/b/x/c").is_empty());
    assert!(tree.match_subscribers("a/c").is_empty());
}

#[test]
fn multi_level_wildcard_matches_parent_and_below() {
    let mut tree = TopicService::new();
    tree.subscribe("a/#", "client");
    assert_eq!(tree.match_subscribers("a"), vec!["client".to_string()]);
    assert_eq!(tree.match_subscribers("a/b"), vec!["client".to_string()]);
    assert_eq!(tree.match_subscribers("a/b/c"), vec!["client".to_string()]);
    assert!(tree.match_subscribers("b").is_empty());
}

#[test]
fn bare_multi_level_wildcard_matches_every_publish() {
    let mut tree = TopicService::new();
    tree.subscribe("#", "client");
    for topic in ["a", "a/b", "a/b/c", "", "/", "sensors/room1/temp"] {
        assert_eq!(tree.match_subscribers(topic), vec!["client".to_string()]);
    }
}

#[test]
fn unsubscribe_prunes_the_whole_path_and_spares_siblings() {
    let mut tree = TopicService::new();
    tree.subscribe("x/q", "other");
    tree.subscribe("x/y/z", "client");
    assert!(tree.contains_node("x/y/z"));
    tree.unsubscribe("x/y/z", "client");
    assert!(!tree.contains_node("x/y/z"));
    assert!(!tree.contains_node("x/y"));
    assert!(tree.contains_node("x"));
    assert!(tree.contains_node("x/q"));
    assert_eq!(tree.match_subscribers("x/q"), vec!["other".to_string()]);

    let mut lone = TopicService::new();
    lone.subscribe("x/y/z", "client");
    lone.unsubscribe("x/y/z", "client");
    assert!(!lone.contains_node("x"));
    assert!(!lone.contains_node("x/y"));
    assert!(!lone.contains_node("x/y/z"));
    assert!(lone.is_empty());
}

#[test]
fn subscribing_twice_is_subscribing_once() {
    let mut tree = TopicService::new();
    tree.subscribe("a/b", "c1");
    tree.subscribe("a/b", "c1");
    assert_eq!(tree.match_subscribers("a/b"), vec!["c1".to_string()]);
    tree.unsubscribe("a/b", "c1");
    assert!(tree.match_subscribers("a/b").is_empty());
    assert!(tree.is_empty());
}

#[test]
fn overlapping_filters_name_a_client_once() {
    let mut tree = TopicService::new();
    tree.subscribe("a/b", "c1");
    tree.subscribe("a/+", "c1");
    tree.subscribe("a/#", "c1");
    tree.subscribe("#", "c2");
    assert_eq!(
        sorted(tree.match_subscribers("a/b")),
        vec!["c1".to_string(), "c2".to_string()]
    );
}

#[test]
fn wildcards_in_a_published_topic_are_plain_names() {
    let mut tree = TopicService::new();
    tree.subscribe("a/b", "c1");
    assert!(tree.match_subscribers("a/+").is_empty());
    assert!(tree.match_subscribers("a/#").is_empty());
    assert!(tree.match_subscribers("#").is_empty());
    tree.subscribe("a/+", "c2");
    assert_eq!(tree.match_subscribers("a/+"), vec!["c2".to_string()]);
}

#[test]
fn empty_levels_are_levels() {
    let mut tree = TopicService::new();
    tree.subscribe("a//b", "c1");
    tree.subscribe("/a", "c2");
    tree.subscribe("a/", "c3");
    assert_eq!(tree.match_subscribers("a//b"), vec!["c1".to_string()]);
    assert!(tree.match_subscribers("a/b").is_empty());
    assert_eq!(tree.match_subscribers("/a"), vec!["c2".to_string()]);
    assert_eq!(tree.match_subscribers("a/"), vec!["c3".to_string()]);
    assert!(tree.match_subscribers("a").is_empty());
}

#[test]
fn remove_client_drops_all_its_subscriptions_and_prunes() {
    let mut tree = TopicService::new();
    tree.subscribe("a/b/c", "gone");
    tree.subscribe("a/+", "gone");
    tree.subscribe("d", "gone");
    tree.subscribe("a/b", "stays");
    tree.remove_client("gone");
    assert!(tree.match_subscribers("a/b/c").is_empty());
    assert!(tree.match_subscribers("d").is_empty());
    assert_eq!(tree.match_subscribers("a/b"), vec!["stays".to_string()]);
    assert!(!tree.contains_node("a/b/c"));
    assert!(!tree.contains_node("a/+"));
    assert!(!tree.contains_node("d"));
    assert!(tree.contains_node("a/b"));
    tree.remove_client("stays");
    assert!(tree.is_empty());
    assert!(!tree.contains_node("a"));
}

#[test]
fn unsubscribing_what_was_never_subscribed_changes_nothing() {
    let mut tree = TopicService::new();
    tree.subscribe("a/b", "c1");
    tree.unsubscribe("a/b", "c2");
    tree.unsubscribe("a/x", "c1");
    tree.unsubscribe("a", "c1");
    assert_eq!(tree.match_subscribers("a/b"), vec!["c1".to_string()]);
}

#[test]
fn a_default_tree_is_empty() {
    let tree = TopicService::default();
    assert!(tree.is_empty());
    assert!(tree.match_subscribers("a").is_empty());
    assert!(!tree.contains_node(""));
    let mut one = TopicService::new();
    one.subscribe("", "c");
    assert!(one.contains_node(""));
    assert!(!one.is_empty());
    assert_eq!(one.match_subscribers(""), vec!["c".to_string()]);
}

#[test]
fn client_lists_grow_without_repeats() {
    let mut names = vec!["a".to_string(), "b".to_string()];
    add_clients(&mut names, &vec!["b".to_string(), "c".to_string(), "c".to_string()]);
    assert_eq!(names, vec!["a".to_string(), "b".to_string(), "c".to_string()]);
    assert_eq!(find_client(&names, &"c".to_string()), Some(2));
    assert_eq!(find_client(&names, &"d".to_string()), None);
    assert!(same_bytes(&vec![1, 2, 3], &vec![1, 2, 3]));
    assert!(!same_bytes(&vec![1, 2, 3], &vec![1, 2, 4]));
    assert!(!same_bytes(&vec![1, 2, 3], &vec![1, 2]));
    assert!(same_bytes(&vec![], &vec![]));
}

#[test]
fn many_subscribers_under_many_filters() {
    let mut tree = TopicService::new();
    for i in 0..50 {
        tree.subscribe(&format!("site/{}/temp", i % 5), &format!("c{i}"));
        tree.subscribe("site/+/temp", &format!("w{i}"));
    }
    let matched = sorted(tree.match_subscribers("site/3/temp"));
    assert_eq!(matched.len(), 10 + 50);
    for i in 0..50 {
        tree.remove_client(&format!("w{i}"));
    }
    assert_eq!(tree.match_subscribers("site/3/temp").len(), 10);
    assert!(!tree.contains_node("site/+"));
    for i in 0..50 {
        tree.unsubscribe(&format!("site/{}/temp", i % 5), &format!("c{i}"));
    }
    assert!(tree.is_empty());
    assert!(!tree.contains_node("site"));
}
