use mqtt_broker::engine::{ConnectCommand, Delivery, Engine, PubSubCommand};
use mqtt_broker::enums::MqttChannel;
use mqtt_broker::models::pagination::Page;
use mqtt_broker::models::session::Session;
use mqtt_broker::protocol::packets::{
    ConnectPacket, PublishPacket, SubscribePacket, UnsubscribePacket,
};
use mqtt_broker::services::ClientService;
use tokio::sync::mpsc::{channel, Receiver, Sender};

fn connect_packet(id: &str) -> ConnectPacket {
    ConnectPacket {
        client_id: id.to_string(),
        keep_alive: 60,
        clean_session: true,
        username: None,
        password: None,
    }
}

fn subscribe_packet(topic: &str) -> SubscribePacket {
    SubscribePacket { packet_id: 1, topic: topic.to_string(), qos: 0, subscribed_at: 1_700_000_000 }
}

fn unsubscribe_packet(topic: &str) -> UnsubscribePacket {
    UnsubscribePacket { packet_id: 2, topic: topic.to_string() }
}

fn publish_packet(topic: &str, payload: &[u8]) -> PublishPacket {
    PublishPacket {
        packet_id: None,
        topic: topic.to_string(),
        payload: payload.to_vec(),
        qos: 0,
        retain: false,
        dup: false,
    }
}

fn mailbox(capacity: usize) -> (Sender<MqttChannel>, Receiver<MqttChannel>) {
    channel::<MqttChannel>(capacity)
}

fn taken(offers: Vec<Delivery>) -> Vec<String> {
    let mut names: Vec<String> =
        offers.into_iter().filter(|o| o.accepted).map(|o| o.client_id).collect();
    names.sort();
    names
}

fn offered(offers: &[Delivery]) -> Vec<String> {
    let mut names: Vec<String> = offers.iter().map(|o| o.client_id.clone()).collect();
    names.sort();
    names
}

fn names(page: &Page<Session>) -> Vec<String> {
    page.content.iter().map(|s| s.client_id.clone()).collect()
}

#[test]
fn session_new_holds_what_it_is_given() {
    let (tx, _rx) = mailbox(1);
    let s = Session::new("c".to_string(), Some("u".to_string()), true, 1883, tx);
    assert_eq!(s.client_id, "c");
    assert_eq!(s.username.as_deref(), Some("u"));
    assert!(s.clean_session);
    assert_eq!(s.connected_port, 1883);
    assert!(s.subscriptions.is_empty());
    assert!(s.connected_at > 1_600_000_000);
    let (tx, _rx) = mailbox(1);
    let at = Session::new_at("c".to_string(), None, false, 8083, tx, 42);
    assert_eq!(at.connected_at, 42);
    assert!(!at.clean_session);
}

#[test]
fn session_subscriptions_are_keyed_by_topic() {
    let (tx, _rx) = mailbox(1);
    let mut s = Session::new_at("c".to_string(), None, true, 1883, tx, 0);
    s.add_subscription(subscribe_packet("a/b"));
    s.add_subscription(subscribe_packet("a/c"));
    let mut again = subscribe_packet("a/b");
    again.qos = 2;
    again.packet_id = 77;
    s.add_subscription(again);
    assert_eq!(s.subscriptions.len(), 2);
    let ab = s.subscriptions.iter().find(|p| p.topic == "a/b").unwrap();
    assert_eq!(ab.qos, 2);
    assert_eq!(ab.packet_id, 77);
    s.remove_subscription("a/b");
    assert_eq!(s.subscriptions.len(), 1);
    assert_eq!(s.subscriptions[0].topic, "a/c");
    s.remove_subscription("never");
    assert_eq!(s.subscriptions.len(), 1);
    let copy = s.clone();
    assert_eq!(copy.client_id, "c");
    assert_eq!(copy.subscriptions.len(), 1);
    assert_eq!(copy.subscriptions[0].topic, "a/c");
}

#[test]
fn session_clone_shares_the_mailbox() {
    let (tx, mut rx) = mailbox(4);
    let s = Session::new_at("c".to_string(), None, true, 1883, tx, 0);
    let copy = s.clone();
    assert!(copy.tx.same_channel(&s.tx));
    assert!(copy.tx.try_send(MqttChannel::Disconnect).is_ok());
    assert!(matches!(rx.try_recv(), Ok(MqttChannel::Disconnect)));
}

#[test]
fn registry_add_get_remove() {
    let mut registry = ClientService::new();
    let (tx_a, _rx_a) = mailbox(1);
    let mut packet = connect_packet("A");
    packet.username = Some("alice".to_string());
    packet.clean_session = false;
    assert!(registry.add_client(&packet, 1883, tx_a).is_none());
    assert!(registry.contains("A"));
    assert!(!registry.contains("B"));
    let found = registry.get_session("A").unwrap();
    assert_eq!(found.client_id, "A");
    assert_eq!(found.username.as_deref(), Some("alice"));
    assert!(!found.clean_session);
    assert_eq!(found.connected_port, 1883);
    assert!(registry.get_session("B").is_none());
    let removed = registry.remove_client("A").unwrap();
    assert_eq!(removed.client_id, "A");
    assert!(registry.get_session("A").is_none());
    assert!(registry.remove_client("A").is_none());
}

#[test]
fn registry_add_client_hands_back_the_evicted_session() {
    let mut registry = ClientService::new();
    let (tx1, _rx1) = mailbox(1);
    let (tx2, _rx2) = mailbox(1);
    let first = tx1.clone();
    assert!(registry.add_client_at(&connect_packet("A"), 1883, tx1, 10).is_none());
    let evicted = registry.add_client_at(&connect_packet("A"), 8083, tx2, 20).unwrap();
    assert_eq!(evicted.connected_at, 10);
    assert_eq!(evicted.connected_port, 1883);
    assert!(evicted.tx.same_channel(&first));
    let now = registry.get_session("A").unwrap();
    assert_eq!(now.connected_at, 20);
    assert_eq!(now.connected_port, 8083);
    assert_eq!(registry.sessions().len(), 1);
}

#[test]
fn registry_keeps_an_absent_username_absent() {
    let mut registry = ClientService::new();
    let (tx, _rx) = mailbox(1);
    registry.add_client(&connect_packet("A"), 1883, tx);
    assert_eq!(registry.get_session("A").unwrap().username, None);
    let (tx, _rx) = mailbox(1);
    let mut named = connect_packet("B");
    named.username = Some(String::new());
    registry.add_client(&named, 1883, tx);
    assert_eq!(registry.get_session("B").unwrap().username, Some(String::new()));
}

#[test]
fn registry_subscriptions_change_in_place() {
    let mut registry = ClientService::new();
    let (tx, _rx) = mailbox(1);
    registry.add_client(&connect_packet("A"), 1883, tx);
    registry.add_subscribtion("A", &subscribe_packet("x/y"));
    registry.add_subscribtion("B", &subscribe_packet("x/y"));
    let a = registry.get_session("A").unwrap();
    assert_eq!(a.subscriptions.len(), 1);
    assert_eq!(a.subscriptions[0].topic, "x/y");
    assert!(registry.get_session("B").is_none());
    registry.remove_subscribtion("A", "x/y");
    registry.remove_subscribtion("B", "x/y");
    assert!(registry.get_session("A").unwrap().subscriptions.is_empty());
    assert_eq!(registry.sessions().len(), 1);
}

#[test]
fn pagination_of_25_by_10() {
    let mut registry = ClientService::new();
    for i in 0..25 {
        let (tx, _rx) = mailbox(1);
        registry.add_client(&connect_packet(&format!("client-{i}")), 1883, tx);
    }
    let mut seen: Vec<String> = Vec::new();
    for (page, expected) in [(0usize, 10usize), (1, 10), (2, 5), (3, 0), (100, 0)] {
        let result = registry.get_paginated(page, 10);
        assert_eq!(result.page, page);
        assert_eq!(result.size, 10);
        assert_eq!(result.total_elements, 25);
        assert_eq!(result.total_pages, 3);
        assert_eq!(result.content.len(), expected);
        seen.extend(names(&result));
    }
    seen.sort();
    seen.dedup();
    assert_eq!(seen.len(), 25);
}

#[test]
fn pagination_edges() {
    let registry = ClientService::new();
    let empty = registry.get_paginated(0, 10);
    assert_eq!(empty.total_elements, 0);
    assert_eq!(empty.total_pages, 0);
    assert!(empty.content.is_empty());

    let items: Vec<u32> = (0..25).collect();
    let page = Page::of(items.clone(), 2, 10);
    assert_eq!(page.content, vec![20, 21, 22, 23, 24]);
    assert_eq!(page.total_pages, 3);
    let page = Page::of(items.clone(), 1, 10);
    assert_eq!(page.content, (10..20).collect::<Vec<u32>>());
    let page = Page::of(items.clone(), 0, 25);
    assert_eq!(page.content.len(), 25);
    assert_eq!(page.total_pages, 1);
    let page = Page::of(items.clone(), 0, 26);
    assert_eq!(page.content.len(), 25);
    assert_eq!(page.total_pages, 1);
    let page = Page::of(items.clone(), 24, 1);
    assert_eq!(page.content, vec![24]);
    assert_eq!(page.total_pages, 25);
    let page = Page::of(items.clone(), 3, 8);
    assert_eq!(page.content, vec![24]);
    assert_eq!(page.total_pages, 4);
    let page = Page::of(items.clone(), usize::MAX, 2);
    assert!(page.content.is_empty());
    assert_eq!(page.total_elements, 25);
    assert_eq!(page.total_pages, 13);
    let page = Page::of(items, 1, usize::MAX);
    assert!(page.content.is_empty());
    assert_eq!(page.total_pages, 1);
}

#[test]
fn reconnect_evicts_the_first_session() {
    let mut engine = Engine::new();
    let (tx1, mut rx1) = mailbox(8);
    let (tx2, mut rx2) = mailbox(8);
    assert!(engine.connect(&connect_packet("A"), 1883, tx1).is_none());
    engine.subscribe(&subscribe_packet("a/b"), "A");
    let eviction = engine.connect(&connect_packet("A"), 1883, tx2).unwrap();
    assert!(eviction.signalled);
    assert_eq!(eviction.session.client_id, "A");
    assert_eq!(eviction.session.subscriptions.len(), 1);
    assert!(matches!(rx1.try_recv(), Ok(MqttChannel::Disconnect)));
    assert!(rx1.try_recv().is_err());
    assert!(rx2.try_recv().is_err());
    let page = engine.get_paginated(0, 10);
    assert_eq!(page.total_elements, 1);
    assert_eq!(names(&page), vec!["A".to_string()]);
    assert!(page.content[0].subscriptions.is_empty());
    assert!(engine.publish(&publish_packet("a/b", &[1])).is_empty());
}

#[test]
fn eviction_tells_when_the_mailbox_did_not_take_the_signal() {
    let mut engine = Engine::new();
    let (tx1, mut rx1) = mailbox(1);
    let (tx2, _rx2) = mailbox(1);
    engine.connect(&connect_packet("A"), 1883, tx1.clone());
    assert!(tx1.try_send(MqttChannel::Disconnect).is_ok());
    let eviction = engine.connect(&connect_packet("A"), 1883, tx2).unwrap();
    assert!(!eviction.signalled);
    assert!(rx1.try_recv().is_ok());
    assert!(rx1.try_recv().is_err());
}

#[test]
fn end_to_end_publish_reaches_the_subscriber() {
    let mut engine = Engine::new();
    let (tx_a, mut rx_a) = mailbox(8);
    let (tx_b, mut rx_b) = mailbox(8);
    engine.handle_connect(ConnectCommand::Connect(connect_packet("A"), 1883, tx_a));
    engine.handle_pubsub(PubSubCommand::Subscribe(
        subscribe_packet("sensors/+/temp"),
        "A".to_string(),
    ));
    engine.handle_connect(ConnectCommand::Connect(connect_packet("B"), 1883, tx_b));
    let delivered = engine.handle_pubsub(PubSubCommand::Publish(publish_packet(
        "sensors/room1/temp",
        &[0x01, 0x02],
    )));
    assert_eq!(offered(&delivered), vec!["A".to_string()]);
    assert_eq!(taken(delivered), vec!["A".to_string()]);
    match rx_a.try_recv() {
        Ok(MqttChannel::Publish(p)) => {
            assert_eq!(p.topic, "sensors/room1/temp");
            assert_eq!(p.payload, vec![0x01, 0x02]);
            assert_eq!(p.qos, 0);
            assert_eq!(p.packet_id, None);
        }
        _ => panic!("a publish was expected in the mailbox of A"),
    }
    assert!(rx_a.try_recv().is_err());
    assert!(rx_b.try_recv().is_err());
}

#[test]
fn publish_to_a_full_mailbox_is_dropped_for_that_subscriber_only() {
    let mut engine = Engine::new();
    let (tx_slow, mut rx_slow) = mailbox(1);
    let (tx_fast, mut rx_fast) = mailbox(8);
    engine.connect(&connect_packet("slow"), 1883, tx_slow);
    engine.connect(&connect_packet("fast"), 1883, tx_fast);
    engine.subscribe(&subscribe_packet("t"), "slow");
    engine.subscribe(&subscribe_packet("t"), "fast");
    let first = engine.publish(&publish_packet("t", &[1]));
    assert_eq!(taken(first), vec!["fast".to_string(), "slow".to_string()]);
    let second = engine.publish(&publish_packet("t", &[2]));
    assert_eq!(offered(&second), vec!["fast".to_string(), "slow".to_string()]);
    assert_eq!(taken(second), vec!["fast".to_string()]);
    assert!(matches!(rx_slow.try_recv(), Ok(MqttChannel::Publish(_))));
    assert!(rx_slow.try_recv().is_err());
    assert!(matches!(rx_fast.try_recv(), Ok(MqttChannel::Publish(_))));
    assert!(matches!(rx_fast.try_recv(), Ok(MqttChannel::Publish(_))));
    assert!(rx_fast.try_recv().is_err());
}

#[test]
fn publish_to_a_closed_mailbox_is_dropped() {
    let mut engine = Engine::new();
    let (tx, rx) = mailbox(1);
    engine.connect(&connect_packet("A"), 1883, tx);
    engine.subscribe(&subscribe_packet("t"), "A");
    drop(rx);
    let offers = engine.publish(&publish_packet("t", &[1]));
    assert_eq!(offered(&offers), vec!["A".to_string()]);
    assert!(taken(offers).is_empty());
    assert_eq!(engine.recipients("t").len(), 1);
}

#[test]
fn subscribe_is_in_both_places_or_in_neither() {
    let mut engine = Engine::new();
    engine.subscribe(&subscribe_packet("t"), "ghost");
    assert!(engine.recipients("t").is_empty());
    assert_eq!(engine.get_paginated(0, 10).total_elements, 0);
    let (tx, _rx) = mailbox(8);
    engine.connect(&connect_packet("A"), 1883, tx);
    engine.subscribe(&subscribe_packet("t"), "A");
    let recipients = engine.recipients("t");
    assert_eq!(recipients.len(), 1);
    assert_eq!(recipients[0].client_id, "A");
    assert_eq!(recipients[0].subscriptions.len(), 1);
    engine.unsubscribe(&unsubscribe_packet("t"), "ghost");
    assert_eq!(engine.recipients("t").len(), 1);
    engine.unsubscribe(&unsubscribe_packet("t"), "A");
    assert!(engine.recipients("t").is_empty());
    assert!(engine.get_paginated(0, 10).content[0].subscriptions.is_empty());
}

#[test]
fn disconnect_removes_session_and_subscriptions() {
    let mut engine = Engine::new();
    let (tx_a, mut rx_a) = mailbox(8);
    let (tx_b, mut rx_b) = mailbox(8);
    engine.connect(&connect_packet("A"), 1883, tx_a);
    engine.connect(&connect_packet("B"), 1883, tx_b);
    engine.subscribe(&subscribe_packet("t/#"), "A");
    engine.subscribe(&subscribe_packet("t/+"), "B");
    assert!(engine.handle_connect(ConnectCommand::Disconnect("A".to_string())).is_none());
    assert_eq!(engine.get_paginated(0, 10).total_elements, 1);
    assert_eq!(taken(engine.publish(&publish_packet("t/x", &[]))), vec!["B".to_string()]);
    assert!(rx_a.try_recv().is_err());
    assert!(matches!(rx_b.try_recv(), Ok(MqttChannel::Publish(_))));
    engine.drop_client("A");
    engine.drop_client("nobody");
    assert_eq!(engine.get_paginated(0, 10).total_elements, 1);
}

#[test]
fn unsubscribe_command_stops_delivery() {
    let mut engine = Engine::new();
    let (tx, mut rx) = mailbox(8);
    engine.connect(&connect_packet("A"), 1883, tx);
    engine.handle_pubsub(PubSubCommand::Subscribe(subscribe_packet("a/b"), "A".to_string()));
    engine.handle_pubsub(PubSubCommand::Subscribe(subscribe_packet("a/+"), "A".to_string()));
    assert_eq!(taken(engine.publish(&publish_packet("a/b", &[1]))), vec!["A".to_string()]);
    assert!(rx.try_recv().is_ok());
    assert!(rx.try_recv().is_err());
    engine.handle_pubsub(PubSubCommand::Unsubscribe(unsubscribe_packet("a/b"), "A".to_string()));
    assert_eq!(taken(engine.publish(&publish_packet("a/b", &[1]))), vec!["A".to_string()]);
    engine.handle_pubsub(PubSubCommand::Unsubscribe(unsubscribe_packet("a/+"), "A".to_string()));
    assert!(engine.publish(&publish_packet("a/b", &[1])).is_empty());
}

#[test]
fn connect_at_stamps_the_session() {
    let mut engine = Engine::new();
    let (tx, _rx) = mailbox(1);
    let mut packet = connect_packet("A");
    packet.username = Some("alice".to_string());
    engine.connect_at(&packet, 8083, tx, 1234);
    let page = engine.get_paginated(0, 1);
    assert_eq!(page.content[0].connected_at, 1234);
    assert_eq!(page.content[0].connected_port, 8083);
    assert_eq!(page.content[0].username.as_deref(), Some("alice"));
    assert_eq!(page.total_pages, 1);
}
