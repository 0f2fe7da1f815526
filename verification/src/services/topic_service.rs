//! The topic tree: which client subscribed to which filter.
//!
//! The tree is a trie over the levels of the filters. Its meaning is the set
//! of subscriptions that it holds, each a filter and a client; the shape of
//! the trie is kept minimal, so that no node stands without a subscription
//! at or below it, but for the root.

use crate::services::topic_levels::{
    filter_matches,
    levels_view,
    multi_level_wildcard,
    single_level_wildcard,
    split_topic,
    topic_levels,
};
use vstd::prelude::*;

verus! {

/// A node of the topic tree: the level that leads to it from its parent,
/// the nodes one level further down, and the clients whose filter ends
/// here.
pub struct TopicNode {
    level: Vec<u8>,
    children: Vec<TopicNode>,
    subscribers: Vec<String>,
}

/// The topic tree.
pub struct TopicService {
    root: TopicNode,
}

/// Whether two byte strings are the same.
pub fn same_bytes(a: &Vec<u8>, b: &Vec<u8>) -> (same: bool)
    ensures
        same == (a@ == b@),
{
    if a.len() != b.len() {
        return false;
    }
    let mut i: usize = 0;
    while i < a.len()
        invariant
            i <= a.len(),
            a.len() == b.len(),
            forall|j: int| 0 <= j < i ==> a@[j] == b@[j],
        decreases a.len() - i,
    {
        if a[i] != b[i] {
            return false;
        }
        i = i + 1;
    }
    assert(a@ =~= b@);
    true
}

/// Two non-empty sequences with the same first element and the same rest
/// are the same.
pub proof fn lemma_same_head_and_tail<T>(a: Seq<T>, b: Seq<T>)
    requires
        a.len() > 0,
        b.len() > 0,
        a[0] == b[0],
        a.skip(1) == b.skip(1),
    ensures
        a == b,
{
    let ta = a.skip(1);
    let tb = b.skip(1);
    assert(ta.len() == a.len() - 1);
    assert(tb.len() == b.len() - 1);
    assert forall|k: int| 0 <= k < a.len() implies a[k] == b[k] by {
        if k > 0 {
            assert(ta[k - 1] == a[k]);
            assert(tb[k - 1] == b[k]);
        }
    }
    assert(a =~= b);
}

/// A path is a prefix of a filter exactly if both start with the same
/// level and the rest of the path is a prefix of the rest of the filter.
pub proof fn lemma_prefix_by_levels(path: Seq<Seq<u8>>, filter: Seq<Seq<u8>>)
    requires
        path.len() > 0,
    ensures
        path.is_prefix_of(filter) <==> (filter.len() > 0 && filter[0] == path[0] && path.skip(
            1,
        ).is_prefix_of(filter.skip(1))),
{
    let tail = path.skip(1);
    if path.is_prefix_of(filter) {
        assert(filter.subrange(0, path.len() as int)[0] == path[0]);
        assert forall|k: int| 0 <= k < tail.len() implies tail[k] == filter.skip(1).subrange(
            0,
            tail.len() as int,
        )[k] by {
            assert(filter.subrange(0, path.len() as int)[k + 1] == path[k + 1]);
        }
        assert(tail =~= filter.skip(1).subrange(0, tail.len() as int));
    }
    if filter.len() > 0 && filter[0] == path[0] && tail.is_prefix_of(filter.skip(1)) {
        assert forall|k: int| 0 <= k < path.len() implies path[k] == filter.subrange(
            0,
            path.len() as int,
        )[k] by {
            if k > 0 {
                assert(filter.skip(1).subrange(0, tail.len() as int)[k - 1] == tail[k - 1]);
            }
        }
        assert(path =~= filter.subrange(0, path.len() as int));
    }
}

/// The clients that a list names.
pub open spec fn client_set(clients: Seq<String>) -> Set<Seq<char>> {
    Set::new(|c: Seq<char>| exists|k: int| 0 <= k < clients.len() && (#[trigger] clients[k])@ == c)
}

/// Whether no client stands twice in a list.
pub open spec fn distinct_clients(clients: Seq<String>) -> bool {
    forall|i: int, j: int|
        0 <= i < j < clients.len() ==> (#[trigger] clients[i])@ != (#[trigger] clients[j])@
}

/// The position of a client in a list.
pub fn find_client(clients: &Vec<String>, client: &String) -> (found: Option<usize>)
    ensures
        match found {
            Some(k) => k < clients@.len() && clients@[k as int]@ == client@,
            None => !client_set(clients@).contains(client@),
        },
{
    let mut k: usize = 0;
    while k < clients.len()
        invariant
            k <= clients.len(),
            forall|j: int| 0 <= j < k ==> (#[trigger] clients@[j])@ != client@,
        decreases clients.len() - k,
    {
        if clients[k] == *client {
            return Some(k);
        }
        k = k + 1;
    }
    None
}

impl TopicNode {
    /// The level that leads to this node from its parent.
    spec fn key(&self) -> Seq<u8> {
        self.level@
    }

    /// The clients whose filter ends at this node.
    spec fn own_subscribers(&self) -> Set<Seq<char>> {
        client_set(self.subscribers@)
    }

    /// Whether the node has neither children nor subscribers.
    spec fn is_empty(&self) -> bool {
        self.children@.len() == 0 && self.subscribers@.len() == 0
    }

    /// Whether the subtree holds the subscription of `client` to the filter
    /// whose levels, from this node on, are `filter`.
    spec fn holds(&self, filter: Seq<Seq<u8>>, client: Seq<char>) -> bool
        decreases filter.len(),
    {
        if filter.len() == 0 {
            self.own_subscribers().contains(client)
        } else {
            exists|i: int|
                0 <= i < self.children@.len() && (#[trigger] self.children@[i]).key() == filter[0]
                    && self.children@[i].holds(filter.skip(1), client)
        }
    }

    /// Whether a node stands at the end of `path` from this node.
    spec fn has_path(&self, path: Seq<Seq<u8>>) -> bool
        decreases path.len(),
    {
        if path.len() == 0 {
            true
        } else {
            exists|i: int|
                0 <= i < self.children@.len() && (#[trigger] self.children@[i]).key() == path[0]
                    && self.children@[i].has_path(path.skip(1))
        }
    }

    /// The invariant of a subtree: no two children under the same level, no
    /// client twice among the subscribers, and below this node no node
    /// without children and subscribers.
    spec fn wf(&self) -> bool
        decreases self,
    {
        &&& forall|i: int, j: int|
            0 <= i < j < self.children@.len() ==> (#[trigger] self.children@[i]).key() != (
            #[trigger] self.children@[j]).key()
        &&& distinct_clients(self.subscribers@)
        &&& forall|i: int|
            0 <= i < self.children@.len() ==> (#[trigger] self.children@[i]).wf()
                && !self.children@[i].is_empty()
    }

    /// A node without children and subscribers under the given level.
    fn leaf(level: Vec<u8>) -> (node: TopicNode)
        ensures
            node.wf(),
            node.is_empty(),
            node.key() == level@,
            forall|f: Seq<Seq<u8>>, c: Seq<char>| !node.holds(f, c),
    {
        let node = TopicNode { level, children: Vec::new(), subscribers: Vec::new() };
        assert forall|f: Seq<Seq<u8>>, c: Seq<char>| !node.holds(f, c) by {
            Self::lemma_empty_holds_nothing(node, f, c);
        }
        node
    }

    /// An empty node holds no subscription.
    proof fn lemma_empty_holds_nothing(node: TopicNode, filter: Seq<Seq<u8>>, client: Seq<char>)
        requires
            node.is_empty(),
        ensures
            !node.holds(filter, client),
    {
    }

    /// The child under the given level.
    fn find_child(&self, key: &Vec<u8>) -> (found: Option<usize>)
        ensures
            match found {
                Some(i) => i < self.children@.len() && self.children@[i as int].key() == key@,
                None => forall|i: int|
                    0 <= i < self.children@.len() ==> (#[trigger] self.children@[i]).key() != key@,
            },
    {
        let mut i: usize = 0;
        while i < self.children.len()
            invariant
                i <= self.children.len(),
                forall|j: int| 0 <= j < i ==> (#[trigger] self.children@[j]).key() != key@,
            decreases self.children.len() - i,
        {
            if same_bytes(&self.children[i].level, key) {
                return Some(i);
            }
            i = i + 1;
        }
        None
    }

    /// Adds the subscription of `client` to the filter whose levels, from
    /// this node on, are those of `levels` from position `depth`.
    fn insert(&mut self, levels: &Vec<Vec<u8>>, depth: usize, client: &String)
        requires
            old(self).wf(),
            depth <= levels@.len(),
        ensures
            final(self).wf(),
            final(self).key() == old(self).key(),
            !final(self).is_empty(),
            forall|f: Seq<Seq<u8>>, c: Seq<char>|
                final(self).holds(f, c) <==> (old(self).holds(f, c) || (f == levels_view(
                    levels@,
                ).skip(depth as int) && c == client@)),
        decreases levels@.len() - depth,
    {
        let ghost target = levels_view(levels@).skip(depth as int);
        if depth == levels.len() {
            let ghost at: int;
            match find_client(&self.subscribers, client) {
                Some(k) => {
                    proof {
                        at = k as int;
                    }
                },
                None => {
                    proof {
                        at = self.subscribers@.len() as int;
                    }
                    self.subscribers.push(client.clone());
                },
            }
            assert(self.subscribers@[at]@ == client@);
            assert(target =~= Seq::<Seq<u8>>::empty());
            assert forall|f: Seq<Seq<u8>>, c: Seq<char>|
                self.holds(f, c) <==> (old(self).holds(f, c) || (f == target && c == client@)) by {
                if f.len() == 0 {
                    assert(f =~= target);
                    if self.holds(f, c) {
                        let k = choose|k: int|
                            0 <= k < self.subscribers@.len() && (#[trigger] self.subscribers@[k])@
                                == c;
                        if k < old(self).subscribers@.len() {
                            assert(old(self).subscribers@[k]@ == c);
                        }
                    }
                    if old(self).holds(f, c) {
                        let k = choose|k: int|
                            0 <= k < old(self).subscribers@.len() && (#[trigger] old(
                                self,
                            ).subscribers@[k])@ == c;
                        assert(self.subscribers@[k]@ == c);
                    }
                    if c == client@ {
                        assert(self.own_subscribers().contains(c));
                    }
                }
            }
            return ;
        }
        let key = &levels[depth];
        let ghost rest = levels_view(levels@).skip(depth as int + 1);
        assert(target.len() > 0 && target[0] == key@ && target.skip(1) =~= rest);
        match self.find_child(key) {
            Some(i) => {
                let ghost before = self.children@[i as int];
                let child = &mut self.children[i];
                child.insert(levels, depth + 1, client);
                let ghost after = self.children@[i as int];
                assert(self.children@ =~= old(self).children@.update(i as int, after));
                assert forall|f: Seq<Seq<u8>>, c: Seq<char>|
                    self.holds(f, c) <==> (old(self).holds(f, c) || (f == target && c
                        == client@)) by {
                    if f.len() > 0 {
                        if self.holds(f, c) {
                            let j = choose|j: int|
                                0 <= j < self.children@.len() && (#[trigger] self.children@[j]).key()
                                    == f[0] && self.children@[j].holds(f.skip(1), c);
                            if j == i {
                                if before.holds(f.skip(1), c) {
                                    assert(old(self).children@[i as int].key() == f[0]);
                                } else {
                                    lemma_same_head_and_tail(f, target);
                                }
                            } else {
                                assert(old(self).children@[j] == self.children@[j]);
                            }
                        }
                        if old(self).holds(f, c) {
                            let j = choose|j: int|
                                0 <= j < old(self).children@.len() && (#[trigger] old(
                                    self,
                                ).children@[j]).key() == f[0] && old(self).children@[j].holds(
                                    f.skip(1),
                                    c,
                                );
                            assert(self.children@[j].key() == f[0]);
                            assert(self.children@[j].holds(f.skip(1), c));
                        }
                        if f == target && c == client@ {
                            assert(self.children@[i as int].key() == f[0]);
                            assert(self.children@[i as int].holds(f.skip(1), c));
                        }
                    }
                }
                assert(self.wf()) by {
                    assert forall|a: int, b: int| 0 <= a < b < self.children@.len() implies (
                    #[trigger] self.children@[a]).key() != (#[trigger] self.children@[b]).key() by {
                        assert(self.children@[a].key() == old(self).children@[a].key());
                        assert(self.children@[b].key() == old(self).children@[b].key());
                    }
                    assert forall|a: int| 0 <= a < self.children@.len() implies (
                    #[trigger] self.children@[a]).wf() && !self.children@[a].is_empty() by {
                        if a != i {
                            assert(self.children@[a] == old(self).children@[a]);
                        }
                    }
                }
            },
            None => {
                let mut child = TopicNode::leaf(key.clone());
                let ghost before = child;
                child.insert(levels, depth + 1, client);
                let ghost after = child;
                self.children.push(child);
                let ghost last = old(self).children@.len() as int;
                assert(self.children@ =~= old(self).children@.push(after));
                assert forall|f: Seq<Seq<u8>>, c: Seq<char>|
                    self.holds(f, c) <==> (old(self).holds(f, c) || (f == target && c
                        == client@)) by {
                    if f.len() > 0 {
                        if self.holds(f, c) {
                            let j = choose|j: int|
                                0 <= j < self.children@.len() && (#[trigger] self.children@[j]).key()
                                    == f[0] && self.children@[j].holds(f.skip(1), c);
                            if j == last {
                                assert(!before.holds(f.skip(1), c));
                                lemma_same_head_and_tail(f, target);
                            } else {
                                assert(old(self).children@[j] == self.children@[j]);
                            }
                        }
                        if old(self).holds(f, c) {
                            let j = choose|j: int|
                                0 <= j < old(self).children@.len() && (#[trigger] old(
                                    self,
                                ).children@[j]).key() == f[0] && old(self).children@[j].holds(
                                    f.skip(1),
                                    c,
                                );
                            assert(self.children@[j] == old(self).children@[j]);
                        }
                        if f == target && c == client@ {
                            assert(self.children@[last].key() == f[0]);
                            assert(self.children@[last].holds(f.skip(1), c));
                        }
                    }
                }
                assert(self.wf()) by {
                    assert forall|a: int, b: int| 0 <= a < b < self.children@.len() implies (
                    #[trigger] self.children@[a]).key() != (#[trigger] self.children@[b]).key() by {
                        assert(self.children@[a] == old(self).children@[a]);
                        if b < last {
                            assert(self.children@[b] == old(self).children@[b]);
                        }
                    }
                    assert forall|a: int| 0 <= a < self.children@.len() implies (
                    #[trigger] self.children@[a]).wf() && !self.children@[a].is_empty() by {
                        if a != last {
                            assert(self.children@[a] == old(self).children@[a]);
                        }
                    }
                }
            },
        }
    }

    /// Whether `after` is `before` without the subscriptions of `client`.
    spec fn purged(before: TopicNode, after: TopicNode, client: Seq<char>) -> bool {
        &&& after.key() == before.key()
        &&& after.wf()
        &&& forall|f: Seq<Seq<u8>>, c: Seq<char>|
            after.holds(f, c) <==> (before.holds(f, c) && c != client)
    }

    /// Takes `client` off the subscribers of this node.
    fn drop_subscriber(&mut self, client: &String)
        requires
            old(self).wf(),
        ensures
            final(self).wf(),
            final(self).key() == old(self).key(),
            final(self).children == old(self).children,
            forall|c: Seq<char>|
                final(self).own_subscribers().contains(c) <==> (old(self).own_subscribers().contains(
                    c,
                ) && c != client@),
            forall|f: Seq<Seq<u8>>, c: Seq<char>|
                f.len() > 0 ==> (final(self).holds(f, c) <==> old(self).holds(f, c)),
    {
        match find_client(&self.subscribers, client) {
            Some(k) => {
                self.subscribers.remove(k);
                assert(self.subscribers@ =~= old(self).subscribers@.remove(k as int));
                assert forall|c: Seq<char>|
                    self.own_subscribers().contains(c) <==> (old(self).own_subscribers().contains(c)
                        && c != client@) by {
                    if self.own_subscribers().contains(c) {
                        let m = choose|m: int|
                            0 <= m < self.subscribers@.len() && (#[trigger] self.subscribers@[m])@
                                == c;
                        let n = if m < k {
                            m
                        } else {
                            m + 1
                        };
                        assert(old(self).subscribers@[n]@ == c);
                    }
                    if old(self).own_subscribers().contains(c) && c != client@ {
                        let n = choose|n: int|
                            0 <= n < old(self).subscribers@.len() && (#[trigger] old(
                                self,
                            ).subscribers@[n])@ == c;
                        let m = if n < k {
                            n
                        } else {
                            n - 1
                        };
                        assert(self.subscribers@[m]@ == c);
                    }
                }
                assert(distinct_clients(self.subscribers@)) by {
                    assert forall|a: int, b: int| 0 <= a < b < self.subscribers@.len() implies (
                    #[trigger] self.subscribers@[a])@ != (#[trigger] self.subscribers@[b])@ by {
                        let a0 = if a < k {
                            a
                        } else {
                            a + 1
                        };
                        let b0 = if b < k {
                            b
                        } else {
                            b + 1
                        };
                        assert(self.subscribers@[a] == old(self).subscribers@[a0]);
                        assert(self.subscribers@[b] == old(self).subscribers@[b0]);
                    }
                }
            },
            None => {},
        }
    }

    /// Removes the subscription of `client` to the filter whose levels,
    /// from this node on, are those of `levels` from position `depth`, and
    /// tells whether the node is left without children and subscribers.
    fn remove(&mut self, levels: &Vec<Vec<u8>>, depth: usize, client: &String) -> (empty: bool)
        requires
            old(self).wf(),
            depth <= levels@.len(),
        ensures
            final(self).wf(),
            final(self).key() == old(self).key(),
            empty == final(self).is_empty(),
            forall|f: Seq<Seq<u8>>, c: Seq<char>|
                final(self).holds(f, c) <==> (old(self).holds(f, c) && !(f == levels_view(
                    levels@,
                ).skip(depth as int) && c == client@)),
        decreases levels@.len() - depth,
    {
        let ghost target = levels_view(levels@).skip(depth as int);
        if depth == levels.len() {
            self.drop_subscriber(client);
            assert(target =~= Seq::<Seq<u8>>::empty());
            assert forall|f: Seq<Seq<u8>>, c: Seq<char>|
                self.holds(f, c) <==> (old(self).holds(f, c) && !(f == target && c
                    == client@)) by {
                if f.len() == 0 {
                    assert(f =~= target);
                }
            }
        } else {
            let key = &levels[depth];
            let ghost rest = levels_view(levels@).skip(depth as int + 1);
            assert(target.len() > 0 && target[0] == key@ && target.skip(1) =~= rest);
            match self.find_child(key) {
                Some(i) => {
                    let ghost before = self.children@[i as int];
                    let child = &mut self.children[i];
                    let child_empty = child.remove(levels, depth + 1, client);
                    let ghost after = self.children@[i as int];
                    let ghost kept = self.children@;
                    assert(kept =~= old(self).children@.update(i as int, after));
                    if child_empty {
                        self.children.remove(i);
                        assert(self.children@ =~= kept.remove(i as int));
                    }
                    assert forall|f: Seq<Seq<u8>>, c: Seq<char>|
                        self.holds(f, c) <==> (old(self).holds(f, c) && !(f == target && c
                            == client@)) by {
                        if f.len() > 0 {
                            if self.holds(f, c) {
                                let j = choose|j: int|
                                    0 <= j < self.children@.len() && (
                                    #[trigger] self.children@[j]).key() == f[0]
                                        && self.children@[j].holds(f.skip(1), c);
                                let j0 = if child_empty && j >= i {
                                    j + 1
                                } else {
                                    j
                                };
                                assert(self.children@[j] == kept[j0]);
                                if j0 == i {
                                    assert(before.holds(f.skip(1), c));
                                    assert(old(self).children@[j0].key() == f[0]);
                                } else {
                                    assert(old(self).children@[j0] == kept[j0]);
                                    if f == target {
                                        assert(old(self).children@[j0].key() == old(
                                            self,
                                        ).children@[i as int].key());
                                    }
                                }
                            }
                            if old(self).holds(f, c) && !(f == target && c == client@) {
                                let j0 = choose|j0: int|
                                    0 <= j0 < old(self).children@.len() && (#[trigger] old(
                                        self,
                                    ).children@[j0]).key() == f[0] && old(
                                        self,
                                    ).children@[j0].holds(f.skip(1), c);
                                if j0 == i {
                                    if f.skip(1) == rest && c == client@ {
                                        lemma_same_head_and_tail(f, target);
                                    }
                                    assert(after.holds(f.skip(1), c));
                                    if child_empty {
                                        Self::lemma_empty_holds_nothing(after, f.skip(1), c);
                                    }
                                    assert(self.children@[i as int].key() == f[0]);
                                } else {
                                    let j = if child_empty && j0 > i {
                                        j0 - 1
                                    } else {
                                        j0
                                    };
                                    assert(self.children@[j] == old(self).children@[j0]);
                                }
                            }
                        }
                    }
                    assert(self.wf()) by {
                        assert forall|a: int, b: int|
                            0 <= a < b < self.children@.len() implies (
                        #[trigger] self.children@[a]).key() != (
                        #[trigger] self.children@[b]).key() by {
                            let a0 = if child_empty && a >= i {
                                a + 1
                            } else {
                                a
                            };
                            let b0 = if child_empty && b >= i {
                                b + 1
                            } else {
                                b
                            };
                            assert(self.children@[a].key() == old(self).children@[a0].key());
                            assert(self.children@[b].key() == old(self).children@[b0].key());
                        }
                        assert forall|a: int| 0 <= a < self.children@.len() implies (
                        #[trigger] self.children@[a]).wf() && !self.children@[a].is_empty() by {
                            let a0 = if child_empty && a >= i {
                                a + 1
                            } else {
                                a
                            };
                            assert(self.children@[a] == kept[a0]);
                            if a0 != i {
                                assert(kept[a0] == old(self).children@[a0]);
                            }
                        }
                    }
                },
                None => {},
            }
        }
        self.children.len() == 0 && self.subscribers.len() == 0
    }

    /// Whether `node` is one of the first `k` of `olds` without the
    /// subscriptions of `client`.
    spec fn drawn_from(olds: Seq<TopicNode>, k: int, node: TopicNode, client: Seq<char>)
        -> bool {
        exists|m: int| 0 <= m < k && #[trigger] Self::purged(olds[m], node, client)
    }

    /// Whether `node` without the subscriptions of `client` is among the
    /// first `i` of `kept`, or held no other subscriptions.
    spec fn kept_or_gone(node: TopicNode, kept: Seq<TopicNode>, i: int, client: Seq<char>)
        -> bool {
        (exists|j: int| 0 <= j < i && #[trigger] Self::purged(node, kept[j], client))
            || Self::only_of(node, client)
    }

    /// Removes every subscription of `client` from the subtree, and tells
    /// whether the node is left without children and subscribers.
    fn remove_client(&mut self, client: &String) -> (empty: bool)
        requires
            old(self).wf(),
        ensures
            Self::purged(*old(self), *final(self), client@),
            empty == final(self).is_empty(),
        decreases *old(self),
    {
        self.drop_subscriber(client);
        let ghost pruned = *self;
        let ghost olds = old(self).children@;
        let mut i: usize = 0;
        let ghost mut k: int = 0;
        while i < self.children.len()
            invariant
                self.level == pruned.level,
                self.subscribers == pruned.subscribers,
                olds == old(self).children@,
                old(self).wf(),
                0 <= i <= self.children@.len(),
                i <= k <= olds.len(),
                self.children@.len() - i == olds.len() - k,
                forall|j: int|
                    i <= j < self.children@.len() ==> #[trigger] self.children@[j] == olds[j - i
                        + k],
                forall|a: int, b: int|
                    0 <= a < b < self.children@.len() ==> (#[trigger] self.children@[a]).key() != (
                    #[trigger] self.children@[b]).key(),
                forall|j: int|
                    0 <= j < i ==> (#[trigger] self.children@[j]).wf()
                        && !self.children@[j].is_empty(),
                forall|j: int|
                    0 <= j < i ==> Self::drawn_from(olds, k, #[trigger] self.children@[j], client@),
                forall|m: int|
                    0 <= m < k ==> Self::kept_or_gone(
                        #[trigger] olds[m],
                        self.children@,
                        i as int,
                        client@,
                    ),
            decreases olds.len() - k,
        {
            let ghost before = self.children@[i as int];
            let ghost entry = self.children@;
            assert(before == olds[k]);
            let child = &mut self.children[i];
            let child_empty = child.remove_client(client);
            let ghost after = self.children@[i as int];
            let ghost kept = self.children@;
            assert(kept =~= entry.update(i as int, after));
            assert(Self::purged(before, after, client@));
            if child_empty {
                self.children.remove(i);
                assert(self.children@ =~= kept.remove(i as int));
                proof {
                    assert(Self::only_of(before, client@)) by {
                        assert forall|f: Seq<Seq<u8>>, c: Seq<char>| before.holds(f, c) implies c
                            == client@ by {
                            Self::lemma_empty_holds_nothing(after, f, c);
                        }
                    }
                    assert forall|j: int| i <= j < self.children@.len() implies
                        #[trigger] self.children@[j] == olds[j - i + (k + 1)] by {
                        assert(self.children@[j] == kept[j + 1]);
                        assert(kept[j + 1] == entry[j + 1]);
                    }
                    assert forall|a: int, b: int| 0 <= a < b < self.children@.len() implies (
                    #[trigger] self.children@[a]).key() != (#[trigger] self.children@[b]).key() by {
                        let a0 = if a >= i {
                            a + 1
                        } else {
                            a
                        };
                        let b0 = if b >= i {
                            b + 1
                        } else {
                            b
                        };
                        assert(self.children@[a] == entry[a0]);
                        assert(self.children@[b] == entry[b0]);
                    }
                    assert forall|j: int| 0 <= j < i implies (#[trigger] self.children@[j]).wf()
                        && !self.children@[j].is_empty() by {
                        assert(self.children@[j] == entry[j]);
                    }
                    assert forall|j: int| 0 <= j < i implies Self::drawn_from(
                        olds,
                        k + 1,
                        #[trigger] self.children@[j],
                        client@,
                    ) by {
                        assert(self.children@[j] == entry[j]);
                        assert(Self::drawn_from(olds, k, entry[j], client@));
                        let m = choose|m: int|
                            0 <= m < k && #[trigger] Self::purged(olds[m], entry[j], client@);
                        assert(Self::purged(olds[m], self.children@[j], client@));
                    }
                    assert forall|m: int| 0 <= m < k + 1 implies Self::kept_or_gone(
                        #[trigger] olds[m],
                        self.children@,
                        i as int,
                        client@,
                    ) by {
                        if m < k {
                            assert(Self::kept_or_gone(olds[m], entry, i as int, client@));
                            if !Self::only_of(olds[m], client@) {
                                let j = choose|j: int|
                                    0 <= j < i && #[trigger] Self::purged(
                                        olds[m],
                                        entry[j],
                                        client@,
                                    );
                                assert(self.children@[j] == entry[j]);
                                assert(Self::purged(olds[m], self.children@[j], client@));
                            }
                        }
                    }
                    k = k + 1;
                }
            } else {
                proof {
                    assert forall|j: int| i + 1 <= j < self.children@.len() implies
                        #[trigger] self.children@[j] == olds[j - (i + 1) + (k + 1)] by {
                        assert(self.children@[j] == entry[j]);
                    }
                    assert forall|a: int, b: int| 0 <= a < b < self.children@.len() implies (
                    #[trigger] self.children@[a]).key() != (#[trigger] self.children@[b]).key() by {
                        assert(self.children@[a].key() == entry[a].key());
                        assert(self.children@[b].key() == entry[b].key());
                    }
                    assert forall|j: int| 0 <= j < i + 1 implies (
                    #[trigger] self.children@[j]).wf() && !self.children@[j].is_empty() by {
                        if j < i {
                            assert(self.children@[j] == entry[j]);
                        }
                    }
                    assert forall|j: int| 0 <= j < i + 1 implies Self::drawn_from(
                        olds,
                        k + 1,
                        #[trigger] self.children@[j],
                        client@,
                    ) by {
                        if j < i {
                            assert(self.children@[j] == entry[j]);
                            assert(Self::drawn_from(olds, k, entry[j], client@));
                            let m = choose|m: int|
                                0 <= m < k && #[trigger] Self::purged(olds[m], entry[j], client@);
                            assert(Self::purged(olds[m], self.children@[j], client@));
                        } else {
                            assert(Self::purged(olds[k], self.children@[j], client@));
                        }
                    }
                    assert forall|m: int| 0 <= m < k + 1 implies Self::kept_or_gone(
                        #[trigger] olds[m],
                        self.children@,
                        i + 1,
                        client@,
                    ) by {
                        if m < k {
                            assert(Self::kept_or_gone(olds[m], entry, i as int, client@));
                            if !Self::only_of(olds[m], client@) {
                                let j = choose|j: int|
                                    0 <= j < i && #[trigger] Self::purged(
                                        olds[m],
                                        entry[j],
                                        client@,
                                    );
                                assert(self.children@[j] == entry[j]);
                                assert(Self::purged(olds[m], self.children@[j], client@));
                            }
                        } else {
                            assert(Self::purged(olds[m], self.children@[i as int], client@));
                        }
                    }
                    k = k + 1;
                }
                i = i + 1;
            }
        }
        proof {
            assert forall|f: Seq<Seq<u8>>, c: Seq<char>|
                self.holds(f, c) <==> (old(self).holds(f, c) && c != client@) by {
                if f.len() > 0 {
                    if self.holds(f, c) {
                        let j = choose|j: int|
                            0 <= j < self.children@.len() && (#[trigger] self.children@[j]).key()
                                == f[0] && self.children@[j].holds(f.skip(1), c);
                        assert(Self::drawn_from(olds, k, self.children@[j], client@));
                        let m = choose|m: int|
                            0 <= m < k && #[trigger] Self::purged(
                                olds[m],
                                self.children@[j],
                                client@,
                            );
                        assert(old(self).children@[m].key() == f[0]);
                        assert(old(self).children@[m].holds(f.skip(1), c));
                    }
                    if old(self).holds(f, c) && c != client@ {
                        let m = choose|m: int|
                            0 <= m < olds.len() && (#[trigger] old(self).children@[m]).key() == f[0]
                                && old(self).children@[m].holds(f.skip(1), c);
                        assert(Self::kept_or_gone(olds[m], self.children@, i as int, client@));
                        assert(!Self::only_of(olds[m], client@));
                        let j = choose|j: int|
                            0 <= j < i && #[trigger] Self::purged(
                                olds[m],
                                self.children@[j],
                                client@,
                            );
                        assert(self.children@[j].key() == f[0]);
                        assert(self.children@[j].holds(f.skip(1), c));
                    }
                } else {
                    assert(self.own_subscribers() == pruned.own_subscribers());
                }
            }
            assert(self.wf());
        }
        self.children.len() == 0 && self.subscribers.len() == 0
    }

    /// Whether the subtree holds subscriptions of `client` alone.
    spec fn only_of(node: TopicNode, client: Seq<char>) -> bool {
        forall|f: Seq<Seq<u8>>, c: Seq<char>| node.holds(f, c) ==> c == client
    }

    /// Whether `client` subscribed to the multi-level wildcard directly
    /// below this node.
    spec fn wildcard_subscriber(&self, client: Seq<char>) -> bool {
        exists|i: int|
            0 <= i < self.children@.len() && (#[trigger] self.children@[i]).key()
                == multi_level_wildcard() && self.children@[i].own_subscribers().contains(client)
    }

    /// Whether the walk along `rest` from a child under the level `key`
    /// reaches `client`.
    spec fn via_child(&self, key: Seq<u8>, rest: Seq<Seq<u8>>, client: Seq<char>) -> bool
        decreases rest.len(), 1nat,
    {
        exists|i: int|
            0 <= i < self.children@.len() && (#[trigger] self.children@[i]).key() == key
                && self.children@[i].matches(rest, client)
    }

    /// Whether walking the tree from this node along `topic` reaches
    /// `client`: at each level through the child of that name and through
    /// the single-level wildcard child, taking in at each node the
    /// subscribers of its multi-level wildcard child, and at the end of the
    /// topic the subscribers of the node reached.
    spec fn matches(&self, topic: Seq<Seq<u8>>, client: Seq<char>) -> bool
        decreases topic.len(), 0nat,
    {
        if topic.len() == 0 {
            self.own_subscribers().contains(client) || self.wildcard_subscriber(client)
        } else {
            ||| self.via_child(topic[0], topic.skip(1), client)
            ||| self.via_child(single_level_wildcard(), topic.skip(1), client)
            ||| self.wildcard_subscriber(client)
        }
    }

    /// The clients that the walk along `topic` reaches.
    spec fn reached(&self, topic: Seq<Seq<u8>>) -> Set<Seq<char>> {
        Set::new(|c: Seq<char>| self.matches(topic, c))
    }

    /// The clients that the walk along `rest` reaches from the child that
    /// `found` names, which is the only child under the level `key`.
    proof fn lemma_via_found_child(
        node: TopicNode,
        key: Seq<u8>,
        rest: Seq<Seq<u8>>,
        found: Option<usize>,
    )
        requires
            node.wf(),
            match found {
                Some(i) => i < node.children@.len() && node.children@[i as int].key() == key,
                None => forall|i: int|
                    0 <= i < node.children@.len() ==> (#[trigger] node.children@[i]).key() != key,
            },
        ensures
            Set::new(|c: Seq<char>| node.via_child(key, rest, c)) == (match found {
                Some(i) => node.children@[i as int].reached(rest),
                None => Set::empty(),
            }),
    {
        let via = Set::new(|c: Seq<char>| node.via_child(key, rest, c));
        match found {
            Some(i) => {
                assert forall|c: Seq<char>| via.contains(c) <==> node.children@[i as int].reached(
                    rest,
                ).contains(c) by {
                    if via.contains(c) {
                        let j = choose|j: int|
                            0 <= j < node.children@.len() && (#[trigger] node.children@[j]).key()
                                == key && node.children@[j].matches(rest, c);
                        assert(j == i);
                    }
                }
                assert(via =~= node.children@[i as int].reached(rest));
            },
            None => {
                assert(via =~= Set::empty());
            },
        }
    }

    /// The clients that subscribed to the multi-level wildcard directly
    /// below a node are the subscribers of the child that `found` names.
    proof fn lemma_wildcard_found_child(node: TopicNode, found: Option<usize>)
        requires
            node.wf(),
            match found {
                Some(i) => i < node.children@.len() && node.children@[i as int].key()
                    == multi_level_wildcard(),
                None => forall|i: int|
                    0 <= i < node.children@.len() ==> (#[trigger] node.children@[i]).key()
                        != multi_level_wildcard(),
            },
        ensures
            Set::new(|c: Seq<char>| node.wildcard_subscriber(c)) == (match found {
                Some(i) => node.children@[i as int].own_subscribers(),
                None => Set::empty(),
            }),
    {
        let wild = Set::new(|c: Seq<char>| node.wildcard_subscriber(c));
        match found {
            Some(i) => {
                assert forall|c: Seq<char>| wild.contains(c) <==> node.children@[i
                    as int].own_subscribers().contains(c) by {
                    if wild.contains(c) {
                        let j = choose|j: int|
                            0 <= j < node.children@.len() && (#[trigger] node.children@[j]).key()
                                == multi_level_wildcard()
                                && node.children@[j].own_subscribers().contains(c);
                        assert(j == i);
                    }
                }
                assert(wild =~= node.children@[i as int].own_subscribers());
            },
            None => {
                assert(wild =~= Set::empty());
            },
        }
    }

    /// Adds to `result` the clients that the walk along the levels of
    /// `levels` from position `depth` reaches from this node.
    fn collect(
        &self,
        levels: &Vec<Vec<u8>>,
        depth: usize,
        plus: &Vec<u8>,
        hash: &Vec<u8>,
        result: &mut Vec<String>,
    )
        requires
            self.wf(),
            depth <= levels@.len(),
            plus@ == single_level_wildcard(),
            hash@ == multi_level_wildcard(),
            distinct_clients(old(result)@),
        ensures
            distinct_clients(final(result)@),
            client_set(final(result)@) == client_set(old(result)@).union(
                self.reached(levels_view(levels@).skip(depth as int)),
            ),
        decreases levels@.len() - depth,
    {
        let ghost target = levels_view(levels@).skip(depth as int);
        let ghost start = client_set(result@);
        let ghost wild = Set::new(|c: Seq<char>| self.wildcard_subscriber(c));
        if depth == levels.len() {
            add_clients(result, &self.subscribers);
            let ghost late = client_set(result@);
            let found_hash = self.find_child(hash);
            match found_hash {
                Some(i) => {
                    add_clients(result, &self.children[i].subscribers);
                },
                None => {},
            }
            proof {
                Self::lemma_wildcard_found_child(*self, found_hash);
                assert(target.len() == 0);
                assert(client_set(result@) =~= late.union(wild));
                assert(self.reached(target) =~= self.own_subscribers().union(wild));
                assert(client_set(result@) =~= start.union(self.reached(target)));
            }
        } else {
            let key = &levels[depth];
            let ghost rest = levels_view(levels@).skip(depth as int + 1);
            assert(target.len() > 0 && target[0] == key@ && target.skip(1) =~= rest);
            let ghost exact = Set::new(|c: Seq<char>| self.via_child(key@, rest, c));
            let ghost single = Set::new(
                |c: Seq<char>| self.via_child(single_level_wildcard(), rest, c),
            );
            let found_exact = self.find_child(key);
            match found_exact {
                Some(i) => {
                    self.children[i].collect(levels, depth + 1, plus, hash, result);
                },
                None => {},
            }
            let ghost early = client_set(result@);
            let found_plus = self.find_child(plus);
            match found_plus {
                Some(i) => {
                    self.children[i].collect(levels, depth + 1, plus, hash, result);
                },
                None => {},
            }
            let ghost middle = client_set(result@);
            let found_hash = self.find_child(hash);
            match found_hash {
                Some(i) => {
                    add_clients(result, &self.children[i].subscribers);
                },
                None => {},
            }
            proof {
                Self::lemma_via_found_child(*self, key@, rest, found_exact);
                Self::lemma_via_found_child(*self, single_level_wildcard(), rest, found_plus);
                Self::lemma_wildcard_found_child(*self, found_hash);
                assert(early =~= start.union(exact));
                assert(middle =~= early.union(single));
                assert(client_set(result@) =~= middle.union(wild));
                assert(self.reached(target) =~= exact.union(single).union(wild));
                assert(client_set(result@) =~= start.union(self.reached(target)));
            }
        }
    }

    /// A client that the walk along `topic` reaches subscribed to a filter
    /// that matches `topic`.
    proof fn lemma_walk_finds_only_matches(node: TopicNode, topic: Seq<Seq<u8>>, client: Seq<char>)
        requires
            node.matches(topic, client),
        ensures
            exists|f: Seq<Seq<u8>>| node.holds(f, client) && filter_matches(f, topic),
        decreases topic.len(),
    {
        if node.wildcard_subscriber(client) {
            let i = choose|i: int|
                0 <= i < node.children@.len() && (#[trigger] node.children@[i]).key()
                    == multi_level_wildcard() && node.children@[i].own_subscribers().contains(
                    client,
                );
            let f = seq![multi_level_wildcard()];
            assert(node.children@[i].holds(f.skip(1), client));
            assert(node.holds(f, client) && filter_matches(f, topic));
        } else if topic.len() == 0 {
            let f = Seq::<Seq<u8>>::empty();
            assert(node.holds(f, client) && filter_matches(f, topic));
        } else {
            let i = if node.via_child(topic[0], topic.skip(1), client) {
                choose|i: int|
                    0 <= i < node.children@.len() && (#[trigger] node.children@[i]).key()
                        == topic[0] && node.children@[i].matches(topic.skip(1), client)
            } else {
                choose|i: int|
                    0 <= i < node.children@.len() && (#[trigger] node.children@[i]).key()
                        == single_level_wildcard() && node.children@[i].matches(
                        topic.skip(1),
                        client,
                    )
            };
            let child = node.children@[i];
            Self::lemma_walk_finds_only_matches(child, topic.skip(1), client);
            let tail = choose|f: Seq<Seq<u8>>|
                child.holds(f, client) && filter_matches(f, topic.skip(1));
            let f = seq![child.key()] + tail;
            assert(f.skip(1) =~= tail);
            assert(f[0] == child.key());
            assert(node.holds(f, client));
            assert(filter_matches(f, topic));
        }
    }

    /// A client that subscribed to a filter that matches `topic` is reached
    /// by the walk along `topic`.
    proof fn lemma_walk_finds_all_matches(
        node: TopicNode,
        filter: Seq<Seq<u8>>,
        topic: Seq<Seq<u8>>,
        client: Seq<char>,
    )
        requires
            node.holds(filter, client),
            filter_matches(filter, topic),
        ensures
            node.matches(topic, client),
        decreases filter.len(),
    {
        if filter.len() == 0 {
        } else {
            let i = choose|i: int|
                0 <= i < node.children@.len() && (#[trigger] node.children@[i]).key() == filter[0]
                    && node.children@[i].holds(filter.skip(1), client);
            let child = node.children@[i];
            if filter.len() == 1 && filter[0] == multi_level_wildcard() {
                assert(node.wildcard_subscriber(client));
            } else {
                Self::lemma_walk_finds_all_matches(child, filter.skip(1), topic.skip(1), client);
                if filter[0] == topic[0] {
                    assert(node.via_child(topic[0], topic.skip(1), client));
                } else {
                    assert(node.via_child(single_level_wildcard(), topic.skip(1), client));
                }
            }
        }
    }

    /// A node with a child or a subscriber holds a subscription.
    proof fn lemma_nonempty_holds_something(node: TopicNode)
        requires
            node.wf(),
            !node.is_empty(),
        ensures
            exists|f: Seq<Seq<u8>>, c: Seq<char>| node.holds(f, c),
        decreases node,
    {
        if node.subscribers@.len() > 0 {
            let c = node.subscribers@[0]@;
            let f = Seq::<Seq<u8>>::empty();
            assert(node.holds(f, c));
        } else {
            let child = node.children@[0];
            Self::lemma_nonempty_holds_something(child);
            let (tail, c) = choose|f: Seq<Seq<u8>>, c: Seq<char>| child.holds(f, c);
            let f = seq![child.key()] + tail;
            assert(f.skip(1) =~= tail);
            assert(f[0] == child.key());
            assert(node.holds(f, c));
        }
    }

    /// A node stands at the end of a non-empty path exactly if the subtree
    /// holds a subscription to a filter that starts with the path.
    proof fn lemma_paths_carry_subscriptions(node: TopicNode, path: Seq<Seq<u8>>)
        requires
            node.wf(),
            path.len() > 0,
        ensures
            node.has_path(path) <==> exists|f: Seq<Seq<u8>>, c: Seq<char>|
                node.holds(f, c) && path.is_prefix_of(f),
        decreases path.len(),
    {
        let tail = path.skip(1);
        if node.has_path(path) {
            let i = choose|i: int|
                0 <= i < node.children@.len() && (#[trigger] node.children@[i]).key() == path[0]
                    && node.children@[i].has_path(tail);
            let child = node.children@[i];
            if tail.len() == 0 {
                Self::lemma_nonempty_holds_something(child);
                let (g, c) = choose|g: Seq<Seq<u8>>, c: Seq<char>| child.holds(g, c);
                let f = seq![path[0]] + g;
                assert(f.skip(1) =~= g);
                assert(node.holds(f, c));
                assert(tail.is_prefix_of(g));
                lemma_prefix_by_levels(path, f);
            } else {
                Self::lemma_paths_carry_subscriptions(child, tail);
                let (g, c) = choose|g: Seq<Seq<u8>>, c: Seq<char>|
                    child.holds(g, c) && tail.is_prefix_of(g);
                let f = seq![path[0]] + g;
                assert(f.skip(1) =~= g);
                assert(node.holds(f, c));
                lemma_prefix_by_levels(path, f);
            }
        }
        if exists|f: Seq<Seq<u8>>, c: Seq<char>| node.holds(f, c) && path.is_prefix_of(f) {
            let (f, c) = choose|f: Seq<Seq<u8>>, c: Seq<char>|
                node.holds(f, c) && path.is_prefix_of(f);
            lemma_prefix_by_levels(path, f);
            let i = choose|i: int|
                0 <= i < node.children@.len() && (#[trigger] node.children@[i]).key() == f[0]
                    && node.children@[i].holds(f.skip(1), c);
            let child = node.children@[i];
            if tail.len() > 0 {
                Self::lemma_paths_carry_subscriptions(child, tail);
            }
            assert(child.has_path(tail));
        }
    }
}

/// The clients of a list with one more name at its end.
pub proof fn lemma_client_set_push(clients: Seq<String>, last: String)
    ensures
        client_set(clients.push(last)) == client_set(clients).insert(last@),
{
    let longer = clients.push(last);
    assert forall|c: Seq<char>| client_set(longer).contains(c) <==> client_set(clients).insert(
        last@,
    ).contains(c) by {
        if client_set(longer).contains(c) {
            let m = choose|m: int| 0 <= m < longer.len() && (#[trigger] longer[m])@ == c;
            if m < clients.len() {
                assert(clients[m]@ == c);
            }
        }
        if client_set(clients).contains(c) {
            let m = choose|m: int| 0 <= m < clients.len() && (#[trigger] clients[m])@ == c;
            assert(longer[m]@ == c);
        }
        if c == last@ {
            assert(longer[clients.len() as int]@ == c);
        }
    }
    assert(client_set(longer) =~= client_set(clients).insert(last@));
}

/// Adds to `result` the clients of `clients` that it does not name yet.
pub fn add_clients(result: &mut Vec<String>, clients: &Vec<String>)
    requires
        distinct_clients(old(result)@),
    ensures
        distinct_clients(final(result)@),
        client_set(final(result)@) == client_set(old(result)@).union(client_set(clients@)),
{
    let mut k: usize = 0;
    assert(client_set(clients@.take(0)) =~= Set::empty());
    assert(client_set(result@) =~= client_set(old(result)@).union(client_set(clients@.take(0))));
    while k < clients.len()
        invariant
            k <= clients.len(),
            distinct_clients(result@),
            client_set(result@) == client_set(old(result)@).union(
                client_set(clients@.take(k as int)),
            ),
        decreases clients.len() - k,
    {
        let ghost before = result@;
        let ghost name = clients@[k as int]@;
        proof {
            assert(clients@.take(k + 1) =~= clients@.take(k as int).push(clients@[k as int]));
            lemma_client_set_push(clients@.take(k as int), clients@[k as int]);
        }
        match find_client(result, &clients[k]) {
            Some(m) => {
                assert(before[m as int]@ == name);
                assert(client_set(before).contains(name));
                assert(client_set(result@) =~= client_set(before).insert(name));
            },
            None => {
                result.push(clients[k].clone());
                let ghost added = result@[before.len() as int];
                assert(result@ =~= before.push(added));
                proof {
                    lemma_client_set_push(before, added);
                }
                assert(distinct_clients(result@)) by {
                    assert forall|a: int, b: int| 0 <= a < b < result@.len() implies (
                    #[trigger] result@[a])@ != (#[trigger] result@[b])@ by {
                        assert(result@[a] == before[a]);
                        if b < before.len() {
                            assert(result@[b] == before[b]);
                        }
                    }
                }
            },
        }
        assert(client_set(result@) =~= client_set(old(result)@).union(
            client_set(clients@.take(k + 1)),
        ));
        k = k + 1;
    }
    assert(clients@.take(clients@.len() as int) =~= clients@);
}

/// The clients that subscribed to a filter that matches `topic`.
pub open spec fn matching_clients(
    subscriptions: Set<(Seq<Seq<u8>>, Seq<char>)>,
    topic: Seq<Seq<u8>>,
) -> Set<Seq<char>> {
    Set::new(
        |c: Seq<char>|
            exists|f: Seq<Seq<u8>>| #[trigger]
                subscriptions.contains((f, c)) && filter_matches(f, topic),
    )
}

/// The subscriptions of a set that are not those of `client`.
pub open spec fn without_client(
    subscriptions: Set<(Seq<Seq<u8>>, Seq<char>)>,
    client: Seq<char>,
) -> Set<(Seq<Seq<u8>>, Seq<char>)> {
    Set::new(|s: (Seq<Seq<u8>>, Seq<char>)| subscriptions.contains(s) && s.1 != client)
}

impl View for TopicService {
    type V = Set<(Seq<Seq<u8>>, Seq<char>)>;

    /// The subscriptions that the tree holds, each the levels of a filter
    /// and a client.
    closed spec fn view(&self) -> Set<(Seq<Seq<u8>>, Seq<char>)> {
        Set::new(|s: (Seq<Seq<u8>>, Seq<char>)| self.root.holds(s.0, s.1))
    }
}

impl TopicService {
    /// The invariant of the tree.
    pub closed spec fn wf(&self) -> bool {
        self.root.wf()
    }

    /// Whether the tree has a node at the end of `path` from the root. The
    /// root stands at the end of the empty path.
    pub closed spec fn has_node(&self, path: Seq<Seq<u8>>) -> bool {
        self.root.has_path(path)
    }

    /// A tree without subscriptions.
    pub fn new() -> (service: Self)
        ensures
            service.wf(),
            service@ == Set::<(Seq<Seq<u8>>, Seq<char>)>::empty(),
    {
        let service = TopicService { root: TopicNode::leaf(Vec::new()) };
        assert(service@ =~= Set::<(Seq<Seq<u8>>, Seq<char>)>::empty());
        service
    }

    /// Subscribes `client_id` to the filter `topic`. Subscribing again
    /// changes nothing.
    pub fn subscribe(&mut self, topic: &str, client_id: &str)
        requires
            old(self).wf(),
        ensures
            final(self).wf(),
            final(self)@ == old(self)@.insert((topic_levels(topic@), client_id@)),
    {
        let levels = split_topic(topic);
        let client = client_id.to_owned();
        assert(levels_view(levels@).skip(0) =~= topic_levels(topic@));
        self.root.insert(&levels, 0, &client);
        assert(self@ =~= old(self)@.insert((topic_levels(topic@), client_id@)));
    }

    /// Drops the subscription of `client_id` to the filter `topic`, and
    /// with it every node that is left without children and subscribers.
    pub fn unsubscribe(&mut self, topic: &str, client_id: &str)
        requires
            old(self).wf(),
        ensures
            final(self).wf(),
            final(self)@ == old(self)@.remove((topic_levels(topic@), client_id@)),
    {
        let levels = split_topic(topic);
        let client = client_id.to_owned();
        assert(levels_view(levels@).skip(0) =~= topic_levels(topic@));
        let _ = self.root.remove(&levels, 0, &client);
        assert(self@ =~= old(self)@.remove((topic_levels(topic@), client_id@)));
    }

    /// The clients that subscribed to a filter that matches `topic`, each
    /// once, in no particular order.
    pub fn match_subscribers(&self, topic: &str) -> (clients: Vec<String>)
        requires
            self.wf(),
        ensures
            distinct_clients(clients@),
            client_set(clients@) == matching_clients(self@, topic_levels(topic@)),
    {
        let levels = split_topic(topic);
        let mut plus: Vec<u8> = Vec::new();
        plus.push(0x2Bu8);
        let mut hash: Vec<u8> = Vec::new();
        hash.push(0x23u8);
        assert(plus@ =~= single_level_wildcard());
        assert(hash@ =~= multi_level_wildcard());
        let mut clients: Vec<String> = Vec::new();
        assert(client_set(clients@) =~= Set::empty());
        assert(levels_view(levels@).skip(0) =~= topic_levels(topic@));
        self.root.collect(&levels, 0, &plus, &hash, &mut clients);
        proof {
            let t = topic_levels(topic@);
            assert forall|c: Seq<char>| self.root.reached(t).contains(c) <==> matching_clients(
                self@,
                t,
            ).contains(c) by {
                if self.root.matches(t, c) {
                    TopicNode::lemma_walk_finds_only_matches(self.root, t, c);
                    let f = choose|f: Seq<Seq<u8>>| self.root.holds(f, c) && filter_matches(f, t);
                    assert(self@.contains((f, c)));
                }
                if matching_clients(self@, t).contains(c) {
                    let f = choose|f: Seq<Seq<u8>>| #[trigger]
                        self@.contains((f, c)) && filter_matches(f, t);
                    TopicNode::lemma_walk_finds_all_matches(self.root, f, t, c);
                }
            }
            assert(client_set(clients@) =~= matching_clients(self@, t));
        }
        clients
    }

    /// Drops every subscription of `client_id`, and with them every node
    /// that is left without children and subscribers.
    pub fn remove_client(&mut self, client_id: &str)
        requires
            old(self).wf(),
        ensures
            final(self).wf(),
            final(self)@ == without_client(old(self)@, client_id@),
    {
        let client = client_id.to_owned();
        let _ = self.root.remove_client(&client);
        assert(self@ =~= without_client(old(self)@, client_id@));
    }

    /// Whether the tree has a node at the end of the path that `path`
    /// spells, level by level.
    pub fn contains_node(&self, path: &str) -> (found: bool)
        ensures
            found == self.has_node(topic_levels(path@)),
    {
        let levels = split_topic(path);
        assert(levels_view(levels@).skip(0) =~= topic_levels(path@));
        self.root.reaches(&levels, 0)
    }

    /// Whether the tree holds no subscription.
    pub fn is_empty(&self) -> (empty: bool)
        requires
            self.wf(),
        ensures
            empty == (self@ == Set::<(Seq<Seq<u8>>, Seq<char>)>::empty()),
    {
        let empty = self.root.children.len() == 0 && self.root.subscribers.len() == 0;
        proof {
            if empty {
                assert forall|s: (Seq<Seq<u8>>, Seq<char>)| !self@.contains(s) by {
                    TopicNode::lemma_empty_holds_nothing(self.root, s.0, s.1);
                }
                assert(self@ =~= Set::<(Seq<Seq<u8>>, Seq<char>)>::empty());
            } else {
                TopicNode::lemma_nonempty_holds_something(self.root);
                let (f, c) = choose|f: Seq<Seq<u8>>, c: Seq<char>| self.root.holds(f, c);
                assert(self@.contains((f, c)));
            }
        }
        empty
    }

    /// No node stands without a subscription at or below it: the tree has a
    /// node at the end of a non-empty path exactly if it holds a
    /// subscription to a filter that starts with the path.
    pub proof fn lemma_nodes_carry_subscriptions(self, path: Seq<Seq<u8>>)
        requires
            self.wf(),
            path.len() > 0,
        ensures
            self.has_node(path) <==> exists|f: Seq<Seq<u8>>, c: Seq<char>| #[trigger]
                self@.contains((f, c)) && path.is_prefix_of(f),
    {
        TopicNode::lemma_paths_carry_subscriptions(self.root, path);
        if self.has_node(path) {
            let (f, c) = choose|f: Seq<Seq<u8>>, c: Seq<char>|
                self.root.holds(f, c) && path.is_prefix_of(f);
            assert(self@.contains((f, c)) && path.is_prefix_of(f));
        }
        if exists|f: Seq<Seq<u8>>, c: Seq<char>| #[trigger]
            self@.contains((f, c)) && path.is_prefix_of(f) {
            let (f, c) = choose|f: Seq<Seq<u8>>, c: Seq<char>| #[trigger]
                self@.contains((f, c)) && path.is_prefix_of(f);
            assert(self.root.holds(f, c) && path.is_prefix_of(f));
        }
    }

    /// Two trees that hold the same subscriptions have their nodes at the
    /// same paths.
    pub proof fn lemma_same_subscriptions_same_nodes(self, other: TopicService, path: Seq<Seq<u8>>)
        requires
            self.wf(),
            other.wf(),
            self@ == other@,
        ensures
            self.has_node(path) == other.has_node(path),
    {
        if path.len() > 0 {
            self.lemma_nodes_carry_subscriptions(path);
            other.lemma_nodes_carry_subscriptions(path);
        }
    }

    /// Subscribing a client to a filter that it had not subscribed to and
    /// then unsubscribing it leaves the subscriptions as they were, and no
    /// node behind that was not there before: every node that the
    /// subscription brought is pruned, every other one stays.
    pub proof fn lemma_unsubscribe_prunes(
        before: TopicService,
        subscribed: TopicService,
        after: TopicService,
        filter: Seq<Seq<u8>>,
        client: Seq<char>,
        path: Seq<Seq<u8>>,
    )
        requires
            before.wf(),
            subscribed.wf(),
            after.wf(),
            !before@.contains((filter, client)),
            subscribed@ == before@.insert((filter, client)),
            after@ == subscribed@.remove((filter, client)),
        ensures
            after@ == before@,
            after.has_node(path) == before.has_node(path),
    {
        assert(after@ =~= before@);
        after.lemma_same_subscriptions_same_nodes(before, path);
    }
}

impl TopicNode {
    /// Whether a node stands at the end of the path whose levels are those
    /// of `levels` from position `depth`.
    fn reaches(&self, levels: &Vec<Vec<u8>>, depth: usize) -> (found: bool)
        requires
            depth <= levels@.len(),
        ensures
            found == self.has_path(levels_view(levels@).skip(depth as int)),
        decreases levels@.len() - depth,
    {
        let ghost target = levels_view(levels@).skip(depth as int);
        if depth == levels.len() {
            return true;
        }
        let key = &levels[depth];
        let ghost rest = levels_view(levels@).skip(depth as int + 1);
        assert(target.len() > 0 && target[0] == key@ && target.skip(1) =~= rest);
        let mut i: usize = 0;
        while i < self.children.len()
            invariant
                i <= self.children.len(),
                depth < levels@.len(),
                levels@.len() <= usize::MAX,
                target == levels_view(levels@).skip(depth as int),
                target.len() > 0,
                key@ == target[0],
                rest == target.skip(1),
                rest == levels_view(levels@).skip(depth as int + 1),
                forall|j: int|
                    0 <= j < i ==> !((#[trigger] self.children@[j]).key() == target[0]
                        && self.children@[j].has_path(rest)),
            decreases self.children.len() - i,
        {
            if same_bytes(&self.children[i].level, key) {
                if self.children[i].reaches(levels, depth + 1) {
                    return true;
                }
            }
            i = i + 1;
        }
        false
    }
}

impl Default for TopicService {
    fn default() -> (service: Self)
        ensures
            service.wf(),
            service@ == Set::<(Seq<Seq<u8>>, Seq<char>)>::empty(),
    {
        TopicService::new()
    }
}

} // verus!
