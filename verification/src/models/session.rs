//! A session: one connected client, its subscriptions and its mailbox.

use crate::enums::mailbox::MqttChannel;
use crate::protocol::packets::{
    clone_opt_string,
    opt_string_view,
    SubscribeModel,
    SubscribePacket,
};
use crate::utils::clock::current_timestamp;
use tokio::sync::mpsc::Sender;
use vstd::prelude::*;

verus! {

/// `tokio::sync::mpsc::Sender`, as a type whose values are opaque: a sender
/// is carried along and handed to the two functions below, and nothing is
/// known of the channel behind it.
#[verifier::external_type_specification]
#[verifier::external_body]
#[verifier::reject_recursive_types(T)]
pub struct ExSender<T>(tokio::sync::mpsc::Sender<T>);

/// `Sender::clone`: another handle to the same channel. The two handles are
/// taken to be the same sender: what is sent through either arrives at the
/// one receiver.
#[verifier::external_body]
pub(crate) fn clone_mailbox(tx: &Sender<MqttChannel>) -> (copy: Sender<MqttChannel>)
    ensures
        copy == *tx,
{
    tx.clone()
}

/// `Sender::try_send`: puts the message into the channel if the channel is
/// open and has room, without waiting, and tells whether it did. Nothing is
/// claimed of the answer: it depends on what the receiving side has done.
#[verifier::external_body]
pub(crate) fn try_deliver(tx: &Sender<MqttChannel>, message: MqttChannel) -> (accepted: bool) {
    tx.try_send(message).is_ok()
}

/// One connected client.
pub struct Session {
    pub client_id: String,
    /// The user name that the client gave, if it gave one.
    pub username: Option<String>,
    pub clean_session: bool,
    pub connected_port: u16,
    /// Seconds since the Unix epoch at which the session was made.
    pub connected_at: i64,
    /// The subscriptions, no topic filter twice.
    pub subscriptions: Vec<SubscribePacket>,
    pub tx: Sender<MqttChannel>,
}

/// What a `Session` holds.
pub struct SessionModel {
    pub client_id: Seq<char>,
    pub username: Option<Seq<char>>,
    pub clean_session: bool,
    pub connected_port: u16,
    pub connected_at: i64,
    /// The subscriptions, each under its topic filter.
    pub subscriptions: Map<Seq<char>, SubscribeModel>,
    /// The sending side of the mailbox.
    pub tx: Sender<MqttChannel>,
}

/// Whether no topic filter stands twice in a list of subscriptions.
pub open spec fn distinct_topics(subs: Seq<SubscribePacket>) -> bool {
    forall|i: int, j: int|
        0 <= i < j < subs.len() ==> (#[trigger] subs[i]).topic@ != (#[trigger] subs[j]).topic@
}

/// Whether a list of subscriptions holds one to the filter `topic`.
pub open spec fn has_topic(subs: Seq<SubscribePacket>, topic: Seq<char>) -> bool {
    exists|i: int| 0 <= i < subs.len() && (#[trigger] subs[i]).topic@ == topic
}

/// The place of the subscription to the filter `topic` in a list.
pub open spec fn topic_index(subs: Seq<SubscribePacket>, topic: Seq<char>) -> int {
    choose|i: int| 0 <= i < subs.len() && (#[trigger] subs[i]).topic@ == topic
}

/// A list of subscriptions as a map from topic filter to subscription.
pub open spec fn subscription_map(subs: Seq<SubscribePacket>) -> Map<Seq<char>, SubscribeModel> {
    Map::new(|t: Seq<char>| has_topic(subs, t), |t: Seq<char>| subs[topic_index(subs, t)]@)
}

/// In a list without repeated filters, the subscription at a place is the
/// one that the map holds under its filter.
pub proof fn lemma_subscription_at(subs: Seq<SubscribePacket>, i: int)
    requires
        distinct_topics(subs),
        0 <= i < subs.len(),
    ensures
        subscription_map(subs).dom().contains(subs[i].topic@),
        subscription_map(subs)[subs[i].topic@] == subs[i]@,
{
    let t = subs[i].topic@;
    assert(has_topic(subs, t));
    let k = topic_index(subs, t);
    assert(0 <= k < subs.len() && subs[k].topic@ == t);
    if k != i {
        if k < i {
            assert(subs[k].topic@ != subs[i].topic@);
        } else {
            assert(subs[i].topic@ != subs[k].topic@);
        }
    }
}

impl View for Session {
    type V = SessionModel;

    open spec fn view(&self) -> SessionModel {
        SessionModel {
            client_id: self.client_id@,
            username: opt_string_view(self.username),
            clean_session: self.clean_session,
            connected_port: self.connected_port,
            connected_at: self.connected_at,
            subscriptions: subscription_map(self.subscriptions@),
            tx: self.tx,
        }
    }
}

impl Session {
    /// The invariant of a session: no topic filter twice among its
    /// subscriptions.
    pub open spec fn wf(&self) -> bool {
        distinct_topics(self.subscriptions@)
    }

    /// A session without subscriptions, made at the time `now`.
    pub fn new_at(
        client_id: String,
        username: Option<String>,
        clean_session: bool,
        connected_port: u16,
        tx: Sender<MqttChannel>,
        now: i64,
    ) -> (session: Self)
        ensures
            session.wf(),
            session@ == (SessionModel {
                client_id: client_id@,
                username: opt_string_view(username),
                clean_session,
                connected_port,
                connected_at: now,
                subscriptions: Map::empty(),
                tx,
            }),
    {
        let session = Session {
            client_id,
            username,
            clean_session,
            connected_port,
            connected_at: now,
            subscriptions: Vec::new(),
            tx,
        };
        assert(session@.subscriptions =~= Map::empty());
        session
    }

    /// A session without subscriptions, made now.
    pub fn new(
        client_id: String,
        username: Option<String>,
        clean_session: bool,
        connected_port: u16,
        tx: Sender<MqttChannel>,
    ) -> (session: Self)
        ensures
            session.wf(),
            session@ == (SessionModel {
                client_id: client_id@,
                username: opt_string_view(username),
                clean_session,
                connected_port,
                connected_at: session@.connected_at,
                subscriptions: Map::empty(),
                tx,
            }),
    {
        Self::new_at(client_id, username, clean_session, connected_port, tx, current_timestamp())
    }

    /// The place of the subscription to the filter `topic`.
    fn find_subscription(&self, topic: &String) -> (found: Option<usize>)
        ensures
            match found {
                Some(i) => i < self.subscriptions@.len() && self.subscriptions@[i as int].topic@
                    == topic@,
                None => !has_topic(self.subscriptions@, topic@),
            },
    {
        let mut i: usize = 0;
        while i < self.subscriptions.len()
            invariant
                i <= self.subscriptions.len(),
                forall|j: int| 0 <= j < i ==> (#[trigger] self.subscriptions@[j]).topic@ != topic@,
            decreases self.subscriptions.len() - i,
        {
            if self.subscriptions[i].topic == *topic {
                return Some(i);
            }
            i = i + 1;
        }
        None
    }

    /// Records a subscription under its topic filter, in place of an
    /// earlier one to the same filter.
    pub fn add_subscription(&mut self, sub: SubscribePacket)
        requires
            old(self).wf(),
        ensures
            final(self).wf(),
            final(self)@ == (SessionModel {
                subscriptions: old(self)@.subscriptions.insert(sub.topic@, sub@),
                ..old(self)@
            }),
    {
        let ghost before = self.subscriptions@;
        let ghost at: int;
        match self.find_subscription(&sub.topic) {
            Some(i) => {
                self.subscriptions[i] = sub;
                proof {
                    at = i as int;
                }
            },
            None => {
                self.subscriptions.push(sub);
                proof {
                    at = before.len() as int;
                }
            },
        }
        let ghost after = self.subscriptions@;
        proof {
            assert(after[at] == sub);
            assert forall|j: int| 0 <= j < after.len() && j != at implies after[j] == before[j] by {}
            assert(distinct_topics(after)) by {
                assert forall|i: int, j: int| 0 <= i < j < after.len() implies (
                #[trigger] after[i]).topic@ != (#[trigger] after[j]).topic@ by {
                    if i != at && j != at {
                        assert(before[i].topic@ != before[j].topic@);
                    } else if i == at {
                        assert(after[j] == before[j]);
                        assert(has_topic(before, before[j].topic@));
                        if at < before.len() {
                            assert(before[at].topic@ != before[j].topic@);
                        }
                    } else {
                        assert(after[i] == before[i]);
                        assert(has_topic(before, before[i].topic@));
                        if at < before.len() {
                            assert(before[i].topic@ != before[at].topic@);
                        }
                    }
                }
            }
            let wanted = subscription_map(before).insert(sub.topic@, sub@);
            assert forall|t: Seq<char>| subscription_map(after).dom().contains(t)
                <==> wanted.dom().contains(t) by {
                if has_topic(after, t) {
                    let j = topic_index(after, t);
                    if j != at {
                        assert(before[j].topic@ == t);
                    }
                }
                if has_topic(before, t) {
                    let j = topic_index(before, t);
                    if j != at {
                        assert(after[j].topic@ == t);
                    } else {
                        assert(after[at].topic@ == t);
                    }
                }
                if t == sub.topic@ {
                    assert(after[at].topic@ == t);
                }
            }
            assert forall|t: Seq<char>| subscription_map(after).dom().contains(t) implies
                subscription_map(after)[t] == wanted[t] by {
                let j = topic_index(after, t);
                lemma_subscription_at(after, j);
                if j != at {
                    assert(before[j].topic@ == t);
                    lemma_subscription_at(before, j);
                }
            }
            assert(subscription_map(after) =~= wanted);
        }
    }

    /// Forgets the subscription to the filter `topic`, if there is one.
    pub fn remove_subscription(&mut self, topic: &str)
        requires
            old(self).wf(),
        ensures
            final(self).wf(),
            final(self)@ == (SessionModel {
                subscriptions: old(self)@.subscriptions.remove(topic@),
                ..old(self)@
            }),
    {
        let ghost before = self.subscriptions@;
        let key = topic.to_owned();
        match self.find_subscription(&key) {
            Some(i) => {
                self.subscriptions.remove(i);
                let ghost after = self.subscriptions@;
                proof {
                    assert(after =~= before.remove(i as int));
                    assert(distinct_topics(after)) by {
                        assert forall|a: int, b: int| 0 <= a < b < after.len() implies (
                        #[trigger] after[a]).topic@ != (#[trigger] after[b]).topic@ by {
                            let a0 = if a < i {
                                a
                            } else {
                                a + 1
                            };
                            let b0 = if b < i {
                                b
                            } else {
                                b + 1
                            };
                            assert(after[a] == before[a0]);
                            assert(after[b] == before[b0]);
                        }
                    }
                    let wanted = subscription_map(before).remove(topic@);
                    assert forall|t: Seq<char>| subscription_map(after).dom().contains(t)
                        <==> wanted.dom().contains(t) by {
                        if has_topic(after, t) {
                            let j = topic_index(after, t);
                            let j0 = if j < i {
                                j
                            } else {
                                j + 1
                            };
                            assert(before[j0].topic@ == t);
                            if j0 < i {
                                assert(before[j0].topic@ != before[i as int].topic@);
                            } else {
                                assert(before[i as int].topic@ != before[j0].topic@);
                            }
                        }
                        if has_topic(before, t) && t != topic@ {
                            let j0 = topic_index(before, t);
                            let j = if j0 < i {
                                j0
                            } else {
                                j0 - 1
                            };
                            assert(after[j].topic@ == t);
                        }
                    }
                    assert forall|t: Seq<char>| subscription_map(after).dom().contains(t) implies
                        subscription_map(after)[t] == wanted[t] by {
                        let j = topic_index(after, t);
                        let j0 = if j < i {
                            j
                        } else {
                            j + 1
                        };
                        lemma_subscription_at(after, j);
                        assert(after[j] == before[j0]);
                        lemma_subscription_at(before, j0);
                    }
                    assert(subscription_map(after) =~= wanted);
                }
            },
            None => {
                assert(subscription_map(before) =~= subscription_map(before).remove(topic@));
            },
        }
    }
}

impl Clone for Session {
    fn clone(&self) -> (copy: Self)
        ensures
            self.wf() ==> copy.wf() && copy@ == self@,
    {
        let mut subscriptions: Vec<SubscribePacket> = Vec::new();
        let mut i: usize = 0;
        while i < self.subscriptions.len()
            invariant
                i <= self.subscriptions.len(),
                subscriptions@.len() == i,
                forall|j: int| 0 <= j < i ==> (#[trigger] subscriptions@[j])@ == self.subscriptions@[j]@,
            decreases self.subscriptions.len() - i,
        {
            subscriptions.push(self.subscriptions[i].clone());
            i = i + 1;
        }
        let copy = Session {
            client_id: self.client_id.clone(),
            username: clone_opt_string(&self.username),
            clean_session: self.clean_session,
            connected_port: self.connected_port,
            connected_at: self.connected_at,
            subscriptions,
            tx: clone_mailbox(&self.tx),
        };
        proof {
            let a = self.subscriptions@;
            let b = copy.subscriptions@;
            assert forall|j: int| 0 <= j < a.len() implies (#[trigger] b[j]).topic@ == a[j].topic@ by {
                assert(b[j]@ == a[j]@);
            }
            assert forall|t: Seq<char>| has_topic(a, t) <==> has_topic(b, t) by {
                if has_topic(a, t) {
                    let j = topic_index(a, t);
                    assert(b[j].topic@ == t);
                }
                if has_topic(b, t) {
                    let j = topic_index(b, t);
                    assert(a[j].topic@ == t);
                }
            }
            if self.wf() {
                assert(distinct_topics(b)) by {
                    assert forall|i: int, j: int| 0 <= i < j < b.len() implies (
                    #[trigger] b[i]).topic@ != (#[trigger] b[j]).topic@ by {
                        assert(a[i].topic@ != a[j].topic@);
                    }
                }
                assert forall|t: Seq<char>| has_topic(a, t) implies subscription_map(a)[t]
                    == subscription_map(b)[t] by {
                    let ja = topic_index(a, t);
                    assert(b[ja].topic@ == t);
                    lemma_subscription_at(a, ja);
                    lemma_subscription_at(b, ja);
                }
                assert(subscription_map(a) =~= subscription_map(b));
            }
        }
        copy
    }
}

} // verus!
