//! The state of the broker and the commands that change it.

use crate::engine::commands::{ConnectCommand, PubSubCommand};
use crate::enums::mailbox::MqttChannel;
use crate::models::pagination::{page_count, Page};
use crate::models::session::{try_deliver, Session, SessionModel};
use crate::protocol::packets::{
    opt_string_view,
    ConnectPacket,
    PublishPacket,
    SubscribePacket,
    UnsubscribePacket,
};
use crate::services::client_service::{lists_sessions_of, session_clients, ClientService};
use crate::services::topic_levels::{
    filter_matches,
    lemma_topic_levels_injective,
    topic_levels,
};
use crate::services::topic_service::{
    client_set,
    distinct_clients,
    matching_clients,
    without_client,
    TopicService,
};
use crate::utils::clock::current_timestamp;
use tokio::sync::mpsc::Sender;
use vstd::prelude::*;

verus! {

/// The state of the broker: the session registry and the topic tree.
pub struct Engine {
    client_service: ClientService,
    topic_service: TopicService,
}

/// A session that a reconnect put out of the registry.
pub struct Eviction {
    /// The session as it was.
    pub session: Session,
    /// Whether the order to close was put into its mailbox. Where it was
    /// not, the mailbox was full or closed.
    pub signalled: bool,
}

/// One offer of a publish to a client's mailbox.
pub struct Delivery {
    pub client_id: String,
    /// Whether the mailbox took the message.
    pub accepted: bool,
}

/// The clients that a list of offers names.
pub open spec fn offered_clients(offers: Seq<Delivery>) -> Set<Seq<char>> {
    Set::new(
        |c: Seq<char>|
            exists|i: int| 0 <= i < offers.len() && (#[trigger] offers[i]).client_id@ == c,
    )
}

/// Whether no client stands twice in a list of offers.
pub open spec fn distinct_offers(offers: Seq<Delivery>) -> bool {
    forall|i: int, j: int|
        0 <= i < j < offers.len() ==> (#[trigger] offers[i]).client_id@ != (
        #[trigger] offers[j]).client_id@
}

/// Whether the tree holds exactly the subscriptions that the sessions
/// record: a subscription is in both places or in neither.
pub open spec fn in_step(
    sessions: Map<Seq<char>, SessionModel>,
    subscriptions: Set<(Seq<Seq<u8>>, Seq<char>)>,
) -> bool {
    forall|levels: Seq<Seq<u8>>, client: Seq<char>| #[trigger]
        subscriptions.contains((levels, client)) <==> recorded(sessions, levels, client)
}

/// Whether the session of `client` records a subscription to a filter with
/// the given levels.
pub open spec fn recorded(
    sessions: Map<Seq<char>, SessionModel>,
    levels: Seq<Seq<u8>>,
    client: Seq<char>,
) -> bool {
    sessions.dom().contains(client) && exists|topic: Seq<char>| #[trigger]
        sessions[client].subscriptions.dom().contains(topic) && topic_levels(topic) == levels
}

/// The session that a Connect packet asks for, made at `connected_at`.
pub open spec fn fresh_session(
    packet: ConnectPacket,
    connected_port: u16,
    tx: Sender<MqttChannel>,
    connected_at: i64,
) -> SessionModel {
    SessionModel {
        client_id: packet.client_id@,
        username: opt_string_view(packet.username),
        clean_session: packet.clean_session,
        connected_port,
        connected_at,
        subscriptions: Map::empty(),
        tx,
    }
}

impl Engine {
    /// The sessions, each under the identifier of its client.
    pub closed spec fn sessions(&self) -> Map<Seq<char>, SessionModel> {
        self.client_service@
    }

    /// The subscriptions, each the levels of a filter and a client.
    pub closed spec fn subscriptions(&self) -> Set<(Seq<Seq<u8>>, Seq<char>)> {
        self.topic_service@
    }

    /// The invariant of the engine: both parts meet their own, and the
    /// tree holds exactly the subscriptions that the sessions record.
    pub closed spec fn wf(&self) -> bool {
        &&& self.client_service.wf()
        &&& self.topic_service.wf()
        &&& in_step(self.client_service@, self.topic_service@)
    }

    /// In an engine that meets its invariant, a subscription is in the
    /// tree exactly if the session of its client records it, and a session
    /// stands under the identifier that it holds.
    pub proof fn lemma_in_step(self)
        requires
            self.wf(),
        ensures
            in_step(self.sessions(), self.subscriptions()),
            forall|c: Seq<char>| #[trigger]
                self.sessions().dom().contains(c) ==> self.sessions()[c].client_id == c,
    {
        assert forall|c: Seq<char>| #[trigger]
            self.sessions().dom().contains(c) implies self.sessions()[c].client_id == c by {
            self.client_service.lemma_keyed_by_client_id(c);
        }
    }

    /// An engine without sessions and subscriptions.
    pub fn new() -> (engine: Self)
        ensures
            engine.wf(),
            engine.sessions() == Map::<Seq<char>, SessionModel>::empty(),
            engine.subscriptions() == Set::<(Seq<Seq<u8>>, Seq<char>)>::empty(),
    {
        Engine { client_service: ClientService::new(), topic_service: TopicService::new() }
    }

    /// Registers the client of a Connect packet with a session made at the
    /// time `now`. A session that the client had is put out: it leaves the
    /// registry, its subscriptions leave the tree, the order to close goes
    /// into its mailbox if the mailbox takes it, and the session is handed
    /// back.
    pub fn connect_at(
        &mut self,
        packet: &ConnectPacket,
        connected_port: u16,
        tx: Sender<MqttChannel>,
        now: i64,
    ) -> (evicted: Option<Eviction>)
        requires
            old(self).wf(),
        ensures
            final(self).wf(),
            final(self).sessions() == old(self).sessions().insert(
                packet.client_id@,
                fresh_session(*packet, connected_port, tx, now),
            ),
            final(self).subscriptions() == without_client(
                old(self).subscriptions(),
                packet.client_id@,
            ),
            match evicted {
                Some(eviction) => old(self).sessions().dom().contains(packet.client_id@)
                    && eviction.session@ == old(self).sessions()[packet.client_id@],
                None => !old(self).sessions().dom().contains(packet.client_id@),
            },
    {
        let previous = self.client_service.remove_client(packet.client_id.as_str());
        let evicted = match previous {
            Some(session) => {
                self.topic_service.remove_client(session.client_id.as_str());
                proof {
                    old(self).client_service.lemma_keyed_by_client_id(packet.client_id@);
                }
                let signalled = try_deliver(&session.tx, MqttChannel::Disconnect);
                Some(Eviction { session, signalled })
            },
            None => {
                assert(self.topic_service@ =~= without_client(
                    old(self).topic_service@,
                    packet.client_id@,
                )) by {
                    assert forall|s: (Seq<Seq<u8>>, Seq<char>)|
                        old(self).topic_service@.contains(s) implies s.1 != packet.client_id@ by {
                        assert(old(self).topic_service@.contains((s.0, s.1)));
                        assert(recorded(old(self).client_service@, s.0, s.1));
                    }
                }
                None
            },
        };
        let ghost emptied = self.client_service@;
        let _ = self.client_service.add_client_at(packet, connected_port, tx, now);
        proof {
            let id = packet.client_id@;
            assert(self.client_service@ =~= old(self).client_service@.insert(
                id,
                fresh_session(*packet, connected_port, tx, now),
            ));
            assert forall|levels: Seq<Seq<u8>>, client: Seq<char>| #[trigger]
                self.topic_service@.contains((levels, client)) <==> recorded(
                    self.client_service@,
                    levels,
                    client,
                ) by {
                assert(old(self).topic_service@.contains((levels, client)) <==> recorded(
                    old(self).client_service@,
                    levels,
                    client,
                ));
                if client != id {
                    assert(self.client_service@.dom().contains(client) == old(
                        self,
                    ).client_service@.dom().contains(client));
                    if self.client_service@.dom().contains(client) {
                        assert(self.client_service@[client] == old(self).client_service@[client]);
                    }
                }
            }
        }
        evicted
    }

    /// Registers the client of a Connect packet with a session made now,
    /// and puts out a session that the client had, as `connect_at` does.
    pub fn connect(&mut self, packet: &ConnectPacket, connected_port: u16, tx: Sender<MqttChannel>)
        -> (evicted: Option<Eviction>)
        requires
            old(self).wf(),
        ensures
            final(self).wf(),
            final(self).sessions().dom().contains(packet.client_id@),
            final(self).sessions() == old(self).sessions().insert(
                packet.client_id@,
                fresh_session(
                    *packet,
                    connected_port,
                    tx,
                    final(self).sessions()[packet.client_id@].connected_at,
                ),
            ),
            final(self).subscriptions() == without_client(
                old(self).subscriptions(),
                packet.client_id@,
            ),
            match evicted {
                Some(eviction) => old(self).sessions().dom().contains(packet.client_id@)
                    && eviction.session@ == old(self).sessions()[packet.client_id@],
                None => !old(self).sessions().dom().contains(packet.client_id@),
            },
    {
        let now: i64 = current_timestamp();
        self.connect_at(packet, connected_port, tx, now)
    }

    /// Carries out a command on the coming and going of clients.
    pub fn handle_connect(&mut self, command: ConnectCommand) -> (evicted: Option<Eviction>)
        requires
            old(self).wf(),
        ensures
            final(self).wf(),
            match command {
                ConnectCommand::Connect(packet, port, tx) => {
                    &&& final(self).sessions().dom().contains(packet.client_id@)
                    &&& final(self).sessions() == old(self).sessions().insert(
                        packet.client_id@,
                        fresh_session(
                            packet,
                            port,
                            tx,
                            final(self).sessions()[packet.client_id@].connected_at,
                        ),
                    )
                    &&& final(self).subscriptions() == without_client(
                        old(self).subscriptions(),
                        packet.client_id@,
                    )
                    &&& match evicted {
                        Some(eviction) => old(self).sessions().dom().contains(packet.client_id@)
                            && eviction.session@ == old(self).sessions()[packet.client_id@],
                        None => !old(self).sessions().dom().contains(packet.client_id@),
                    }
                },
                ConnectCommand::Disconnect(client_id) => {
                    &&& final(self).sessions() == old(self).sessions().remove(client_id@)
                    &&& final(self).subscriptions() == without_client(
                        old(self).subscriptions(),
                        client_id@,
                    )
                    &&& evicted is None
                },
            },
    {
        match command {
            ConnectCommand::Connect(packet, port, tx) => self.connect(&packet, port, tx),
            ConnectCommand::Disconnect(client_id) => {
                self.drop_client(client_id.as_str());
                None
            },
        }
    }

    /// Carries out a command from the traffic of a client, and tells for
    /// a publish to whom it was offered.
    pub fn handle_pubsub(&mut self, command: PubSubCommand) -> (offers: Vec<Delivery>)
        requires
            old(self).wf(),
        ensures
            final(self).wf(),
            match command {
                PubSubCommand::Subscribe(packet, client_id) => {
                    &&& offers@.len() == 0
                    &&& old(self).sessions().dom().contains(client_id@) ==> {
                        &&& final(self).sessions() == old(self).sessions().insert(
                            client_id@,
                            SessionModel {
                                subscriptions: old(
                                    self,
                                ).sessions()[client_id@].subscriptions.insert(
                                    packet.topic@,
                                    packet@,
                                ),
                                ..old(self).sessions()[client_id@]
                            },
                        )
                        &&& final(self).subscriptions() == old(self).subscriptions().insert(
                            (topic_levels(packet.topic@), client_id@),
                        )
                    }
                    &&& !old(self).sessions().dom().contains(client_id@) ==> {
                        &&& final(self).sessions() == old(self).sessions()
                        &&& final(self).subscriptions() == old(self).subscriptions()
                    }
                },
                PubSubCommand::Unsubscribe(packet, client_id) => {
                    &&& offers@.len() == 0
                    &&& old(self).sessions().dom().contains(client_id@) ==> {
                        &&& final(self).sessions() == old(self).sessions().insert(
                            client_id@,
                            SessionModel {
                                subscriptions: old(
                                    self,
                                ).sessions()[client_id@].subscriptions.remove(packet.topic@),
                                ..old(self).sessions()[client_id@]
                            },
                        )
                        &&& final(self).subscriptions() == old(self).subscriptions().remove(
                            (topic_levels(packet.topic@), client_id@),
                        )
                    }
                    &&& !old(self).sessions().dom().contains(client_id@) ==> {
                        &&& final(self).sessions() == old(self).sessions()
                        &&& final(self).subscriptions() == old(self).subscriptions()
                    }
                },
                PubSubCommand::Publish(packet) => {
                    &&& final(self).sessions() == old(self).sessions()
                    &&& final(self).subscriptions() == old(self).subscriptions()
                    &&& distinct_offers(offers@)
                    &&& offered_clients(offers@) == matching_clients(
                        old(self).subscriptions(),
                        topic_levels(packet.topic@),
                    )
                },
            },
    {
        match command {
            PubSubCommand::Subscribe(packet, client_id) => {
                self.subscribe(&packet, client_id.as_str());
                Vec::new()
            },
            PubSubCommand::Unsubscribe(packet, client_id) => {
                self.unsubscribe(&packet, client_id.as_str());
                Vec::new()
            },
            PubSubCommand::Publish(packet) => self.publish(&packet),
        }
    }

    /// A client that connects twice has one session, the second one: the
    /// second Connect finds the session of the first, whose mailbox is the
    /// first connection's, puts it out, and leaves in the registry one
    /// session for the client, with the second connection's mailbox.
    pub proof fn lemma_reconnect_leaves_one_session(
        sessions: Map<Seq<char>, SessionModel>,
        first: ConnectPacket,
        first_port: u16,
        first_tx: Sender<MqttChannel>,
        first_at: i64,
        second: ConnectPacket,
        second_port: u16,
        second_tx: Sender<MqttChannel>,
        second_at: i64,
    )
        requires
            first.client_id@ == second.client_id@,
        ensures
            ({
                let id = first.client_id@;
                let once = sessions.insert(
                    id,
                    fresh_session(first, first_port, first_tx, first_at),
                );
                let twice = once.insert(
                    id,
                    fresh_session(second, second_port, second_tx, second_at),
                );
                &&& once.dom().contains(id)
                &&& once[id].tx == first_tx
                &&& twice == sessions.insert(
                    id,
                    fresh_session(second, second_port, second_tx, second_at),
                )
                &&& twice.dom() == sessions.dom().insert(id)
                &&& twice[id].tx == second_tx
            }),
    {
        let id = first.client_id@;
        let once = sessions.insert(id, fresh_session(first, first_port, first_tx, first_at));
        let twice = once.insert(id, fresh_session(second, second_port, second_tx, second_at));
        assert(twice =~= sessions.insert(
            id,
            fresh_session(second, second_port, second_tx, second_at),
        ));
        assert(twice.dom() =~= sessions.dom().insert(id));
    }

    /// Takes the session of a client out of the registry and its
    /// subscriptions out of the tree. Where the client has no session,
    /// nothing changes.
    pub fn drop_client(&mut self, client_id: &str)
        requires
            old(self).wf(),
        ensures
            final(self).wf(),
            final(self).sessions() == old(self).sessions().remove(client_id@),
            final(self).subscriptions() == without_client(old(self).subscriptions(), client_id@),
    {
        match self.client_service.remove_client(client_id) {
            Some(_) => {
                self.topic_service.remove_client(client_id);
            },
            None => {
                assert(self.topic_service@ =~= without_client(old(self).topic_service@, client_id@))
                    by {
                    assert forall|s: (Seq<Seq<u8>>, Seq<char>)|
                        old(self).topic_service@.contains(s) implies s.1 != client_id@ by {
                        assert(old(self).topic_service@.contains((s.0, s.1)));
                        assert(recorded(old(self).client_service@, s.0, s.1));
                    }
                }
            },
        }
        proof {
            assert forall|levels: Seq<Seq<u8>>, client: Seq<char>| #[trigger]
                self.topic_service@.contains((levels, client)) <==> recorded(
                    self.client_service@,
                    levels,
                    client,
                ) by {
                assert(old(self).topic_service@.contains((levels, client)) <==> recorded(
                    old(self).client_service@,
                    levels,
                    client,
                ));
                if client != client_id@ {
                    if self.client_service@.dom().contains(client) {
                        assert(self.client_service@[client] == old(self).client_service@[client]);
                    }
                }
            }
        }
    }

    /// Records a subscription of a client in its session and in the tree.
    /// Where the client has no session, nothing changes in either.
    pub fn subscribe(&mut self, packet: &SubscribePacket, client_id: &str)
        requires
            old(self).wf(),
        ensures
            final(self).wf(),
            old(self).sessions().dom().contains(client_id@) ==> {
                &&& final(self).sessions() == old(self).sessions().insert(
                    client_id@,
                    SessionModel {
                        subscriptions: old(self).sessions()[client_id@].subscriptions.insert(
                            packet.topic@,
                            packet@,
                        ),
                        ..old(self).sessions()[client_id@]
                    },
                )
                &&& final(self).subscriptions() == old(self).subscriptions().insert(
                    (topic_levels(packet.topic@), client_id@),
                )
            },
            !old(self).sessions().dom().contains(client_id@) ==> {
                &&& final(self).sessions() == old(self).sessions()
                &&& final(self).subscriptions() == old(self).subscriptions()
            },
    {
        if self.client_service.contains(client_id) {
            self.client_service.add_subscribtion(client_id, packet);
            self.topic_service.subscribe(packet.topic.as_str(), client_id);
            proof {
                let id = client_id@;
                let topic = packet.topic@;
                assert forall|levels: Seq<Seq<u8>>, client: Seq<char>| #[trigger]
                    self.topic_service@.contains((levels, client)) <==> recorded(
                        self.client_service@,
                        levels,
                        client,
                    ) by {
                    assert(old(self).topic_service@.contains((levels, client)) <==> recorded(
                        old(self).client_service@,
                        levels,
                        client,
                    ));
                    if client != id {
                        if self.client_service@.dom().contains(client) {
                            assert(self.client_service@[client] == old(
                                self,
                            ).client_service@[client]);
                        }
                    } else {
                        let before = old(self).client_service@[id].subscriptions;
                        let after = self.client_service@[id].subscriptions;
                        assert(after == before.insert(topic, packet@));
                        if recorded(self.client_service@, levels, client) {
                            let t = choose|t: Seq<char>| #[trigger]
                                after.dom().contains(t) && topic_levels(t) == levels;
                            if t != topic {
                                assert(before.dom().contains(t));
                            }
                        }
                        if recorded(old(self).client_service@, levels, client) {
                            let t = choose|t: Seq<char>| #[trigger]
                                before.dom().contains(t) && topic_levels(t) == levels;
                            assert(after.dom().contains(t));
                        }
                        if levels == topic_levels(topic) {
                            assert(after.dom().contains(topic));
                        }
                    }
                }
            }
        }
    }

    /// Forgets a subscription of a client in its session and in the tree.
    /// Where the client has no session, nothing changes in either.
    pub fn unsubscribe(&mut self, packet: &UnsubscribePacket, client_id: &str)
        requires
            old(self).wf(),
        ensures
            final(self).wf(),
            old(self).sessions().dom().contains(client_id@) ==> {
                &&& final(self).sessions() == old(self).sessions().insert(
                    client_id@,
                    SessionModel {
                        subscriptions: old(self).sessions()[client_id@].subscriptions.remove(
                            packet.topic@,
                        ),
                        ..old(self).sessions()[client_id@]
                    },
                )
                &&& final(self).subscriptions() == old(self).subscriptions().remove(
                    (topic_levels(packet.topic@), client_id@),
                )
            },
            !old(self).sessions().dom().contains(client_id@) ==> {
                &&& final(self).sessions() == old(self).sessions()
                &&& final(self).subscriptions() == old(self).subscriptions()
            },
    {
        if self.client_service.contains(client_id) {
            self.client_service.remove_subscribtion(client_id, packet.topic.as_str());
            self.topic_service.unsubscribe(packet.topic.as_str(), client_id);
            proof {
                let id = client_id@;
                let topic = packet.topic@;
                assert forall|levels: Seq<Seq<u8>>, client: Seq<char>| #[trigger]
                    self.topic_service@.contains((levels, client)) <==> recorded(
                        self.client_service@,
                        levels,
                        client,
                    ) by {
                    assert(old(self).topic_service@.contains((levels, client)) <==> recorded(
                        old(self).client_service@,
                        levels,
                        client,
                    ));
                    if client != id {
                        if self.client_service@.dom().contains(client) {
                            assert(self.client_service@[client] == old(
                                self,
                            ).client_service@[client]);
                        }
                    } else {
                        let before = old(self).client_service@[id].subscriptions;
                        let after = self.client_service@[id].subscriptions;
                        assert(after == before.remove(topic));
                        if recorded(self.client_service@, levels, client) {
                            let t = choose|t: Seq<char>| #[trigger]
                                after.dom().contains(t) && topic_levels(t) == levels;
                            assert(before.dom().contains(t));
                            if levels == topic_levels(topic) {
                                lemma_topic_levels_injective(t, topic);
                            }
                        }
                        if recorded(old(self).client_service@, levels, client) && levels
                            != topic_levels(topic) {
                            let t = choose|t: Seq<char>| #[trigger]
                                before.dom().contains(t) && topic_levels(t) == levels;
                            assert(after.dom().contains(t));
                        }
                    }
                }
            }
        }
    }

    /// The sessions of the clients that subscribed to a filter that
    /// matches `topic`, each once.
    pub fn recipients(&self, topic: &str) -> (sessions: Vec<Session>)
        requires
            self.wf(),
        ensures
            lists_sessions_of(sessions@, self.sessions()),
            session_clients(sessions@) == matching_clients(
                self.subscriptions(),
                topic_levels(topic@),
            ),
    {
        let clients = self.topic_service.match_subscribers(topic);
        let ghost matching = matching_clients(self.topic_service@, topic_levels(topic@));
        let mut sessions: Vec<Session> = Vec::new();
        let mut k: usize = 0;
        while k < clients.len()
            invariant
                k <= clients.len(),
                self.wf(),
                distinct_clients(clients@),
                client_set(clients@) == matching,
                matching == matching_clients(self.topic_service@, topic_levels(topic@)),
                sessions@.len() == k,
                forall|i: int|
                    0 <= i < k ==> (#[trigger] sessions@[i]).client_id@ == clients@[i]@
                        && self.client_service@.dom().contains(clients@[i]@)
                        && self.client_service@[clients@[i]@] == sessions@[i]@,
            decreases clients.len() - k,
        {
            let ghost name = clients@[k as int]@;
            proof {
                assert(client_set(clients@).contains(name));
                let f = choose|f: Seq<Seq<u8>>| #[trigger]
                    self.topic_service@.contains((f, name)) && filter_matches(
                        f,
                        topic_levels(topic@),
                    );
                assert(recorded(self.client_service@, f, name));
                self.client_service.lemma_keyed_by_client_id(name);
            }
            match self.client_service.get_session(clients[k].as_str()) {
                Some(session) => {
                    sessions.push(session);
                },
                None => {
                    assert(false);
                },
            }
            k = k + 1;
        }
        proof {
            assert forall|i: int, j: int| 0 <= i < j < sessions@.len() implies (
            #[trigger] sessions@[i]).client_id@ != (#[trigger] sessions@[j]).client_id@ by {
                assert(clients@[i]@ != clients@[j]@);
            }
            assert forall|c: Seq<char>| matching.contains(c) <==> session_clients(
                sessions@,
            ).contains(c) by {
                if matching.contains(c) {
                    let i = choose|i: int| 0 <= i < clients@.len() && (#[trigger] clients@[i])@ == c;
                    assert(sessions@[i].client_id@ == c);
                }
                if session_clients(sessions@).contains(c) {
                    let i = choose|i: int|
                        0 <= i < sessions@.len() && (#[trigger] sessions@[i]).client_id@ == c;
                    assert(clients@[i]@ == c);
                    assert(client_set(clients@).contains(c));
                }
            }
            assert(session_clients(sessions@) =~= matching);
        }
        sessions
    }

    /// Offers a publish to the mailbox of every client that subscribed to
    /// a filter that matches its topic, once to each, without waiting, and
    /// tells for each of them whether its mailbox took the message. A
    /// mailbox that is full or closed loses this one message and nothing
    /// else.
    pub fn publish(&self, p: &PublishPacket) -> (offers: Vec<Delivery>)
        requires
            self.wf(),
        ensures
            distinct_offers(offers@),
            offered_clients(offers@) == matching_clients(
                self.subscriptions(),
                topic_levels(p.topic@),
            ),
    {
        let sessions = self.recipients(p.topic.as_str());
        let ghost matching = matching_clients(self.topic_service@, topic_levels(p.topic@));
        let mut offers: Vec<Delivery> = Vec::new();
        let mut k: usize = 0;
        while k < sessions.len()
            invariant
                k <= sessions.len(),
                offers@.len() == k,
                forall|i: int|
                    0 <= i < k ==> (#[trigger] offers@[i]).client_id@ == sessions@[i].client_id@,
            decreases sessions.len() - k,
        {
            let accepted = try_deliver(&sessions[k].tx, MqttChannel::Publish(p.clone()));
            offers.push(Delivery { client_id: sessions[k].client_id.clone(), accepted });
            k = k + 1;
        }
        proof {
            assert forall|i: int, j: int| 0 <= i < j < offers@.len() implies (
            #[trigger] offers@[i]).client_id@ != (#[trigger] offers@[j]).client_id@ by {
                assert(sessions@[i].client_id@ != sessions@[j].client_id@);
            }
            assert forall|c: Seq<char>| offered_clients(offers@).contains(c)
                <==> session_clients(sessions@).contains(c) by {
                if offered_clients(offers@).contains(c) {
                    let i = choose|i: int|
                        0 <= i < offers@.len() && (#[trigger] offers@[i]).client_id@ == c;
                    assert(sessions@[i].client_id@ == c);
                }
                if session_clients(sessions@).contains(c) {
                    let i = choose|i: int|
                        0 <= i < sessions@.len() && (#[trigger] sessions@[i]).client_id@ == c;
                    assert(offers@[i].client_id@ == c);
                }
            }
            assert(offered_clients(offers@) =~= matching);
        }
        offers
    }

    /// One page of the sessions.
    pub fn get_paginated(&self, page: usize, size: usize) -> (result: Page<Session>)
        requires
            self.wf(),
            size > 0,
        ensures
            self.sessions().dom().finite(),
            result.page == page,
            result.size == size,
            result.total_elements == self.sessions().dom().len(),
            result.total_pages == page_count(self.sessions().dom().len(), size as nat),
            result.content@.len() == (if page * size >= result.total_elements {
                0
            } else if page * size + size >= result.total_elements {
                result.total_elements - page * size
            } else {
                size as int
            }),
            lists_sessions_of(result.content@, self.sessions()),
    {
        self.client_service.get_paginated(page, size)
    }
}

} // verus!
