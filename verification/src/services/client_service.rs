//! The session registry: the connected clients, each under its identifier.
//!
//! The sessions live in a `dashmap::DashMap`. What is stated of that map
//! here is taken on trust from that crate; the registry is proved against
//! it. Every change goes through a `&mut` borrow of the registry, so that
//! a contract can say what the change was.

use crate::enums::mailbox::MqttChannel;
use crate::models::pagination::{page_count, Page};
use crate::models::session::{Session, SessionModel};
use crate::protocol::packets::{clone_opt_string, opt_string_view, ConnectPacket, SubscribePacket};
use crate::utils::clock::current_timestamp;
use dashmap::DashMap;
use tokio::sync::mpsc::Sender;
use vstd::prelude::*;

verus! {

/// `dashmap::DashMap`, as a type whose values are opaque: all that is known
/// of one is what the functions below say of the entries that it holds.
#[verifier::external_type_specification]
#[verifier::external_body]
#[verifier::reject_recursive_types(K)]
#[verifier::reject_recursive_types(V)]
#[verifier::reject_recursive_types(S)]
pub struct ExDashMap<K, V, S>(dashmap::DashMap<K, V, S>);

/// The sessions that a map holds, each under its key.
pub uninterp spec fn registry_sessions(map: DashMap<String, Session>) -> Map<Seq<char>, Session>;

/// The map that holds no session.
pub open spec fn no_sessions() -> Map<Seq<char>, Session> {
    Map::empty()
}

/// Whether a list holds every entry of the map once: the map has finitely
/// many entries, the list has as many, each of them an entry of the map,
/// and no key twice.
pub open spec fn lists_all(entries: Seq<RegistryEntry>, sessions: Map<Seq<char>, Session>) -> bool {
    &&& sessions.dom().finite()
    &&& entries.len() == sessions.dom().len()
    &&& entries_of(entries, sessions)
    &&& distinct_keys(entries)
}

/// An entry of the registry: a key and the session under it.
pub struct RegistryEntry {
    pub key: String,
    pub session: Session,
}

/// Whether no key stands twice in a list of entries.
pub open spec fn distinct_keys(entries: Seq<RegistryEntry>) -> bool {
    forall|i: int, j: int|
        0 <= i < j < entries.len() ==> (#[trigger] entries[i]).key@ != (#[trigger] entries[j]).key@
}

/// Whether every entry of a list is an entry of the map, its session a
/// faithful copy of the one that the map holds.
pub open spec fn entries_of(entries: Seq<RegistryEntry>, sessions: Map<Seq<char>, Session>) -> bool {
    forall|i: int|
        0 <= i < entries.len() ==> {
            &&& sessions.dom().contains((#[trigger] entries[i]).key@)
            &&& sessions[entries[i].key@].wf() ==> entries[i].session.wf() && entries[i].session@
                == sessions[entries[i].key@]@
        }
}

/// `DashMap::new`: a map that holds nothing.
#[verifier::external_body]
pub(crate) fn registry_new() -> (registry: DashMap<String, Session>)
    ensures
        registry_sessions(registry) == no_sessions(),
{
    DashMap::new()
}

/// `DashMap::insert`: puts the value under the key and hands back the value
/// that stood there before, if there was one.
#[verifier::external_body]
pub(crate) fn registry_insert(
    map: &mut DashMap<String, Session>,
    key: String,
    value: Session,
) -> (previous: Option<Session>)
    ensures
        registry_sessions(*final(map)) == registry_sessions(*old(map)).insert(key@, value),
        previous == (if registry_sessions(*old(map)).dom().contains(key@) {
            Some(registry_sessions(*old(map))[key@])
        } else {
            None
        }),
{
    map.insert(key, value)
}

/// `DashMap::remove`: takes the entry under the key out of the map and
/// hands back its value, if there was one.
#[verifier::external_body]
pub(crate) fn registry_remove(map: &mut DashMap<String, Session>, key: &str) -> (removed: Option<
    Session,
>)
    ensures
        registry_sessions(*final(map)) == registry_sessions(*old(map)).remove(key@),
        removed == (if registry_sessions(*old(map)).dom().contains(key@) {
            Some(registry_sessions(*old(map))[key@])
        } else {
            None
        }),
{
    map.remove(key).map(|(_, v)| v)
}

/// `DashMap::get`, then a copy of the value found: the copy of a session
/// that meets its invariant meets it too and holds the same.
#[verifier::external_body]
pub(crate) fn registry_get(map: &DashMap<String, Session>, key: &str) -> (found: Option<Session>)
    ensures
        found is Some <==> registry_sessions(*map).dom().contains(key@),
        found matches Some(s) ==> (registry_sessions(*map)[key@].wf() ==> s.wf() && s@
            == registry_sessions(*map)[key@]@),
{
    map.get(key).map(|r| r.value().clone())
}

/// `DashMap::iter`, with a copy of each entry's key and value: every entry
/// of the map once, in an order that nothing is claimed of. The copy of a
/// session that meets its invariant meets it too and holds the same.
#[verifier::external_body]
pub(crate) fn registry_entries(map: &DashMap<String, Session>) -> (entries: Vec<RegistryEntry>)
    ensures
        lists_all(entries@, registry_sessions(*map)),
{
    map.iter().map(|r| RegistryEntry { key: r.key().clone(), session: r.value().clone() }).collect()
}

/// The session registry.
pub struct ClientService {
    clients: DashMap<String, Session>,
}

impl View for ClientService {
    type V = Map<Seq<char>, SessionModel>;

    /// The sessions, each under the identifier of its client.
    closed spec fn view(&self) -> Map<Seq<char>, SessionModel> {
        registry_sessions(self.clients).map_values(|s: Session| s@)
    }
}

/// Whether a listing names no client twice and holds, for each client that
/// it names, the session that the registry holds for it.
pub open spec fn lists_sessions_of(
    listing: Seq<Session>,
    registry: Map<Seq<char>, SessionModel>,
) -> bool {
    &&& forall|i: int|
        0 <= i < listing.len() ==> registry.dom().contains((#[trigger] listing[i]).client_id@)
            && registry[listing[i].client_id@] == listing[i]@
    &&& forall|i: int, j: int|
        0 <= i < j < listing.len() ==> (#[trigger] listing[i]).client_id@ != (
        #[trigger] listing[j]).client_id@
}

/// The clients whose sessions a listing holds.
pub open spec fn session_clients(listing: Seq<Session>) -> Set<Seq<char>> {
    Set::new(
        |c: Seq<char>|
            exists|i: int| 0 <= i < listing.len() && (#[trigger] listing[i]).client_id@ == c,
    )
}

impl ClientService {
    /// The invariant of the registry: every session stands under its own
    /// client identifier and meets its own invariant.
    pub closed spec fn wf(&self) -> bool {
        forall|k: Seq<char>| #[trigger]
            registry_sessions(self.clients).dom().contains(k) ==> registry_sessions(
                self.clients,
            )[k].wf() && registry_sessions(self.clients)[k].client_id@ == k
    }

    /// In a registry that meets its invariant, a session stands under the
    /// client identifier that it holds.
    pub proof fn lemma_keyed_by_client_id(self, k: Seq<char>)
        requires
            self.wf(),
            self@.dom().contains(k),
        ensures
            self@[k].client_id == k,
    {
    }

    /// A registry without sessions.
    pub fn new() -> (service: Self)
        ensures
            service.wf(),
            service@ == Map::<Seq<char>, SessionModel>::empty(),
    {
        let service = ClientService { clients: registry_new() };
        assert(service@ =~= Map::<Seq<char>, SessionModel>::empty());
        service
    }

    /// Registers a session made at the time `now` for the client of a
    /// Connect packet, in place of the session that the client had, and
    /// hands that one back.
    pub fn add_client_at(
        &mut self,
        packet: &ConnectPacket,
        connected_port: u16,
        tx: Sender<MqttChannel>,
        now: i64,
    ) -> (evicted: Option<Session>)
        requires
            old(self).wf(),
        ensures
            final(self).wf(),
            final(self)@ == old(self)@.insert(
                packet.client_id@,
                SessionModel {
                    client_id: packet.client_id@,
                    username: opt_string_view(packet.username),
                    clean_session: packet.clean_session,
                    connected_port,
                    connected_at: now,
                    subscriptions: Map::empty(),
                    tx,
                },
            ),
            match evicted {
                Some(session) => old(self)@.dom().contains(packet.client_id@) && session.wf()
                    && session@ == old(self)@[packet.client_id@],
                None => !old(self)@.dom().contains(packet.client_id@),
            },
    {
        let username = clone_opt_string(&packet.username);
        let session = Session::new_at(
            packet.client_id.clone(),
            username,
            packet.clean_session,
            connected_port,
            tx,
            now,
        );
        let evicted = registry_insert(&mut self.clients, packet.client_id.clone(), session);
        assert(self@ =~= old(self)@.insert(packet.client_id@, session@));
        evicted
    }

    /// Registers a session made now for the client of a Connect packet, in
    /// place of the session that the client had, and hands that one back.
    pub fn add_client(&mut self, packet: &ConnectPacket, connected_port: u16, tx: Sender<MqttChannel>)
        -> (evicted: Option<Session>)
        requires
            old(self).wf(),
        ensures
            final(self).wf(),
            final(self)@.dom().contains(packet.client_id@),
            final(self)@ == old(self)@.insert(
                packet.client_id@,
                SessionModel {
                    client_id: packet.client_id@,
                    username: opt_string_view(packet.username),
                    clean_session: packet.clean_session,
                    connected_port,
                    connected_at: final(self)@[packet.client_id@].connected_at,
                    subscriptions: Map::empty(),
                    tx,
                },
            ),
            match evicted {
                Some(session) => old(self)@.dom().contains(packet.client_id@) && session.wf()
                    && session@ == old(self)@[packet.client_id@],
                None => !old(self)@.dom().contains(packet.client_id@),
            },
    {
        let now: i64 = current_timestamp();
        self.add_client_at(packet, connected_port, tx, now)
    }

    /// Takes the session of a client out of the registry and hands it
    /// back, if the client has one.
    pub fn remove_client(&mut self, client_id: &str) -> (removed: Option<Session>)
        requires
            old(self).wf(),
        ensures
            final(self).wf(),
            final(self)@ == old(self)@.remove(client_id@),
            match removed {
                Some(session) => old(self)@.dom().contains(client_id@) && session.wf() && session@
                    == old(self)@[client_id@],
                None => !old(self)@.dom().contains(client_id@),
            },
    {
        let removed = registry_remove(&mut self.clients, client_id);
        assert(self@ =~= old(self)@.remove(client_id@));
        removed
    }

    /// A copy of the session of a client, if the client has one.
    pub fn get_session(&self, key: &str) -> (found: Option<Session>)
        requires
            self.wf(),
        ensures
            match found {
                Some(session) => self@.dom().contains(key@) && session.wf() && session@
                    == self@[key@],
                None => !self@.dom().contains(key@),
            },
    {
        registry_get(&self.clients, key)
    }

    /// Whether a client has a session.
    pub fn contains(&self, client_id: &str) -> (found: bool)
        requires
            self.wf(),
        ensures
            found == self@.dom().contains(client_id@),
    {
        registry_get(&self.clients, client_id).is_some()
    }

    /// Records a subscription in the session of a client. Where the client
    /// has no session, nothing changes.
    pub fn add_subscribtion(&mut self, client_id: &str, sub: &SubscribePacket)
        requires
            old(self).wf(),
        ensures
            final(self).wf(),
            final(self)@ == (if old(self)@.dom().contains(client_id@) {
                old(self)@.insert(
                    client_id@,
                    SessionModel {
                        subscriptions: old(self)@[client_id@].subscriptions.insert(
                            sub.topic@,
                            sub@,
                        ),
                        ..old(self)@[client_id@]
                    },
                )
            } else {
                old(self)@
            }),
    {
        match registry_remove(&mut self.clients, client_id) {
            Some(session) => {
                let mut session = session;
                session.add_subscription(sub.clone());
                let _ = registry_insert(&mut self.clients, client_id.to_owned(), session);
                assert(self@ =~= old(self)@.insert(client_id@, session@));
            },
            None => {
                assert(self@ =~= old(self)@);
            },
        }
    }

    /// Forgets a subscription in the session of a client. Where the client
    /// has no session, nothing changes.
    pub fn remove_subscribtion(&mut self, client_id: &str, topic: &str)
        requires
            old(self).wf(),
        ensures
            final(self).wf(),
            final(self)@ == (if old(self)@.dom().contains(client_id@) {
                old(self)@.insert(
                    client_id@,
                    SessionModel {
                        subscriptions: old(self)@[client_id@].subscriptions.remove(topic@),
                        ..old(self)@[client_id@]
                    },
                )
            } else {
                old(self)@
            }),
    {
        match registry_remove(&mut self.clients, client_id) {
            Some(session) => {
                let mut session = session;
                session.remove_subscription(topic);
                let _ = registry_insert(&mut self.clients, client_id.to_owned(), session);
                assert(self@ =~= old(self)@.insert(client_id@, session@));
            },
            None => {
                assert(self@ =~= old(self)@);
            },
        }
    }

    /// Copies of all sessions, each once, in an order that is the
    /// registry's own.
    pub fn sessions(&self) -> (listing: Vec<Session>)
        requires
            self.wf(),
        ensures
            self@.dom().finite(),
            listing@.len() == self@.dom().len(),
            lists_sessions_of(listing@, self@),
    {
        let mut entries = registry_entries(&self.clients);
        let ghost all = entries@;
        let mut reversed: Vec<Session> = Vec::new();
        while entries.len() > 0
            invariant
                entries@.len() + reversed@.len() == all.len(),
                entries@ == all.subrange(0, entries@.len() as int),
                forall|i: int|
                    0 <= i < reversed@.len() ==> #[trigger] reversed@[i] == all[all.len() - 1 - i].session,
            decreases entries@.len(),
        {
            let ghost before = entries@;
            match entries.pop() {
                Some(entry) => {
                    reversed.push(entry.session);
                    assert(entries@ =~= all.subrange(0, entries@.len() as int));
                },
                None => {},
            }
        }
        let mut listing: Vec<Session> = Vec::new();
        while reversed.len() > 0
            invariant
                reversed@.len() + listing@.len() == all.len(),
                forall|i: int| 0 <= i < listing@.len() ==> #[trigger] listing@[i] == all[i].session,
                forall|i: int|
                    0 <= i < reversed@.len() ==> #[trigger] reversed@[i] == all[all.len() - 1 - i].session,
            decreases reversed@.len(),
        {
            match reversed.pop() {
                Some(session) => {
                    listing.push(session);
                },
                None => {},
            }
        }
        proof {
            let sessions = registry_sessions(self.clients);
            assert(self@.dom() =~= sessions.dom());
            assert forall|i: int| 0 <= i < listing@.len() implies self@.dom().contains(
                (#[trigger] listing@[i]).client_id@,
            ) && self@[listing@[i].client_id@] == listing@[i]@ by {
                let key = all[i].key@;
                assert(sessions.dom().contains(key));
                assert(sessions[key].wf() && sessions[key].client_id@ == key);
                assert(listing@[i] == all[i].session);
            }
            assert forall|i: int, j: int| 0 <= i < j < listing@.len() implies (
            #[trigger] listing@[i]).client_id@ != (#[trigger] listing@[j]).client_id@ by {
                let ki = all[i].key@;
                let kj = all[j].key@;
                assert(sessions.dom().contains(ki));
                assert(sessions.dom().contains(kj));
                assert(listing@[i] == all[i].session);
                assert(listing@[j] == all[j].session);
            }
        }
        listing
    }

    /// One page of the sessions.
    ///
    /// The pages are cut from one listing of all sessions, in the
    /// registry's own order: while the registry does not change, the pages
    /// hold every session once between them.
    pub fn get_paginated(&self, page: usize, size: usize) -> (result: Page<Session>)
        requires
            self.wf(),
            size > 0,
        ensures
            self@.dom().finite(),
            result.page == page,
            result.size == size,
            result.total_elements == self@.dom().len(),
            result.total_pages == page_count(self@.dom().len(), size as nat),
            result.content@.len() == (if page * size >= result.total_elements {
                0
            } else if page * size + size >= result.total_elements {
                result.total_elements - page * size
            } else {
                size as int
            }),
            lists_sessions_of(result.content@, self@),
    {
        let listing = self.sessions();
        let result = Page::of(listing, page, size);
        proof {
            crate::models::pagination::lemma_page_slice_len(listing@, page as nat, size as nat);
            let content = result.content@;
            assert forall|i: int| 0 <= i < content.len() implies self@.dom().contains(
                (#[trigger] content[i]).client_id@,
            ) && self@[content[i].client_id@] == content[i]@ by {
                assert(content[i] == listing@[page * size + i]);
            }
            assert forall|i: int, j: int| 0 <= i < j < content.len() implies (
            #[trigger] content[i]).client_id@ != (#[trigger] content[j]).client_id@ by {
                assert(content[i] == listing@[page * size + i]);
                assert(content[j] == listing@[page * size + j]);
            }
        }
        result
    }
}

} // verus!
