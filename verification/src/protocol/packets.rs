//! The control packets that the broker reads, and their mathematical models.

use vstd::prelude::*;

verus! {

/// A client's request to open a session.
#[derive(Debug)]
pub struct ConnectPacket {
    pub client_id: String,
    pub keep_alive: u16,
    pub clean_session: bool,
    pub username: Option<String>,
    pub password: Option<String>,
}

/// A message published on a topic.
#[derive(Debug)]
pub struct PublishPacket {
    pub packet_id: Option<u16>,
    pub topic: String,
    pub payload: Vec<u8>,
    pub qos: u8,
    pub retain: bool,
    pub dup: bool,
}

/// A request to receive the messages of the topics that a filter matches.
#[derive(Debug)]
pub struct SubscribePacket {
    pub packet_id: u16,
    pub topic: String,
    pub qos: u8,
    /// Seconds since the Unix epoch at which the request was decoded.
    pub subscribed_at: i64,
}

/// A request to drop a subscription.
#[derive(Debug)]
pub struct UnsubscribePacket {
    pub packet_id: u16,
    pub topic: String,
}

/// What a `ConnectPacket` holds.
pub struct ConnectModel {
    pub client_id: Seq<char>,
    pub keep_alive: u16,
    pub clean_session: bool,
    pub username: Option<Seq<char>>,
    pub password: Option<Seq<char>>,
}

/// What a `PublishPacket` holds.
pub struct PublishModel {
    pub packet_id: Option<u16>,
    pub topic: Seq<char>,
    pub payload: Seq<u8>,
    pub qos: u8,
    pub retain: bool,
    pub dup: bool,
}

/// What a `SubscribePacket` holds.
pub struct SubscribeModel {
    pub packet_id: u16,
    pub topic: Seq<char>,
    pub qos: u8,
    pub subscribed_at: i64,
}

/// What an `UnsubscribePacket` holds.
pub struct UnsubscribeModel {
    pub packet_id: u16,
    pub topic: Seq<char>,
}

/// The view of an optional string.
pub open spec fn opt_string_view(s: Option<String>) -> Option<Seq<char>> {
    match s {
        Some(v) => Some(v@),
        None => None,
    }
}

impl View for ConnectPacket {
    type V = ConnectModel;

    open spec fn view(&self) -> ConnectModel {
        ConnectModel {
            client_id: self.client_id@,
            keep_alive: self.keep_alive,
            clean_session: self.clean_session,
            username: opt_string_view(self.username),
            password: opt_string_view(self.password),
        }
    }
}

impl View for PublishPacket {
    type V = PublishModel;

    open spec fn view(&self) -> PublishModel {
        PublishModel {
            packet_id: self.packet_id,
            topic: self.topic@,
            payload: self.payload@,
            qos: self.qos,
            retain: self.retain,
            dup: self.dup,
        }
    }
}

impl View for SubscribePacket {
    type V = SubscribeModel;

    open spec fn view(&self) -> SubscribeModel {
        SubscribeModel {
            packet_id: self.packet_id,
            topic: self.topic@,
            qos: self.qos,
            subscribed_at: self.subscribed_at,
        }
    }
}

impl View for UnsubscribePacket {
    type V = UnsubscribeModel;

    open spec fn view(&self) -> UnsubscribeModel {
        UnsubscribeModel { packet_id: self.packet_id, topic: self.topic@ }
    }
}

/// A copy of an optional string.
pub fn clone_opt_string(s: &Option<String>) -> (copy: Option<String>)
    ensures
        opt_string_view(copy) == opt_string_view(*s),
{
    match s {
        Some(v) => Some(v.clone()),
        None => None,
    }
}

impl Clone for ConnectPacket {
    fn clone(&self) -> (copy: Self)
        ensures
            copy@ == self@,
    {
        ConnectPacket {
            client_id: self.client_id.clone(),
            keep_alive: self.keep_alive,
            clean_session: self.clean_session,
            username: clone_opt_string(&self.username),
            password: clone_opt_string(&self.password),
        }
    }
}

impl Clone for PublishPacket {
    fn clone(&self) -> (copy: Self)
        ensures
            copy@ == self@,
    {
        PublishPacket {
            packet_id: self.packet_id,
            topic: self.topic.clone(),
            payload: self.payload.clone(),
            qos: self.qos,
            retain: self.retain,
            dup: self.dup,
        }
    }
}

impl Clone for SubscribePacket {
    fn clone(&self) -> (copy: Self)
        ensures
            copy@ == self@,
    {
        SubscribePacket {
            packet_id: self.packet_id,
            topic: self.topic.clone(),
            qos: self.qos,
            subscribed_at: self.subscribed_at,
        }
    }
}

impl Clone for UnsubscribePacket {
    fn clone(&self) -> (copy: Self)
        ensures
            copy@ == self@,
    {
        UnsubscribePacket { packet_id: self.packet_id, topic: self.topic.clone() }
    }
}

} // verus!
