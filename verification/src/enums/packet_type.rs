//! The fourteen control packet types, numbered as the high nibble of a
//! frame's first byte numbers them.

use vstd::prelude::*;

verus! {

/// The type of a control packet.
#[derive(Clone, Copy, PartialEq, Eq, Debug, Structural)]
pub enum MqttPacketType {
    Connect,
    ConnAck,
    Publish,
    PubAck,
    PubRec,
    PubRel,
    PubComp,
    Subscribe,
    SubAck,
    Unsubscribe,
    UnsubAck,
    PingReq,
    PingResp,
    Disconnect,
}

impl MqttPacketType {
    /// The number that stands for the type on the wire.
    pub open spec fn code(self) -> u8 {
        match self {
            MqttPacketType::Connect => 1,
            MqttPacketType::ConnAck => 2,
            MqttPacketType::Publish => 3,
            MqttPacketType::PubAck => 4,
            MqttPacketType::PubRec => 5,
            MqttPacketType::PubRel => 6,
            MqttPacketType::PubComp => 7,
            MqttPacketType::Subscribe => 8,
            MqttPacketType::SubAck => 9,
            MqttPacketType::Unsubscribe => 10,
            MqttPacketType::UnsubAck => 11,
            MqttPacketType::PingReq => 12,
            MqttPacketType::PingResp => 13,
            MqttPacketType::Disconnect => 14,
        }
    }

    /// The type that a number stands for, if any.
    pub open spec fn of_code(val: u8) -> Option<MqttPacketType> {
        if val == 1 {
            Some(MqttPacketType::Connect)
        } else if val == 2 {
            Some(MqttPacketType::ConnAck)
        } else if val == 3 {
            Some(MqttPacketType::Publish)
        } else if val == 4 {
            Some(MqttPacketType::PubAck)
        } else if val == 5 {
            Some(MqttPacketType::PubRec)
        } else if val == 6 {
            Some(MqttPacketType::PubRel)
        } else if val == 7 {
            Some(MqttPacketType::PubComp)
        } else if val == 8 {
            Some(MqttPacketType::Subscribe)
        } else if val == 9 {
            Some(MqttPacketType::SubAck)
        } else if val == 10 {
            Some(MqttPacketType::Unsubscribe)
        } else if val == 11 {
            Some(MqttPacketType::UnsubAck)
        } else if val == 12 {
            Some(MqttPacketType::PingReq)
        } else if val == 13 {
            Some(MqttPacketType::PingResp)
        } else if val == 14 {
            Some(MqttPacketType::Disconnect)
        } else {
            None
        }
    }

    /// Whether the broker reads packets of this type from a client.
    pub open spec fn is_inbound(self) -> bool {
        self == MqttPacketType::Connect || self == MqttPacketType::Publish || self
            == MqttPacketType::Subscribe || self == MqttPacketType::Unsubscribe || self
            == MqttPacketType::PingReq || self == MqttPacketType::Disconnect
    }

    /// The type that a number stands for: one of the fourteen for 1 to 14,
    /// none for any other number.
    pub fn from_u8(val: u8) -> (t: Option<Self>)
        ensures
            t == Self::of_code(val),
            t.is_some() <==> 1 <= val <= 14,
            t.is_some() ==> t.unwrap().code() == val,
    {
        match val {
            1 => Some(MqttPacketType::Connect),
            2 => Some(MqttPacketType::ConnAck),
            3 => Some(MqttPacketType::Publish),
            4 => Some(MqttPacketType::PubAck),
            5 => Some(MqttPacketType::PubRec),
            6 => Some(MqttPacketType::PubRel),
            7 => Some(MqttPacketType::PubComp),
            8 => Some(MqttPacketType::Subscribe),
            9 => Some(MqttPacketType::SubAck),
            10 => Some(MqttPacketType::Unsubscribe),
            11 => Some(MqttPacketType::UnsubAck),
            12 => Some(MqttPacketType::PingReq),
            13 => Some(MqttPacketType::PingResp),
            14 => Some(MqttPacketType::Disconnect),
            _ => None,
        }
    }
}

} // verus!
