//! Decoding: from the bytes of one frame to a typed control packet.

use crate::enums::packet_type::MqttPacketType;
use crate::protocol::buffer::{
    be16,
    buffer_advance,
    buffer_byte,
    buffer_bytes,
    buffer_copy,
    buffer_get_u16,
    buffer_get_u8,
    buffer_len,
    buffer_split_to,
    string_from_utf8,
};
use crate::protocol::header::{read_header, Header, HeaderPeek, HeaderRead};
use crate::protocol::packets::{
    ConnectModel,
    ConnectPacket,
    PublishModel,
    PublishPacket,
    SubscribeModel,
    SubscribePacket,
    UnsubscribeModel,
    UnsubscribePacket,
};
use crate::utils::clock::current_timestamp;
use bytes::BytesMut;
use vstd::prelude::*;
use vstd::string::StringExecFns;
use vstd::utf8::{decode_utf8, valid_utf8};

verus! {

/// A decoded control packet.
pub enum Decoder {
    Connect(ConnectPacket),
    Publish(PublishPacket),
    Subscribe(SubscribePacket),
    Unsubscribe(UnsubscribePacket),
    PingReq,
    Disconnect,
}

/// What a decoded control packet holds.
pub enum PacketModel {
    Connect(ConnectModel),
    Publish(PublishModel),
    Subscribe(SubscribeModel),
    Unsubscribe(UnsubscribeModel),
    PingReq,
    Disconnect,
}

impl View for Decoder {
    type V = PacketModel;

    open spec fn view(&self) -> PacketModel {
        match self {
            Decoder::Connect(p) => PacketModel::Connect(p@),
            Decoder::Publish(p) => PacketModel::Publish(p@),
            Decoder::Subscribe(p) => PacketModel::Subscribe(p@),
            Decoder::Unsubscribe(p) => PacketModel::Unsubscribe(p@),
            Decoder::PingReq => PacketModel::PingReq,
            Decoder::Disconnect => PacketModel::Disconnect,
        }
    }
}

/// The view of an optional packet.
pub open spec fn opt_packet_view(p: Option<Decoder>) -> Option<PacketModel> {
    match p {
        Some(d) => Some(d@),
        None => None,
    }
}

/// What one attempt to decode the front of a buffer yields.
pub enum DecodeOutcome {
    /// A whole frame was taken off the buffer and understood.
    Packet(Decoder),
    /// The buffer does not hold a whole frame yet.
    Incomplete,
    /// The frame is of a type that the broker does not read.
    Unsupported,
    /// The frame breaks the format.
    Malformed,
}

/// What the front of a byte sequence holds when read as a frame, and how
/// many bytes the reading takes off.
pub enum FrameModel {
    Packet { packet: PacketModel, used: nat },
    Incomplete,
    Unsupported,
    Malformed { used: nat },
}

impl FrameModel {
    /// The number of bytes that the reading takes off the front.
    pub open spec fn used(self) -> nat {
        match self {
            FrameModel::Packet { used, .. } => used,
            FrameModel::Malformed { used } => used,
            _ => 0,
        }
    }

    /// The packet, where the reading yields one.
    pub open spec fn packet(self) -> Option<PacketModel> {
        match self {
            FrameModel::Packet { packet, .. } => Some(packet),
            _ => None,
        }
    }
}

impl DecodeOutcome {
    /// Whether the outcome is what the model says, leaving aside the count
    /// of bytes.
    pub open spec fn agrees_with(self, model: FrameModel) -> bool {
        match self {
            DecodeOutcome::Packet(d) => model.packet() == Some(d@),
            DecodeOutcome::Incomplete => model == FrameModel::Incomplete,
            DecodeOutcome::Unsupported => model == FrameModel::Unsupported,
            DecodeOutcome::Malformed => model is Malformed,
        }
    }
}

/// A length-prefixed string at the front of `bytes`: two bytes of length,
/// most significant first, then that many bytes of UTF-8. The result is the
/// string and what follows it.
pub open spec fn take_string(bytes: Seq<u8>) -> Option<(Seq<char>, Seq<u8>)> {
    if bytes.len() < 2 {
        None
    } else {
        let n = be16(bytes[0], bytes[1]) as int;
        if bytes.len() - 2 < n {
            None
        } else if !valid_utf8(bytes.subrange(2, 2 + n)) {
            None
        } else {
            Some((decode_utf8(bytes.subrange(2, 2 + n)), bytes.skip(2 + n)))
        }
    }
}

/// A string that is there only if `present` says so.
pub open spec fn take_optional_string(present: bool, bytes: Seq<u8>) -> Option<
    (Option<Seq<char>>, Seq<u8>),
> {
    if present {
        match take_string(bytes) {
            Some((s, rest)) => Some((Some(s), rest)),
            None => None,
        }
    } else {
        Some((None, bytes))
    }
}

/// The will topic and the will message, read and dropped, if `present`.
pub open spec fn skip_will(present: bool, bytes: Seq<u8>) -> Option<Seq<u8>> {
    if present {
        match take_string(bytes) {
            Some((_, after_topic)) => match take_string(after_topic) {
                Some((_, after_message)) => Some(after_message),
                None => None,
            },
            None => None,
        }
    } else {
        Some(bytes)
    }
}

/// The two protocol revisions that the broker speaks.
pub open spec fn accepted_protocol(name: Seq<char>, level: u8) -> bool {
    (name == "MQTT"@ && level == 4) || (name == "MQIsdp"@ && level == 3)
}

/// The body of a Connect frame.
pub open spec fn decode_connect(body: Seq<u8>) -> Option<ConnectModel> {
    match take_string(body) {
        None => None,
        Some((name, after_name)) => {
            if after_name.len() < 1 || !accepted_protocol(name, after_name[0]) || after_name.len()
                < 4 {
                None
            } else {
                let flags = after_name[1];
                match take_string(after_name.skip(4)) {
                    None => None,
                    Some((client_id, after_id)) => {
                        if client_id.len() == 0 {
                            None
                        } else {
                            match skip_will(flags & 0x04 != 0, after_id) {
                                None => None,
                                Some(after_will) => match take_optional_string(
                                    flags & 0x80 != 0,
                                    after_will,
                                ) {
                                    None => None,
                                    Some((username, after_user)) => match take_optional_string(
                                        flags & 0x40 != 0,
                                        after_user,
                                    ) {
                                        None => None,
                                        Some((password, _)) => Some(
                                            ConnectModel {
                                                client_id,
                                                keep_alive: be16(after_name[2], after_name[3]),
                                                clean_session: flags & 0x02 != 0,
                                                username,
                                                password,
                                            },
                                        ),
                                    },
                                },
                            }
                        }
                    },
                }
            }
        },
    }
}

/// The quality of service that the flags of a Publish frame ask for.
pub open spec fn publish_qos(flags: u8) -> u8 {
    (flags & 0x06) >> 1
}

/// The body of a Publish frame with the given header flags.
pub open spec fn decode_publish(flags: u8, body: Seq<u8>) -> Option<PublishModel> {
    let qos = publish_qos(flags);
    if qos > 2 {
        None
    } else {
        match take_string(body) {
            None => None,
            Some((topic, rest)) => {
                if qos == 0 {
                    Some(
                        PublishModel {
                            packet_id: None,
                            topic,
                            payload: rest,
                            qos,
                            retain: flags & 0x01 != 0,
                            dup: flags & 0x08 != 0,
                        },
                    )
                } else if rest.len() < 2 {
                    None
                } else {
                    Some(
                        PublishModel {
                            packet_id: Some(be16(rest[0], rest[1])),
                            topic,
                            payload: rest.skip(2),
                            qos,
                            retain: flags & 0x01 != 0,
                            dup: flags & 0x08 != 0,
                        },
                    )
                }
            },
        }
    }
}

/// The body of a Subscribe frame, decoded at time `now`.
pub open spec fn decode_subscribe(body: Seq<u8>, now: i64) -> Option<SubscribeModel> {
    if body.len() < 2 {
        None
    } else {
        match take_string(body.skip(2)) {
            None => None,
            Some((topic, rest)) => {
                if rest.len() < 1 {
                    None
                } else {
                    Some(
                        SubscribeModel {
                            packet_id: be16(body[0], body[1]),
                            topic,
                            qos: rest[0],
                            subscribed_at: now,
                        },
                    )
                }
            },
        }
    }
}

/// The body of an Unsubscribe frame.
pub open spec fn decode_unsubscribe(body: Seq<u8>) -> Option<UnsubscribeModel> {
    if body.len() < 2 {
        None
    } else {
        match take_string(body.skip(2)) {
            None => None,
            Some((topic, _)) => Some(
                UnsubscribeModel { packet_id: be16(body[0], body[1]), topic },
            ),
        }
    }
}

/// The body of a frame of an inbound type, decoded at time `now`.
pub open spec fn decode_body(packet_type: MqttPacketType, flags: u8, body: Seq<u8>, now: i64)
    -> Option<PacketModel> {
    match packet_type {
        MqttPacketType::Connect => match decode_connect(body) {
            Some(p) => Some(PacketModel::Connect(p)),
            None => None,
        },
        MqttPacketType::Publish => match decode_publish(flags, body) {
            Some(p) => Some(PacketModel::Publish(p)),
            None => None,
        },
        MqttPacketType::Subscribe => match decode_subscribe(body, now) {
            Some(p) => Some(PacketModel::Subscribe(p)),
            None => None,
        },
        MqttPacketType::Unsubscribe => match decode_unsubscribe(body) {
            Some(p) => Some(PacketModel::Unsubscribe(p)),
            None => None,
        },
        MqttPacketType::PingReq => Some(PacketModel::PingReq),
        MqttPacketType::Disconnect => Some(PacketModel::Disconnect),
        _ => None,
    }
}

/// One frame at the front of `bytes`, decoded at time `now`.
///
/// A frame whose bytes are not all there yet is incomplete and takes off
/// nothing. A frame of a type that the broker does not read is unsupported
/// and takes off nothing. A whole frame of an inbound type is taken off,
/// whether its body holds to the format or not.
pub open spec fn decode_frame(bytes: Seq<u8>, now: i64) -> FrameModel {
    match read_header(bytes) {
        HeaderRead::Incomplete => FrameModel::Incomplete,
        HeaderRead::Unsupported => FrameModel::Unsupported,
        HeaderRead::Overlong => FrameModel::Malformed { used: 0 },
        HeaderRead::Header { packet_type, flags, remaining_length, used } => {
            if !packet_type.is_inbound() {
                FrameModel::Unsupported
            } else if bytes.len() < used + remaining_length {
                FrameModel::Incomplete
            } else {
                let body = bytes.subrange(used as int, (used + remaining_length) as int);
                match decode_body(packet_type, flags, body, now) {
                    Some(packet) => FrameModel::Packet { packet, used: used + remaining_length },
                    None => FrameModel::Malformed { used: used + remaining_length },
                }
            }
        },
    }
}

/// Takes a length-prefixed string off the front of the buffer. Where the
/// buffer does not start with one, it is left as it is.
pub fn read_string(buf: &mut BytesMut) -> (s: Option<String>)
    ensures
        match take_string(buffer_bytes(*old(buf))) {
            Some((chars, rest)) => {
                &&& s matches Some(text)
                &&& text@ == chars
                &&& buffer_bytes(*final(buf)) == rest
            },
            None => s is None && buffer_bytes(*final(buf)) == buffer_bytes(*old(buf)),
        },
{
    let len: usize = buffer_len(buf);
    if len < 2 {
        return None;
    }
    let hi: u8 = buffer_byte(buf, 0);
    let lo: u8 = buffer_byte(buf, 1);
    let n: usize = ((hi as usize) << 8) | (lo as usize);
    assert(n == be16(hi, lo)) by (bit_vector)
        requires
            n == ((hi as usize) << 8) | (lo as usize),
    ;
    if len - 2 < n {
        return None;
    }
    let text = string_from_utf8(buffer_copy(buf, 2, 2 + n));
    if text.is_some() {
        buffer_advance(buf, 2 + n);
    }
    text
}

/// Reads a string that is there only if `present` says so.
fn read_optional_string(present: bool, buf: &mut BytesMut) -> (r: Option<Option<String>>)
    ensures
        match take_optional_string(present, buffer_bytes(*old(buf))) {
            Some((chars, rest)) => {
                &&& r matches Some(text)
                &&& crate::protocol::packets::opt_string_view(text) == chars
                &&& buffer_bytes(*final(buf)) == rest
            },
            None => r is None,
        },
{
    if present {
        match read_string(buf) {
            Some(s) => Some(Some(s)),
            None => None,
        }
    } else {
        Some(None)
    }
}

/// Decodes the body of a Connect frame.
pub fn parse_connect(body: BytesMut) -> (packet: Option<Decoder>)
    ensures
        opt_packet_view(packet) == match decode_connect(buffer_bytes(body)) {
            Some(p) => Some(PacketModel::Connect(p)),
            None => None,
        },
{
    let mut buf = body;
    let protocol_name = match read_string(&mut buf) {
        Some(name) => name,
        None => {
            return None;
        },
    };
    if buffer_len(&buf) < 1 {
        return None;
    }
    let ghost after_name = buffer_bytes(buf);
    let protocol_level: u8 = buffer_get_u8(&mut buf);
    let current = String::from_str("MQTT");
    let legacy = String::from_str("MQIsdp");
    if !((protocol_name == current && protocol_level == 4) || (protocol_name == legacy
        && protocol_level == 3)) {
        return None;
    }
    if buffer_len(&buf) < 3 {
        return None;
    }
    let connect_flags: u8 = buffer_get_u8(&mut buf);
    let keep_alive: u16 = buffer_get_u16(&mut buf);
    assert(buffer_bytes(buf) =~= after_name.skip(4));
    let clean_session = (connect_flags & 0x02) != 0;
    let will_flag = (connect_flags & 0x04) != 0;
    let password_flag = (connect_flags & 0x40) != 0;
    let username_flag = (connect_flags & 0x80) != 0;
    let client_id = match read_string(&mut buf) {
        Some(id) => id,
        None => {
            return None;
        },
    };
    if client_id.as_str().is_empty() {
        return None;
    }
    if will_flag {
        if read_string(&mut buf).is_none() {
            return None;
        }
        if read_string(&mut buf).is_none() {
            return None;
        }
    }
    let username = match read_optional_string(username_flag, &mut buf) {
        Some(u) => u,
        None => {
            return None;
        },
    };
    let password = match read_optional_string(password_flag, &mut buf) {
        Some(p) => p,
        None => {
            return None;
        },
    };
    Some(
        Decoder::Connect(
            ConnectPacket { client_id, keep_alive, clean_session, username, password },
        ),
    )
}

/// Decodes the body of a Publish frame with the given header flags.
pub fn parse_publish(flags: u8, body: BytesMut) -> (packet: Option<Decoder>)
    ensures
        opt_packet_view(packet) == match decode_publish(flags, buffer_bytes(body)) {
            Some(p) => Some(PacketModel::Publish(p)),
            None => None,
        },
{
    let mut buf = body;
    let dup = (flags & 0x08) != 0;
    let qos: u8 = (flags & 0x06) >> 1;
    let retain = (flags & 0x01) != 0;
    if qos > 2 {
        return None;
    }
    let topic = match read_string(&mut buf) {
        Some(t) => t,
        None => {
            return None;
        },
    };
    let packet_id = if qos > 0 {
        if buffer_len(&buf) < 2 {
            return None;
        }
        Some(buffer_get_u16(&mut buf))
    } else {
        None
    };
    let rest: usize = buffer_len(&buf);
    let payload = buffer_copy(&buf, 0, rest);
    assert(payload@ =~= buffer_bytes(buf));
    Some(Decoder::Publish(PublishPacket { packet_id, topic, payload, qos, retain, dup }))
}

/// Decodes the body of a Subscribe frame, stamping it with the time `now`.
pub fn parse_subscribe_at(body: BytesMut, now: i64) -> (packet: Option<Decoder>)
    ensures
        opt_packet_view(packet) == match decode_subscribe(buffer_bytes(body), now) {
            Some(p) => Some(PacketModel::Subscribe(p)),
            None => None,
        },
{
    let mut buf = body;
    if buffer_len(&buf) < 2 {
        return None;
    }
    let packet_id: u16 = buffer_get_u16(&mut buf);
    let topic = match read_string(&mut buf) {
        Some(t) => t,
        None => {
            return None;
        },
    };
    if buffer_len(&buf) < 1 {
        return None;
    }
    let qos: u8 = buffer_get_u8(&mut buf);
    Some(Decoder::Subscribe(SubscribePacket { packet_id, topic, qos, subscribed_at: now }))
}

/// Decodes the body of an Unsubscribe frame.
pub fn parse_unsubscribe(body: BytesMut) -> (packet: Option<Decoder>)
    ensures
        opt_packet_view(packet) == match decode_unsubscribe(buffer_bytes(body)) {
            Some(p) => Some(PacketModel::Unsubscribe(p)),
            None => None,
        },
{
    let mut buf = body;
    if buffer_len(&buf) < 2 {
        return None;
    }
    let packet_id: u16 = buffer_get_u16(&mut buf);
    let topic = match read_string(&mut buf) {
        Some(t) => t,
        None => {
            return None;
        },
    };
    Some(Decoder::Unsubscribe(UnsubscribePacket { packet_id, topic }))
}

impl Decoder {
    /// Tries to take one frame off the front of the buffer, stamping a
    /// subscription with the time `now`.
    ///
    /// The buffer loses exactly the bytes that the model says the reading
    /// takes off: a whole frame of an inbound type, or nothing.
    pub fn decode_at(buf: &mut BytesMut, now: i64) -> (outcome: DecodeOutcome)
        ensures
            outcome.agrees_with(decode_frame(buffer_bytes(*old(buf)), now)),
            buffer_bytes(*final(buf)) == buffer_bytes(*old(buf)).skip(
                decode_frame(buffer_bytes(*old(buf)), now).used() as int,
            ),
    {
        assert(buffer_bytes(*buf).skip(0) =~= buffer_bytes(*buf));
        match Header::peek(buf) {
            HeaderPeek::Incomplete => DecodeOutcome::Incomplete,
            HeaderPeek::Unsupported => DecodeOutcome::Unsupported,
            HeaderPeek::Overlong => DecodeOutcome::Malformed,
            HeaderPeek::Header { header, used } => {
                let inbound = match header.packet_type {
                    MqttPacketType::Connect => true,
                    MqttPacketType::Publish => true,
                    MqttPacketType::Subscribe => true,
                    MqttPacketType::Unsubscribe => true,
                    MqttPacketType::PingReq => true,
                    MqttPacketType::Disconnect => true,
                    _ => false,
                };
                if !inbound {
                    return DecodeOutcome::Unsupported;
                }
                if buffer_len(buf) - used < header.remaining_length {
                    return DecodeOutcome::Incomplete;
                }
                let ghost whole = buffer_bytes(*buf);
                buffer_advance(buf, used);
                let body = buffer_split_to(buf, header.remaining_length);
                assert(buffer_bytes(body) =~= whole.subrange(
                    used as int,
                    used + header.remaining_length,
                ));
                assert(buffer_bytes(*buf) =~= whole.skip(used + header.remaining_length));
                let packet = match header.packet_type {
                    MqttPacketType::Connect => parse_connect(body),
                    MqttPacketType::Publish => parse_publish(header.flags, body),
                    MqttPacketType::Subscribe => parse_subscribe_at(body, now),
                    MqttPacketType::Unsubscribe => parse_unsubscribe(body),
                    MqttPacketType::PingReq => Some(Decoder::PingReq),
                    MqttPacketType::Disconnect => Some(Decoder::Disconnect),
                    _ => None,
                };
                match packet {
                    Some(p) => DecodeOutcome::Packet(p),
                    None => DecodeOutcome::Malformed,
                }
            },
        }
    }

    /// Tries to take one frame off the front of the buffer, stamping a
    /// subscription with the current time.
    pub fn decode(buf: &mut BytesMut) -> (outcome: DecodeOutcome)
        ensures
            exists|now: i64|
                decoded_at(buffer_bytes(*old(buf)), now, outcome, buffer_bytes(*final(buf))),
    {
        let now: i64 = current_timestamp();
        let outcome = Self::decode_at(buf, now);
        assert(decoded_at(buffer_bytes(*old(buf)), now, outcome, buffer_bytes(*buf)));
        outcome
    }

    /// Takes one frame off the front of the buffer and returns its packet,
    /// if the buffer starts with a whole, well-formed frame of an inbound
    /// type.
    pub fn parse_packet(buf: &mut BytesMut) -> (packet: Option<Decoder>)
        ensures
            exists|now: i64|
                {
                    &&& #[trigger] decode_frame(buffer_bytes(*old(buf)), now).packet()
                        == opt_packet_view(packet)
                    &&& buffer_bytes(*final(buf)) == buffer_bytes(*old(buf)).skip(
                        decode_frame(buffer_bytes(*old(buf)), now).used() as int,
                    )
                },
    {
        let now: i64 = current_timestamp();
        let outcome = Self::decode_at(buf, now);
        let packet = match outcome {
            DecodeOutcome::Packet(p) => Some(p),
            _ => None,
        };
        assert(decode_frame(buffer_bytes(*old(buf)), now).packet() == opt_packet_view(packet));
        packet
    }
}

/// Whether decoding `before` at time `now` yields `outcome` and leaves
/// `after` in the buffer.
pub open spec fn decoded_at(before: Seq<u8>, now: i64, outcome: DecodeOutcome, after: Seq<u8>)
    -> bool {
    &&& outcome.agrees_with(decode_frame(before, now))
    &&& after == before.skip(decode_frame(before, now).used() as int)
}

} // verus!
