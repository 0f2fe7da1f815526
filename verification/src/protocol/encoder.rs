//! Encoding: the acknowledgements that the broker answers with, and the
//! publishes that it fans out.

use crate::protocol::buffer::be16;
use crate::protocol::packets::{PublishModel, PublishPacket};
use crate::protocol::varint::{encode_remaining_length, varint_bytes, MAX_REMAINING_LENGTH};
use vstd::prelude::*;
use vstd::utf8::encode_utf8;

verus! {

/// A reply to a client.
pub enum Encoder {
    ConnAck { session_present: bool },
    SubAck { packet_id: u16 },
    UnsubAck { packet_id: u16 },
    PubAck { packet_id: u16 },
    PingResp,
    Disconnect,
    /// Nothing is sent.
    NoReply,
}

/// The more significant byte of a 16-bit number.
pub open spec fn hi_byte(v: u16) -> u8 {
    (v / 256) as u8
}

/// The less significant byte of a 16-bit number.
pub open spec fn lo_byte(v: u16) -> u8 {
    (v % 256) as u8
}

impl Encoder {
    /// The bytes that stand for the reply on the wire.
    pub open spec fn wire(self) -> Seq<u8> {
        match self {
            Encoder::ConnAck { session_present } => seq![
                0x20u8,
                0x02u8,
                if session_present {
                    0x01u8
                } else {
                    0x00u8
                },
                0x00u8,
            ],
            Encoder::SubAck { packet_id } => seq![
                0x90u8,
                0x03u8,
                hi_byte(packet_id),
                lo_byte(packet_id),
                0x00u8,
            ],
            Encoder::UnsubAck { packet_id } => seq![
                0xB0u8,
                0x02u8,
                hi_byte(packet_id),
                lo_byte(packet_id),
            ],
            Encoder::PubAck { packet_id } => seq![
                0x40u8,
                0x02u8,
                hi_byte(packet_id),
                lo_byte(packet_id),
            ],
            Encoder::PingResp => seq![0xD0u8, 0x00u8],
            Encoder::Disconnect => seq![0xE0u8, 0x00u8],
            Encoder::NoReply => Seq::empty(),
        }
    }

    /// The bytes to write for the reply; none where nothing is sent.
    pub fn to_bytes(&self) -> (bytes: Vec<u8>)
        ensures
            bytes@ == self.wire(),
    {
        let bytes = match self {
            Encoder::ConnAck { session_present } => vec![
                0x20u8,
                0x02u8,
                if *session_present {
                    0x01u8
                } else {
                    0x00u8
                },
                0x00u8,
            ],
            Encoder::SubAck { packet_id } => {
                let (hi, lo) = split_u16(*packet_id);
                vec![0x90u8, 0x03u8, hi, lo, 0x00u8]
            },
            Encoder::UnsubAck { packet_id } => {
                let (hi, lo) = split_u16(*packet_id);
                vec![0xB0u8, 0x02u8, hi, lo]
            },
            Encoder::PubAck { packet_id } => {
                let (hi, lo) = split_u16(*packet_id);
                vec![0x40u8, 0x02u8, hi, lo]
            },
            Encoder::PingResp => vec![0xD0u8, 0x00u8],
            Encoder::Disconnect => vec![0xE0u8, 0x00u8],
            Encoder::NoReply => Vec::new(),
        };
        assert(bytes@ =~= self.wire());
        bytes
    }
}

/// The two bytes of a 16-bit number, most significant first.
pub fn split_u16(v: u16) -> (bytes: (u8, u8))
    ensures
        bytes.0 == hi_byte(v),
        bytes.1 == lo_byte(v),
        be16(bytes.0, bytes.1) == v,
{
    let hi: u8 = (v >> 8) as u8;
    let lo: u8 = (v & 0xFF) as u8;
    assert(hi == (v / 256) as u8 && lo == (v % 256) as u8) by (bit_vector)
        requires
            hi == (v >> 8) as u8,
            lo == (v & 0xFF) as u8,
    ;
    (hi, lo)
}

/// A byte string behind its length: two bytes of length, most significant
/// first, then the bytes.
pub open spec fn length_prefixed(bytes: Seq<u8>) -> Seq<u8>
    recommends
        bytes.len() <= 65_535,
{
    seq![hi_byte(bytes.len() as u16), lo_byte(bytes.len() as u16)] + bytes
}

/// A string as it stands on the wire: its UTF-8 bytes behind their length.
pub open spec fn string_bytes(chars: Seq<char>) -> Seq<u8> {
    length_prefixed(encode_utf8(chars))
}

/// The first byte of a Publish frame.
pub open spec fn publish_first_byte(dup: bool, qos: u8, retain: bool) -> u8
    recommends
        qos <= 2,
{
    (0x30 + (if dup {
        8int
    } else {
        0int
    }) + 2 * qos + (if retain {
        1int
    } else {
        0int
    })) as u8
}

/// The packet identifier of a publish, which is on the wire only above
/// quality of service 0.
pub open spec fn publish_id_bytes(p: PublishModel) -> Seq<u8> {
    if p.qos > 0 && p.packet_id is Some {
        seq![hi_byte(p.packet_id.unwrap()), lo_byte(p.packet_id.unwrap())]
    } else {
        Seq::empty()
    }
}

/// The length of what follows the fixed header of a Publish frame.
pub open spec fn publish_remaining_length(p: PublishModel) -> nat {
    2 + encode_utf8(p.topic).len() + p.payload.len() + (if p.qos > 0 {
        2nat
    } else {
        0nat
    })
}

/// Whether a publish fits the frame format: a quality of service of at most
/// 2, a packet identifier where the quality of service is above 0, a topic
/// of at most 65,535 bytes, and a body that four length bytes can announce.
pub open spec fn publish_encodable(p: PublishModel) -> bool {
    &&& p.qos <= 2
    &&& p.qos > 0 ==> p.packet_id is Some
    &&& encode_utf8(p.topic).len() <= 65_535
    &&& publish_remaining_length(p) <= MAX_REMAINING_LENGTH
}

/// The frame that carries a publish.
pub open spec fn publish_bytes(p: PublishModel) -> Seq<u8> {
    seq![publish_first_byte(p.dup, p.qos, p.retain)] + varint_bytes(publish_remaining_length(p))
        + string_bytes(p.topic) + publish_id_bytes(p) + p.payload
}

/// Appends a copy of `src` to `out`.
pub fn append_bytes(out: &mut Vec<u8>, src: &[u8])
    ensures
        final(out)@ == old(out)@ + src@,
{
    out.extend_from_slice(src);
    assert(out@ =~= old(out)@ + src@);
}

/// Appends a string to `out` as it stands on the wire.
pub fn write_string(out: &mut Vec<u8>, s: &str)
    requires
        encode_utf8(s@).len() <= 65_535,
    ensures
        final(out)@ == old(out)@ + string_bytes(s@),
{
    let bytes = s.as_bytes();
    let (hi, lo) = split_u16(bytes.len() as u16);
    out.push(hi);
    out.push(lo);
    append_bytes(out, bytes);
    assert(out@ =~= old(out)@ + string_bytes(s@));
}

/// Computes the first byte of a Publish frame.
pub fn first_byte_of(dup: bool, qos: u8, retain: bool) -> (byte: u8)
    requires
        qos <= 2,
    ensures
        byte == publish_first_byte(dup, qos, retain),
{
    let d: u8 = if dup {
        0x08
    } else {
        0
    };
    let r: u8 = if retain {
        0x01
    } else {
        0
    };
    let byte: u8 = 0x30 | d | ((qos & 0x03) << 1) | r;
    assert(byte == 0x30 + d + 2 * qos + r) by (bit_vector)
        requires
            byte == 0x30 | d | ((qos & 0x03) << 1) | r,
            d == 0 || d == 8,
            r == 0 || r == 1,
            qos <= 2,
    ;
    byte
}

/// Encodes a publish for delivery to a subscriber.
pub fn encode_publish(msg: &PublishPacket) -> (out: Vec<u8>)
    requires
        publish_encodable(msg@),
    ensures
        out@ == publish_bytes(msg@),
{
    let mut out: Vec<u8> = Vec::new();
    let qos: u8 = msg.qos;
    out.push(first_byte_of(msg.dup, qos, msg.retain));
    let topic = msg.topic.as_str();
    let mut remaining_len: usize = 2 + topic.len() + msg.payload.len();
    if qos > 0 {
        remaining_len = remaining_len + 2;
    }
    let mut length = encode_remaining_length(remaining_len);
    out.append(&mut length);
    write_string(&mut out, topic);
    if qos > 0 {
        match msg.packet_id {
            Some(packet_id) => {
                let (hi, lo) = split_u16(packet_id);
                out.push(hi);
                out.push(lo);
            },
            None => {},
        }
    }
    append_bytes(&mut out, msg.payload.as_slice());
    assert(out@ =~= publish_bytes(msg@));
    out
}

/// Encodes a publish if it fits the frame format, and tells so otherwise.
pub fn try_encode_publish(msg: &PublishPacket) -> (out: Option<Vec<u8>>)
    ensures
        publish_encodable(msg@) ==> (out matches Some(bytes) && bytes@ == publish_bytes(msg@)),
        !publish_encodable(msg@) ==> out is None,
{
    if msg.qos > 2 || (msg.qos > 0 && msg.packet_id.is_none()) {
        return None;
    }
    let topic_len: usize = msg.topic.as_str().as_bytes().len();
    let payload_len: usize = msg.payload.len();
    if topic_len > 65_535 || payload_len > MAX_REMAINING_LENGTH {
        return None;
    }
    let framing: usize = if msg.qos > 0 {
        4
    } else {
        2
    };
    if framing + topic_len + payload_len > MAX_REMAINING_LENGTH {
        return None;
    }
    Some(encode_publish(msg))
}

} // verus!
