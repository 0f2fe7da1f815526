//! Encoding and decoding undo each other.

use crate::enums::packet_type::MqttPacketType;
use crate::protocol::buffer::be16;
use crate::protocol::decoder::{
    decode_body,
    decode_frame,
    decode_publish,
    publish_qos,
    take_string,
    FrameModel,
    PacketModel,
};
use crate::protocol::encoder::{
    hi_byte,
    length_prefixed,
    lo_byte,
    publish_bytes,
    publish_encodable,
    publish_first_byte,
    publish_id_bytes,
    publish_remaining_length,
    string_bytes,
};
use crate::protocol::header::{read_header, HeaderRead};
use crate::protocol::packets::PublishModel;
use crate::protocol::varint::{
    read_varint,
    varint_bytes,
    varint_width,
    VarintRead,
    MAX_REMAINING_LENGTH,
};
use vstd::prelude::*;
use vstd::utf8::{decode_utf8, encode_utf8, valid_utf8};

verus! {

/// The encoding of a length of at most 268,435,455 is one to four bytes
/// long, and reading it back, whatever follows it, gives the length and
/// takes off exactly those bytes.
pub proof fn lemma_varint_roundtrip(n: nat, rest: Seq<u8>)
    requires
        n <= MAX_REMAINING_LENGTH,
    ensures
        varint_bytes(n).len() == varint_width(n),
        read_varint(varint_bytes(n) + rest) == (VarintRead::Value {
            value: n,
            used: varint_width(n),
        }),
{
    reveal_with_fuel(varint_bytes, 5);
    let b = varint_bytes(n);
    let all = b + rest;
    assert(forall|i: int| 0 <= i < b.len() ==> all[i] == b[i]);
    if n < 128 {
        assert(b =~= seq![n as u8]);
    } else if n < 16_384 {
        assert(b =~= seq![(n % 128 + 128) as u8, (n / 128) as u8]);
    } else if n < 2_097_152 {
        assert(b =~= seq![
            (n % 128 + 128) as u8,
            (n / 128 % 128 + 128) as u8,
            (n / 128 / 128) as u8,
        ]);
    } else {
        assert(b =~= seq![
            (n % 128 + 128) as u8,
            (n / 128 % 128 + 128) as u8,
            (n / 128 / 128 % 128 + 128) as u8,
            (n / 128 / 128 / 128) as u8,
        ]);
    }
}

/// No sequence of bytes that reads as a length does so in fewer bytes than
/// the encoding of that length has.
pub proof fn lemma_varint_minimal(bytes: Seq<u8>)
    ensures
        read_varint(bytes) matches VarintRead::Value { value, used } ==> varint_width(value)
            <= used && value <= MAX_REMAINING_LENGTH,
{
}

/// A byte string of at most 65,535 bytes that is valid UTF-8, written
/// behind its length and read back, whatever follows it, gives the text
/// that the bytes spell, whose encoding is those bytes again.
pub proof fn lemma_string_roundtrip(bytes: Seq<u8>, rest: Seq<u8>)
    requires
        bytes.len() <= 65_535,
        valid_utf8(bytes),
    ensures
        take_string(length_prefixed(bytes) + rest) == Some((decode_utf8(bytes), rest)),
        encode_utf8(decode_utf8(bytes)) == bytes,
{
    vstd::utf8::decode_utf8_encode_utf8(bytes);
    let n = bytes.len() as u16;
    let all = length_prefixed(bytes) + rest;
    assert(be16(hi_byte(n), lo_byte(n)) == n);
    assert(all[0] == hi_byte(n));
    assert(all[1] == lo_byte(n));
    assert(all.subrange(2, 2 + n) =~= bytes);
    assert(all.skip(2 + n) =~= rest);
}

/// A text whose UTF-8 encoding has at most 65,535 bytes, written as a
/// length-prefixed string and read back, whatever follows it, is the same
/// text.
pub proof fn lemma_text_roundtrip(chars: Seq<char>, rest: Seq<u8>)
    requires
        encode_utf8(chars).len() <= 65_535,
    ensures
        take_string(string_bytes(chars) + rest) == Some((chars, rest)),
{
    vstd::utf8::encode_utf8_valid_utf8(chars);
    vstd::utf8::encode_utf8_decode_utf8(chars);
    lemma_string_roundtrip(encode_utf8(chars), rest);
}

/// The publish that a frame made from `p` decodes to: `p` itself, but that
/// a packet identifier is carried only above quality of service 0.
pub open spec fn publish_on_wire(p: PublishModel) -> PublishModel {
    PublishModel {
        packet_id: if p.qos > 0 {
            p.packet_id
        } else {
            None
        },
        topic: p.topic,
        payload: p.payload,
        qos: p.qos,
        retain: p.retain,
        dup: p.dup,
    }
}

/// The body of the frame that carries a publish.
pub open spec fn publish_body(p: PublishModel) -> Seq<u8> {
    string_bytes(p.topic) + publish_id_bytes(p) + p.payload
}

/// The flags that the first byte of a Publish frame carries give back the
/// duplicate flag, the quality of service and the retain flag.
proof fn lemma_publish_flags(dup: bool, qos: u8, retain: bool)
    requires
        qos <= 2,
    ensures
        publish_first_byte(dup, qos, retain) >> 4 == 3,
        publish_qos(publish_first_byte(dup, qos, retain) & 0x0F) == qos,
        ((publish_first_byte(dup, qos, retain) & 0x0F) & 0x01 != 0) == retain,
        ((publish_first_byte(dup, qos, retain) & 0x0F) & 0x08 != 0) == dup,
{
    let d: u8 = if dup {
        8
    } else {
        0
    };
    let r: u8 = if retain {
        1
    } else {
        0
    };
    let f: u8 = (0x30 + d + 2 * qos + r) as u8;
    assert(f == publish_first_byte(dup, qos, retain));
    assert({
        &&& f >> 4 == 3
        &&& ((f & 0x0F) & 0x06) >> 1 == qos
        &&& ((f & 0x0F) & 0x01 != 0) == (r == 1)
        &&& ((f & 0x0F) & 0x08 != 0) == (d == 8)
    }) by (bit_vector)
        requires
            f == (0x30 + d + 2 * qos + r) as u8,
            d == 0 || d == 8,
            r == 0 || r == 1,
            qos <= 2,
    ;
}

/// The body of the frame that carries a publish decodes to that publish.
proof fn lemma_publish_body(p: PublishModel)
    requires
        publish_encodable(p),
    ensures
        publish_body(p).len() == publish_remaining_length(p),
        decode_publish(publish_first_byte(p.dup, p.qos, p.retain) & 0x0F, publish_body(p))
            == Some(publish_on_wire(p)),
{
    let body = publish_body(p);
    let after_topic = publish_id_bytes(p) + p.payload;
    lemma_publish_flags(p.dup, p.qos, p.retain);
    lemma_text_roundtrip(p.topic, after_topic);
    assert(body =~= string_bytes(p.topic) + after_topic);
    if p.qos > 0 {
        let id = p.packet_id.unwrap();
        assert(be16(hi_byte(id), lo_byte(id)) == id);
        assert(after_topic[0] == hi_byte(id));
        assert(after_topic[1] == lo_byte(id));
        assert(after_topic.skip(2) =~= p.payload);
    } else {
        assert(after_topic =~= p.payload);
    }
}

/// A first byte that names a packet type, the encoding of a length and a
/// body of that length read as a whole header, behind which the body
/// stands.
proof fn lemma_frame_header(first: u8, packet_type: MqttPacketType, body: Seq<u8>, rest: Seq<u8>)
    requires
        body.len() <= MAX_REMAINING_LENGTH,
        MqttPacketType::of_code(first >> 4) == Some(packet_type),
    ensures
        read_header(seq![first] + varint_bytes(body.len()) + body + rest) == (HeaderRead::Header {
            packet_type,
            flags: first & 0x0F,
            remaining_length: body.len(),
            used: 1 + varint_width(body.len()),
        }),
        (seq![first] + varint_bytes(body.len()) + body + rest).subrange(
            1 + varint_width(body.len()) as int,
            1 + varint_width(body.len()) + body.len() as int,
        ) == body,
{
    let n = body.len();
    let length = varint_bytes(n);
    let all = seq![first] + length + body + rest;
    lemma_varint_roundtrip(n, body + rest);
    assert(all.skip(1) =~= length + (body + rest));
    assert(all[0] == first);
    assert(all.subrange(1 + varint_width(n) as int, 1 + varint_width(n) + n as int) =~= body);
}

/// The frame made of a first byte that names an inbound packet type, the
/// encoding of the body's length and the body decodes as the body does, and
/// takes off exactly the frame.
proof fn lemma_frame_decodes(
    first: u8,
    packet_type: MqttPacketType,
    body: Seq<u8>,
    rest: Seq<u8>,
    now: i64,
)
    requires
        body.len() <= MAX_REMAINING_LENGTH,
        MqttPacketType::of_code(first >> 4) == Some(packet_type),
        packet_type.is_inbound(),
    ensures
        decode_frame(seq![first] + varint_bytes(body.len()) + body + rest, now) == (match decode_body(
            packet_type,
            first & 0x0F,
            body,
            now,
        ) {
            Some(packet) => FrameModel::Packet {
                packet,
                used: 1 + varint_width(body.len()) + body.len(),
            },
            None => FrameModel::Malformed { used: 1 + varint_width(body.len()) + body.len() },
        }),
{
    lemma_frame_header(first, packet_type, body, rest);
    lemma_varint_roundtrip(body.len(), Seq::empty());
}

/// The frame that carries a publish, decoded again, whatever follows it in
/// the buffer, gives that publish with its topic, payload, quality of
/// service, retain flag, duplicate flag and, above quality of service 0,
/// its packet identifier, and takes off exactly the frame.
pub proof fn lemma_publish_roundtrip(p: PublishModel, rest: Seq<u8>, now: i64)
    requires
        publish_encodable(p),
    ensures
        decode_frame(publish_bytes(p) + rest, now) == (FrameModel::Packet {
            packet: PacketModel::Publish(publish_on_wire(p)),
            used: publish_bytes(p).len(),
        }),
{
    let first = publish_first_byte(p.dup, p.qos, p.retain);
    let body = publish_body(p);
    let frame = seq![first] + varint_bytes(body.len()) + body;
    assert(first >> 4 == 3 && decode_publish(first & 0x0F, body) == Some(publish_on_wire(p))
        && body.len() <= MAX_REMAINING_LENGTH) by {
        lemma_publish_flags(p.dup, p.qos, p.retain);
        lemma_publish_body(p);
    }
    assert(publish_bytes(p) == frame) by {
        lemma_publish_body(p);
        assert(publish_bytes(p) =~= frame);
    }
    assert(frame.len() == 1 + varint_width(body.len()) + body.len()) by {
        lemma_varint_roundtrip(body.len(), rest);
    }
    assert(decode_body(MqttPacketType::Publish, first & 0x0F, body, now) == Some(
        PacketModel::Publish(publish_on_wire(p)),
    ));
    lemma_frame_decodes(first, MqttPacketType::Publish, body, rest, now);
}

} // verus!
