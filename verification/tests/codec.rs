use bytes::BytesMut;
use mqtt_broker::enums::packet_type::MqttPacketType;
use mqtt_broker::protocol::decoder::{
    parse_connect, parse_publish, parse_subscribe_at, parse_unsubscribe, read_string,
    DecodeOutcome, Decoder,
};
use mqtt_broker::protocol::encoder::{
    append_bytes, encode_publish, first_byte_of, split_u16, try_encode_publish, write_string,
    Encoder,
};
use mqtt_broker::protocol::header::{Header, HeaderPeek};
use mqtt_broker::protocol::packets::{clone_opt_string, PublishPacket};
use mqtt_broker::protocol::varint::{encode_remaining_length, MAX_REMAINING_LENGTH};

fn buf(bytes: &[u8]) -> BytesMut {
    BytesMut::from(bytes)
}

fn connect_frame(flags: u8, keep_alive: u16, tail: &[u8]) -> Vec<u8> {
    let mut body = vec![0, 4, b'M', b'Q', b'T', b'T', 4, flags];
    body.extend_from_slice(&keep_alive.to_be_bytes());
    body.extend_from_slice(tail);
    let mut frame = vec![0x10];
    frame.extend(encode_remaining_length(body.len()));
    frame.extend(body);
    frame
}

fn string(s: &str) -> Vec<u8> {
    let mut out = (s.len() as u16).to_be_bytes().to_vec();
    out.extend_from_slice(s.as_bytes());
    out
}

fn publish(topic: &str, payload: &[u8], qos: u8, id: Option<u16>) -> PublishPacket {
    PublishPacket {
        packet_id: id,
        topic: topic.to_string(),
        payload: payload.to_vec(),
        qos,
        retain: false,
        dup: false,
    }
}

#[test]
fn remaining_length_encodes_with_the_fewest_bytes() {
    assert_eq!(encode_remaining_length(0), vec![0x00]);
    assert_eq!(encode_remaining_length(1), vec![0x01]);
    assert_eq!(encode_remaining_length(127), vec![0x7F]);
    assert_eq!(encode_remaining_length(128), vec![0x80, 0x01]);
    assert_eq!(encode_remaining_length(321), vec![0xC1, 0x02]);
    assert_eq!(encode_remaining_length(16_383), vec![0xFF, 0x7F]);
    assert_eq!(encode_remaining_length(16_384), vec![0x80, 0x80, 0x01]);
    assert_eq!(encode_remaining_length(2_097_151), vec![0xFF, 0xFF, 0x7F]);
    assert_eq!(encode_remaining_length(2_097_152), vec![0x80, 0x80, 0x80, 0x01]);
    assert_eq!(
        encode_remaining_length(MAX_REMAINING_LENGTH),
        vec![0xFF, 0xFF, 0xFF, 0x7F]
    );
}

#[test]
fn remaining_length_round_trips() {
    let mut n: usize = 0;
    while n <= 2_097_151 {
        let mut b = buf(&encode_remaining_length(n));
        b.extend_from_slice(&[0xAA]);
        assert_eq!(Header::read_remaining_length(&mut b), Some(n));
        assert_eq!(&b[..], &[0xAA]);
        n = n * 3 + 1;
    }
    for n in [0usize, 127, 128, 16_383, 16_384, 2_097_151, 2_097_152, MAX_REMAINING_LENGTH] {
        let mut b = buf(&encode_remaining_length(n));
        assert_eq!(Header::read_remaining_length(&mut b), Some(n));
        assert!(b.is_empty());
    }
}

#[test]
fn remaining_length_waits_for_its_last_byte() {
    let mut b = buf(&[0x80, 0x80]);
    assert_eq!(Header::read_remaining_length(&mut b), None);
    assert_eq!(&b[..], &[0x80, 0x80]);
    let mut empty = buf(&[]);
    assert_eq!(Header::read_remaining_length(&mut empty), None);
}

#[test]
fn remaining_length_of_five_bytes_is_refused() {
    let mut b = buf(&[0xFF, 0xFF, 0xFF, 0xFF, 0x01]);
    assert_eq!(Header::read_remaining_length(&mut b), None);
    assert_eq!(b.len(), 5);
}

#[test]
fn header_peek_reads_a_length_of_two_bytes() {
    let b = buf(&[0x30, 0xC1, 0x02, 0x00]);
    match Header::peek(&b) {
        HeaderPeek::Header { header, used } => {
            assert_eq!(header.remaining_length, 321);
            assert_eq!(used, 3);
        }
        _ => panic!("a header was expected"),
    }
    assert_eq!(b.len(), 4);
}

#[test]
fn header_parse_takes_type_flags_and_length() {
    let mut b = buf(&[0x3D, 0x05, 1, 2, 3, 4, 5]);
    let header = Header::parse(&mut b).unwrap();
    assert_eq!(header.packet_type, MqttPacketType::Publish);
    assert_eq!(header.flags, 0x0D);
    assert_eq!(header.remaining_length, 5);
    assert_eq!(&b[..], &[1, 2, 3, 4, 5]);
}

#[test]
fn header_parse_leaves_the_buffer_when_it_fails() {
    let mut short = buf(&[0x30]);
    assert!(Header::parse(&mut short).is_none());
    assert_eq!(&short[..], &[0x30]);
    let mut unknown = buf(&[0x00, 0x00]);
    assert!(Header::parse(&mut unknown).is_none());
    assert_eq!(unknown.len(), 2);
    let mut reserved = buf(&[0xF0, 0x00]);
    assert!(Header::parse(&mut reserved).is_none());
    assert!(matches!(Header::peek(&reserved), HeaderPeek::Unsupported));
    let mut unfinished = buf(&[0x30, 0x80]);
    assert!(Header::parse(&mut unfinished).is_none());
    assert_eq!(&unfinished[..], &[0x30, 0x80]);
    assert!(matches!(Header::peek(&unfinished), HeaderPeek::Incomplete));
    let overlong = buf(&[0x30, 0x80, 0x80, 0x80, 0x80, 0x01]);
    assert!(matches!(Header::peek(&overlong), HeaderPeek::Overlong));
}

#[test]
fn packet_type_numbers() {
    assert_eq!(MqttPacketType::from_u8(0), None);
    assert_eq!(MqttPacketType::from_u8(1), Some(MqttPacketType::Connect));
    assert_eq!(MqttPacketType::from_u8(2), Some(MqttPacketType::ConnAck));
    assert_eq!(MqttPacketType::from_u8(3), Some(MqttPacketType::Publish));
    assert_eq!(MqttPacketType::from_u8(4), Some(MqttPacketType::PubAck));
    assert_eq!(MqttPacketType::from_u8(5), Some(MqttPacketType::PubRec));
    assert_eq!(MqttPacketType::from_u8(6), Some(MqttPacketType::PubRel));
    assert_eq!(MqttPacketType::from_u8(7), Some(MqttPacketType::PubComp));
    assert_eq!(MqttPacketType::from_u8(8), Some(MqttPacketType::Subscribe));
    assert_eq!(MqttPacketType::from_u8(9), Some(MqttPacketType::SubAck));
    assert_eq!(MqttPacketType::from_u8(10), Some(MqttPacketType::Unsubscribe));
    assert_eq!(MqttPacketType::from_u8(11), Some(MqttPacketType::UnsubAck));
    assert_eq!(MqttPacketType::from_u8(12), Some(MqttPacketType::PingReq));
    assert_eq!(MqttPacketType::from_u8(13), Some(MqttPacketType::PingResp));
    assert_eq!(MqttPacketType::from_u8(14), Some(MqttPacketType::Disconnect));
    assert_eq!(MqttPacketType::from_u8(15), None);
    assert_eq!(MqttPacketType::from_u8(200), None);
}

#[test]
fn read_string_takes_a_length_prefixed_string() {
    let mut b = buf(&[0x00, 0x03, b'a', b'/', b'b', 0xFF]);
    assert_eq!(read_string(&mut b), Some("a/b".to_string()));
    assert_eq!(&b[..], &[0xFF]);
    let mut empty = buf(&[0x00, 0x00]);
    assert_eq!(read_string(&mut empty), Some(String::new()));
    assert!(empty.is_empty());
}

#[test]
fn read_string_reads_the_length_most_significant_byte_first() {
    let mut bytes = vec![0x01, 0x02];
    bytes.extend(std::iter::repeat(b'x').take(258));
    bytes.push(b'!');
    let mut b = buf(&bytes);
    let s = read_string(&mut b).unwrap();
    assert_eq!(s.len(), 258);
    assert_eq!(&b[..], b"!");
}

#[test]
fn read_string_refuses_what_is_cut_short_or_not_utf8() {
    let mut one = buf(&[0x00]);
    assert_eq!(read_string(&mut one), None);
    assert_eq!(one.len(), 1);
    let mut short = buf(&[0x00, 0x05, b'a', b'b']);
    assert_eq!(read_string(&mut short), None);
    assert_eq!(short.len(), 4);
    let mut invalid = buf(&[0x00, 0x01, 0xFF]);
    assert_eq!(read_string(&mut invalid), None);
    assert_eq!(invalid.len(), 3);
    let mut multi = buf(&[0x00, 0x02, 0xC3, 0xA9]);
    assert_eq!(read_string(&mut multi), Some("é".to_string()));
}

#[test]
fn string_round_trips_through_write_and_read() {
    for s in ["", "a", "sensors/room1/temp", "grüße/日本", "#", "+/+"] {
        let mut out = vec![0x55];
        write_string(&mut out, s);
        assert_eq!(out[0], 0x55);
        assert_eq!(&out[1..3], &(s.len() as u16).to_be_bytes());
        let mut b = buf(&out[1..]);
        assert_eq!(read_string(&mut b), Some(s.to_string()));
        assert!(b.is_empty());
    }
    let long = "x".repeat(65_535);
    let mut out = Vec::new();
    write_string(&mut out, &long);
    assert_eq!(&out[..2], &[0xFF, 0xFF]);
    let mut b = buf(&out);
    assert_eq!(read_string(&mut b), Some(long));
}

#[test]
fn decode_connect_with_all_fields() {
    let mut tail = string("client-1");
    tail.extend(string("will/topic"));
    tail.extend(string("will message"));
    tail.extend(string("user"));
    tail.extend(string("secret"));
    let frame = connect_frame(0b1100_0110, 30, &tail);
    let mut b = buf(&frame);
    b.extend_from_slice(&[0xC0, 0x00]);
    match Decoder::decode(&mut b) {
        DecodeOutcome::Packet(Decoder::Connect(p)) => {
            assert_eq!(p.client_id, "client-1");
            assert_eq!(p.keep_alive, 30);
            assert!(p.clean_session);
            assert_eq!(p.username.as_deref(), Some("user"));
            assert_eq!(p.password.as_deref(), Some("secret"));
        }
        _ => panic!("a Connect packet was expected"),
    }
    assert_eq!(&b[..], &[0xC0, 0x00]);
}

#[test]
fn decode_connect_without_optional_fields() {
    let frame = connect_frame(0, 0x0102, &string("c"));
    let mut b = buf(&frame);
    match Decoder::parse_packet(&mut b) {
        Some(Decoder::Connect(p)) => {
            assert_eq!(p.client_id, "c");
            assert_eq!(p.keep_alive, 258);
            assert!(!p.clean_session);
            assert_eq!(p.username, None);
            assert_eq!(p.password, None);
        }
        _ => panic!("a Connect packet was expected"),
    }
    assert!(b.is_empty());
}

#[test]
fn decode_connect_reads_username_without_password_and_password_without_username() {
    let mut tail = string("c");
    tail.extend(string("only-user"));
    match parse_connect(buf(&connect_frame(0x80, 1, &tail)[2..])) {
        Some(Decoder::Connect(p)) => {
            assert_eq!(p.username.as_deref(), Some("only-user"));
            assert_eq!(p.password, None);
        }
        _ => panic!("a Connect packet was expected"),
    }
    let mut tail = string("c");
    tail.extend(string("only-pass"));
    match parse_connect(buf(&connect_frame(0x40, 1, &tail)[2..])) {
        Some(Decoder::Connect(p)) => {
            assert_eq!(p.username, None);
            assert_eq!(p.password.as_deref(), Some("only-pass"));
        }
        _ => panic!("a Connect packet was expected"),
    }
}

#[test]
fn decode_connect_accepts_the_older_protocol() {
    let mut body = string("MQIsdp");
    body.extend_from_slice(&[3, 0x02, 0, 10]);
    body.extend(string("old"));
    match parse_connect(buf(&body)) {
        Some(Decoder::Connect(p)) => {
            assert_eq!(p.client_id, "old");
            assert_eq!(p.keep_alive, 10);
            assert!(p.clean_session);
        }
        _ => panic!("a Connect packet was expected"),
    }
}

#[test]
fn decode_connect_refuses_other_protocols() {
    let mut wrong_level = string("MQTT");
    wrong_level.extend_from_slice(&[5, 0x02, 0, 10]);
    wrong_level.extend(string("c"));
    assert!(parse_connect(buf(&wrong_level)).is_none());
    let mut wrong_name = string("MQTX");
    wrong_name.extend_from_slice(&[4, 0x02, 0, 10]);
    wrong_name.extend(string("c"));
    assert!(parse_connect(buf(&wrong_name)).is_none());
    let mut crossed = string("MQIsdp");
    crossed.extend_from_slice(&[4, 0x02, 0, 10]);
    crossed.extend(string("c"));
    assert!(parse_connect(buf(&crossed)).is_none());
}

#[test]
fn decode_connect_refuses_what_is_cut_short() {
    assert!(parse_connect(buf(&[])).is_none());
    assert!(parse_connect(buf(&string("MQTT"))).is_none());
    let mut no_flags = string("MQTT");
    no_flags.push(4);
    assert!(parse_connect(buf(&no_flags)).is_none());
    let mut no_keep_alive = string("MQTT");
    no_keep_alive.extend_from_slice(&[4, 0, 0]);
    assert!(parse_connect(buf(&no_keep_alive)).is_none());
    let mut no_client = string("MQTT");
    no_client.extend_from_slice(&[4, 0, 0, 10]);
    assert!(parse_connect(buf(&no_client)).is_none());
    let mut no_user = string("MQTT");
    no_user.extend_from_slice(&[4, 0x80, 0, 10]);
    no_user.extend(string("c"));
    assert!(parse_connect(buf(&no_user)).is_none());
    let mut no_password = string("MQTT");
    no_password.extend_from_slice(&[4, 0x40, 0, 10]);
    no_password.extend(string("c"));
    assert!(parse_connect(buf(&no_password)).is_none());
    let mut half_will = string("MQTT");
    half_will.extend_from_slice(&[4, 0x04, 0, 10]);
    half_will.extend(string("c"));
    half_will.extend(string("will/topic"));
    assert!(parse_connect(buf(&half_will)).is_none());
}

#[test]
fn decode_connect_refuses_an_empty_client_id() {
    let frame = connect_frame(0x02, 10, &string(""));
    let mut b = buf(&frame);
    assert!(matches!(Decoder::decode(&mut b), DecodeOutcome::Malformed));
    assert!(b.is_empty());
}

#[test]
fn decode_publish_qos0() {
    let mut frame = vec![0x31, 0x00];
    let mut body = string("sensors/room1/temp");
    body.extend_from_slice(&[0x01, 0x02]);
    frame[1] = body.len() as u8;
    frame.extend(body);
    let mut b = buf(&frame);
    match Decoder::decode(&mut b) {
        DecodeOutcome::Packet(Decoder::Publish(p)) => {
            assert_eq!(p.topic, "sensors/room1/temp");
            assert_eq!(p.payload, vec![0x01, 0x02]);
            assert_eq!(p.qos, 0);
            assert_eq!(p.packet_id, None);
            assert!(p.retain);
            assert!(!p.dup);
        }
        _ => panic!("a Publish packet was expected"),
    }
    assert!(b.is_empty());
}

#[test]
fn decode_publish_with_packet_id() {
    let mut body = string("t");
    body.extend_from_slice(&[0x12, 0x34, 9, 8, 7]);
    match parse_publish(0b1010, buf(&body)) {
        Some(Decoder::Publish(p)) => {
            assert_eq!(p.qos, 1);
            assert_eq!(p.packet_id, Some(0x1234));
            assert_eq!(p.payload, vec![9, 8, 7]);
            assert!(p.dup);
            assert!(!p.retain);
        }
        _ => panic!("a Publish packet was expected"),
    }
    match parse_publish(0b0100, buf(&body)) {
        Some(Decoder::Publish(p)) => {
            assert_eq!(p.qos, 2);
            assert_eq!(p.packet_id, Some(0x1234));
        }
        _ => panic!("a Publish packet was expected"),
    }
    let mut no_payload = string("t");
    no_payload.extend_from_slice(&[0, 1]);
    match parse_publish(0b0010, buf(&no_payload)) {
        Some(Decoder::Publish(p)) => {
            assert_eq!(p.packet_id, Some(1));
            assert!(p.payload.is_empty());
        }
        _ => panic!("a Publish packet was expected"),
    }
}

#[test]
fn decode_publish_refuses_bad_bodies() {
    assert!(parse_publish(0, buf(&[0x00])).is_none());
    assert!(parse_publish(0, buf(&[0x00, 0x05, b'a'])).is_none());
    let mut missing_id = string("t");
    missing_id.push(0x01);
    assert!(parse_publish(0b0010, buf(&missing_id)).is_none());
    let mut qos3 = string("t");
    qos3.extend_from_slice(&[0, 1, 2]);
    assert!(parse_publish(0b0110, buf(&qos3)).is_none());
}

#[test]
fn decode_subscribe_and_unsubscribe() {
    let mut body = vec![0x00, 0x0A];
    body.extend(string("a/+/c"));
    body.push(1);
    match parse_subscribe_at(buf(&body), 1_700_000_000) {
        Some(Decoder::Subscribe(p)) => {
            assert_eq!(p.packet_id, 10);
            assert_eq!(p.topic, "a/+/c");
            assert_eq!(p.qos, 1);
            assert_eq!(p.subscribed_at, 1_700_000_000);
        }
        _ => panic!("a Subscribe packet was expected"),
    }
    assert!(parse_subscribe_at(buf(&body[..body.len() - 1]), 0).is_none());
    assert!(parse_subscribe_at(buf(&[0x00]), 0).is_none());
    assert!(parse_subscribe_at(buf(&[0x00, 0x01, 0x00]), 0).is_none());

    let mut body = vec![0x01, 0x00];
    body.extend(string("a/#"));
    match parse_unsubscribe(buf(&body)) {
        Some(Decoder::Unsubscribe(p)) => {
            assert_eq!(p.packet_id, 256);
            assert_eq!(p.topic, "a/#");
        }
        _ => panic!("an Unsubscribe packet was expected"),
    }
    assert!(parse_unsubscribe(buf(&[0x01])).is_none());
    assert!(parse_unsubscribe(buf(&[0x01, 0x00, 0x00])).is_none());
}

#[test]
fn decode_subscribe_frame_is_stamped_with_a_time() {
    let mut frame = vec![0x82, 0x00];
    let mut body = vec![0x00, 0x01];
    body.extend(string("t"));
    body.push(0);
    frame[1] = body.len() as u8;
    frame.extend(body);
    let mut b = buf(&frame);
    match Decoder::decode(&mut b) {
        DecodeOutcome::Packet(Decoder::Subscribe(p)) => {
            assert_eq!(p.topic, "t");
            assert!(p.subscribed_at > 1_600_000_000);
        }
        _ => panic!("a Subscribe packet was expected"),
    }
    let mut frame = vec![0xA2, 0x05, 0x00, 0x02];
    frame.extend(string("t"));
    let mut b = buf(&frame);
    assert!(matches!(
        Decoder::decode_at(&mut b, 0),
        DecodeOutcome::Packet(Decoder::Unsubscribe(_))
    ));
}

#[test]
fn decode_ping_and_disconnect() {
    let mut b = buf(&[0xC0, 0x00, 0xE0, 0x00, 0xC0]);
    assert!(matches!(Decoder::decode(&mut b), DecodeOutcome::Packet(Decoder::PingReq)));
    assert_eq!(b.len(), 3);
    assert!(matches!(Decoder::decode(&mut b), DecodeOutcome::Packet(Decoder::Disconnect)));
    assert_eq!(&b[..], &[0xC0]);
    assert!(matches!(Decoder::decode(&mut b), DecodeOutcome::Incomplete));
    assert_eq!(&b[..], &[0xC0]);
}

#[test]
fn decode_incomplete_frames_consume_nothing() {
    let mut body = string("topic");
    body.extend_from_slice(&[1, 2, 3]);
    let mut frame = vec![0x30, body.len() as u8];
    frame.extend(body);
    for cut in 0..frame.len() {
        let mut b = buf(&frame[..cut]);
        assert!(matches!(Decoder::decode(&mut b), DecodeOutcome::Incomplete));
        assert_eq!(&b[..], &frame[..cut]);
        let mut b = buf(&frame[..cut]);
        assert!(Decoder::parse_packet(&mut b).is_none());
        assert_eq!(&b[..], &frame[..cut]);
    }
    let mut b = buf(&frame);
    assert!(matches!(Decoder::decode(&mut b), DecodeOutcome::Packet(Decoder::Publish(_))));
    assert!(b.is_empty());
}

#[test]
fn decode_unsupported_types_are_told_apart() {
    for first in [0x00u8, 0x20, 0x40, 0x50, 0x62, 0x70, 0x90, 0xB0, 0xD0, 0xF0] {
        let mut b = buf(&[first, 0x00]);
        assert!(matches!(Decoder::decode(&mut b), DecodeOutcome::Unsupported));
        assert_eq!(b.len(), 2);
        let mut b = buf(&[first, 0x00]);
        assert!(Decoder::parse_packet(&mut b).is_none());
    }
}

#[test]
fn decode_malformed_frames_are_taken_off_whole() {
    let mut b = buf(&[0x30, 0x03, 0x00, 0x05, b'a', 0xC0, 0x00]);
    assert!(matches!(Decoder::decode(&mut b), DecodeOutcome::Malformed));
    assert_eq!(&b[..], &[0xC0, 0x00]);
    let mut b = buf(&[0x30, 0xFF, 0xFF, 0xFF, 0xFF, 0x01]);
    assert!(matches!(Decoder::decode(&mut b), DecodeOutcome::Malformed));
    assert_eq!(b.len(), 6);
    let mut b = buf(&[0x30, 0x03, 0x00, 0x01, 0xFF]);
    assert!(Decoder::parse_packet(&mut b).is_none());
    assert!(b.is_empty());
}

#[test]
fn responses_are_byte_exact() {
    assert_eq!(
        Encoder::ConnAck { session_present: false }.to_bytes(),
        vec![0x20, 0x02, 0x00, 0x00]
    );
    assert_eq!(
        Encoder::ConnAck { session_present: true }.to_bytes(),
        vec![0x20, 0x02, 0x01, 0x00]
    );
    assert_eq!(
        Encoder::SubAck { packet_id: 0x1234 }.to_bytes(),
        vec![0x90, 0x03, 0x12, 0x34, 0x00]
    );
    assert_eq!(
        Encoder::UnsubAck { packet_id: 0xABCD }.to_bytes(),
        vec![0xB0, 0x02, 0xAB, 0xCD]
    );
    assert_eq!(Encoder::PubAck { packet_id: 1 }.to_bytes(), vec![0x40, 0x02, 0x00, 0x01]);
    assert_eq!(Encoder::PubAck { packet_id: 0xFF00 }.to_bytes(), vec![0x40, 0x02, 0xFF, 0x00]);
    assert_eq!(Encoder::PingResp.to_bytes(), vec![0xD0, 0x00]);
    assert_eq!(Encoder::Disconnect.to_bytes(), vec![0xE0, 0x00]);
    assert_eq!(Encoder::NoReply.to_bytes(), Vec::<u8>::new());
}

#[test]
fn split_u16_is_big_endian() {
    assert_eq!(split_u16(0x1234), (0x12, 0x34));
    assert_eq!(split_u16(0), (0, 0));
    assert_eq!(split_u16(0xFFFF), (0xFF, 0xFF));
    assert_eq!(split_u16(0x00FF), (0x00, 0xFF));
}

#[test]
fn publish_first_byte_carries_the_flags() {
    assert_eq!(first_byte_of(false, 0, false), 0x30);
    assert_eq!(first_byte_of(false, 0, true), 0x31);
    assert_eq!(first_byte_of(false, 1, false), 0x32);
    assert_eq!(first_byte_of(false, 2, false), 0x34);
    assert_eq!(first_byte_of(true, 0, false), 0x38);
    assert_eq!(first_byte_of(true, 2, true), 0x3D);
}

#[test]
fn encode_publish_is_byte_exact() {
    let p = publish("a/b", &[0xDE, 0xAD], 0, None);
    assert_eq!(
        encode_publish(&p),
        vec![0x30, 0x07, 0x00, 0x03, b'a', b'/', b'b', 0xDE, 0xAD]
    );
    let mut q = publish("a/b", &[0xDE, 0xAD], 1, Some(0x0102));
    q.retain = true;
    q.dup = true;
    assert_eq!(
        encode_publish(&q),
        vec![0x3B, 0x09, 0x00, 0x03, b'a', b'/', b'b', 0x01, 0x02, 0xDE, 0xAD]
    );
    let ignored_id = publish("t", &[], 0, Some(7));
    assert_eq!(encode_publish(&ignored_id), vec![0x30, 0x03, 0x00, 0x01, b't']);
}

#[test]
fn encode_publish_uses_a_multi_byte_length_above_127() {
    let payload = vec![0x42u8; 200];
    let p = publish("topic", &payload, 0, None);
    let bytes = encode_publish(&p);
    assert_eq!(&bytes[..3], &[0x30, 0xCF, 0x01]);
    assert_eq!(bytes.len(), 3 + 207);
    let big = publish("t", &vec![0u8; 20_000], 2, Some(9));
    let bytes = encode_publish(&big);
    assert_eq!(&bytes[..4], &[0x34, 0xA5, 0x9C, 0x01]);
    assert_eq!(bytes.len(), 4 + 20_005);
}

#[test]
fn publish_round_trips() {
    let payloads: [&[u8]; 3] = [&[], &[0x01, 0x02], &[0u8; 300]];
    for topic in ["t", "sensors/room1/temp", "späte/grüße", ""] {
        for payload in payloads {
            for qos in 0u8..=2 {
                for retain in [false, true] {
                    for dup in [false, true] {
                        let sent = PublishPacket {
                            packet_id: if qos > 0 { Some(0xBEEF) } else { None },
                            topic: topic.to_string(),
                            payload: payload.to_vec(),
                            qos,
                            retain,
                            dup,
                        };
                        let mut b = buf(&encode_publish(&sent));
                        b.extend_from_slice(&[0xC0, 0x00]);
                        match Decoder::decode(&mut b) {
                            DecodeOutcome::Packet(Decoder::Publish(p)) => {
                                assert_eq!(p.topic, sent.topic);
                                assert_eq!(p.payload, sent.payload);
                                assert_eq!(p.qos, sent.qos);
                                assert_eq!(p.retain, sent.retain);
                                assert_eq!(p.dup, sent.dup);
                                assert_eq!(p.packet_id, sent.packet_id);
                            }
                            _ => panic!("a Publish packet was expected"),
                        }
                        assert_eq!(&b[..], &[0xC0, 0x00]);
                    }
                }
            }
        }
    }
}

#[test]
fn try_encode_publish_refuses_what_does_not_fit() {
    assert!(try_encode_publish(&publish("t", &[1], 0, None)).is_some());
    assert_eq!(
        try_encode_publish(&publish("t", &[1], 1, Some(2))),
        Some(vec![0x32, 0x06, 0x00, 0x01, b't', 0x00, 0x02, 0x01])
    );
    assert!(try_encode_publish(&publish("t", &[1], 1, None)).is_none());
    assert!(try_encode_publish(&publish("t", &[1], 3, Some(1))).is_none());
    let long_topic = "x".repeat(65_536);
    assert!(try_encode_publish(&publish(&long_topic, &[], 0, None)).is_none());
    let widest_topic = "x".repeat(65_535);
    assert!(try_encode_publish(&publish(&widest_topic, &[], 0, None)).is_some());
}

#[test]
fn packets_clone_field_by_field() {
    let p = publish("a", &[1, 2, 3], 1, Some(5));
    let q = p.clone();
    assert_eq!(q.topic, "a");
    assert_eq!(q.payload, vec![1, 2, 3]);
    assert_eq!(q.qos, 1);
    assert_eq!(q.packet_id, Some(5));
}

#[test]
fn bytes_are_appended_behind_what_is_there() {
    let mut out = vec![1u8, 2];
    append_bytes(&mut out, &[3, 4, 5]);
    assert_eq!(out, vec![1, 2, 3, 4, 5]);
    append_bytes(&mut out, &[]);
    assert_eq!(out.len(), 5);
    assert_eq!(clone_opt_string(&Some("x".to_string())), Some("x".to_string()));
    assert_eq!(clone_opt_string(&None), None);
}
