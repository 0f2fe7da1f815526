//! The fixed header of a frame: the packet type and its flags in one byte,
//! then the remaining length.

use crate::enums::packet_type::MqttPacketType;
use crate::protocol::buffer::{buffer_advance, buffer_byte, buffer_bytes, buffer_len};
use crate::protocol::varint::{peek_remaining_length, read_varint, VarintPeek, VarintRead};
use bytes::BytesMut;
use vstd::prelude::*;

verus! {

/// A fixed header: the type of the packet, the four flag bits, and the
/// number of bytes that follow the header.
pub struct Header {
    pub packet_type: MqttPacketType,
    pub flags: u8,
    pub remaining_length: usize,
}

/// What the front of a byte sequence holds when read as a fixed header.
pub enum HeaderRead {
    /// A whole header, `used` bytes long.
    Header { packet_type: MqttPacketType, flags: u8, remaining_length: nat, used: nat },
    /// Too few bytes to tell.
    Incomplete,
    /// The first byte names no packet type.
    Unsupported,
    /// The remaining length runs past four bytes.
    Overlong,
}

/// Reads a fixed header from the front of `bytes`.
pub open spec fn read_header(bytes: Seq<u8>) -> HeaderRead {
    if bytes.len() < 2 {
        HeaderRead::Incomplete
    } else {
        match MqttPacketType::of_code(bytes[0] >> 4) {
            None => HeaderRead::Unsupported,
            Some(packet_type) => match read_varint(bytes.skip(1)) {
                VarintRead::Value { value, used } => HeaderRead::Header {
                    packet_type,
                    flags: bytes[0] & 0x0F,
                    remaining_length: value,
                    used: used + 1,
                },
                VarintRead::Incomplete => HeaderRead::Incomplete,
                VarintRead::Overlong => HeaderRead::Overlong,
            },
        }
    }
}

/// The outcome of looking for a fixed header in a buffer.
pub enum HeaderPeek {
    Header { header: Header, used: usize },
    Incomplete,
    Unsupported,
    Overlong,
}

impl View for HeaderPeek {
    type V = HeaderRead;

    open spec fn view(&self) -> HeaderRead {
        match self {
            HeaderPeek::Header { header, used } => HeaderRead::Header {
                packet_type: header.packet_type,
                flags: header.flags,
                remaining_length: header.remaining_length as nat,
                used: *used as nat,
            },
            HeaderPeek::Incomplete => HeaderRead::Incomplete,
            HeaderPeek::Unsupported => HeaderRead::Unsupported,
            HeaderPeek::Overlong => HeaderRead::Overlong,
        }
    }
}

impl Header {
    /// Looks for a fixed header at the front of the buffer, which it leaves
    /// as it is.
    pub fn peek(buf: &BytesMut) -> (peek: HeaderPeek)
        ensures
            peek@ == read_header(buffer_bytes(*buf)),
            peek matches HeaderPeek::Header { header, used } ==> 2 <= used <= 5 && used
                <= buffer_bytes(*buf).len(),
    {
        if buffer_len(buf) < 2 {
            return HeaderPeek::Incomplete;
        }
        let byte1: u8 = buffer_byte(buf, 0);
        let packet_type_raw: u8 = byte1 >> 4;
        let flags: u8 = byte1 & 0x0F;
        match MqttPacketType::from_u8(packet_type_raw) {
            None => HeaderPeek::Unsupported,
            Some(packet_type) => match peek_remaining_length(buf, 1) {
                VarintPeek::Value { value, used } => HeaderPeek::Header {
                    header: Header { packet_type, flags, remaining_length: value },
                    used: used + 1,
                },
                VarintPeek::Incomplete => HeaderPeek::Incomplete,
                VarintPeek::Overlong => HeaderPeek::Overlong,
            },
        }
    }

    /// Takes a fixed header off the front of the buffer. Where the buffer
    /// does not start with a whole header, it is left as it is.
    pub fn parse(buf: &mut BytesMut) -> (header: Option<Header>)
        ensures
            match read_header(buffer_bytes(*old(buf))) {
                HeaderRead::Header { packet_type, flags, remaining_length, used } => {
                    &&& header matches Some(h)
                    &&& h.packet_type == packet_type
                    &&& h.flags == flags
                    &&& h.remaining_length == remaining_length
                    &&& buffer_bytes(*final(buf)) == buffer_bytes(*old(buf)).skip(used as int)
                },
                _ => header is None && buffer_bytes(*final(buf)) == buffer_bytes(*old(buf)),
            },
    {
        match Self::peek(buf) {
            HeaderPeek::Header { header, used } => {
                buffer_advance(buf, used);
                Some(header)
            },
            _ => None,
        }
    }

    /// Takes a remaining length off the front of the buffer. Where the
    /// buffer does not start with a whole one, it is left as it is.
    pub fn read_remaining_length(buf: &mut BytesMut) -> (length: Option<usize>)
        ensures
            match read_varint(buffer_bytes(*old(buf))) {
                VarintRead::Value { value, used } => {
                    &&& length == Some(value as usize)
                    &&& value <= usize::MAX
                    &&& buffer_bytes(*final(buf)) == buffer_bytes(*old(buf)).skip(used as int)
                },
                _ => length is None && buffer_bytes(*final(buf)) == buffer_bytes(*old(buf)),
            },
    {
        assert(buffer_bytes(*buf).skip(0) =~= buffer_bytes(*buf));
        match peek_remaining_length(buf, 0) {
            VarintPeek::Value { value, used } => {
                buffer_advance(buf, used);
                Some(value)
            },
            _ => None,
        }
    }
}

} // verus!
