//! The remaining-length field: a little-endian base-128 integer of one to
//! four bytes, whose top bit marks that another byte follows.

use crate::protocol::buffer::{buffer_byte, buffer_bytes, buffer_len};
use bytes::BytesMut;
use vstd::prelude::*;

verus! {

/// The largest length that four bytes can carry.
pub const MAX_REMAINING_LENGTH: usize = 268_435_455;

/// The encoding of `n`: seven bits per byte, least significant group first,
/// the top bit set on every byte but the last.
pub open spec fn varint_bytes(n: nat) -> Seq<u8>
    decreases n,
{
    if n < 128 {
        seq![n as u8]
    } else {
        seq![(n % 128 + 128) as u8] + varint_bytes(n / 128)
    }
}

/// The number of bytes that `varint_bytes` uses for a length of at most
/// `MAX_REMAINING_LENGTH`.
pub open spec fn varint_width(n: nat) -> nat {
    if n < 128 {
        1
    } else if n < 16_384 {
        2
    } else if n < 2_097_152 {
        3
    } else {
        4
    }
}

/// What the front of a byte sequence holds when read as a remaining length.
pub enum VarintRead {
    /// A terminating byte was found among the first four: the length and the
    /// number of bytes it took.
    Value { value: nat, used: nat },
    /// Fewer than four bytes are there and none of them terminates.
    Incomplete,
    /// The first four bytes all announce a successor.
    Overlong,
}

/// The number that the seven-bit groups of the first `used` bytes spell,
/// for `used` up to four.
pub open spec fn varint_value(bytes: Seq<u8>, used: nat) -> nat
    recommends
        used <= 4,
        used <= bytes.len(),
{
    (if used >= 1 {
        (bytes[0] % 128) as nat
    } else {
        0
    }) + (if used >= 2 {
        128 * (bytes[1] % 128) as nat
    } else {
        0
    }) + (if used >= 3 {
        16_384 * (bytes[2] % 128) as nat
    } else {
        0
    }) + (if used >= 4 {
        2_097_152 * (bytes[3] % 128) as nat
    } else {
        0
    })
}

/// Reads a remaining length from the front of `bytes`, looking at no more
/// than four bytes.
pub open spec fn read_varint(bytes: Seq<u8>) -> VarintRead {
    if bytes.len() >= 1 && bytes[0] < 128 {
        VarintRead::Value { value: varint_value(bytes, 1), used: 1 }
    } else if bytes.len() >= 2 && bytes[1] < 128 {
        VarintRead::Value { value: varint_value(bytes, 2), used: 2 }
    } else if bytes.len() >= 3 && bytes[2] < 128 {
        VarintRead::Value { value: varint_value(bytes, 3), used: 3 }
    } else if bytes.len() >= 4 && bytes[3] < 128 {
        VarintRead::Value { value: varint_value(bytes, 4), used: 4 }
    } else if bytes.len() >= 4 {
        VarintRead::Overlong
    } else {
        VarintRead::Incomplete
    }
}

/// Encodes a remaining length.
pub fn encode_remaining_length(len: usize) -> (encoded: Vec<u8>)
    requires
        len <= MAX_REMAINING_LENGTH,
    ensures
        encoded@ == varint_bytes(len as nat),
        encoded@.len() == varint_width(len as nat),
{
    let mut encoded: Vec<u8> = Vec::new();
    let mut rest: usize = len;
    let ghost mut done: Seq<u8> = Seq::empty();
    loop
        invariant
            rest <= len,
            encoded@ == done,
            done + varint_bytes(rest as nat) == varint_bytes(len as nat),
            done.len() + varint_width(rest as nat) == varint_width(len as nat),
            len <= MAX_REMAINING_LENGTH,
        decreases rest,
    {
        let low: usize = rest % 128;
        let next: usize = rest / 128;
        if next > 0 {
            let byte: u8 = (low + 128) as u8;
            proof {
                assert(varint_bytes(rest as nat) == seq![byte] + varint_bytes(next as nat));
                assert(done.push(byte) + varint_bytes(next as nat) == done + (seq![byte]
                    + varint_bytes(next as nat)));
                done = done.push(byte);
            }
            encoded.push(byte);
            rest = next;
        } else {
            let byte: u8 = low as u8;
            proof {
                assert(varint_bytes(rest as nat) == seq![byte]);
                assert(done.push(byte) == done + seq![byte]);
            }
            encoded.push(byte);
            return encoded;
        }
    }
}

/// The outcome of looking for a remaining length in a buffer.
pub enum VarintPeek {
    Value { value: usize, used: usize },
    Incomplete,
    Overlong,
}

impl View for VarintPeek {
    type V = VarintRead;

    open spec fn view(&self) -> VarintRead {
        match self {
            VarintPeek::Value { value, used } => VarintRead::Value {
                value: *value as nat,
                used: *used as nat,
            },
            VarintPeek::Incomplete => VarintRead::Incomplete,
            VarintPeek::Overlong => VarintRead::Overlong,
        }
    }
}

/// The weight of the seven-bit group at position `i`.
pub open spec fn group_weight(i: int) -> int {
    if i <= 0 {
        1
    } else if i == 1 {
        128
    } else if i == 2 {
        16_384
    } else if i == 3 {
        2_097_152
    } else {
        268_435_456
    }
}

/// Looks for a remaining length at position `start` of the buffer, which it
/// leaves as it is.
pub(crate) fn peek_remaining_length(buf: &BytesMut, start: usize) -> (peek: VarintPeek)
    requires
        start <= buffer_bytes(*buf).len(),
    ensures
        peek@ == read_varint(buffer_bytes(*buf).skip(start as int)),
        peek matches VarintPeek::Value { value, used } ==> value <= MAX_REMAINING_LENGTH && 1
            <= used <= 4 && start + used <= buffer_bytes(*buf).len(),
{
    let len: usize = buffer_len(buf);
    let ghost bytes = buffer_bytes(*buf).skip(start as int);
    let mut i: usize = 0;
    let mut value: usize = 0;
    let mut weight: usize = 1;
    while i < 4
        invariant
            i <= 4,
            len == buffer_bytes(*buf).len(),
            start <= len,
            bytes == buffer_bytes(*buf).skip(start as int),
            i <= bytes.len(),
            weight == group_weight(i as int),
            value == varint_value(bytes, i as nat),
            value < weight,
            forall|j: int| 0 <= j < i ==> bytes[j] >= 128,
        decreases 4 - i,
    {
        if len - start <= i {
            return VarintPeek::Incomplete;
        }
        let byte: u8 = buffer_byte(buf, start + i);
        assert(byte == bytes[i as int]);
        let group: u8 = byte & 127;
        assert(group == byte % 128 && group < 128) by (bit_vector)
            requires
                group == byte & 127,
        ;
        assert((byte & 128 == 0) == (byte < 128)) by (bit_vector);
        assert(group as int * weight as int <= 127 * weight) by (nonlinear_arith)
            requires
                group < 128,
                weight >= 0,
        ;
        value = value + (group as usize) * weight;
        if byte & 128 == 0 {
            return VarintPeek::Value { value, used: i + 1 };
        }
        weight = weight * 128;
        i = i + 1;
    }
    VarintPeek::Overlong
}

} // verus!
