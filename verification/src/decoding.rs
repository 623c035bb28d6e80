//! How the registers of a value spell it, and back.
use vstd::prelude::*;
use crate::device::{PrepValue, RawValue};

verus! {

/// The 32-bit quantity that two registers spell. With `little_endian` the register at the
/// lower address is the less significant one, without it the more significant one. The
/// bytes inside a register are not reordered: the protocol delivers registers whole.
pub open spec fn join_words(first: u16, second: u16, little_endian: bool) -> int {
    if little_endian {
        second as int * 0x1_0000 + first as int
    } else {
        first as int * 0x1_0000 + second as int
    }
}

/// The number that 16 bits denote in two's complement.
pub open spec fn signed16(bits: int) -> int {
    if bits < 0x8000 {
        bits
    } else {
        bits - 0x1_0000
    }
}

/// The number that 32 bits denote in two's complement.
pub open spec fn signed32(bits: int) -> int {
    if bits < 0x8000_0000 {
        bits
    } else {
        bits - 0x1_0000_0000
    }
}

/// The 16 bits that denote a number in two's complement.
pub open spec fn unsigned16(number: int) -> int {
    if number < 0 {
        number + 0x1_0000
    } else {
        number
    }
}

/// The 32 bits that denote a number in two's complement.
pub open spec fn unsigned32(number: int) -> int {
    if number < 0 {
        number + 0x1_0000_0000
    } else {
        number
    }
}

/// The register at the lower address of the two that hold a 32-bit quantity.
pub open spec fn first_word(bits: int, little_endian: bool) -> int {
    if little_endian {
        bits % 0x1_0000
    } else {
        bits / 0x1_0000
    }
}

/// The register at the higher address of the two that hold a 32-bit quantity.
pub open spec fn second_word(bits: int, little_endian: bool) -> int {
    if little_endian {
        bits / 0x1_0000
    } else {
        bits % 0x1_0000
    }
}

impl RawValue {
    /// The value that the stored registers denote.
    pub open spec fn decoded(self, little_endian: bool) -> PrepValue {
        match self {
            RawValue::Bool(bit) => PrepValue::Bool(bit),
            RawValue::Unit(word) => PrepValue::Unit(word),
            RawValue::Int(word) => PrepValue::Int(signed16(word as int) as i16),
            RawValue::DUint(words) => PrepValue::DUint(
                join_words(words[0], words[1], little_endian) as u32,
            ),
            RawValue::DInt(words) => PrepValue::DInt(
                signed32(join_words(words[0], words[1], little_endian)) as i32,
            ),
            RawValue::Real(words) => PrepValue::Real(
                join_words(words[0], words[1], little_endian) as u32,
            ),
        }
    }

    /// The value and the stored form are of the same decoding kind.
    pub open spec fn same_kind(self, value: PrepValue) -> bool {
        match self {
            RawValue::Bool(_) => value is Bool,
            RawValue::Unit(_) => value is Unit,
            RawValue::Int(_) => value is Int,
            RawValue::DUint(_) => value is DUint,
            RawValue::DInt(_) => value is DInt,
            RawValue::Real(_) => value is Real,
        }
    }

    /// Tells whether the value and the stored form are of the same decoding kind.
    pub fn kind_of(&self, value: &PrepValue) -> (same: bool)
        ensures
            same == self.same_kind(*value),
    {
        match (self, value) {
            (RawValue::Bool(_), PrepValue::Bool(_)) => true,
            (RawValue::Unit(_), PrepValue::Unit(_)) => true,
            (RawValue::Int(_), PrepValue::Int(_)) => true,
            (RawValue::DUint(_), PrepValue::DUint(_)) => true,
            (RawValue::DInt(_), PrepValue::DInt(_)) => true,
            (RawValue::Real(_), PrepValue::Real(_)) => true,
            _ => false,
        }
    }

    /// Decodes the stored registers.
    pub fn decode(&self, little_endian: bool) -> (value: PrepValue)
        ensures
            value == self.decoded(little_endian),
    {
        match self {
            RawValue::Bool(bit) => PrepValue::Bool(*bit),
            RawValue::Unit(word) => PrepValue::Unit(*word),
            RawValue::Int(word) => PrepValue::Int(to_signed16(*word)),
            RawValue::DUint(words) => PrepValue::DUint(join(words[0], words[1], little_endian)),
            RawValue::DInt(words) => PrepValue::DInt(
                to_signed32(join(words[0], words[1], little_endian)),
            ),
            RawValue::Real(words) => PrepValue::Real(join(words[0], words[1], little_endian)),
        }
    }
}

impl PrepValue {
    /// The stored form of the value: its registers in address order.
    pub open spec fn encoded(self, little_endian: bool) -> RawValue {
        match self {
            PrepValue::Bool(bit) => RawValue::Bool(bit),
            PrepValue::Unit(word) => RawValue::Unit(word),
            PrepValue::Int(number) => RawValue::Int(unsigned16(number as int) as u16),
            PrepValue::DUint(bits) => RawValue::DUint(
                [
                    first_word(bits as int, little_endian) as u16,
                    second_word(bits as int, little_endian) as u16,
                ],
            ),
            PrepValue::DInt(number) => RawValue::DInt(
                [
                    first_word(unsigned32(number as int), little_endian) as u16,
                    second_word(unsigned32(number as int), little_endian) as u16,
                ],
            ),
            PrepValue::Real(bits) => RawValue::Real(
                [
                    first_word(bits as int, little_endian) as u16,
                    second_word(bits as int, little_endian) as u16,
                ],
            ),
        }
    }

    /// Encodes the value for the wire.
    pub fn encode(&self, little_endian: bool) -> (raw: RawValue)
        ensures
            raw == self.encoded(little_endian),
    {
        match self {
            PrepValue::Bool(bit) => RawValue::Bool(*bit),
            PrepValue::Unit(word) => RawValue::Unit(*word),
            PrepValue::Int(number) => RawValue::Int(to_unsigned16(*number)),
            PrepValue::DUint(bits) => RawValue::DUint(split(*bits, little_endian)),
            PrepValue::DInt(number) => RawValue::DInt(split(to_unsigned32(*number), little_endian)),
            PrepValue::Real(bits) => RawValue::Real(split(*bits, little_endian)),
        }
    }
}

fn join(first: u16, second: u16, little_endian: bool) -> (bits: u32)
    ensures
        bits == join_words(first, second, little_endian),
{
    if little_endian {
        second as u32 * 0x1_0000 + first as u32
    } else {
        first as u32 * 0x1_0000 + second as u32
    }
}

fn split(bits: u32, little_endian: bool) -> (words: [u16; 2])
    ensures
        words == [
            first_word(bits as int, little_endian) as u16,
            second_word(bits as int, little_endian) as u16,
        ],
{
    let high: u16 = (bits / 0x1_0000) as u16;
    let low: u16 = (bits % 0x1_0000) as u16;
    let words = if little_endian {
        [low, high]
    } else {
        [high, low]
    };
    assert(words =~= [
        first_word(bits as int, little_endian) as u16,
        second_word(bits as int, little_endian) as u16,
    ]);
    words
}

fn to_signed16(bits: u16) -> (number: i16)
    ensures
        number == signed16(bits as int),
{
    if bits < 0x8000 {
        bits as i16
    } else {
        (bits as i32 - 0x1_0000) as i16
    }
}

fn to_signed32(bits: u32) -> (number: i32)
    ensures
        number == signed32(bits as int),
{
    if bits < 0x8000_0000 {
        bits as i32
    } else {
        (bits as i64 - 0x1_0000_0000) as i32
    }
}

fn to_unsigned16(number: i16) -> (bits: u16)
    ensures
        bits == unsigned16(number as int),
{
    if number < 0 {
        (number as i32 + 0x1_0000) as u16
    } else {
        number as u16
    }
}

fn to_unsigned32(number: i32) -> (bits: u32)
    ensures
        bits == unsigned32(number as int),
{
    if number < 0 {
        (number as i64 + 0x1_0000_0000) as u32
    } else {
        number as u32
    }
}

/// Decoding keeps the kind.
pub proof fn lemma_decoded_kind(raw: RawValue, little_endian: bool)
    ensures
        raw.same_kind(raw.decoded(little_endian)),
{
}

/// What was encoded decodes to the value it came from, in either word order.
pub proof fn lemma_decode_encode(value: PrepValue, little_endian: bool)
    ensures
        value.encoded(little_endian).decoded(little_endian) == value,
{
    match value {
        PrepValue::DUint(bits) => {
            lemma_join_split(bits as int, little_endian);
        },
        PrepValue::DInt(number) => {
            lemma_join_split(unsigned32(number as int), little_endian);
        },
        PrepValue::Real(bits) => {
            lemma_join_split(bits as int, little_endian);
        },
        _ => {},
    }
}

/// The two registers of a 32-bit quantity spell that quantity again.
pub proof fn lemma_join_split(bits: int, little_endian: bool)
    requires
        0 <= bits < 0x1_0000_0000,
    ensures
        0 <= first_word(bits, little_endian) < 0x1_0000,
        0 <= second_word(bits, little_endian) < 0x1_0000,
        join_words(
            first_word(bits, little_endian) as u16,
            second_word(bits, little_endian) as u16,
            little_endian,
        ) == bits,
{
}

/// The word order decides which register is the more significant one, and nothing else:
/// swapping the two registers and flipping the order gives the same quantity.
pub proof fn lemma_word_order(first: u16, second: u16, little_endian: bool)
    ensures
        join_words(first, second, little_endian) == join_words(second, first, !little_endian),
{
}

} // verus!
