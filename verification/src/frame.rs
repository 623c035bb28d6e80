//! The shape of frames: where a response frame says how long it is, where its data bytes
//! lie, and what they hold.
use vstd::prelude::*;
use crate::codec;
use crate::codec::acknowledged;
use crate::error_kind::{CodecError, ModbusErrKind, TransportError};
use crate::line::bytes_of;

verus! {

/// How frames are laid out on the wire.
#[derive(Clone, Copy, Debug, PartialEq, Eq, Structural)]
pub enum Protocol {
    /// Stream framing: a six-byte header whose last two bytes give the length of the rest.
    TcpUdp,
    /// Serial framing: no header, two checksum bytes at the end.
    Rtu,
}

/// The longest frame that the codec takes apart.
pub const MAX_FRAME_LEN: usize = 255;

/// The function codes of the eight operations.
pub const GET_COILS: u8 = 0x01;

pub const GET_DISCRETES: u8 = 0x02;

pub const GET_HOLDINGS: u8 = 0x03;

pub const GET_INPUTS: u8 = 0x04;

pub const SET_COIL: u8 = 0x05;

pub const SET_HOLDING: u8 = 0x06;

pub const SET_COILS_BULK: u8 = 0x0F;

pub const SET_HOLDINGS_BULK: u8 = 0x10;

/// True of the four function codes whose response carries data.
pub open spec fn is_read(func: u8) -> bool {
    1 <= func <= 4
}

impl Protocol {
    /// The number of bytes at the start of a response from which its whole length follows.
    pub open spec fn spec_prefix_len(self) -> nat {
        match self {
            Protocol::TcpUdp => 6,
            Protocol::Rtu => 3,
        }
    }

    /// Where the data bytes of a read response begin: behind the header, the unit
    /// identifier, the function code and the byte count.
    pub open spec fn spec_payload_start(self) -> nat {
        match self {
            Protocol::TcpUdp => 9,
            Protocol::Rtu => 3,
        }
    }

    /// The number of checksum bytes that close a frame.
    pub open spec fn spec_trailer_len(self) -> nat {
        match self {
            Protocol::TcpUdp => 0,
            Protocol::Rtu => 2,
        }
    }

    /// The most data bytes that a response can carry: what the longest frame leaves beside
    /// header, unit identifier, function code, byte count and checksum.
    pub open spec fn spec_max_payload(self) -> nat {
        (MAX_FRAME_LEN - self.spec_payload_start() - self.spec_trailer_len()) as nat
    }

    pub fn max_payload(self) -> (n: usize)
        ensures
            n == self.spec_max_payload(),
    {
        MAX_FRAME_LEN - self.payload_start() - self.trailer_len()
    }

    pub fn prefix_len(self) -> (n: usize)
        ensures
            n == self.spec_prefix_len(),
    {
        match self {
            Protocol::TcpUdp => 6,
            Protocol::Rtu => 3,
        }
    }

    pub fn payload_start(self) -> (n: usize)
        ensures
            n == self.spec_payload_start(),
    {
        match self {
            Protocol::TcpUdp => 9,
            Protocol::Rtu => 3,
        }
    }

    pub fn trailer_len(self) -> (n: usize)
        ensures
            n == self.spec_trailer_len(),
    {
        match self {
            Protocol::TcpUdp => 0,
            Protocol::Rtu => 2,
        }
    }
}

/// The most bits that the protocol lets one read ask for.
pub const MAX_BITS_PER_READ: u16 = 2000;

/// The most registers that the protocol lets one read ask for.
pub const MAX_WORDS_PER_READ: u16 = 125;

/// The most items that a read may ask for if the codec is to take its response apart: what
/// the protocol allows, and no more than a response of the longest frame can carry. A poll
/// plans its reads within this.
pub open spec fn spec_max_read(proto: Protocol, bits: bool) -> u16 {
    if bits {
        if proto.spec_max_payload() * 8 < MAX_BITS_PER_READ {
            (proto.spec_max_payload() * 8) as u16
        } else {
            MAX_BITS_PER_READ
        }
    } else {
        if proto.spec_max_payload() / 2 < MAX_WORDS_PER_READ {
            (proto.spec_max_payload() / 2) as u16
        } else {
            MAX_WORDS_PER_READ
        }
    }
}

/// The number of data bytes in the response to a read of `count` items.
pub open spec fn response_bytes(bits: bool, count: int) -> int {
    if bits {
        (count + 7) / 8
    } else {
        2 * count
    }
}

/// The most items that a read may ask for if the codec is to take its response apart.
pub fn max_read(proto: Protocol, bits: bool) -> (n: u16)
    ensures
        n == spec_max_read(proto, bits),
        n >= 2,
{
    let room = proto.max_payload();
    if bits {
        if room * 8 < MAX_BITS_PER_READ as usize {
            (room * 8) as u16
        } else {
            MAX_BITS_PER_READ
        }
    } else {
        if room / 2 < MAX_WORDS_PER_READ as usize {
            (room / 2) as u16
        } else {
            MAX_WORDS_PER_READ
        }
    }
}

/// The most items that the protocol lets one read ask for.
pub open spec fn protocol_max(bits: bool) -> u16 {
    if bits {
        MAX_BITS_PER_READ
    } else {
        MAX_WORDS_PER_READ
    }
}

/// A read asks for at least one item and for no more than the protocol allows.
pub open spec fn readable(bits: bool, count: u16) -> bool {
    1 <= count <= protocol_max(bits)
}

/// The response to a read within the limit is no longer than the longest frame: the codec
/// can take it apart.
pub proof fn lemma_full_read_fits(proto: Protocol, bits: bool, count: int)
    requires
        0 <= count <= spec_max_read(proto, bits),
    ensures
        proto.spec_payload_start() + response_bytes(bits, count) + proto.spec_trailer_len()
            <= MAX_FRAME_LEN,
{
}

/// The number that two bytes spell, the more significant one first.
pub open spec fn be16(hi: u8, lo: u8) -> int {
    hi as int * 256 + lo as int
}

/// The whole length of the response that starts with `prefix`, or `None` where the prefix
/// cannot start a response of at most 255 bytes.
///
/// Stream framing: the protocol identifier in bytes 2 and 3 must be zero, and the length
/// field in bytes 4 and 5 counts what follows the six header bytes. Serial framing: a read
/// response is as long as its byte count says, a write response echoes six bytes, an
/// exception carries one code byte; two checksum bytes close each.
pub open spec fn response_len(proto: Protocol, prefix: Seq<u8>) -> Option<nat> {
    match proto {
        Protocol::TcpUdp => {
            let total = be16(prefix[4], prefix[5]) + 6;
            if prefix[2] == 0 && prefix[3] == 0 && total <= 255 {
                Some(total as nat)
            } else {
                None
            }
        },
        Protocol::Rtu => {
            let func = prefix[1];
            if func >= 0x80 {
                Some(5nat)
            } else if 1 <= func <= 4 {
                if prefix[2] + 5 <= 255 {
                    Some((prefix[2] + 5) as nat)
                } else {
                    None
                }
            } else if func == 5 || func == 6 || func == 15 || func == 16 {
                Some(8nat)
            } else {
                None
            }
        },
    }
}

/// A frame is complete when it is exactly as long as its own prefix announces.
pub open spec fn complete_frame(proto: Protocol, frame: Seq<u8>) -> bool {
    &&& frame.len() >= proto.spec_prefix_len()
    &&& response_len(proto, frame.take(proto.spec_prefix_len() as int)) == Some(frame.len())
}

/// The data bytes of a read response.
pub open spec fn payload(proto: Protocol, frame: Seq<u8>) -> Seq<u8> {
    frame.subrange(proto.spec_payload_start() as int, frame.len() - proto.spec_trailer_len())
}

/// Item `i` of a bit payload: bit `i % 8` of byte `i / 8`, the least significant bit first.
pub open spec fn bit_at(data: Seq<u8>, i: int) -> bool {
    (data[i / 8] >> ((i % 8) as u8)) & 1u8 == 1u8
}

/// Item `i` of a register payload: bytes `2 * i` and `2 * i + 1`, the more significant first.
pub open spec fn word_at(data: Seq<u8>, i: int) -> u16 {
    be16(data[2 * i], data[2 * i + 1]) as u16
}

/// The first `count` bits of a payload, or as many as it holds.
pub open spec fn unpack_bits(data: Seq<u8>, count: nat) -> Seq<bool> {
    Seq::new(
        if count <= data.len() * 8 {
            count
        } else {
            data.len() * 8
        },
        |i: int| bit_at(data, i),
    )
}

/// The first `count` registers of a payload, or as many as it holds.
pub open spec fn unpack_words(data: Seq<u8>, count: nat) -> Seq<u16> {
    Seq::new(
        if count <= data.len() / 2 {
            count
        } else {
            data.len() / 2
        },
        |i: int| word_at(data, i),
    )
}

/// What the codec gave back, as this library hands it on: what it made, or its own error
/// as the reason of the refusal.
pub fn handed_on<A>(got: Result<A, rmodbus::ErrorKind>) -> (r: Result<A, CodecError>)
    ensures
        match got {
            Ok(made) => r == Ok::<A, CodecError>(made),
            Err(e) => r == Err::<A, CodecError>(CodecError::Rejected(e)),
        },
{
    match got {
        Ok(made) => Ok(made),
        Err(e) => Err(CodecError::Rejected(e)),
    }
}

/// The whole length of the response that starts with `prefix`.
///
/// A prefix that is shorter than the protocol's, or a stream header whose length field is so
/// large that six more do not fit in sixteen bits, is malformed; any other prefix goes to the
/// codec, which rejects those that `response_len` has no length for.
pub fn expected_len(proto: Protocol, prefix: &[u8]) -> (r: Result<usize, CodecError>)
    ensures
        unreadable_prefix(proto, prefix@) ==> r == Err::<usize, CodecError>(CodecError::Malformed),
        !unreadable_prefix(proto, prefix@) ==> match response_len(proto, prefix@) {
            Some(total) => r == Ok::<usize, CodecError>(total as usize),
            None => r matches Err(CodecError::Rejected(_)),
        },
{
    if prefix.len() < proto.prefix_len() {
        return Err(CodecError::Malformed);
    }
    match proto {
        Protocol::TcpUdp => {
            let hi: u32 = prefix[4] as u32;
            let lo: u32 = prefix[5] as u32;
            if hi * 256 + lo + 6 > 0xFFFF {
                return Err(CodecError::Malformed);
            }
        },
        Protocol::Rtu => {},
    }
    match handed_on(codec::guess_response_frame_len(proto, prefix)) {
        Ok(total) => Ok(total as usize),
        Err(e) => Err(e),
    }
}

/// A prefix from which no length can be read at all.
pub open spec fn unreadable_prefix(proto: Protocol, prefix: Seq<u8>) -> bool {
    ||| prefix.len() < proto.spec_prefix_len()
    ||| proto is TcpUdp && be16(prefix[4], prefix[5]) + 6 > u16::MAX
}

/// Checks a complete response to a write.
pub fn parse_ack(proto: Protocol, unit_id: u8, func: u8, frame: &[u8]) -> (r: Result<
    (),
    CodecError,
>)
    ensures
        acknowledged(proto, unit_id, func, frame@) ==> r == Ok::<(), CodecError>(()),
        !acknowledged(proto, unit_id, func, frame@) ==> r matches Err(CodecError::Rejected(_)),
{
    handed_on(codec::parse_ok(proto, unit_id, func, frame))
}

/// Takes the bits out of a complete response to a read of `count` bits.
pub fn parse_bits(proto: Protocol, unit_id: u8, func: u8, count: u16, frame: &[u8]) -> (r: Result<
    Vec<bool>,
    CodecError,
>)
    ensures
        acknowledged(proto, unit_id, func, frame@) ==> (r matches Ok(bits) && bits@ == unpack_bits(
            payload(proto, frame@),
            count as nat,
        )),
        !acknowledged(proto, unit_id, func, frame@) ==> r matches Err(CodecError::Rejected(_)),
{
    handed_on(codec::parse_bool(proto, unit_id, func, count, frame))
}

/// Takes the registers out of a complete response to a read of `count` registers.
///
/// `func` must be one of the four read codes; any other is out of range. An accepted
/// response that carries no data bytes holds no register.
pub fn parse_words(proto: Protocol, unit_id: u8, func: u8, count: u16, frame: &[u8]) -> (r: Result<
    Vec<u16>,
    CodecError,
>)
    ensures
        !is_read(func) ==> r == Err::<Vec<u16>, CodecError>(CodecError::OperandRange),
        is_read(func) && acknowledged(proto, unit_id, func, frame@) ==> (r matches Ok(words)
            && words@ == unpack_words(payload(proto, frame@), count as nat)),
        is_read(func) && !acknowledged(proto, unit_id, func, frame@) ==> r matches Err(
            CodecError::Rejected(_),
        ),
{
    if func < GET_COILS || func > GET_INPUTS {
        return Err(CodecError::OperandRange);
    }
    if frame.len() <= proto.payload_start() + proto.trailer_len() {
        return match handed_on(codec::parse_ok(proto, unit_id, func, frame)) {
            Ok(()) => {
                assert(payload(proto, frame@).len() == 0);
                assert(unpack_words(payload(proto, frame@), count as nat) =~= Seq::<u16>::empty());
                Ok(Vec::new())
            },
            Err(e) => Err(e),
        };
    }
    handed_on(codec::parse_u16(proto, unit_id, func, count, frame))
}

/// The number of bytes still to be read once the prefix is in hand.
pub open spec fn spec_remaining_len(proto: Protocol, total: nat) -> nat {
    if total > proto.spec_prefix_len() {
        (total - proto.spec_prefix_len()) as nat
    } else {
        0
    }
}

/// The number of bytes still to be read once the prefix is in hand.
pub fn remaining_len(proto: Protocol, total: usize) -> (n: usize)
    ensures
        n == spec_remaining_len(proto, total as nat),
{
    let have = proto.prefix_len();
    if total > have {
        total - have
    } else {
        0
    }
}

/// What the bytes that came back for the prefix tell.
pub enum Told {
    /// They are not as many as the prefix has.
    Short,
    /// No length can be read from them.
    Malformed,
    /// The codec finds no length in them.
    Rejected,
    /// The response has this many bytes in all.
    Total(nat),
}

/// What the bytes that came back for the prefix tell.
pub open spec fn told(proto: Protocol, bytes: Seq<u8>) -> Told {
    if bytes.len() != proto.spec_prefix_len() {
        Told::Short
    } else if unreadable_prefix(proto, bytes) {
        Told::Malformed
    } else {
        match response_len(proto, bytes) {
            None => Told::Rejected,
            Some(total) => Told::Total(total),
        }
    }
}

/// How the call goes on after the request was handed to the transport: a send that failed
/// ends the call with the transport's error.
pub fn after_write(got: Result<(), TransportError>) -> (r: Result<(), ModbusErrKind>)
    ensures
        match got {
            Ok(()) => r == Ok::<(), ModbusErrKind>(()),
            Err(e) => r == Err::<(), ModbusErrKind>(ModbusErrKind::Transport(e)),
        },
{
    match got {
        Ok(()) => Ok(()),
        Err(e) => Err(ModbusErrKind::Transport(e)),
    }
}

/// How the call goes on after the read of the prefix. A read that failed ends the call with
/// the transport's error, one that brought another number of bytes with a short read, a
/// prefix without a length with the codec's verdict. Else the prefix is handed on as it
/// came, with the number of bytes that are still to be read.
pub fn after_prefix(proto: Protocol, got: Result<Vec<u8>, TransportError>) -> (r: Result<
    (Vec<u8>, usize),
    ModbusErrKind,
>)
    ensures
        match got {
            Err(e) => r == Err::<(Vec<u8>, usize), ModbusErrKind>(ModbusErrKind::Transport(e)),
            Ok(bytes) => match told(proto, bytes@) {
                Told::Short => r == Err::<(Vec<u8>, usize), ModbusErrKind>(
                    ModbusErrKind::Transport(TransportError::ShortRead),
                ),
                Told::Malformed => r == Err::<(Vec<u8>, usize), ModbusErrKind>(
                    ModbusErrKind::Codec(CodecError::Malformed),
                ),
                Told::Rejected => r matches Err(ModbusErrKind::Codec(CodecError::Rejected(_))),
                Told::Total(total) => r == Ok::<(Vec<u8>, usize), ModbusErrKind>(
                    (bytes, spec_remaining_len(proto, total) as usize),
                ),
            },
        },
{
    let bytes = match got {
        Ok(bytes) => bytes,
        Err(e) => {
            return Err(ModbusErrKind::Transport(e));
        },
    };
    if bytes.len() != proto.prefix_len() {
        return Err(ModbusErrKind::Transport(TransportError::ShortRead));
    }
    match expected_len(proto, bytes.as_slice()) {
        Ok(total) => {
            proof {
                lemma_response_covers_prefix(proto, bytes@);
            }
            let rest = remaining_len(proto, total);
            Ok((bytes, rest))
        },
        Err(e) => Err(ModbusErrKind::Codec(e)),
    }
}

/// How the call ends after the read of the rest. A read that failed ends the call with the
/// transport's error, one that brought another number of bytes than were asked for with a
/// short read. Else the frame is the prefix followed by the rest, both as they came.
pub fn after_rest(prefix: Vec<u8>, rest_len: usize, got: Result<Vec<u8>, TransportError>) -> (r:
    Result<Vec<u8>, ModbusErrKind>)
    ensures
        match got {
            Err(e) => r == Err::<Vec<u8>, ModbusErrKind>(ModbusErrKind::Transport(e)),
            Ok(bytes) => if bytes@.len() != rest_len {
                r == Err::<Vec<u8>, ModbusErrKind>(
                    ModbusErrKind::Transport(TransportError::ShortRead),
                )
            } else {
                bytes_of(r) == Ok::<Seq<u8>, ModbusErrKind>(prefix@ + bytes@)
            },
        },
{
    let mut rest = match got {
        Ok(bytes) => bytes,
        Err(e) => {
            return Err(ModbusErrKind::Transport(e));
        },
    };
    if rest.len() != rest_len {
        return Err(ModbusErrKind::Transport(TransportError::ShortRead));
    }
    let mut frame = prefix;
    frame.append(&mut rest);
    Ok(frame)
}

/// Every length that a prefix can announce reaches at least to the end of the prefix.
pub proof fn lemma_response_covers_prefix(proto: Protocol, prefix: Seq<u8>)
    requires
        response_len(proto, prefix) is Some,
    ensures
        response_len(proto, prefix)->0 >= proto.spec_prefix_len(),
        response_len(proto, prefix)->0 <= 255,
{
}

/// A bit payload with enough bytes for `count` items yields exactly `count` items, item `i`
/// being the bit at position `i`: the items come out in address order.
pub proof fn lemma_bits_of_full_payload(data: Seq<u8>, count: nat)
    requires
        data.len() * 8 >= count,
    ensures
        unpack_bits(data, count).len() == count,
        forall|i: int| 0 <= i < count ==> unpack_bits(data, count)[i] == bit_at(data, i),
{
}

/// A register payload with enough bytes for `count` items yields exactly `count` items, item
/// `i` being the register at position `i`: the items come out in address order.
pub proof fn lemma_words_of_full_payload(data: Seq<u8>, count: nat)
    requires
        data.len() >= 2 * count,
    ensures
        unpack_words(data, count).len() == count,
        forall|i: int| 0 <= i < count ==> unpack_words(data, count)[i] == word_at(data, i),
{
}

} // verus!
