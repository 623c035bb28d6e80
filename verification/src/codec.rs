//! The frame codec. Frames are built and taken apart by `rmodbus`; each function here makes
//! one call into it, on plain values, and states what the call gives back. Over stream
//! framing the request frames and the test on a response are spelled out. Over serial
//! framing a frame ends in a checksum, which is the codec's: there the frames and the test
//! go by name.
use vstd::prelude::*;
use crate::frame::{
    be16, is_read, payload, response_len, unpack_bits, unpack_words, Protocol, GET_COILS,
    GET_DISCRETES, GET_HOLDINGS, GET_INPUTS, SET_COIL, SET_COILS_BULK, SET_HOLDING,
    SET_HOLDINGS_BULK,
};
use rmodbus::client::ModbusRequest;
use rmodbus::consts::ModbusFunction;
use rmodbus::ModbusProto;

verus! {

/// What the codec makes of a read of `count` coils from `reg` on: the request frame, or
/// `None` where it refuses the operands.
pub uninterp spec fn codec_get_coils(
    proto: Protocol,
    unit_id: u8,
    reg: u16,
    count: u16,
) -> Option<Seq<u8>>;

/// What the codec makes of a read of `count` discrete inputs from `reg` on.
pub uninterp spec fn codec_get_discretes(
    proto: Protocol,
    unit_id: u8,
    reg: u16,
    count: u16,
) -> Option<Seq<u8>>;

/// What the codec makes of a read of `count` holding registers from `reg` on.
pub uninterp spec fn codec_get_holdings(
    proto: Protocol,
    unit_id: u8,
    reg: u16,
    count: u16,
) -> Option<Seq<u8>>;

/// What the codec makes of a read of `count` input registers from `reg` on.
pub uninterp spec fn codec_get_inputs(
    proto: Protocol,
    unit_id: u8,
    reg: u16,
    count: u16,
) -> Option<Seq<u8>>;

/// What the codec makes of setting the coil at `reg` to `value`.
pub uninterp spec fn codec_set_coil(
    proto: Protocol,
    unit_id: u8,
    reg: u16,
    value: bool,
) -> Option<Seq<u8>>;

/// What the codec makes of setting the holding register at `reg` to `value`.
pub uninterp spec fn codec_set_holding(
    proto: Protocol,
    unit_id: u8,
    reg: u16,
    value: u16,
) -> Option<Seq<u8>>;

/// What the codec makes of setting the coils from `reg` on to `values`.
pub uninterp spec fn codec_set_coils_bulk(
    proto: Protocol,
    unit_id: u8,
    reg: u16,
    values: Seq<bool>,
) -> Option<Seq<u8>>;

/// What the codec makes of setting the holding registers from `reg` on to `values`.
pub uninterp spec fn codec_set_holdings_bulk(
    proto: Protocol,
    unit_id: u8,
    reg: u16,
    values: Seq<u16>,
) -> Option<Seq<u8>>;

/// Whether the codec takes `frame` as the regular response to a request with function code
/// `func` that was sent to `unit_id`.
pub uninterp spec fn codec_accepts(proto: Protocol, unit_id: u8, func: u8, frame: Seq<u8>) -> bool;

/// The more significant byte of a register.
pub open spec fn high(x: u16) -> u8 {
    (x / 256) as u8
}

/// The less significant byte of a register.
pub open spec fn low(x: u16) -> u8 {
    (x % 256) as u8
}

/// A request over stream framing: transaction 1, protocol 0, the length of the body in two
/// bytes, and the body.
pub open spec fn stream_frame(body: Seq<u8>) -> Seq<u8> {
    seq![0u8, 1u8, 0u8, 0u8, high(body.len() as u16), low(body.len() as u16)] + body
}

/// The body of a request with two operands: unit, function code, address, and the second
/// operand, each operand with its more significant byte first.
pub open spec fn plain_body(unit_id: u8, func: u8, reg: u16, operand: u16) -> Seq<u8> {
    seq![unit_id, func, high(reg), low(reg), high(operand), low(operand)]
}

/// The body of a bulk write: unit, function code, address, the number of values, the number
/// of data bytes, and the data bytes.
pub open spec fn bulk_body(unit_id: u8, func: u8, reg: u16, count: nat, data: Seq<u8>) -> Seq<u8> {
    seq![
        unit_id,
        func,
        high(reg),
        low(reg),
        high(count as u16),
        low(count as u16),
        data.len() as u8,
    ] + data
}

/// `weight` where the value at `at` is set, and 0 where it is not or there is none.
pub open spec fn bit_weight(values: Seq<bool>, at: int, weight: u8) -> u8 {
    if at < values.len() && values[at] {
        weight
    } else {
        0u8
    }
}

/// Byte `j` of the data bytes of a bulk write of coils: the eight values from `8 * j` on, the
/// first in the least significant bit.
pub open spec fn packed_byte(values: Seq<bool>, j: int) -> u8 {
    bit_weight(values, 8 * j, 1u8) | bit_weight(values, 8 * j + 1, 2u8) | bit_weight(
        values,
        8 * j + 2,
        4u8,
    ) | bit_weight(values, 8 * j + 3, 8u8) | bit_weight(values, 8 * j + 4, 16u8) | bit_weight(
        values,
        8 * j + 5,
        32u8,
    ) | bit_weight(values, 8 * j + 6, 64u8) | bit_weight(values, 8 * j + 7, 128u8)
}

/// The data bytes of a bulk write of coils: eight values to a byte.
pub open spec fn packed_bits(values: Seq<bool>) -> Seq<u8> {
    Seq::new(((values.len() + 7) / 8) as nat, |j: int| packed_byte(values, j))
}

/// The data bytes of a bulk write of registers: two bytes each, the more significant first.
pub open spec fn register_bytes(values: Seq<u16>) -> Seq<u8> {
    Seq::new(
        2 * values.len(),
        |i: int|
            if i % 2 == 0 {
                high(values[i / 2])
            } else {
                low(values[i / 2])
            },
    )
}

/// The most coils that one bulk write can carry: their data bytes are counted in one byte.
pub const MAX_COILS_PER_FRAME: usize = 2040;

/// The most registers that the codec puts into one bulk write.
pub const MAX_REGISTERS_PER_FRAME: usize = 125;

/// The request frame that reads `count` coils from `reg` on, or `None` where the codec
/// refuses the operands. Over stream framing it is spelled out here; over serial framing
/// the frame ends in a checksum, and is what the codec makes of it.
pub open spec fn get_coils_frame(proto: Protocol, unit_id: u8, reg: u16, count: u16) -> Option<
    Seq<u8>,
> {
    match proto {
        Protocol::TcpUdp => Some(stream_frame(plain_body(unit_id, GET_COILS, reg, count))),
        Protocol::Rtu => codec_get_coils(proto, unit_id, reg, count),
    }
}

/// The request frame that reads `count` discrete inputs from `reg` on.
pub open spec fn get_discretes_frame(
    proto: Protocol,
    unit_id: u8,
    reg: u16,
    count: u16,
) -> Option<Seq<u8>> {
    match proto {
        Protocol::TcpUdp => Some(stream_frame(plain_body(unit_id, GET_DISCRETES, reg, count))),
        Protocol::Rtu => codec_get_discretes(proto, unit_id, reg, count),
    }
}

/// The request frame that reads `count` holding registers from `reg` on.
pub open spec fn get_holdings_frame(
    proto: Protocol,
    unit_id: u8,
    reg: u16,
    count: u16,
) -> Option<Seq<u8>> {
    match proto {
        Protocol::TcpUdp => Some(stream_frame(plain_body(unit_id, GET_HOLDINGS, reg, count))),
        Protocol::Rtu => codec_get_holdings(proto, unit_id, reg, count),
    }
}

/// The request frame that reads `count` input registers from `reg` on.
pub open spec fn get_inputs_frame(proto: Protocol, unit_id: u8, reg: u16, count: u16) -> Option<
    Seq<u8>,
> {
    match proto {
        Protocol::TcpUdp => Some(stream_frame(plain_body(unit_id, GET_INPUTS, reg, count))),
        Protocol::Rtu => codec_get_inputs(proto, unit_id, reg, count),
    }
}

/// The request frame that sets the coil at `reg` to `value`: the second operand is `0xff00`
/// for a coil that is set and 0 for one that is not.
pub open spec fn set_coil_frame(proto: Protocol, unit_id: u8, reg: u16, value: bool) -> Option<
    Seq<u8>,
> {
    match proto {
        Protocol::TcpUdp => Some(
            stream_frame(
                plain_body(
                    unit_id,
                    SET_COIL,
                    reg,
                    if value {
                        0xff00u16
                    } else {
                        0u16
                    },
                ),
            ),
        ),
        Protocol::Rtu => codec_set_coil(proto, unit_id, reg, value),
    }
}

/// The request frame that sets the holding register at `reg` to `value`.
pub open spec fn set_holding_frame(proto: Protocol, unit_id: u8, reg: u16, value: u16) -> Option<
    Seq<u8>,
> {
    match proto {
        Protocol::TcpUdp => Some(stream_frame(plain_body(unit_id, SET_HOLDING, reg, value))),
        Protocol::Rtu => codec_set_holding(proto, unit_id, reg, value),
    }
}

/// The request frame that sets the coils from `reg` on to `values`. There is none for more
/// values than one frame can carry.
pub open spec fn set_coils_bulk_frame(
    proto: Protocol,
    unit_id: u8,
    reg: u16,
    values: Seq<bool>,
) -> Option<Seq<u8>> {
    match proto {
        Protocol::TcpUdp => if values.len() > MAX_COILS_PER_FRAME {
            None
        } else {
            Some(
                stream_frame(
                    bulk_body(unit_id, SET_COILS_BULK, reg, values.len(), packed_bits(values)),
                ),
            )
        },
        Protocol::Rtu => codec_set_coils_bulk(proto, unit_id, reg, values),
    }
}

/// The request frame that sets the holding registers from `reg` on to `values`. There is
/// none for more values than the codec puts into one frame.
pub open spec fn set_holdings_bulk_frame(
    proto: Protocol,
    unit_id: u8,
    reg: u16,
    values: Seq<u16>,
) -> Option<Seq<u8>> {
    match proto {
        Protocol::TcpUdp => if values.len() > MAX_REGISTERS_PER_FRAME {
            None
        } else {
            Some(
                stream_frame(
                    bulk_body(
                        unit_id,
                        SET_HOLDINGS_BULK,
                        reg,
                        values.len(),
                        register_bytes(values),
                    ),
                ),
            )
        },
        Protocol::Rtu => codec_set_holdings_bulk(proto, unit_id, reg, values),
    }
}

/// True of the function codes of the eight operations.
pub open spec fn is_function(func: u8) -> bool {
    is_read(func) || func == SET_COIL || func == SET_HOLDING || func == SET_COILS_BULK || func
        == SET_HOLDINGS_BULK
}

/// Whether `frame` is the regular response over stream framing to a request with function
/// code `func` that was sent to `unit_id`: it is long enough to hold a byte behind the
/// function code, it answers transaction 1 in protocol 0, unit and function code are those
/// of the request, and the response to a read announces at least half as many data bytes as
/// follow the byte that announces them.
pub open spec fn stream_accepts(unit_id: u8, func: u8, frame: Seq<u8>) -> bool {
    &&& is_function(func)
    &&& frame.len() >= 9
    &&& frame[0] == 0 && frame[1] == 1
    &&& frame[2] == 0 && frame[3] == 0
    &&& frame[6] == unit_id
    &&& frame[7] == func
    &&& is_read(func) ==> 2 * frame[8] >= frame.len() - 9
}

/// Whether the codec takes `frame` as the regular response to a request with function code
/// `func` that was sent to `unit_id`: header or checksum, unit and function all fit, and the
/// slave reported no exception. No frame is the response to a code that is none of the
/// eight. Over stream framing the test is spelled out here; over serial framing it
/// includes the checksum, and is the codec's.
pub open spec fn acknowledged(proto: Protocol, unit_id: u8, func: u8, frame: Seq<u8>) -> bool {
    match proto {
        Protocol::TcpUdp => stream_accepts(unit_id, func, frame),
        Protocol::Rtu => codec_accepts(proto, unit_id, func, frame),
    }
}

/// The most coils that can be handed to the codec in one call.
pub const MAX_COILS_PER_CALL: usize = 2048;

/// `ModbusRequest::generate_get_coils` on a fresh request object for `unit_id`. The frame
/// depends on the four arguments alone, so it has a name. Over stream framing the codec
/// refuses no operands, and the frame is the header for transaction 1 and the six bytes of
/// the request.
#[verifier::external_body]
pub(crate) fn generate_get_coils(
    proto: Protocol,
    unit_id: u8,
    reg: u16,
    count: u16,
) -> (r: Result<Vec<u8>, rmodbus::ErrorKind>)
    ensures
        r matches Ok(frame) ==> codec_get_coils(proto, unit_id, reg, count) == Some(frame@),
        r is Err ==> codec_get_coils(proto, unit_id, reg, count) is None,
        proto is TcpUdp ==> match r {
            Ok(frame) => frame@ == stream_frame(plain_body(unit_id, GET_COILS, reg, count)),
            Err(_) => false,
        },
{
    let variant = match proto {
        Protocol::TcpUdp => ModbusProto::TcpUdp,
        Protocol::Rtu => ModbusProto::Rtu,
    };
    let mut frame: Vec<u8> = Vec::new();
    ModbusRequest::new(unit_id, variant).generate_get_coils(reg, count, &mut frame)?;
    Ok(frame)
}

/// `ModbusRequest::generate_get_discretes` on a fresh request object for `unit_id`. Over
/// stream framing the frame is the header and the six bytes of the request.
#[verifier::external_body]
pub(crate) fn generate_get_discretes(
    proto: Protocol,
    unit_id: u8,
    reg: u16,
    count: u16,
) -> (r: Result<Vec<u8>, rmodbus::ErrorKind>)
    ensures
        r matches Ok(frame) ==> codec_get_discretes(proto, unit_id, reg, count) == Some(frame@),
        r is Err ==> codec_get_discretes(proto, unit_id, reg, count) is None,
        proto is TcpUdp ==> match r {
            Ok(frame) => frame@ == stream_frame(plain_body(unit_id, GET_DISCRETES, reg, count)),
            Err(_) => false,
        },
{
    let variant = match proto {
        Protocol::TcpUdp => ModbusProto::TcpUdp,
        Protocol::Rtu => ModbusProto::Rtu,
    };
    let mut frame: Vec<u8> = Vec::new();
    ModbusRequest::new(unit_id, variant).generate_get_discretes(reg, count, &mut frame)?;
    Ok(frame)
}

/// `ModbusRequest::generate_get_holdings` on a fresh request object for `unit_id`. Over
/// stream framing the frame is the header and the six bytes of the request.
#[verifier::external_body]
pub(crate) fn generate_get_holdings(
    proto: Protocol,
    unit_id: u8,
    reg: u16,
    count: u16,
) -> (r: Result<Vec<u8>, rmodbus::ErrorKind>)
    ensures
        r matches Ok(frame) ==> codec_get_holdings(proto, unit_id, reg, count) == Some(frame@),
        r is Err ==> codec_get_holdings(proto, unit_id, reg, count) is None,
        proto is TcpUdp ==> match r {
            Ok(frame) => frame@ == stream_frame(plain_body(unit_id, GET_HOLDINGS, reg, count)),
            Err(_) => false,
        },
{
    let variant = match proto {
        Protocol::TcpUdp => ModbusProto::TcpUdp,
        Protocol::Rtu => ModbusProto::Rtu,
    };
    let mut frame: Vec<u8> = Vec::new();
    ModbusRequest::new(unit_id, variant).generate_get_holdings(reg, count, &mut frame)?;
    Ok(frame)
}

/// `ModbusRequest::generate_get_inputs` on a fresh request object for `unit_id`. Over
/// stream framing the frame is the header and the six bytes of the request.
#[verifier::external_body]
pub(crate) fn generate_get_inputs(
    proto: Protocol,
    unit_id: u8,
    reg: u16,
    count: u16,
) -> (r: Result<Vec<u8>, rmodbus::ErrorKind>)
    ensures
        r matches Ok(frame) ==> codec_get_inputs(proto, unit_id, reg, count) == Some(frame@),
        r is Err ==> codec_get_inputs(proto, unit_id, reg, count) is None,
        proto is TcpUdp ==> match r {
            Ok(frame) => frame@ == stream_frame(plain_body(unit_id, GET_INPUTS, reg, count)),
            Err(_) => false,
        },
{
    let variant = match proto {
        Protocol::TcpUdp => ModbusProto::TcpUdp,
        Protocol::Rtu => ModbusProto::Rtu,
    };
    let mut frame: Vec<u8> = Vec::new();
    ModbusRequest::new(unit_id, variant).generate_get_inputs(reg, count, &mut frame)?;
    Ok(frame)
}

/// `ModbusRequest::generate_set_coil` on a fresh request object for `unit_id`. Over stream
/// framing the frame is the header and the six bytes of the request, with `0xff00` for a
/// coil that is set and 0 for one that is not.
#[verifier::external_body]
pub(crate) fn generate_set_coil(
    proto: Protocol,
    unit_id: u8,
    reg: u16,
    value: bool,
) -> (r: Result<Vec<u8>, rmodbus::ErrorKind>)
    ensures
        r matches Ok(frame) ==> codec_set_coil(proto, unit_id, reg, value) == Some(frame@),
        r is Err ==> codec_set_coil(proto, unit_id, reg, value) is None,
        proto is TcpUdp ==> match r {
            Ok(frame) => Some(frame@) == set_coil_frame(proto, unit_id, reg, value),
            Err(_) => false,
        },
{
    let variant = match proto {
        Protocol::TcpUdp => ModbusProto::TcpUdp,
        Protocol::Rtu => ModbusProto::Rtu,
    };
    let mut frame: Vec<u8> = Vec::new();
    ModbusRequest::new(unit_id, variant).generate_set_coil(reg, value, &mut frame)?;
    Ok(frame)
}

/// `ModbusRequest::generate_set_holding` on a fresh request object for `unit_id`. Over
/// stream framing the frame is the header and the six bytes of the request.
#[verifier::external_body]
pub(crate) fn generate_set_holding(
    proto: Protocol,
    unit_id: u8,
    reg: u16,
    value: u16,
) -> (r: Result<Vec<u8>, rmodbus::ErrorKind>)
    ensures
        r matches Ok(frame) ==> codec_set_holding(proto, unit_id, reg, value) == Some(frame@),
        r is Err ==> codec_set_holding(proto, unit_id, reg, value) is None,
        proto is TcpUdp ==> match r {
            Ok(frame) => frame@ == stream_frame(plain_body(unit_id, SET_HOLDING, reg, value)),
            Err(_) => false,
        },
{
    let variant = match proto {
        Protocol::TcpUdp => ModbusProto::TcpUdp,
        Protocol::Rtu => ModbusProto::Rtu,
    };
    let mut frame: Vec<u8> = Vec::new();
    ModbusRequest::new(unit_id, variant).generate_set_holding(reg, value, &mut frame)?;
    Ok(frame)
}

/// `ModbusRequest::generate_set_coils_bulk` on a fresh request object for `unit_id`. The
/// codec packs the bits into a buffer of 256 bytes before it looks at their number, and
/// runs past its end on more than 2048 values: such calls are kept out. Over stream framing
/// it refuses more than 2040 values, whose data bytes one byte cannot count, and else the
/// frame is the header, the seven bytes of the request and the packed values.
#[verifier::external_body]
pub(crate) fn generate_set_coils_bulk(
    proto: Protocol,
    unit_id: u8,
    reg: u16,
    values: &[bool],
) -> (r: Result<Vec<u8>, rmodbus::ErrorKind>)
    requires
        values@.len() <= MAX_COILS_PER_CALL,
    ensures
        r matches Ok(frame) ==> codec_set_coils_bulk(proto, unit_id, reg, values@) == Some(frame@),
        r is Err ==> codec_set_coils_bulk(proto, unit_id, reg, values@) is None,
        proto is TcpUdp ==> match r {
            Ok(frame) => values@.len() <= MAX_COILS_PER_FRAME && frame@ == stream_frame(
                bulk_body(unit_id, SET_COILS_BULK, reg, values@.len(), packed_bits(values@)),
            ),
            Err(_) => values@.len() > MAX_COILS_PER_FRAME,
        },
{
    let variant = match proto {
        Protocol::TcpUdp => ModbusProto::TcpUdp,
        Protocol::Rtu => ModbusProto::Rtu,
    };
    let mut frame: Vec<u8> = Vec::new();
    ModbusRequest::new(unit_id, variant).generate_set_coils_bulk(reg, values, &mut frame)?;
    Ok(frame)
}

/// `ModbusRequest::generate_set_holdings_bulk` on a fresh request object for `unit_id`.
/// Over stream framing it refuses more than 125 values, and else the frame is the header,
/// the seven bytes of the request and two bytes for each value.
#[verifier::external_body]
pub(crate) fn generate_set_holdings_bulk(
    proto: Protocol,
    unit_id: u8,
    reg: u16,
    values: &[u16],
) -> (r: Result<Vec<u8>, rmodbus::ErrorKind>)
    ensures
        r matches Ok(frame) ==> codec_set_holdings_bulk(proto, unit_id, reg, values@) == Some(
            frame@,
        ),
        r is Err ==> codec_set_holdings_bulk(proto, unit_id, reg, values@) is None,
        proto is TcpUdp ==> match r {
            Ok(frame) => values@.len() <= MAX_REGISTERS_PER_FRAME && frame@ == stream_frame(
                bulk_body(unit_id, SET_HOLDINGS_BULK, reg, values@.len(), register_bytes(values@)),
            ),
            Err(_) => values@.len() > MAX_REGISTERS_PER_FRAME,
        },
{
    let variant = match proto {
        Protocol::TcpUdp => ModbusProto::TcpUdp,
        Protocol::Rtu => ModbusProto::Rtu,
    };
    let mut frame: Vec<u8> = Vec::new();
    ModbusRequest::new(unit_id, variant).generate_set_holdings_bulk(reg, values, &mut frame)?;
    Ok(frame)
}

/// `rmodbus::guess_response_frame_len`. It reads bytes 2 to 5 of a stream prefix and adds 6
/// to the length field in 16 bits, and it reads bytes 1 and 2 of a serial prefix: the
/// prefix must hold them, and the sum must fit. What it returns is `response_len`.
#[verifier::external_body]
pub(crate) fn guess_response_frame_len(proto: Protocol, prefix: &[u8]) -> (r: Result<
    u8,
    rmodbus::ErrorKind,
>)
    requires
        prefix@.len() >= proto.spec_prefix_len(),
        proto is TcpUdp ==> be16(prefix@[4], prefix@[5]) + 6 <= u16::MAX,
    ensures
        r matches Ok(total) ==> response_len(proto, prefix@) == Some(total as nat),
        r is Err ==> response_len(proto, prefix@) is None,
{
    let variant = match proto {
        Protocol::TcpUdp => ModbusProto::TcpUdp,
        Protocol::Rtu => ModbusProto::Rtu,
    };
    rmodbus::guess_response_frame_len(prefix, variant)
}

/// `ModbusRequest::parse_ok` on a request object for `unit_id` whose last request had the
/// function code `func`. Whether it accepts the frame depends on these and on the frame
/// alone. It accepts no frame that is too short to hold a unit identifier, a function code
/// and one more byte between header and checksum. Over stream framing it accepts exactly
/// the frames of `stream_accepts`.
#[verifier::external_body]
pub(crate) fn parse_ok(proto: Protocol, unit_id: u8, func: u8, frame: &[u8]) -> (r: Result<
    (),
    rmodbus::ErrorKind,
>)
    ensures
        r is Ok <==> codec_accepts(proto, unit_id, func, frame@),
        proto is TcpUdp ==> (r is Ok <==> stream_accepts(unit_id, func, frame@)),
        r is Ok ==> frame@.len() >= proto.spec_payload_start() + proto.spec_trailer_len(),
{
    let variant = match proto {
        Protocol::TcpUdp => ModbusProto::TcpUdp,
        Protocol::Rtu => ModbusProto::Rtu,
    };
    let mut request = ModbusRequest::new(unit_id, variant);
    request.func = ModbusFunction::try_from(func)?;
    request.parse_ok(frame)
}

/// `ModbusRequest::parse_bool` on a request object for `unit_id` whose last request had the
/// function code `func` and asked for `count` items. It accepts what `parse_ok` accepts,
/// and then hands out the bits of the data bytes, the least significant first, until it has
/// `count` of them.
#[verifier::external_body]
pub(crate) fn parse_bool(
    proto: Protocol,
    unit_id: u8,
    func: u8,
    count: u16,
    frame: &[u8],
) -> (r: Result<Vec<bool>, rmodbus::ErrorKind>)
    ensures
        r is Ok <==> codec_accepts(proto, unit_id, func, frame@),
        proto is TcpUdp ==> (r is Ok <==> stream_accepts(unit_id, func, frame@)),
        r matches Ok(bits) ==> bits@ == unpack_bits(payload(proto, frame@), count as nat),
{
    let variant = match proto {
        Protocol::TcpUdp => ModbusProto::TcpUdp,
        Protocol::Rtu => ModbusProto::Rtu,
    };
    let mut request = ModbusRequest::new(unit_id, variant);
    request.func = ModbusFunction::try_from(func)?;
    request.count = count;
    let mut bits: Vec<bool> = Vec::new();
    request.parse_bool(frame, &mut bits)?;
    Ok(bits)
}

/// `ModbusRequest::parse_u16` on a request object for `unit_id` whose last request was the
/// read with function code `func`, for `count` items. It accepts what `parse_ok` accepts,
/// and then hands out the data bytes two by two, the more significant first, until it has
/// `count` registers. On an accepted frame without data bytes it does not return: such
/// frames are kept out.
#[verifier::external_body]
pub(crate) fn parse_u16(
    proto: Protocol,
    unit_id: u8,
    func: u8,
    count: u16,
    frame: &[u8],
) -> (r: Result<Vec<u16>, rmodbus::ErrorKind>)
    requires
        is_read(func),
        frame@.len() > proto.spec_payload_start() + proto.spec_trailer_len(),
    ensures
        r is Ok <==> codec_accepts(proto, unit_id, func, frame@),
        proto is TcpUdp ==> (r is Ok <==> stream_accepts(unit_id, func, frame@)),
        r matches Ok(words) ==> words@ == unpack_words(payload(proto, frame@), count as nat),
{
    let variant = match proto {
        Protocol::TcpUdp => ModbusProto::TcpUdp,
        Protocol::Rtu => ModbusProto::Rtu,
    };
    let mut request = ModbusRequest::new(unit_id, variant);
    request.func = ModbusFunction::try_from(func)?;
    request.count = count;
    let mut words: Vec<u16> = Vec::new();
    request.parse_u16(frame, &mut words)?;
    Ok(words)
}

} // verus!
