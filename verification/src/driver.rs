//! The driver: it turns an operation into one exchange with the slave, and the response
//! into the result of the call.
use vstd::prelude::*;
use crate::codec;
use crate::codec::{
    acknowledged, get_coils_frame, get_discretes_frame, get_holdings_frame, get_inputs_frame,
    bit_weight, high, low, packed_bits, packed_byte, register_bytes, set_coil_frame,
    set_coils_bulk_frame, set_holding_frame, set_holdings_bulk_frame, stream_accepts,
    stream_frame, MAX_COILS_PER_CALL,
};
use crate::error_kind::{CodecError, ModbusErrKind, TransportError};
use crate::frame::{
    after_prefix, after_rest, after_write, bit_at, complete_frame, handed_on, is_read,
    lemma_bits_of_full_payload, lemma_response_covers_prefix, lemma_words_of_full_payload,
    parse_ack, parse_bits, parse_words, payload, readable, response_bytes, response_len, told,
    unpack_bits, unpack_words, word_at, Protocol, Told, GET_COILS, GET_DISCRETES, GET_HOLDINGS,
    GET_INPUTS, MAX_BITS_PER_READ, MAX_WORDS_PER_READ, SET_COIL, SET_COILS_BULK, SET_HOLDING,
    SET_HOLDINGS_BULK,
};
use crate::line::{bytes_of, Io, Line};
use crate::request_types::{
    all_coils, all_registers, coil_bits, get_bools, get_registers, register_words,
    MRequestValues, MultipleWriteRequest, ReadRequest, WriteRequest,
};

verus! {

/// One operation with its operands.
pub enum ModbusFunc {
    ReadCoilds(ReadRequest),
    ReadDiscreteInputs(ReadRequest),
    ReadHoldingRegisters(ReadRequest),
    ReadInputRegisters(ReadRequest),
    WriteSingleCoil(WriteRequest),
    WriteSingleHoldingRegister(WriteRequest),
    WriteMultipleCoils(MultipleWriteRequest),
    WriteMultipleHoldingRegisters(MultipleWriteRequest),
}

/// Why no request frame comes about.
pub enum Refusal {
    /// A value is of the other kind than the operation writes.
    TypeMismatch,
    /// There are more values than can be handed to the codec.
    OperandRange,
    /// The codec refuses the operands.
    Codec,
}

impl Refusal {
    /// The error that reports this refusal.
    pub open spec fn reported_as(self, e: ModbusErrKind) -> bool {
        match self {
            Refusal::TypeMismatch => e == ModbusErrKind::TypeMismatch,
            Refusal::OperandRange => e == ModbusErrKind::Codec(CodecError::OperandRange),
            Refusal::Codec => e matches ModbusErrKind::Codec(CodecError::Rejected(_)),
        }
    }
}

/// What the codec made of the operands, as the outcome of the encoding step.
pub open spec fn encoded(frame: Option<Seq<u8>>) -> Result<Seq<u8>, Refusal> {
    match frame {
        Some(bytes) => Ok(bytes),
        None => Err(Refusal::Codec),
    }
}

impl ModbusFunc {
    /// The function code that the operation puts on the wire.
    pub open spec fn code(self) -> u8 {
        match self {
            ModbusFunc::ReadCoilds(_) => GET_COILS,
            ModbusFunc::ReadDiscreteInputs(_) => GET_DISCRETES,
            ModbusFunc::ReadHoldingRegisters(_) => GET_HOLDINGS,
            ModbusFunc::ReadInputRegisters(_) => GET_INPUTS,
            ModbusFunc::WriteSingleCoil(_) => SET_COIL,
            ModbusFunc::WriteSingleHoldingRegister(_) => SET_HOLDING,
            ModbusFunc::WriteMultipleCoils(_) => SET_COILS_BULK,
            ModbusFunc::WriteMultipleHoldingRegisters(_) => SET_HOLDINGS_BULK,
        }
    }

    /// The request frame of the operation, or why there is none. A read must ask for at
    /// least one item and for no more than the protocol allows. The values of a write are
    /// narrowed first, all of them, so a value of the wrong kind is reported before
    /// anything else is looked at.
    pub open spec fn request_frame(self, proto: Protocol, unit_id: u8) -> Result<Seq<u8>, Refusal> {
        match self {
            ModbusFunc::ReadCoilds(r) => if !readable(true, r.count) {
                Err(Refusal::OperandRange)
            } else {
                encoded(get_coils_frame(proto, unit_id, r.start, r.count))
            },
            ModbusFunc::ReadDiscreteInputs(r) => if !readable(true, r.count) {
                Err(Refusal::OperandRange)
            } else {
                encoded(get_discretes_frame(proto, unit_id, r.start, r.count))
            },
            ModbusFunc::ReadHoldingRegisters(r) => if !readable(false, r.count) {
                Err(Refusal::OperandRange)
            } else {
                encoded(get_holdings_frame(proto, unit_id, r.start, r.count))
            },
            ModbusFunc::ReadInputRegisters(r) => if !readable(false, r.count) {
                Err(Refusal::OperandRange)
            } else {
                encoded(get_inputs_frame(proto, unit_id, r.start, r.count))
            },
            ModbusFunc::WriteSingleCoil(w) => match w.value {
                MRequestValues::Coil(bit) => encoded(set_coil_frame(proto, unit_id, w.start, bit)),
                MRequestValues::Register(_) => Err(Refusal::TypeMismatch),
            },
            ModbusFunc::WriteSingleHoldingRegister(w) => match w.value {
                MRequestValues::Register(word) => encoded(
                    set_holding_frame(proto, unit_id, w.start, word),
                ),
                MRequestValues::Coil(_) => Err(Refusal::TypeMismatch),
            },
            ModbusFunc::WriteMultipleCoils(m) => if !all_coils(m.values@) {
                Err(Refusal::TypeMismatch)
            } else if m.values@.len() > MAX_COILS_PER_CALL {
                Err(Refusal::OperandRange)
            } else {
                encoded(set_coils_bulk_frame(proto, unit_id, m.start, coil_bits(m.values@)))
            },
            ModbusFunc::WriteMultipleHoldingRegisters(m) => if !all_registers(m.values@) {
                Err(Refusal::TypeMismatch)
            } else {
                encoded(
                    set_holdings_bulk_frame(proto, unit_id, m.start, register_words(m.values@)),
                )
            },
        }
    }

    /// The number of items that a read asks for. A write asks for none.
    pub open spec fn count(self) -> u16 {
        match self {
            ModbusFunc::ReadCoilds(r) => r.count,
            ModbusFunc::ReadDiscreteInputs(r) => r.count,
            ModbusFunc::ReadHoldingRegisters(r) => r.count,
            ModbusFunc::ReadInputRegisters(r) => r.count,
            _ => 0,
        }
    }

    /// The values of the operation are of the kind that it writes. A read has no values.
    pub open spec fn kinds_fit(self) -> bool {
        match self {
            ModbusFunc::WriteSingleCoil(w) => w.value is Coil,
            ModbusFunc::WriteSingleHoldingRegister(w) => w.value is Register,
            ModbusFunc::WriteMultipleCoils(m) => all_coils(m.values@),
            ModbusFunc::WriteMultipleHoldingRegisters(m) => all_registers(m.values@),
            _ => true,
        }
    }

    /// The scratch buffer of the operation.
    pub open spec fn buffer(self) -> Seq<u8> {
        match self {
            ModbusFunc::ReadCoilds(r) => r.buffer@,
            ModbusFunc::ReadDiscreteInputs(r) => r.buffer@,
            ModbusFunc::ReadHoldingRegisters(r) => r.buffer@,
            ModbusFunc::ReadInputRegisters(r) => r.buffer@,
            ModbusFunc::WriteSingleCoil(w) => w.buffer@,
            ModbusFunc::WriteSingleHoldingRegister(w) => w.buffer@,
            ModbusFunc::WriteMultipleCoils(m) => m.buffer@,
            ModbusFunc::WriteMultipleHoldingRegisters(m) => m.buffer@,
        }
    }
}

/// A byte stream to one slave. Nothing is taken on trust about a transport: what it hands
/// back is checked where it matters.
pub trait MBNetworks {
    /// The framing that the stream carries.
    const PROTO: Protocol;

    /// Sends the bytes, all of them or none that count: a send that stops half way is an
    /// error. A send that takes longer than the transport allows is an error too.
    fn write_all(&mut self, bytes: &[u8]) -> Result<(), TransportError>;

    /// Reads `n` bytes, waiting for them no longer than the transport allows. A read that
    /// hands back another number of bytes is taken for a short read by the driver.
    fn read_exact(&mut self, n: usize) -> Result<Vec<u8>, TransportError>;
}

/// What stays the same over the life of a driver.
pub struct Session {
    pub proto: Protocol,
    pub unit_id: u8,
}

/// The bytes that a call handed over to be sent, if it is a send.
pub open spec fn sent(event: Io) -> Option<Seq<u8>> {
    match event {
        Io::Sent(bytes, _) => Some(bytes),
        Io::Asked(_, _) => None,
    }
}

/// The number of bytes that a call asked for, if it is a read.
pub open spec fn asked(event: Io) -> Option<nat> {
    match event {
        Io::Sent(_, _) => None,
        Io::Asked(n, _) => Some(n),
    }
}

/// How an exchange ends with the read of the rest: a read that failed gives the transport's
/// error, one that brought another number of bytes a short read, any other the prefix
/// followed by the rest.
pub open spec fn rest_read(
    prefix: Seq<u8>,
    want: nat,
    event: Io,
    x: Result<Seq<u8>, ModbusErrKind>,
) -> bool {
    match event {
        Io::Asked(n, Err(e)) => n == want && x == Err::<Seq<u8>, ModbusErrKind>(
            ModbusErrKind::Transport(e),
        ),
        Io::Asked(n, Ok(rest)) => n == want && if rest.len() != want {
            x == Err::<Seq<u8>, ModbusErrKind>(ModbusErrKind::Transport(TransportError::ShortRead))
        } else {
            x == Ok::<Seq<u8>, ModbusErrKind>(prefix + rest)
        },
        Io::Sent(_, _) => false,
    }
}

/// How an exchange goes on with the read of the prefix. A read that failed, or that brought
/// no prefix with a length, ends it there, with the error of that step. A prefix that
/// announces nothing beyond itself is the frame, and no read follows. Any other is followed
/// by one read of what it says is still to come.
pub open spec fn prefix_read(
    proto: Protocol,
    events: Seq<Io>,
    x: Result<Seq<u8>, ModbusErrKind>,
) -> bool {
    match events[1] {
        Io::Asked(n, Err(e)) => n == proto.spec_prefix_len() && events.len() == 2 && x == Err::<
            Seq<u8>,
            ModbusErrKind,
        >(ModbusErrKind::Transport(e)),
        Io::Asked(n, Ok(bytes)) => n == proto.spec_prefix_len() && match told(proto, bytes) {
            Told::Short => events.len() == 2 && x == Err::<Seq<u8>, ModbusErrKind>(
                ModbusErrKind::Transport(TransportError::ShortRead),
            ),
            Told::Malformed => events.len() == 2 && x == Err::<Seq<u8>, ModbusErrKind>(
                ModbusErrKind::Codec(CodecError::Malformed),
            ),
            Told::Rejected => events.len() == 2 && rejected(x),
            Told::Total(total) => if total <= bytes.len() {
                events.len() == 2 && x == Ok::<Seq<u8>, ModbusErrKind>(bytes)
            } else {
                events.len() == 3 && rest_read(
                    bytes,
                    (total - bytes.len()) as nat,
                    events[2],
                    x,
                )
            },
        },
        Io::Sent(_, _) => false,
    }
}

/// How the exchange for `request` went, told from the calls that were made to the transport
/// and what they gave back. The request was handed over, once and before any read. A send
/// that failed ends the exchange with the transport's error; else the reads follow. `x` is
/// the frame as the transport delivered it, or the error of the step that failed.
pub open spec fn exchanged(
    proto: Protocol,
    request: Seq<u8>,
    events: Seq<Io>,
    x: Result<Seq<u8>, ModbusErrKind>,
) -> bool {
    &&& 1 <= events.len() <= 3
    &&& match events[0] {
        Io::Sent(bytes, Err(e)) => bytes == request && events.len() == 1 && x == Err::<
            Seq<u8>,
            ModbusErrKind,
        >(ModbusErrKind::Transport(e)),
        Io::Sent(bytes, Ok(_)) => bytes == request && events.len() >= 2 && prefix_read(
            proto,
            events,
            x,
        ),
        Io::Asked(_, _) => false,
    }
}

/// What an exchange asks of the transport as far as it gets: to send the request, then to
/// read the prefix, then to read a rest.
pub open spec fn begun(proto: Protocol, request: Seq<u8>, events: Seq<Io>) -> bool {
    &&& 1 <= events.len() <= 3
    &&& sent(events[0]) == Some(request)
    &&& events.len() >= 2 ==> asked(events[1]) == Some(proto.spec_prefix_len())
    &&& events.len() == 3 ==> (asked(events[2]) matches Some(n) && n > 0)
}

/// What a whole exchange asks of the transport: to send the request, to read the prefix of
/// the response, and to read the rest of a response of `total` bytes, if there is a rest.
pub open spec fn whole(proto: Protocol, request: Seq<u8>, total: nat, events: Seq<Io>) -> bool {
    &&& begun(proto, request, events)
    &&& events.len() >= 2
    &&& events.len() == 3 <==> total > proto.spec_prefix_len()
    &&& events.len() == 3 ==> asked(events[2]) == Some((total - proto.spec_prefix_len()) as nat)
}

/// The number of bytes that the calls asked to read.
pub open spec fn bytes_asked(events: Seq<Io>) -> nat
    decreases events.len(),
{
    if events.len() == 0 {
        0
    } else {
        bytes_asked(events.drop_last()) + match events.last() {
            Io::Asked(n, _) => n,
            Io::Sent(_, _) => 0nat,
        }
    }
}

/// The bytes that the reads brought, one read after the other.
pub open spec fn bytes_received(events: Seq<Io>) -> Seq<u8>
    decreases events.len(),
{
    if events.len() == 0 {
        Seq::empty()
    } else {
        bytes_received(events.drop_last()) + match events.last() {
            Io::Asked(_, Ok(bytes)) => bytes,
            _ => Seq::empty(),
        }
    }
}

/// The master's end of one connection: it owns the line to the slave and knows the framing
/// and the slave's unit identifier.
pub struct ModbusDriver<T: MBNetworks> {
    line: Line<T>,
    unit_id: u8,
    proto: Protocol,
}

impl<T: MBNetworks> View for ModbusDriver<T> {
    type V = Session;

    closed spec fn view(&self) -> Session {
        Session { proto: self.proto, unit_id: self.unit_id }
    }
}

/// What a read brings back.
pub enum Items {
    Bits(Seq<bool>),
    Words(Seq<u16>),
}

/// The two function codes whose response holds bits.
pub open spec fn reads_bits(func: u8) -> bool {
    func == GET_COILS || func == GET_DISCRETES
}

/// `frame` is a complete and accepted response to a request with function code `func`.
pub open spec fn answered(session: Session, func: u8, frame: Seq<u8>) -> bool {
    &&& complete_frame(session.proto, frame)
    &&& acknowledged(session.proto, session.unit_id, func, frame)
}

/// What the response `frame` to a read of `count` items holds: their bits or their
/// registers, as the function code says, in address order.
pub open spec fn items_of(proto: Protocol, func: u8, count: u16, frame: Seq<u8>) -> Items {
    if reads_bits(func) {
        Items::Bits(unpack_bits(payload(proto, frame), count as nat))
    } else {
        Items::Words(unpack_words(payload(proto, frame), count as nat))
    }
}

/// The result of a read of bits as items.
pub open spec fn bits_result(r: Result<Vec<bool>, ModbusErrKind>) -> Result<Items, ModbusErrKind> {
    match r {
        Ok(bits) => Ok(Items::Bits(bits@)),
        Err(e) => Err(e),
    }
}

/// The result of a read of registers as items.
pub open spec fn words_result(r: Result<Vec<u16>, ModbusErrKind>) -> Result<
    Items,
    ModbusErrKind,
> {
    match r {
        Ok(words) => Ok(Items::Words(words@)),
        Err(e) => Err(e),
    }
}

/// The call failed with the error that reports the refusal.
pub open spec fn refused<A>(refusal: Refusal, r: Result<A, ModbusErrKind>) -> bool {
    r matches Err(e) && refusal.reported_as(e)
}

/// The call failed because the codec refused something.
pub open spec fn rejected<A>(r: Result<A, ModbusErrKind>) -> bool {
    r matches Err(ModbusErrKind::Codec(CodecError::Rejected(_)))
}

/// An error that an exchange can end in once the request frame exists.
pub open spec fn exchange_error(e: ModbusErrKind) -> bool {
    e is Transport || e is Codec
}

/// Nothing was asked of the transport.
pub open spec fn untouched<T: MBNetworks>(before: ModbusDriver<T>, after: ModbusDriver<T>) -> bool {
    after.transport() == before.transport() && after.log() == before.log()
}

/// A whole exchange was asked of the transport, and nothing else: the request was sent,
/// and exactly the `total` bytes of the response were asked for.
pub open spec fn took_place<T: MBNetworks>(
    request: Seq<u8>,
    total: nat,
    before: ModbusDriver<T>,
    after: ModbusDriver<T>,
) -> bool {
    exists|events: Seq<Io>|
        whole(before@.proto, request, total, events) && after.log() == before.log() + events
}

/// An exchange was begun, and nothing else was asked of the transport.
pub open spec fn broke_off<T: MBNetworks>(
    request: Seq<u8>,
    before: ModbusDriver<T>,
    after: ModbusDriver<T>,
) -> bool {
    exists|events: Seq<Io>|
        begun(before@.proto, request, events) && after.log() == before.log() + events
}

/// How a write ends once the exchange is over: with the error of the exchange, or with the
/// codec's verdict on the frame that came back.
pub open spec fn write_end(
    session: Session,
    func: u8,
    x: Result<Seq<u8>, ModbusErrKind>,
    r: Result<(), ModbusErrKind>,
) -> bool {
    match x {
        Err(e) => r == Err::<(), ModbusErrKind>(e),
        Ok(frame) => if acknowledged(session.proto, session.unit_id, func, frame) {
            r == Ok::<(), ModbusErrKind>(())
        } else {
            rejected(r)
        },
    }
}

/// How a read ends once the exchange is over: with the error of the exchange, or with what
/// the codec finds in the frame that came back.
pub open spec fn read_end(
    session: Session,
    func: u8,
    count: u16,
    x: Result<Seq<u8>, ModbusErrKind>,
    r: Result<Items, ModbusErrKind>,
) -> bool {
    match x {
        Err(e) => r == Err::<Items, ModbusErrKind>(e),
        Ok(frame) => if acknowledged(session.proto, session.unit_id, func, frame) {
            r == Ok::<Items, ModbusErrKind>(items_of(session.proto, func, count, frame))
        } else {
            rejected(r)
        },
    }
}

/// How a write ends. Without a request frame the refusal is reported and the transport is
/// not touched. With one, the calls to the transport since the call began are those of one
/// exchange for that frame, and the result follows from what they gave back.
pub open spec fn write_outcome<T: MBNetworks>(
    op: ModbusFunc,
    before: ModbusDriver<T>,
    after: ModbusDriver<T>,
    r: Result<(), ModbusErrKind>,
) -> bool {
    let code = op.code();
    match op.request_frame(before@.proto, before@.unit_id) {
        Err(refusal) => refused(refusal, r) && untouched(before, after),
        Ok(request) => exists|events: Seq<Io>, x: Result<Seq<u8>, ModbusErrKind>| #[trigger]
            exchanged(before@.proto, request, events, x) && after.log() == before.log() + events
                && write_end(before@, code, x, r),
    }
}

/// How a read ends. Without a request frame the refusal is reported and the transport is
/// not touched. With one, the calls to the transport since the call began are those of one
/// exchange for that frame, and the result follows from what they gave back.
pub open spec fn read_outcome<T: MBNetworks>(
    op: ModbusFunc,
    before: ModbusDriver<T>,
    after: ModbusDriver<T>,
    r: Result<Items, ModbusErrKind>,
) -> bool {
    let code = op.code();
    let count = op.count();
    match op.request_frame(before@.proto, before@.unit_id) {
        Err(refusal) => refused(refusal, r) && untouched(before, after),
        Ok(request) => exists|events: Seq<Io>, x: Result<Seq<u8>, ModbusErrKind>| #[trigger]
            exchanged(before@.proto, request, events, x) && after.log() == before.log() + events
                && read_end(before@, code, count, x, r),
    }
}

/// The course of a write, in short: the refusal, or a whole exchange and an accepted
/// response, or an exchange that was begun and its error.
pub open spec fn write_course<T: MBNetworks>(
    op: ModbusFunc,
    before: ModbusDriver<T>,
    after: ModbusDriver<T>,
    r: Result<(), ModbusErrKind>,
) -> bool {
    let code = op.code();
    match op.request_frame(before@.proto, before@.unit_id) {
        Err(refusal) => refused(refusal, r) && untouched(before, after),
        Ok(request) => match r {
            Ok(()) => exists|frame: Seq<u8>| #[trigger]
                answered(before@, code, frame) && took_place(request, frame.len(), before, after),
            Err(e) => exchange_error(e) && broke_off(request, before, after),
        },
    }
}

/// The course of a read, in short: the refusal, or a whole exchange and what an accepted
/// response holds, or an exchange that was begun and its error.
pub open spec fn read_course<T: MBNetworks>(
    op: ModbusFunc,
    before: ModbusDriver<T>,
    after: ModbusDriver<T>,
    r: Result<Items, ModbusErrKind>,
) -> bool {
    let code = op.code();
    let count = op.count();
    match op.request_frame(before@.proto, before@.unit_id) {
        Err(refusal) => refused(refusal, r) && untouched(before, after),
        Ok(request) => match r {
            Ok(items) => exists|frame: Seq<u8>| #[trigger]
                answered(before@, code, frame) && items == items_of(
                    before@.proto,
                    code,
                    count,
                    frame,
                ) && took_place(request, frame.len(), before, after),
            Err(e) => exchange_error(e) && broke_off(request, before, after),
        },
    }
}

impl<T: MBNetworks> ModbusDriver<T> {
    /// The transport as the driver holds it.
    pub closed spec fn transport(&self) -> T {
        self.line.transport()
    }

    /// The calls that were made to the transport so far, with what they gave back, the
    /// earliest first.
    pub closed spec fn log(&self) -> Seq<Io> {
        self.line.log()
    }

    /// A driver for the slave with unit identifier 1, with the framing that the transport
    /// declares.
    pub fn new(transport: T) -> (r: Result<Self, ModbusErrKind>)
        ensures
            r matches Ok(driver) && driver@ == (Session { proto: T::PROTO, unit_id: 1 })
                && driver.transport() == transport && driver.log() == Seq::<Io>::empty(),
    {
        Ok(Self { line: Line::new(transport), unit_id: 1, proto: T::PROTO })
    }

    /// The framing that the driver speaks.
    pub fn proto(&self) -> (proto: Protocol)
        ensures
            proto == self@.proto,
    {
        self.proto
    }

    /// The unit identifier of the slave that the driver talks to.
    pub fn unit_id(&self) -> (unit_id: u8)
        ensures
            unit_id == self@.unit_id,
    {
        self.unit_id
    }

    /// Ends the session and gives the transport back.
    pub fn into_transport(self) -> (transport: T)
        ensures
            transport == self.transport(),
    {
        self.line.into_transport()
    }

    /// Reads `count` coils from `start` on.
    pub fn read_coils(&mut self, req_data: ReadRequest) -> (r: Result<Vec<bool>, ModbusErrKind>)
        ensures
            final(self)@ == old(self)@,
            read_outcome(
                ModbusFunc::ReadCoilds(req_data),
                *old(self),
                *final(self),
                bits_result(r),
            ),
    {
        let mut request = ModbusFunc::ReadCoilds(req_data);
        self.read_bits(&mut request)
    }

    /// Reads `count` discrete inputs from `start` on.
    pub fn read_discrete_inputs(&mut self, req_data: ReadRequest) -> (r: Result<
        Vec<bool>,
        ModbusErrKind,
    >)
        ensures
            final(self)@ == old(self)@,
            read_outcome(
                ModbusFunc::ReadDiscreteInputs(req_data),
                *old(self),
                *final(self),
                bits_result(r),
            ),
    {
        let mut request = ModbusFunc::ReadDiscreteInputs(req_data);
        self.read_bits(&mut request)
    }

    /// Reads `count` holding registers from `start` on.
    pub fn read_holed_registers(&mut self, req_data: ReadRequest) -> (r: Result<
        Vec<u16>,
        ModbusErrKind,
    >)
        ensures
            final(self)@ == old(self)@,
            read_outcome(
                ModbusFunc::ReadHoldingRegisters(req_data),
                *old(self),
                *final(self),
                words_result(r),
            ),
    {
        let mut request = ModbusFunc::ReadHoldingRegisters(req_data);
        self.read_words(&mut request)
    }

    /// Reads `count` input registers from `start` on.
    pub fn read_inputs_registers(&mut self, req_data: ReadRequest) -> (r: Result<
        Vec<u16>,
        ModbusErrKind,
    >)
        ensures
            final(self)@ == old(self)@,
            read_outcome(
                ModbusFunc::ReadInputRegisters(req_data),
                *old(self),
                *final(self),
                words_result(r),
            ),
    {
        let mut request = ModbusFunc::ReadInputRegisters(req_data);
        self.read_words(&mut request)
    }

    /// Sets the coil at `start`. The value must be a bit.
    pub fn write_single_coil(&mut self, req_data: WriteRequest) -> (r: Result<(), ModbusErrKind>)
        ensures
            final(self)@ == old(self)@,
            write_outcome(ModbusFunc::WriteSingleCoil(req_data), *old(self), *final(self), r),
    {
        let mut request = ModbusFunc::WriteSingleCoil(req_data);
        self.write(&mut request)
    }

    /// Sets the holding register at `start`. The value must be a register content.
    pub fn write_single_holding_register(&mut self, req_data: WriteRequest) -> (r: Result<
        (),
        ModbusErrKind,
    >)
        ensures
            final(self)@ == old(self)@,
            write_outcome(
                ModbusFunc::WriteSingleHoldingRegister(req_data),
                *old(self),
                *final(self),
                r,
            ),
    {
        let mut request = ModbusFunc::WriteSingleHoldingRegister(req_data);
        self.write(&mut request)
    }

    /// Sets the coils from `start` on. Every value must be a bit.
    pub fn write_multiple_coils(&mut self, req_data: MultipleWriteRequest) -> (r: Result<
        (),
        ModbusErrKind,
    >)
        ensures
            final(self)@ == old(self)@,
            write_outcome(ModbusFunc::WriteMultipleCoils(req_data), *old(self), *final(self), r),
    {
        let mut request = ModbusFunc::WriteMultipleCoils(req_data);
        self.write(&mut request)
    }

    /// Sets the holding registers from `start` on. Every value must be a register content.
    pub fn write_multiple_holding_register(&mut self, req_data: MultipleWriteRequest) -> (r: Result<
        (),
        ModbusErrKind,
    >)
        ensures
            final(self)@ == old(self)@,
            write_outcome(
                ModbusFunc::WriteMultipleHoldingRegisters(req_data),
                *old(self),
                *final(self),
                r,
            ),
    {
        let mut request = ModbusFunc::WriteMultipleHoldingRegisters(req_data);
        self.write(&mut request)
    }

    /// The common part of the two reads of bits: one exchange, then the bits of the
    /// response.
    fn read_bits(&mut self, request: &mut ModbusFunc) -> (r: Result<Vec<bool>, ModbusErrKind>)
        requires
            reads_bits(old(request).code()),
        ensures
            final(self)@ == old(self)@,
            read_outcome(*old(request), *old(self), *final(self), bits_result(r)),
    {
        let outcome = self.networking(request);
        let ghost x = bytes_of(outcome);
        let code = function_code(request);
        let count = count_of(request);
        let r = match outcome {
            Ok(frame) => match parse_bits(self.proto, self.unit_id, code, count, frame.as_slice()) {
                Ok(bits) => Ok(bits),
                Err(e) => Err(ModbusErrKind::Codec(e)),
            },
            Err(e) => Err(e),
        };
        proof {
            let frame = old(request).request_frame(self@.proto, self@.unit_id);
            if frame is Ok {
                let events = choose|events: Seq<Io>|
                    exchanged(self@.proto, frame->Ok_0, events, x) && self.log() == old(self).log()
                        + events;
                assert(exchanged(self@.proto, frame->Ok_0, events, x) && read_end(
                    self@,
                    code,
                    count,
                    x,
                    bits_result(r),
                ));
            }
        }
        r
    }

    /// The common part of the two reads of registers: one exchange, then the registers of
    /// the response.
    fn read_words(&mut self, request: &mut ModbusFunc) -> (r: Result<Vec<u16>, ModbusErrKind>)
        requires
            is_read(old(request).code()),
            !reads_bits(old(request).code()),
        ensures
            final(self)@ == old(self)@,
            read_outcome(*old(request), *old(self), *final(self), words_result(r)),
    {
        let outcome = self.networking(request);
        let ghost x = bytes_of(outcome);
        let code = function_code(request);
        let count = count_of(request);
        let r = match outcome {
            Ok(frame) => match parse_words(
                self.proto,
                self.unit_id,
                code,
                count,
                frame.as_slice(),
            ) {
                Ok(words) => Ok(words),
                Err(e) => Err(ModbusErrKind::Codec(e)),
            },
            Err(e) => Err(e),
        };
        proof {
            let frame = old(request).request_frame(self@.proto, self@.unit_id);
            if frame is Ok {
                let events = choose|events: Seq<Io>|
                    exchanged(self@.proto, frame->Ok_0, events, x) && self.log() == old(self).log()
                        + events;
                assert(exchanged(self@.proto, frame->Ok_0, events, x) && read_end(
                    self@,
                    code,
                    count,
                    x,
                    words_result(r),
                ));
            }
        }
        r
    }

    /// The common part of the four writes: one exchange, then the check of the response.
    fn write(&mut self, request: &mut ModbusFunc) -> (r: Result<(), ModbusErrKind>)
        ensures
            final(self)@ == old(self)@,
            write_outcome(*old(request), *old(self), *final(self), r),
    {
        let outcome = self.networking(request);
        let ghost x = bytes_of(outcome);
        let code = function_code(request);
        let r = match outcome {
            Ok(frame) => match parse_ack(self.proto, self.unit_id, code, frame.as_slice()) {
                Ok(()) => Ok(()),
                Err(e) => Err(ModbusErrKind::Codec(e)),
            },
            Err(e) => Err(e),
        };
        proof {
            let frame = old(request).request_frame(self@.proto, self@.unit_id);
            if frame is Ok {
                let events = choose|events: Seq<Io>|
                    exchanged(self@.proto, frame->Ok_0, events, x) && self.log() == old(self).log()
                        + events;
                assert(exchanged(self@.proto, frame->Ok_0, events, x) && write_end(
                    self@,
                    code,
                    x,
                    r,
                ));
            }
        }
        r
    }

    /// Builds the request frame of an operation. The frame is left in the operation's
    /// scratch buffer and a copy is handed out.
    fn generate_request(&self, func_type: &mut ModbusFunc) -> (r: Result<Vec<u8>, ModbusErrKind>)
        ensures
            final(func_type).code() == old(func_type).code(),
            final(func_type).count() == old(func_type).count(),
            final(func_type).request_frame(self@.proto, self@.unit_id) == old(func_type)
                .request_frame(self@.proto, self@.unit_id),
            match old(func_type).request_frame(self@.proto, self@.unit_id) {
                Ok(frame) => r matches Ok(bytes) && bytes@ == frame && final(func_type).buffer()
                    == frame,
                Err(refusal) => refused(refusal, r) && final(func_type).buffer() == old(func_type)
                    .buffer(),
            },
    {
        match func_type {
            ModbusFunc::ReadCoilds(r) => {
                if r.count < 1 || r.count > MAX_BITS_PER_READ {
                    return Err(ModbusErrKind::Codec(CodecError::OperandRange));
                }
                let made = codec::generate_get_coils(self.proto, self.unit_id, r.start, r.count);
                keep(made, &mut r.buffer)
            },
            ModbusFunc::ReadDiscreteInputs(r) => {
                if r.count < 1 || r.count > MAX_BITS_PER_READ {
                    return Err(ModbusErrKind::Codec(CodecError::OperandRange));
                }
                let made = codec::generate_get_discretes(
                    self.proto,
                    self.unit_id,
                    r.start,
                    r.count,
                );
                keep(made, &mut r.buffer)
            },
            ModbusFunc::ReadHoldingRegisters(r) => {
                if r.count < 1 || r.count > MAX_WORDS_PER_READ {
                    return Err(ModbusErrKind::Codec(CodecError::OperandRange));
                }
                let made = codec::generate_get_holdings(
                    self.proto,
                    self.unit_id,
                    r.start,
                    r.count,
                );
                keep(made, &mut r.buffer)
            },
            ModbusFunc::ReadInputRegisters(r) => {
                if r.count < 1 || r.count > MAX_WORDS_PER_READ {
                    return Err(ModbusErrKind::Codec(CodecError::OperandRange));
                }
                let made = codec::generate_get_inputs(self.proto, self.unit_id, r.start, r.count);
                keep(made, &mut r.buffer)
            },
            ModbusFunc::WriteSingleCoil(r) => {
                let value = match r.value.get_bool() {
                    Ok(bit) => bit,
                    Err(e) => {
                        return Err(e);
                    },
                };
                let made = codec::generate_set_coil(self.proto, self.unit_id, r.start, value);
                keep(made, &mut r.buffer)
            },
            ModbusFunc::WriteSingleHoldingRegister(r) => {
                let value = match r.value.get_register() {
                    Ok(word) => word,
                    Err(e) => {
                        return Err(e);
                    },
                };
                let made = codec::generate_set_holding(self.proto, self.unit_id, r.start, value);
                keep(made, &mut r.buffer)
            },
            ModbusFunc::WriteMultipleCoils(r) => {
                let values = match get_bools(&r.values) {
                    Ok(bits) => bits,
                    Err(e) => {
                        return Err(e);
                    },
                };
                if values.len() > MAX_COILS_PER_CALL {
                    return Err(ModbusErrKind::Codec(CodecError::OperandRange));
                }
                let made = codec::generate_set_coils_bulk(
                    self.proto,
                    self.unit_id,
                    r.start,
                    values.as_slice(),
                );
                keep(made, &mut r.buffer)
            },
            ModbusFunc::WriteMultipleHoldingRegisters(r) => {
                let values = match get_registers(&r.values) {
                    Ok(words) => words,
                    Err(e) => {
                        return Err(e);
                    },
                };
                let made = codec::generate_set_holdings_bulk(
                    self.proto,
                    self.unit_id,
                    r.start,
                    values.as_slice(),
                );
                keep(made, &mut r.buffer)
            },
        }
    }

    /// One exchange: the request goes out as a whole, then the prefix of the response is
    /// read, then what the prefix says is still to come. Nothing touches the transport
    /// unless the request frame exists. The frame that comes out is the bytes that the
    /// transport delivered, and an error is that of the step that failed.
    fn networking(&mut self, func_type: &mut ModbusFunc) -> (r: Result<Vec<u8>, ModbusErrKind>)
        ensures
            final(self)@ == old(self)@,
            final(func_type).code() == old(func_type).code(),
            final(func_type).count() == old(func_type).count(),
            final(func_type).request_frame(old(self)@.proto, old(self)@.unit_id) == old(func_type)
                .request_frame(old(self)@.proto, old(self)@.unit_id),
            match old(func_type).request_frame(old(self)@.proto, old(self)@.unit_id) {
                Err(refusal) => refused(refusal, r) && untouched(*old(self), *final(self)),
                Ok(request) => exists|events: Seq<Io>|
                    exchanged(old(self)@.proto, request, events, bytes_of(r)) && final(self).log()
                        == old(self).log() + events,
            },
    {
        let buff = match self.generate_request(func_type) {
            Ok(bytes) => bytes,
            Err(e) => {
                return Err(e);
            },
        };
        let ghost request = buff@;
        let sent = self.line.write_all(buff.as_slice());
        let ghost mut events = seq![Io::Sent(request, sent)];
        assert(self.log() =~= old(self).log() + events);
        match after_write(sent) {
            Ok(()) => {},
            Err(e) => {
                assert(exchanged(self.proto, request, events, Err(e)));
                return Err(e);
            },
        }
        let got = self.line.read_exact(self.proto.prefix_len());
        proof {
            events = events.push(Io::Asked(self.proto.spec_prefix_len(), bytes_of(got)));
            assert(self.log() =~= old(self).log() + events);
        }
        let (prefix, rest_len) = match after_prefix(self.proto, got) {
            Ok(step) => step,
            Err(e) => {
                assert(exchanged(self.proto, request, events, Err(e)));
                return Err(e);
            },
        };
        proof {
            lemma_response_covers_prefix(self.proto, prefix@);
        }
        if rest_len == 0 {
            assert(exchanged(self.proto, request, events, Ok(prefix@)));
            return Ok(prefix);
        }
        let got = self.line.read_exact(rest_len);
        proof {
            events = events.push(Io::Asked(rest_len as nat, bytes_of(got)));
            assert(self.log() =~= old(self).log() + events);
        }
        let r = after_rest(prefix, rest_len, got);
        assert(exchanged(self.proto, request, events, bytes_of(r)));
        r
    }
}

/// What follows from how an exchange went: the calls are those of an exchange that was
/// begun; a frame that came out is complete, and the calls are those of a whole exchange
/// for a response of its length; an error is one of the transport or of the codec.
pub proof fn lemma_exchanged(
    proto: Protocol,
    request: Seq<u8>,
    events: Seq<Io>,
    x: Result<Seq<u8>, ModbusErrKind>,
)
    requires
        exchanged(proto, request, events, x),
    ensures
        begun(proto, request, events),
        x matches Ok(frame) ==> complete_frame(proto, frame) && whole(
            proto,
            request,
            frame.len(),
            events,
        ),
        x matches Err(e) ==> exchange_error(e),
{
    if x is Ok {
        let frame = x->Ok_0;
        let prefix = events[1]->Asked_1->Ok_0;
        lemma_response_covers_prefix(proto, prefix);
        assert(frame.take(proto.spec_prefix_len() as int) =~= prefix);
    }
}

/// The course of a write follows from how it ended.
pub proof fn lemma_write_course<T: MBNetworks>(
    op: ModbusFunc,
    before: ModbusDriver<T>,
    after: ModbusDriver<T>,
    r: Result<(), ModbusErrKind>,
)
    requires
        write_outcome(op, before, after, r),
    ensures
        write_course(op, before, after, r),
{
    let frame = op.request_frame(before@.proto, before@.unit_id);
    if frame is Ok {
        let (events, x) = choose|events: Seq<Io>, x: Result<Seq<u8>, ModbusErrKind>| #[trigger]
            exchanged(before@.proto, frame->Ok_0, events, x) && after.log() == before.log()
                + events && write_end(before@, op.code(), x, r);
        lemma_exchanged(before@.proto, frame->Ok_0, events, x);
        if r is Ok {
            assert(answered(before@, op.code(), x->Ok_0));
            assert(took_place(frame->Ok_0, x->Ok_0.len(), before, after));
        } else {
            assert(broke_off(frame->Ok_0, before, after));
        }
    }
}

/// The course of a read follows from how it ended.
pub proof fn lemma_read_course<T: MBNetworks>(
    op: ModbusFunc,
    before: ModbusDriver<T>,
    after: ModbusDriver<T>,
    r: Result<Items, ModbusErrKind>,
)
    requires
        read_outcome(op, before, after, r),
    ensures
        read_course(op, before, after, r),
{
    let frame = op.request_frame(before@.proto, before@.unit_id);
    if frame is Ok {
        let (events, x) = choose|events: Seq<Io>, x: Result<Seq<u8>, ModbusErrKind>| #[trigger]
            exchanged(before@.proto, frame->Ok_0, events, x) && after.log() == before.log()
                + events && read_end(before@, op.code(), op.count(), x, r);
        lemma_exchanged(before@.proto, frame->Ok_0, events, x);
        if r is Ok {
            assert(answered(before@, op.code(), x->Ok_0));
            assert(took_place(frame->Ok_0, x->Ok_0.len(), before, after));
        } else {
            assert(broke_off(frame->Ok_0, before, after));
        }
    }
}

/// An exchange that brings a frame asks to read exactly as many bytes as the prefix of the
/// response announces, no more and no fewer, and the frame is the bytes that the reads
/// brought, in their order.
pub proof fn lemma_exchange_reads_the_response(
    proto: Protocol,
    request: Seq<u8>,
    events: Seq<Io>,
    frame: Seq<u8>,
)
    requires
        exchanged(proto, request, events, Ok(frame)),
    ensures
        response_len(proto, frame.take(proto.spec_prefix_len() as int)) == Some(
            bytes_asked(events),
        ),
        bytes_asked(events) == frame.len(),
        bytes_received(events) == frame,
{
    lemma_exchanged(proto, request, events, Ok(frame));
    reveal_with_fuel(bytes_asked, 4);
    reveal_with_fuel(bytes_received, 4);
    if events.len() == 2 {
        assert(events.drop_last() =~= seq![events[0]]);
        assert(events.drop_last().drop_last() =~= Seq::<Io>::empty());
        assert(bytes_received(events) =~= frame);
    } else {
        assert(events.drop_last() =~= seq![events[0], events[1]]);
        assert(events.drop_last().drop_last() =~= seq![events[0]]);
        assert(events.drop_last().drop_last().drop_last() =~= Seq::<Io>::empty());
        assert(bytes_received(events) =~= frame);
    }
}

/// A read whose response has room for all the items that it asked for yields exactly
/// `count` of them, item `i` being the one at address `start + i`: the items come out in
/// address order. This holds for each of the four reads and either framing.
pub proof fn lemma_read_yields_count(proto: Protocol, func: u8, count: u16, frame: Seq<u8>)
    requires
        payload(proto, frame).len() >= response_bytes(reads_bits(func), count as int),
    ensures
        match items_of(proto, func, count, frame) {
            Items::Bits(bits) => bits.len() == count && forall|i: int|
                0 <= i < count ==> bits[i] == bit_at(payload(proto, frame), i),
            Items::Words(words) => words.len() == count && forall|i: int|
                0 <= i < count ==> words[i] == word_at(payload(proto, frame), i),
        },
{
    if reads_bits(func) {
        lemma_bits_of_full_payload(payload(proto, frame), count as nat);
    } else {
        lemma_words_of_full_payload(payload(proto, frame), count as nat);
    }
}

/// The response over stream framing to a read of registers that carries `words`: the
/// header, the unit, the function code, the number of data bytes, and the registers, the
/// more significant byte of each first.
pub open spec fn stream_words_response(unit_id: u8, func: u8, words: Seq<u16>) -> Seq<u8> {
    stream_frame(seq![unit_id, func, (2 * words.len()) as u8] + register_bytes(words))
}

/// Over stream framing registers come back unchanged and in order: the response that
/// carries them is complete, the codec accepts it, and the read of as many registers finds
/// exactly these in it.
pub proof fn lemma_registers_come_back(session: Session, func: u8, words: Seq<u16>)
    requires
        session.proto is TcpUdp,
        func == GET_HOLDINGS || func == GET_INPUTS,
        1 <= words.len() <= 123,
    ensures
        answered(session, func, stream_words_response(session.unit_id, func, words)),
        items_of(
            session.proto,
            func,
            words.len() as u16,
            stream_words_response(session.unit_id, func, words),
        ) == Items::Words(words),
{
    let proto = session.proto;
    let data = register_bytes(words);
    let body = seq![session.unit_id, func, (2 * words.len()) as u8] + data;
    let frame = stream_words_response(session.unit_id, func, words);
    assert(body.len() == 3 + 2 * words.len());
    assert(frame.len() == 9 + 2 * words.len());
    assert(frame[4] == high(body.len() as u16) && frame[5] == low(body.len() as u16));
    assert(frame[6] == session.unit_id && frame[7] == func);
    assert(frame[8] == (2 * words.len()) as u8);
    let prefix = frame.take(proto.spec_prefix_len() as int);
    assert(prefix[2] == frame[2] && prefix[3] == frame[3] && prefix[4] == frame[4] && prefix[5]
        == frame[5]);
    assert(complete_frame(proto, frame));
    assert(stream_accepts(session.unit_id, func, frame));
    assert(payload(proto, frame) =~= data);
    assert forall|i: int| 0 <= i < words.len() implies word_at(data, i) == words[i] by {
        assert(data[2 * i] == high(words[i]));
        assert(data[2 * i + 1] == low(words[i]));
    }
    assert(unpack_words(data, words.len()) =~= words);
}

/// The response over stream framing to a read of bits that carries `bits`: the header, the
/// unit, the function code, the number of data bytes, and the bits, eight to a byte.
pub open spec fn stream_bits_response(unit_id: u8, func: u8, bits: Seq<bool>) -> Seq<u8> {
    stream_frame(seq![unit_id, func, ((bits.len() + 7) / 8) as u8] + packed_bits(bits))
}

/// Which bits of a byte are set, when the byte is put together from one weight for each bit.
proof fn lemma_bits_of_byte(w0: u8, w1: u8, w2: u8, w3: u8, w4: u8, w5: u8, w6: u8, w7: u8)
    requires
        w0 == 0 || w0 == 1,
        w1 == 0 || w1 == 2,
        w2 == 0 || w2 == 4,
        w3 == 0 || w3 == 8,
        w4 == 0 || w4 == 16,
        w5 == 0 || w5 == 32,
        w6 == 0 || w6 == 64,
        w7 == 0 || w7 == 128,
    ensures
        (((w0 | w1 | w2 | w3 | w4 | w5 | w6 | w7) >> 0u8) & 1u8 == 1u8) == (w0 != 0),
        (((w0 | w1 | w2 | w3 | w4 | w5 | w6 | w7) >> 1u8) & 1u8 == 1u8) == (w1 != 0),
        (((w0 | w1 | w2 | w3 | w4 | w5 | w6 | w7) >> 2u8) & 1u8 == 1u8) == (w2 != 0),
        (((w0 | w1 | w2 | w3 | w4 | w5 | w6 | w7) >> 3u8) & 1u8 == 1u8) == (w3 != 0),
        (((w0 | w1 | w2 | w3 | w4 | w5 | w6 | w7) >> 4u8) & 1u8 == 1u8) == (w4 != 0),
        (((w0 | w1 | w2 | w3 | w4 | w5 | w6 | w7) >> 5u8) & 1u8 == 1u8) == (w5 != 0),
        (((w0 | w1 | w2 | w3 | w4 | w5 | w6 | w7) >> 6u8) & 1u8 == 1u8) == (w6 != 0),
        (((w0 | w1 | w2 | w3 | w4 | w5 | w6 | w7) >> 7u8) & 1u8 == 1u8) == (w7 != 0),
{
    assert((((w0 | w1 | w2 | w3 | w4 | w5 | w6 | w7) >> 0u8) & 1u8 == 1u8) == (w0 != 0) && (((w0
        | w1 | w2 | w3 | w4 | w5 | w6 | w7) >> 1u8) & 1u8 == 1u8) == (w1 != 0) && (((w0 | w1 | w2
        | w3 | w4 | w5 | w6 | w7) >> 2u8) & 1u8 == 1u8) == (w2 != 0) && (((w0 | w1 | w2 | w3 | w4
        | w5 | w6 | w7) >> 3u8) & 1u8 == 1u8) == (w3 != 0) && (((w0 | w1 | w2 | w3 | w4 | w5 | w6
        | w7) >> 4u8) & 1u8 == 1u8) == (w4 != 0) && (((w0 | w1 | w2 | w3 | w4 | w5 | w6 | w7)
        >> 5u8) & 1u8 == 1u8) == (w5 != 0) && (((w0 | w1 | w2 | w3 | w4 | w5 | w6 | w7) >> 6u8)
        & 1u8 == 1u8) == (w6 != 0) && (((w0 | w1 | w2 | w3 | w4 | w5 | w6 | w7) >> 7u8) & 1u8
        == 1u8) == (w7 != 0)) by (bit_vector)
        requires
            w0 == 0 || w0 == 1,
            w1 == 0 || w1 == 2,
            w2 == 0 || w2 == 4,
            w3 == 0 || w3 == 8,
            w4 == 0 || w4 == 16,
            w5 == 0 || w5 == 32,
            w6 == 0 || w6 == 64,
            w7 == 0 || w7 == 128,
    ;
}

/// Over stream framing bits come back unchanged and in order: the response that carries
/// them is complete, the codec accepts it, and the read of as many bits finds exactly these
/// in it.
pub proof fn lemma_bits_come_back(session: Session, func: u8, bits: Seq<bool>)
    requires
        session.proto is TcpUdp,
        func == GET_COILS || func == GET_DISCRETES,
        1 <= bits.len() <= 1968,
    ensures
        answered(session, func, stream_bits_response(session.unit_id, func, bits)),
        items_of(
            session.proto,
            func,
            bits.len() as u16,
            stream_bits_response(session.unit_id, func, bits),
        ) == Items::Bits(bits),
{
    let proto = session.proto;
    let data = packed_bits(bits);
    let body = seq![session.unit_id, func, ((bits.len() + 7) / 8) as u8] + data;
    let frame = stream_bits_response(session.unit_id, func, bits);
    assert(data.len() == (bits.len() + 7) / 8);
    assert(body.len() == 3 + data.len());
    assert(frame.len() == 9 + data.len());
    assert(frame[4] == high(body.len() as u16) && frame[5] == low(body.len() as u16));
    assert(frame[6] == session.unit_id && frame[7] == func);
    assert(frame[8] == data.len() as u8);
    let prefix = frame.take(proto.spec_prefix_len() as int);
    assert(prefix[2] == frame[2] && prefix[3] == frame[3] && prefix[4] == frame[4] && prefix[5]
        == frame[5]);
    assert(complete_frame(proto, frame));
    assert(stream_accepts(session.unit_id, func, frame));
    assert(payload(proto, frame) =~= data);
    assert forall|i: int| 0 <= i < bits.len() implies bit_at(data, i) == bits[i] by {
        let j = i / 8;
        assert(data[j] == packed_byte(bits, j));
        lemma_bits_of_byte(
            bit_weight(bits, 8 * j, 1u8),
            bit_weight(bits, 8 * j + 1, 2u8),
            bit_weight(bits, 8 * j + 2, 4u8),
            bit_weight(bits, 8 * j + 3, 8u8),
            bit_weight(bits, 8 * j + 4, 16u8),
            bit_weight(bits, 8 * j + 5, 32u8),
            bit_weight(bits, 8 * j + 6, 64u8),
            bit_weight(bits, 8 * j + 7, 128u8),
        );
        assert(i == 8 * j + i % 8);
    }
    assert(unpack_bits(data, bits.len()) =~= bits);
}

/// An operation is refused as a type mismatch exactly when one of its values is of the
/// other kind than it writes: a value narrowed to its own kind never fails, narrowed to the
/// other kind it always does, whatever the framing, the unit and the address.
pub proof fn lemma_mismatch_is_refused(op: ModbusFunc, proto: Protocol, unit_id: u8)
    ensures
        op.request_frame(proto, unit_id) == Err::<Seq<u8>, Refusal>(Refusal::TypeMismatch)
            <==> !op.kinds_fit(),
{
}

/// The function code of an operation.
fn function_code(func_type: &ModbusFunc) -> (code: u8)
    ensures
        code == func_type.code(),
{
    match func_type {
        ModbusFunc::ReadCoilds(_) => GET_COILS,
        ModbusFunc::ReadDiscreteInputs(_) => GET_DISCRETES,
        ModbusFunc::ReadHoldingRegisters(_) => GET_HOLDINGS,
        ModbusFunc::ReadInputRegisters(_) => GET_INPUTS,
        ModbusFunc::WriteSingleCoil(_) => SET_COIL,
        ModbusFunc::WriteSingleHoldingRegister(_) => SET_HOLDING,
        ModbusFunc::WriteMultipleCoils(_) => SET_COILS_BULK,
        ModbusFunc::WriteMultipleHoldingRegisters(_) => SET_HOLDINGS_BULK,
    }
}

/// The number of items that a read asks for.
fn count_of(func_type: &ModbusFunc) -> (count: u16)
    ensures
        count == func_type.count(),
{
    match func_type {
        ModbusFunc::ReadCoilds(r) => r.count,
        ModbusFunc::ReadDiscreteInputs(r) => r.count,
        ModbusFunc::ReadHoldingRegisters(r) => r.count,
        ModbusFunc::ReadInputRegisters(r) => r.count,
        _ => 0,
    }
}

/// Leaves the frame that the codec made in the scratch buffer and hands out a copy. Where
/// the codec made none, its error is handed on and the buffer stays as it was.
fn keep(made: Result<Vec<u8>, rmodbus::ErrorKind>, buffer: &mut Vec<u8>) -> (r: Result<
    Vec<u8>,
    ModbusErrKind,
>)
    ensures
        match made {
            Ok(frame) => bytes_of(r) == Ok::<Seq<u8>, ModbusErrKind>(frame@) && final(buffer)@
                == frame@,
            Err(e) => r == Err::<Vec<u8>, ModbusErrKind>(
                ModbusErrKind::Codec(CodecError::Rejected(e)),
            ) && final(buffer)@ == old(buffer)@,
        },
{
    match handed_on(made) {
        Ok(frame) => {
            *buffer = frame;
            Ok(copy_of(buffer))
        },
        Err(e) => Err(ModbusErrKind::Codec(e)),
    }
}

/// A copy of a byte vector.
fn copy_of(bytes: &Vec<u8>) -> (copy: Vec<u8>)
    ensures
        copy@ == bytes@,
{
    let mut copy: Vec<u8> = Vec::with_capacity(bytes.len());
    let mut i: usize = 0;
    while i < bytes.len()
        invariant
            i <= bytes.len(),
            copy@ == bytes@.take(i as int),
        decreases bytes.len() - i,
    {
        copy.push(bytes[i]);
        assert(bytes@.take(i as int + 1) =~= bytes@.take(i as int).push(bytes@[i as int]));
        i = i + 1;
    }
    assert(bytes@.take(bytes.len() as int) =~= bytes@);
    copy
}

} // verus!
