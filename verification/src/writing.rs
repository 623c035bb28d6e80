//! One bulk write of one memory space: values that lie side by side go out in one request.
use vstd::prelude::*;
use crate::codec::{set_coils_bulk_frame, set_holdings_bulk_frame, MAX_COILS_PER_CALL};
use crate::device::{PrepValue, RawValue, ValueParam};
use crate::driver::{
    encoded, exchanged, refused, write_end, write_outcome, MBNetworks, ModbusDriver,
    ModbusFunc, Refusal, Session,
};
use crate::error_kind::ModbusErrKind;
use crate::frame::{SET_COILS_BULK, SET_HOLDINGS_BULK};
use crate::grouping::{
    chosen, fitting, is_plan, is_selection, lemma_plan_covers, plan, serving, Span,
};
use crate::layout::{has_name, laid_out};
use crate::line::Io;
use crate::polling::{find, picks, position, select, wanted};
use crate::request_types::{
    all_coils, all_registers, coil_bits, register_words, MRequestValues, MultipleWriteRequest,
};

verus! {

/// The most coils that one bulk write may set.
pub const MAX_BITS_PER_WRITE: u16 = 1968;

/// The most registers that one bulk write may set.
pub const MAX_WORDS_PER_WRITE: u16 = 123;

/// The values that go on the wire to store `value` in `d`, in address order.
pub open spec fn wire_values(d: ValueParam, value: PrepValue) -> Seq<MRequestValues> {
    match value.encoded(d.little_endian) {
        RawValue::Bool(bit) => seq![MRequestValues::Coil(bit)],
        RawValue::Unit(word) => seq![MRequestValues::Register(word)],
        RawValue::Int(word) => seq![MRequestValues::Register(word)],
        RawValue::DUint(words) => seq![
            MRequestValues::Register(words[0]),
            MRequestValues::Register(words[1]),
        ],
        RawValue::DInt(words) => seq![
            MRequestValues::Register(words[0]),
            MRequestValues::Register(words[1]),
        ],
        RawValue::Real(words) => seq![
            MRequestValues::Register(words[0]),
            MRequestValues::Register(words[1]),
        ],
    }
}

/// The function code of the bulk write of a space.
pub open spec fn bulk_code(bits: bool) -> u8 {
    if bits {
        SET_COILS_BULK
    } else {
        SET_HOLDINGS_BULK
    }
}

/// The request frame of the bulk write of `values` from `start` on.
pub open spec fn bulk_frame(
    session: Session,
    bits: bool,
    start: u16,
    values: Seq<MRequestValues>,
) -> Option<Seq<u8>> {
    if bits {
        set_coils_bulk_frame(session.proto, session.unit_id, start, coil_bits(values))
    } else {
        set_holdings_bulk_frame(session.proto, session.unit_id, start, register_words(values))
    }
}

/// The request frame of the bulk write of `values` from `start` on, or why there is none.
pub open spec fn write_request(
    session: Session,
    bits: bool,
    start: u16,
    values: Seq<MRequestValues>,
) -> Result<Seq<u8>, Refusal> {
    if bits && !all_coils(values) || !bits && !all_registers(values) {
        Err(Refusal::TypeMismatch)
    } else if bits && values.len() > MAX_COILS_PER_CALL {
        Err(Refusal::OperandRange)
    } else {
        encoded(bulk_frame(session, bits, start, values))
    }
}

/// How one bulk write went, told from the calls that it made to the transport and from how
/// it ended. Without a request frame the refusal is reported, and nothing is asked of the
/// transport. With one, the calls are those of one exchange for that frame, and the write
/// ends in the error of the exchange, or in the codec's verdict on the frame that came.
pub open spec fn write_done(
    session: Session,
    bits: bool,
    start: u16,
    values: Seq<MRequestValues>,
    events: Seq<Io>,
    r: Result<(), ModbusErrKind>,
) -> bool {
    match write_request(session, bits, start, values) {
        Err(refusal) => events.len() == 0 && refused(refusal, r),
        Ok(request) => exists|x: Result<Seq<u8>, ModbusErrKind>| #[trigger]
            exchanged(session.proto, request, events, x) && write_end(
                session,
                bulk_code(bits),
                x,
                r,
            ),
    }
}

/// The calls that a write of the driver made, taken from how it ended.
proof fn calls_of_write<T: MBNetworks>(
    op: ModbusFunc,
    bits: bool,
    start: u16,
    values: Seq<MRequestValues>,
    before: ModbusDriver<T>,
    after: ModbusDriver<T>,
    r: Result<(), ModbusErrKind>,
) -> (events: Seq<Io>)
    requires
        write_outcome(op, before, after, r),
        op.request_frame(before@.proto, before@.unit_id) == write_request(
            before@,
            bits,
            start,
            values,
        ),
        op.code() == bulk_code(bits),
    ensures
        after.log() == before.log() + events,
        write_done(before@, bits, start, values, events, r),
{
    match write_request(before@, bits, start, values) {
        Err(_) => {
            let events = Seq::<Io>::empty();
            assert(after.log() =~= before.log() + events);
            events
        },
        Ok(request) => {
            let (events, x) = choose|events: Seq<Io>, x: Result<Seq<u8>, ModbusErrKind>|
                #[trigger] exchanged(before@.proto, request, events, x) && after.log()
                    == before.log() + events && write_end(before@, op.code(), x, r);
            events
        },
    }
}

/// `values` are the wire values of one planned write: as many as it has addresses, those of
/// each of its values at the offset of the value's address.
pub open spec fn is_batch(
    ds: Seq<ValueParam>,
    sel: Seq<usize>,
    range: Span,
    names: Seq<String>,
    entries: Seq<(String, PrepValue)>,
    settled: Seq<bool>,
    values: Seq<MRequestValues>,
) -> bool {
    &&& values.len() == range.count
    &&& forall|p: int, j: int|
        range.first <= p <= range.last && 0 <= j < names.len() && !settled[j] && (
        #[trigger] names[j])@ == (#[trigger] chosen(ds, sel, p)).name@ ==> values.subrange(
            chosen(ds, sel, p).addr - range.start,
            chosen(ds, sel, p).end() - range.start,
        ) == wire_values(chosen(ds, sel, p), entries[j].1)
}

/// How the writes of a plan went, one write after the other: each carried the wire values
/// of its values, `ended` holds how each of them ended, and their calls, and nothing else,
/// lie between the records `before` and `after`.
pub open spec fn sent_all(
    session: Session,
    bits: bool,
    ds: Seq<ValueParam>,
    sel: Seq<usize>,
    ranges: Seq<Span>,
    names: Seq<String>,
    entries: Seq<(String, PrepValue)>,
    settled: Seq<bool>,
    ended: Seq<Result<(), ModbusErrKind>>,
    before: Seq<Io>,
    after: Seq<Io>,
) -> bool {
    ended.len() == ranges.len() && exists|parts: Seq<Seq<Io>>, batches: Seq<Seq<MRequestValues>>|
        parts.len() == ranges.len() && #[trigger] batches.len() == ranges.len() && (forall|k: int|
            0 <= k < ranges.len() ==> is_batch(
                ds,
                sel,
                ranges[k],
                names,
                entries,
                settled,
                #[trigger] batches[k],
            )) && (forall|k: int|
            0 <= k < ranges.len() ==> write_done(
                session,
                bits,
                ranges[k].start,
                batches[k],
                #[trigger] parts[k],
                ended[k],
            )) && after == before + #[trigger] parts.flatten()
}

/// One bulk write of one memory space: the values that were chosen, the writes that were
/// planned for them, and how each write ended.
pub struct Sending {
    pub sel: Seq<usize>,
    pub ranges: Seq<Span>,
    pub ended: Seq<Result<(), ModbusErrKind>>,
}

/// The entries that one memory space has nothing to send for: those that were settled
/// before, and those whose value is of another kind than their name was registered with.
pub open spec fn unfit(
    ds: Seq<ValueParam>,
    names: Seq<String>,
    entries: Seq<(String, PrepValue)>,
    settled: Seq<bool>,
) -> Seq<bool> {
    Seq::new(
        names.len(),
        |j: int|
            settled[j] || exists|i: int|
                0 <= i < ds.len() && (#[trigger] ds[i]).name@ == names[j]@
                    && !ds[i].value.same_kind(entries[j].1),
    )
}

/// The most values that one bulk write of a space may carry.
pub open spec fn max_write(bits: bool) -> u16 {
    if bits {
        MAX_BITS_PER_WRITE
    } else {
        MAX_WORDS_PER_WRITE
    }
}

/// How a bulk write of one memory space went: the values that the open and fitting entries
/// name were chosen, the writes are those of the plan for them, neighbours only in one
/// write, and they went as the sending says.
pub open spec fn space_written(
    session: Session,
    bits: bool,
    ds: Seq<ValueParam>,
    names: Seq<String>,
    entries: Seq<(String, PrepValue)>,
    settled: Seq<bool>,
    before: Seq<Io>,
    after: Seq<Io>,
    sending: Sending,
) -> bool {
    &&& picks(ds, sending.sel, names, unfit(ds, names, entries, settled))
    &&& is_plan(ds, sending.sel, 0, max_write(bits), sending.ranges)
    &&& sent_all(
        session,
        bits,
        ds,
        sending.sel,
        sending.ranges,
        names,
        entries,
        unfit(ds, names, entries, settled),
        sending.ended,
        before,
        after,
    )
}

/// What a sending reports for an entry whose name the space holds: a type mismatch for a
/// value of another kind than the name was registered with, and else the end of the write
/// that carried the value.
pub open spec fn write_answer_in(
    ds: Seq<ValueParam>,
    sending: Sending,
    name: Seq<char>,
    value: PrepValue,
    r: Result<(), ModbusErrKind>,
) -> bool {
    exists|i: int|
        0 <= i < ds.len() && (#[trigger] ds[i]).name@ == name && if !ds[i].value.same_kind(value) {
            r == Err::<(), ModbusErrKind>(ModbusErrKind::TypeMismatch)
        } else {
            exists|p: int|
                0 <= p < sending.sel.len() && #[trigger] sending.sel[p] == i && r
                    == sending.ended[serving(sending.ranges, p)]
        }
}

/// How one memory space carries an entry on: an entry that was settled before, or whose
/// name the space does not hold, stays as it was; any other entry is settled now, with what
/// the sending reports for it.
pub open spec fn write_carried_on(
    ds: Seq<ValueParam>,
    sending: Sending,
    name: Seq<char>,
    value: PrepValue,
    before: (bool, Result<(), ModbusErrKind>),
    after: (bool, Result<(), ModbusErrKind>),
) -> bool {
    if before.0 || !has_name(ds, name) {
        after == before
    } else {
        after.0 && write_answer_in(ds, sending, name, value, after.1)
    }
}

/// The entries that are still open have names of their own, and each that names a value of
/// the space brings a value of that kind.
pub open spec fn ready(
    ds: Seq<ValueParam>,
    names: Seq<String>,
    entries: Seq<(String, PrepValue)>,
    settled: Seq<bool>,
) -> bool {
    &&& names.len() == entries.len() == settled.len()
    &&& forall|j: int| 0 <= j < names.len() ==> (#[trigger] names[j])@ == entries[j].0@
    &&& forall|j: int, k: int|
        0 <= j < k < names.len() && !settled[j] && !settled[k] ==> (#[trigger] names[j])@ != (
        #[trigger] names[k])@
    &&& forall|j: int, i: int|
        0 <= j < names.len() && !settled[j] && 0 <= i < ds.len() && (#[trigger] ds[i]).name@ == (
        #[trigger] names[j])@ ==> ds[i].value.same_kind(entries[j].1)
}

/// An open entry of that name.
fn owner_of(name: &String, names: &Vec<String>, settled: &Vec<bool>) -> (r: Option<usize>)
    requires
        names@.len() == settled@.len(),
    ensures
        match r {
            Some(j) => j < names@.len() && !settled@[j as int] && names@[j as int]@ == name@,
            None => !wanted(name@, names@, settled@),
        },
{
    let mut j: usize = 0;
    while j < names.len()
        invariant
            j <= names.len(),
            names@.len() == settled@.len(),
            forall|k: int| 0 <= k < j ==> settled@[k] || (#[trigger] names@[k])@ != name@,
        decreases names.len() - j,
    {
        if !settled[j] && names[j] == *name {
            return Some(j);
        }
        j = j + 1;
    }
    None
}

/// Appends the wire values of one value.
fn push_wire_values(values: &mut Vec<MRequestValues>, d: &ValueParam, value: &PrepValue)
    ensures
        final(values)@ == old(values)@ + wire_values(*d, *value),
{
    match value.encode(d.little_endian) {
        RawValue::Bool(bit) => {
            values.push(MRequestValues::Coil(bit));
            assert(values@ =~= old(values)@ + seq![MRequestValues::Coil(bit)]);
        },
        RawValue::Unit(word) => {
            values.push(MRequestValues::Register(word));
            assert(values@ =~= old(values)@ + seq![MRequestValues::Register(word)]);
        },
        RawValue::Int(word) => {
            values.push(MRequestValues::Register(word));
            assert(values@ =~= old(values)@ + seq![MRequestValues::Register(word)]);
        },
        RawValue::DUint(words) => {
            values.push(MRequestValues::Register(words[0]));
            values.push(MRequestValues::Register(words[1]));
            assert(values@ =~= old(values)@ + seq![
                MRequestValues::Register(words[0]),
                MRequestValues::Register(words[1]),
            ]);
        },
        RawValue::DInt(words) => {
            values.push(MRequestValues::Register(words[0]));
            values.push(MRequestValues::Register(words[1]));
            assert(values@ =~= old(values)@ + seq![
                MRequestValues::Register(words[0]),
                MRequestValues::Register(words[1]),
            ]);
        },
        RawValue::Real(words) => {
            values.push(MRequestValues::Register(words[0]));
            values.push(MRequestValues::Register(words[1]));
            assert(values@ =~= old(values)@ + seq![
                MRequestValues::Register(words[0]),
                MRequestValues::Register(words[1]),
            ]);
        },
    }
}

/// A value of the kind of `d` takes as many wire values as `d` takes addresses, and they
/// are bits for a bit and register contents else.
pub proof fn lemma_wire_values(d: ValueParam, value: PrepValue)
    requires
        d.value.same_kind(value),
    ensures
        wire_values(d, value).len() == d.value.width(),
        d.value is Bool ==> all_coils(wire_values(d, value)),
        !(d.value is Bool) ==> all_registers(wire_values(d, value)),
{
}

/// The wire values of one planned write: those of its values one after the other. As the
/// values lie side by side, each comes to stand at the offset of its address.
fn batch(
    ds: &Vec<ValueParam>,
    sel: &Vec<usize>,
    range: Span,
    names: &Vec<String>,
    entries: &Vec<(String, PrepValue)>,
    settled: &Vec<bool>,
    bits: bool,
    max_count: u16,
) -> (values: Vec<MRequestValues>)
    requires
        laid_out(ds@, bits),
        is_selection(ds@, sel@),
        fitting(ds@, sel@, 0, max_count, range),
        ready(ds@, names@, entries@, settled@),
        forall|p: int|
            0 <= p < sel@.len() ==> wanted(
                (#[trigger] chosen(ds@, sel@, p)).name@,
                names@,
                settled@,
            ),
    ensures
        is_batch(ds@, sel@, range, names@, entries@, settled@, values@),
        bits ==> all_coils(values@),
        !bits ==> all_registers(values@),
{
    let mut values: Vec<MRequestValues> = Vec::new();
    let mut p: usize = range.first;
    assert(range.last < sel.len());
    while p <= range.last
        invariant
            range.last < usize::MAX,
            range.first <= p <= range.last + 1,
            laid_out(ds@, bits),
            is_selection(ds@, sel@),
            fitting(ds@, sel@, 0, max_count, range),
            ready(ds@, names@, entries@, settled@),
            forall|q: int|
                0 <= q < sel@.len() ==> wanted(
                    (#[trigger] chosen(ds@, sel@, q)).name@,
                    names@,
                    settled@,
                ),
            p <= range.last ==> values@.len() == chosen(ds@, sel@, p as int).addr - range.start,
            p == range.last + 1 ==> values@.len() == range.count,
            bits ==> all_coils(values@),
            !bits ==> all_registers(values@),
            forall|q: int, j: int|
                range.first <= q < p && 0 <= j < names@.len() && !settled@[j] && (
                #[trigger] names@[j])@ == (#[trigger] chosen(ds@, sel@, q)).name@
                    ==> values@.subrange(
                    chosen(ds@, sel@, q).addr - range.start,
                    chosen(ds@, sel@, q).end() - range.start,
                ) == wire_values(chosen(ds@, sel@, q), entries@[j].1),
        decreases range.last + 1 - p,
    {
        let d = &ds[sel[p]];
        let ghost before = values@;
        proof {
            assert(wanted(chosen(ds@, sel@, p as int).name@, names@, settled@));
        }
        match owner_of(&d.name, names, settled) {
            Some(j) => {
                push_wire_values(&mut values, d, &entries[j].1);
                proof {
                    let dp = chosen(ds@, sel@, p as int);
                    assert(dp == *d);
                    assert(dp.value.same_kind(entries@[j as int].1));
                    lemma_wire_values(dp, entries@[j as int].1);
                    let added = wire_values(dp, entries@[j as int].1);
                    assert(values@ == before + added);
                    assert(values@.subrange(before.len() as int, values@.len() as int) =~= added);
                    if p < range.last {
                        // the next value begins where this one ends
                        assert(sel@[p as int] < sel@[p + 1]);
                        assert(dp.end() <= chosen(ds@, sel@, p + 1).addr);
                        assert(chosen(ds@, sel@, p + 1).addr - dp.end() <= 0);
                    }
                    assert forall|q: int, k: int|
                        range.first <= q < p + 1 && 0 <= k < names@.len() && !settled@[k] && (
                        #[trigger] names@[k])@ == (#[trigger] chosen(
                            ds@,
                            sel@,
                            q,
                        )).name@ implies values@.subrange(
                        chosen(ds@, sel@, q).addr - range.start,
                        chosen(ds@, sel@, q).end() - range.start,
                    ) == wire_values(chosen(ds@, sel@, q), entries@[k].1) by {
                        let dq = chosen(ds@, sel@, q);
                        if q < p {
                            assert(sel@[q] < sel@[p as int]);
                            assert(dq.end() <= dp.addr);
                            assert(before.subrange(dq.addr - range.start, dq.end() - range.start)
                                == wire_values(dq, entries@[k].1));
                            assert(values@.subrange(dq.addr - range.start, dq.end() - range.start)
                                =~= before.subrange(
                                dq.addr - range.start,
                                dq.end() - range.start,
                            ));
                        } else {
                            // open names are not shared, so this is the entry that was used
                            if k != j {
                                if k < j {
                                    assert(names@[k]@ != names@[j as int]@);
                                } else {
                                    assert(names@[j as int]@ != names@[k]@);
                                }
                            }
                        }
                    }
                    assert(bits ==> all_coils(values@)) by {
                        if bits {
                            assert forall|x: int| 0 <= x < values@.len() implies values@[x]
                                is Coil by {
                                if x >= before.len() {
                                    assert(values@[x] == added[x - before.len()]);
                                }
                            }
                        }
                    }
                    assert(!bits ==> all_registers(values@)) by {
                        if !bits {
                            assert forall|x: int| 0 <= x < values@.len() implies values@[x]
                                is Register by {
                                if x >= before.len() {
                                    assert(values@[x] == added[x - before.len()]);
                                }
                            }
                        }
                    }
                }
            },
            None => {
                // a chosen value has an open entry of its name
                assert(false);
            },
        }
        p = p + 1;
    }
    values
}

/// Sends the planned writes. The result holds one entry for each position of the
/// selection, and how each write ended. A write that fails fails the values that it
/// carries, and no others.
fn send<T: MBNetworks>(
    driver: &mut ModbusDriver<T>,
    bits: bool,
    ds: &Vec<ValueParam>,
    sel: &Vec<usize>,
    ranges: &Vec<Span>,
    names: &Vec<String>,
    entries: &Vec<(String, PrepValue)>,
    settled: &Vec<bool>,
    max_count: u16,
) -> (r: (Vec<Result<(), ModbusErrKind>>, Ghost<Seq<Result<(), ModbusErrKind>>>))
    requires
        laid_out(ds@, bits),
        is_selection(ds@, sel@),
        is_plan(ds@, sel@, 0, max_count, ranges@),
        max_count <= MAX_BITS_PER_WRITE,
        ready(ds@, names@, entries@, settled@),
        forall|p: int|
            0 <= p < sel@.len() ==> wanted(
                (#[trigger] chosen(ds@, sel@, p)).name@,
                names@,
                settled@,
            ),
    ensures
        final(driver)@ == old(driver)@,
        r.0@.len() == sel@.len(),
        forall|p: int|
            0 <= p < sel@.len() ==> #[trigger] r.0@[p] == r.1@[serving(ranges@, p)],
        sent_all(
            old(driver)@,
            bits,
            ds@,
            sel@,
            ranges@,
            names@,
            entries@,
            settled@,
            r.1@,
            old(driver).log(),
            final(driver).log(),
        ),
{
    let ghost session = driver@;
    let ghost mut parts: Seq<Seq<Io>> = Seq::empty();
    let ghost mut batches: Seq<Seq<MRequestValues>> = Seq::empty();
    let ghost mut ended: Seq<Result<(), ModbusErrKind>> = Seq::empty();
    let mut outcomes: Vec<Result<(), ModbusErrKind>> = Vec::new();
    let mut k: usize = 0;
    assert(driver.log() =~= old(driver).log() + parts.flatten());
    while k < ranges.len()
        invariant
            k <= ranges.len(),
            driver@ == session,
            parts.len() == k,
            batches.len() == k,
            ended.len() == k,
            forall|i: int|
                0 <= i < k ==> is_batch(
                    ds@,
                    sel@,
                    ranges@[i],
                    names@,
                    entries@,
                    settled@,
                    #[trigger] batches[i],
                ),
            forall|i: int|
                0 <= i < k ==> write_done(
                    session,
                    bits,
                    ranges@[i].start,
                    batches[i],
                    #[trigger] parts[i],
                    ended[i],
                ),
            driver.log() == old(driver).log() + parts.flatten(),
            laid_out(ds@, bits),
            is_selection(ds@, sel@),
            is_plan(ds@, sel@, 0, max_count, ranges@),
            max_count <= MAX_BITS_PER_WRITE,
            ready(ds@, names@, entries@, settled@),
            forall|p: int|
                0 <= p < sel@.len() ==> wanted(
                    (#[trigger] chosen(ds@, sel@, p)).name@,
                    names@,
                    settled@,
                ),
            k < ranges@.len() ==> outcomes@.len() == ranges@[k as int].first,
            k == ranges@.len() ==> outcomes@.len() == sel@.len(),
            outcomes@.len() <= sel@.len(),
            forall|p: int| 0 <= p < outcomes@.len() ==> 0 <= #[trigger] serving(ranges@, p) < k,
            forall|p: int|
                0 <= p < outcomes@.len() ==> #[trigger] outcomes@[p] == ended[serving(ranges@, p)],
        decreases ranges.len() - k,
    {
        let range = ranges[k];
        let values = batch(ds, sel, range, names, entries, settled, bits, max_count);
        let ghost wire = values@;
        let ghost driver_before = *driver;
        let ghost mut events: Seq<Io> = Seq::empty();
        let request = MultipleWriteRequest { start: range.start, values, buffer: Vec::new() };
        proof {
            assert(fitting(ds@, sel@, 0, max_count, range));
            assert(wire.len() <= MAX_COILS_PER_CALL);
        }
        let r = if bits {
            let ghost op = ModbusFunc::WriteMultipleCoils(request);
            let r = driver.write_multiple_coils(request);
            proof {
                assert(op.request_frame(session.proto, session.unit_id) == write_request(
                    session,
                    bits,
                    range.start,
                    wire,
                ));
                events = calls_of_write(op, bits, range.start, wire, driver_before, *driver, r);
            }
            r
        } else {
            let ghost op = ModbusFunc::WriteMultipleHoldingRegisters(request);
            let r = driver.write_multiple_holding_register(request);
            proof {
                assert(op.request_frame(session.proto, session.unit_id) == write_request(
                    session,
                    bits,
                    range.start,
                    wire,
                ));
                events = calls_of_write(op, bits, range.start, wire, driver_before, *driver, r);
            }
            r
        };
        let ghost earlier = ended;
        proof {
            let longer = parts.push(events);
            let more = batches.push(wire);
            ended = earlier.push(r);
            parts.lemma_flatten_push(events);
            assert(driver.log() =~= old(driver).log() + longer.flatten());
            assert forall|i: int| 0 <= i < k + 1 implies is_batch(
                ds@,
                sel@,
                ranges@[i],
                names@,
                entries@,
                settled@,
                #[trigger] more[i],
            ) by {
                if i < k {
                    assert(more[i] == batches[i]);
                }
            }
            assert forall|i: int| 0 <= i < k + 1 implies write_done(
                session,
                bits,
                ranges@[i].start,
                more[i],
                #[trigger] longer[i],
                ended[i],
            ) by {
                if i < k {
                    assert(more[i] == batches[i] && longer[i] == parts[i]);
                    assert(ended[i] == earlier[i]);
                }
            }
            parts = longer;
            batches = more;
            assert forall|p: int| 0 <= p < outcomes@.len() implies #[trigger] outcomes@[p]
                == ended[serving(ranges@, p)] by {
                assert(0 <= serving(ranges@, p) < k);
                assert(ended[serving(ranges@, p)] == earlier[serving(ranges@, p)]);
            }
        }
        let mut p: usize = range.first;
        assert(range.last < sel.len());
        while p <= range.last
            invariant
                range.last < usize::MAX,
                range == ranges@[k as int],
                k < ranges@.len(),
                ended.len() == k + 1,
                ended[k as int] == r,
                range.first <= p <= range.last + 1,
                range.last < sel@.len(),
                outcomes@.len() == p,
                laid_out(ds@, bits),
                is_selection(ds@, sel@),
                is_plan(ds@, sel@, 0, max_count, ranges@),
                forall|q: int|
                    0 <= q < outcomes@.len() ==> 0 <= #[trigger] serving(ranges@, q) < k + 1,
                forall|q: int|
                    0 <= q < outcomes@.len() ==> #[trigger] outcomes@[q] == ended[serving(
                        ranges@,
                        q,
                    )],
            decreases range.last + 1 - p,
        {
            let ghost before = outcomes@;
            outcomes.push(r);
            proof {
                lemma_plan_covers(ds@, sel@, 0, max_count, ranges@, p as int);
                assert(serving(ranges@, p as int) == k);
                assert forall|q: int| 0 <= q < outcomes@.len() implies #[trigger] outcomes@[q]
                    == ended[serving(ranges@, q)] by {
                    if q < before.len() {
                        assert(outcomes@[q] == before[q]);
                    }
                }
            }
            p = p + 1;
        }
        proof {
            if k + 1 < ranges@.len() {
                assert(ranges@[k + 1].first == ranges@[k as int].last + 1);
            }
        }
        k = k + 1;
    }
    (outcomes, Ghost(ended))
}

/// The open entries have names of their own.
pub open spec fn open_names_differ(names: Seq<String>, settled: Seq<bool>) -> bool {
    forall|j: int, k: int|
        0 <= j < k < names.len() && !settled[j] && !settled[k] ==> (#[trigger] names[j])@ != (
        #[trigger] names[k])@
}

/// Writes the open entries that name values of one memory space. An entry whose value is of
/// another kind than its name was registered with is a type mismatch; the others go out
/// in address order, values that lie side by side in one bulk write.
pub(crate) fn write_space<T: MBNetworks>(
    driver: &mut ModbusDriver<T>,
    bits: bool,
    ds: &Vec<ValueParam>,
    names: &Vec<String>,
    entries: &Vec<(String, PrepValue)>,
    results: &mut Vec<Result<(), ModbusErrKind>>,
    settled: &mut Vec<bool>,
) -> (sending: Ghost<Sending>)
    requires
        laid_out(ds@, bits),
        names@.len() == entries@.len(),
        old(results)@.len() == names@.len(),
        old(settled)@.len() == names@.len(),
        forall|j: int| 0 <= j < names@.len() ==> (#[trigger] names@[j])@ == entries@[j].0@,
        open_names_differ(names@, old(settled)@),
    ensures
        final(driver)@ == old(driver)@,
        final(results)@.len() == names@.len(),
        final(settled)@.len() == names@.len(),
        open_names_differ(names@, final(settled)@),
        forall|j: int|
            0 <= j < names@.len() ==> write_carried_on(
                ds@,
                sending@,
                (#[trigger] names@[j])@,
                entries@[j].1,
                (old(settled)@[j], old(results)@[j]),
                (final(settled)@[j], final(results)@[j]),
            ),
        space_written(
            old(driver)@,
            bits,
            ds@,
            names@,
            entries@,
            old(settled)@,
            old(driver).log(),
            final(driver).log(),
            sending@,
        ),
{
    let mut j: usize = 0;
    while j < names.len()
        invariant
            j <= names.len(),
            laid_out(ds@, bits),
            names@.len() == entries@.len(),
            results@.len() == names@.len(),
            settled@.len() == names@.len(),
            old(results)@.len() == names@.len(),
            old(settled)@.len() == names@.len(),
            forall|k: int| 0 <= k < names@.len() ==> (#[trigger] names@[k])@ == entries@[k].0@,
            forall|k: int| 0 <= k < names@.len() && old(settled)@[k] ==> #[trigger] settled@[k],
            forall|k: int| j <= k < names@.len() ==> #[trigger] settled@[k] == old(settled)@[k],
            forall|k: int|
                0 <= k < names@.len() && #[trigger] settled@[k] == old(settled)@[k] ==> results@[k]
                    == old(results)@[k],
            forall|k: int, i: int|
                0 <= k < j && !settled@[k] && 0 <= i < ds@.len() && (#[trigger] ds@[i]).name@ == (
                #[trigger] names@[k])@ ==> ds@[i].value.same_kind(entries@[k].1),
            forall|k: int|
                0 <= k < j && #[trigger] settled@[k] && !old(settled)@[k] ==> results@[k] == Err::<
                    (),
                    ModbusErrKind,
                >(ModbusErrKind::TypeMismatch) && exists|i: int|
                    0 <= i < ds@.len() && (#[trigger] ds@[i]).name@ == names@[k]@
                        && !ds@[i].value.same_kind(entries@[k].1),
        decreases names.len() - j,
    {
        if !settled[j] {
            match find(ds, &names[j]) {
                Some(i) => {
                    if !ds[i].value.kind_of(&entries[j].1) {
                        results.set(j, Err(ModbusErrKind::TypeMismatch));
                        settled.set(j, true);
                    } else {
                        proof {
                            // no other value of the space has this name
                            assert forall|x: int|
                                0 <= x < ds@.len() && (#[trigger] ds@[x]).name@
                                    == names@[j as int]@ implies ds@[x].value.same_kind(
                                entries@[j as int].1,
                            ) by {
                                if x < i {
                                    assert(ds@[x].name@ != ds@[i as int].name@);
                                } else if x > i {
                                    assert(ds@[i as int].name@ != ds@[x].name@);
                                }
                            }
                        }
                    }
                },
                None => {},
            }
        }
        j = j + 1;
    }
    let ghost checked = settled@;
    let ghost checked_results = results@;
    assert(ready(ds@, names@, entries@, settled@));
    let max_count = if bits {
        MAX_BITS_PER_WRITE
    } else {
        MAX_WORDS_PER_WRITE
    };
    let sel = select(ds, names, settled);
    let ranges = plan(ds, &sel, 0, max_count);
    let (outcomes, Ghost(ended)) = send(
        driver,
        bits,
        ds,
        &sel,
        &ranges,
        names,
        entries,
        settled,
        max_count,
    );
    let ghost sending = Sending { sel: sel@, ranges: ranges@, ended };
    proof {
        assert(checked =~= unfit(ds@, names@, entries@, old(settled)@)) by {
            assert forall|k: int| 0 <= k < names@.len() implies checked[k] == unfit(
                ds@,
                names@,
                entries@,
                old(settled)@,
            )[k] by {
                if !checked[k] && !old(settled)@[k] {
                    assert forall|i: int|
                        0 <= i < ds@.len() && (#[trigger] ds@[i]).name@
                            == names@[k]@ implies ds@[i].value.same_kind(entries@[k].1) by {}
                }
            }
        }
        assert(picks(ds@, sel@, names@, checked));
        assert(is_plan(ds@, sel@, 0, max_write(bits), ranges@));
    }
    let mut j: usize = 0;
    while j < names.len()
        invariant
            j <= names.len(),
            results@.len() == names@.len(),
            settled@.len() == names@.len(),
            checked.len() == names@.len(),
            checked_results.len() == names@.len(),
            outcomes@.len() == sel@.len(),
            is_selection(ds@, sel@),
            sending == (Sending { sel: sel@, ranges: ranges@, ended }),
            ready(ds@, names@, entries@, checked),
            forall|p: int|
                0 <= p < sel@.len() ==> #[trigger] outcomes@[p] == ended[serving(ranges@, p)],
            forall|i: int|
                0 <= i < ds@.len() && wanted((#[trigger] ds@[i]).name@, names@, checked)
                    ==> exists|p: int| 0 <= p < sel@.len() && #[trigger] sel@[p] == i,
            forall|k: int| 0 <= k < names@.len() && checked[k] ==> #[trigger] settled@[k],
            forall|k: int| j <= k < names@.len() ==> #[trigger] settled@[k] == checked[k],
            forall|k: int|
                0 <= k < names@.len() && #[trigger] settled@[k] == checked[k] ==> results@[k]
                    == checked_results[k],
            forall|k: int|
                0 <= k < j && !checked[k] ==> (#[trigger] settled@[k] <==> has_name(
                    ds@,
                    names@[k]@,
                )),
            forall|k: int|
                0 <= k < j && #[trigger] settled@[k] && !checked[k] ==> write_answer_in(
                    ds@,
                    sending,
                    names@[k]@,
                    entries@[k].1,
                    results@[k],
                ),
        decreases names.len() - j,
    {
        if !settled[j] {
            match find(ds, &names[j]) {
                Some(i) => {
                    proof {
                        assert(wanted(ds@[i as int].name@, names@, checked)) by {
                            assert(!checked[j as int] && names@[j as int]@ == ds@[i as int].name@);
                        }
                    }
                    match position(&sel, i) {
                        Some(p) => {
                            let outcome = outcomes[p];
                            proof {
                                assert(chosen(ds@, sel@, p as int) == ds@[i as int]);
                                assert(ds@[i as int].value.same_kind(entries@[j as int].1));
                                assert(sending.sel[p as int] == i);
                                assert(write_answer_in(
                                    ds@,
                                    sending,
                                    names@[j as int]@,
                                    entries@[j as int].1,
                                    outcome,
                                ));
                            }
                            results.set(j, outcome);
                            settled.set(j, true);
                        },
                        None => {
                            // the value was chosen, so it has a position
                            proof {
                                let p = choose|p: int|
                                    0 <= p < sel@.len() && #[trigger] sel@[p] == i;
                                assert(sel@[p] != i);
                            }
                        },
                    }
                },
                None => {},
            }
        }
        j = j + 1;
    }
    proof {
        assert forall|k: int| 0 <= k < names@.len() implies write_carried_on(
            ds@,
            sending,
            (#[trigger] names@[k])@,
            entries@[k].1,
            (old(settled)@[k], old(results)@[k]),
            (settled@[k], results@[k]),
        ) by {
            if old(settled)@[k] {
                assert(settled@[k] == checked[k]);
            } else if checked[k] {
                assert(settled@[k] == checked[k]);
                let i = choose|i: int|
                    0 <= i < ds@.len() && (#[trigger] ds@[i]).name@ == names@[k]@
                        && !ds@[i].value.same_kind(entries@[k].1);
                assert(write_answer_in(ds@, sending, names@[k]@, entries@[k].1, results@[k]));
            } else if has_name(ds@, names@[k]@) {
                assert(settled@[k]);
            } else {
                assert(settled@[k] == checked[k]);
            }
        }
    }
    Ghost(sending)
}

} // verus!
