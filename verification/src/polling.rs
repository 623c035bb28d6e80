//! One poll of one memory space: which values are asked for, which reads fetch them, and
//! what each read gives for each value.
use vstd::prelude::*;
use crate::codec::{get_coils_frame, get_discretes_frame, get_holdings_frame, get_inputs_frame};
use crate::device::{PrepValue, RawValue, Space, ValueParam};
use crate::driver::{
    bits_result, encoded, exchanged, read_end, read_outcome, refused, words_result, Items,
    MBNetworks, ModbusDriver, ModbusFunc, Refusal, Session,
};
use crate::error_kind::{CodecError, ModbusErrKind};
use crate::frame::{
    max_read, readable, spec_max_read, GET_COILS, GET_DISCRETES, GET_HOLDINGS, GET_INPUTS,
};
use crate::grouping::{
    chosen, fitting, is_plan, is_selection, lemma_plan_covers, plan, serving, Span,
};
use crate::layout::{has_name, laid_out};
use crate::line::Io;
use crate::request_types::ReadRequest;

verus! {

/// What one read brought back.
pub enum Readout {
    Bits(Vec<bool>),
    Words(Vec<u16>),
}

impl View for Readout {
    type V = Items;

    open spec fn view(&self) -> Items {
        match self {
            Readout::Bits(bits) => Items::Bits(bits@),
            Readout::Words(words) => Items::Words(words@),
        }
    }
}

impl Space {
    /// The function code of the read of the space.
    pub open spec fn read_code(self) -> u8 {
        match self {
            Space::Coils => GET_COILS,
            Space::DiscreteInputs => GET_DISCRETES,
            Space::InputRegisters => GET_INPUTS,
            Space::HoldingRegisters => GET_HOLDINGS,
        }
    }
}

/// The result of a read as items.
pub open spec fn readout_result(r: Result<Readout, ModbusErrKind>) -> Result<
    Items,
    ModbusErrKind,
> {
    match r {
        Ok(data) => Ok(data@),
        Err(e) => Err(e),
    }
}

impl RawValue {
    /// The stored form of the same kind with other register contents.
    pub open spec fn with_words(self, first: u16, second: u16) -> RawValue {
        match self {
            RawValue::Bool(bit) => RawValue::Bool(bit),
            RawValue::Unit(_) => RawValue::Unit(first),
            RawValue::Int(_) => RawValue::Int(first),
            RawValue::DUint(_) => RawValue::DUint([first, second]),
            RawValue::DInt(_) => RawValue::DInt([first, second]),
            RawValue::Real(_) => RawValue::Real([first, second]),
        }
    }
}

/// The request frame of the read of `count` addresses of the space from `start` on, or why
/// there is none.
pub open spec fn read_request(session: Session, space: Space, start: u16, count: u16) -> Result<
    Seq<u8>,
    Refusal,
> {
    if !readable(space.spec_holds_bits(), count) {
        Err(Refusal::OperandRange)
    } else {
        encoded(
            match space {
                Space::Coils => get_coils_frame(session.proto, session.unit_id, start, count),
                Space::DiscreteInputs => get_discretes_frame(
                    session.proto,
                    session.unit_id,
                    start,
                    count,
                ),
                Space::InputRegisters => get_inputs_frame(
                    session.proto,
                    session.unit_id,
                    start,
                    count,
                ),
                Space::HoldingRegisters => get_holdings_frame(
                    session.proto,
                    session.unit_id,
                    start,
                    count,
                ),
            },
        )
    }
}

/// How one read went, told from the calls that it made to the transport and from what it
/// gave back. Without a request frame the refusal is reported, and nothing is asked of the
/// transport. With one, the calls are those of one exchange for that frame, and the read
/// gives back the error of the exchange, or what the codec finds in the frame that came.
pub open spec fn read_done(
    session: Session,
    space: Space,
    start: u16,
    count: u16,
    events: Seq<Io>,
    got: Result<Items, ModbusErrKind>,
) -> bool {
    match read_request(session, space, start, count) {
        Err(refusal) => events.len() == 0 && refused(refusal, got),
        Ok(request) => exists|x: Result<Seq<u8>, ModbusErrKind>| #[trigger]
            exchanged(session.proto, request, events, x) && read_end(
                session,
                space.read_code(),
                count,
                x,
                got,
            ),
    }
}

/// The calls that a read of the driver made, taken from how it ended.
proof fn calls_of_read<T: MBNetworks>(
    op: ModbusFunc,
    space: Space,
    start: u16,
    count: u16,
    before: ModbusDriver<T>,
    after: ModbusDriver<T>,
    r: Result<Items, ModbusErrKind>,
) -> (events: Seq<Io>)
    requires
        read_outcome(op, before, after, r),
        op.request_frame(before@.proto, before@.unit_id) == read_request(
            before@,
            space,
            start,
            count,
        ),
        op.code() == space.read_code(),
        op.count() == count,
    ensures
        after.log() == before.log() + events,
        read_done(before@, space, start, count, events, r),
{
    match read_request(before@, space, start, count) {
        Err(_) => {
            let events = Seq::<Io>::empty();
            assert(after.log() =~= before.log() + events);
            events
        },
        Ok(request) => {
            let (events, x) = choose|events: Seq<Io>, x: Result<Seq<u8>, ModbusErrKind>|
                #[trigger] exchanged(before@.proto, request, events, x) && after.log()
                    == before.log() + events && read_end(before@, op.code(), op.count(), x, r);
            events
        },
    }
}

/// How the reads of a plan went, one read after the other: `got` holds what each of them
/// gave back, and their calls, and nothing else, lie between the records `before` and
/// `after`.
pub open spec fn fetched(
    session: Session,
    space: Space,
    ranges: Seq<Span>,
    got: Seq<Result<Items, ModbusErrKind>>,
    before: Seq<Io>,
    after: Seq<Io>,
) -> bool {
    got.len() == ranges.len() && exists|parts: Seq<Seq<Io>>|
        parts.len() == ranges.len() && (forall|k: int|
            0 <= k < ranges.len() ==> read_done(
                session,
                space,
                ranges[k].start,
                ranges[k].count,
                #[trigger] parts[k],
                got[k],
            )) && after == before + #[trigger] parts.flatten()
}

/// One poll of one memory space: the values that were chosen, the reads that were planned
/// for them, and what each read gave back.
pub struct Round {
    pub sel: Seq<usize>,
    pub ranges: Seq<Span>,
    pub got: Seq<Result<Items, ModbusErrKind>>,
}

/// The selection holds the values that the open names ask for, and no others.
pub open spec fn picks(
    ds: Seq<ValueParam>,
    sel: Seq<usize>,
    names: Seq<String>,
    resolved: Seq<bool>,
) -> bool {
    &&& is_selection(ds, sel)
    &&& forall|p: int|
        0 <= p < sel.len() ==> wanted((#[trigger] chosen(ds, sel, p)).name@, names, resolved)
    &&& forall|i: int|
        0 <= i < ds.len() && wanted((#[trigger] ds[i]).name@, names, resolved) ==> exists|p: int|
            0 <= p < sel.len() && #[trigger] sel[p] == i
}

/// Two ascending sequences of the same indices are the same sequence.
proof fn lemma_ascending_is_unique(a: Seq<usize>, b: Seq<usize>)
    requires
        forall|p: int, q: int| 0 <= p < q < a.len() ==> #[trigger] a[p] < #[trigger] a[q],
        forall|p: int, q: int| 0 <= p < q < b.len() ==> #[trigger] b[p] < #[trigger] b[q],
        forall|x: usize| a.contains(x) <==> b.contains(x),
    ensures
        a == b,
    decreases a.len(),
{
    if a.len() == 0 {
        if b.len() > 0 {
            assert(b.contains(b[0]));
        }
        assert(a =~= b);
    } else {
        assert(a.contains(a[0]));
        let k = choose|k: int| 0 <= k < b.len() && b[k] == a[0];
        assert(b.contains(b[0]));
        let m = choose|m: int| 0 <= m < a.len() && a[m] == b[0];
        if m > 0 {
            assert(a[0] < a[m]);
            if k > 0 {
                assert(b[0] < b[k]);
            }
        }
        assert(a[0] == b[0]);
        let rest_a = a.drop_first();
        let rest_b = b.drop_first();
        assert forall|x: usize| rest_a.contains(x) <==> rest_b.contains(x) by {
            if rest_a.contains(x) {
                let i = choose|i: int| 0 <= i < rest_a.len() && rest_a[i] == x;
                assert(a[0] < a[i + 1]);
                assert(a.contains(a[i + 1]));
                let j = choose|j: int| 0 <= j < b.len() && b[j] == x;
                assert(rest_b[j - 1] == x);
            }
            if rest_b.contains(x) {
                let i = choose|i: int| 0 <= i < rest_b.len() && rest_b[i] == x;
                assert(b[0] < b[i + 1]);
                assert(b.contains(b[i + 1]));
                let j = choose|j: int| 0 <= j < a.len() && a[j] == x;
                assert(rest_a[j - 1] == x);
            }
        }
        assert forall|p: int, q: int| 0 <= p < q < rest_a.len() implies #[trigger] rest_a[p]
            < #[trigger] rest_a[q] by {
            assert(a[p + 1] < a[q + 1]);
        }
        assert forall|p: int, q: int| 0 <= p < q < rest_b.len() implies #[trigger] rest_b[p]
            < #[trigger] rest_b[q] by {
            assert(b[p + 1] < b[q + 1]);
        }
        lemma_ascending_is_unique(rest_a, rest_b);
        assert(a =~= seq![a[0]] + rest_a);
        assert(b =~= seq![b[0]] + rest_b);
    }
}

/// The names fix the selection: two selections of the values that the open names ask for
/// are the same.
pub proof fn lemma_selection_is_unique(
    ds: Seq<ValueParam>,
    names: Seq<String>,
    resolved: Seq<bool>,
    a: Seq<usize>,
    b: Seq<usize>,
)
    requires
        picks(ds, a, names, resolved),
        picks(ds, b, names, resolved),
    ensures
        a == b,
{
    assert forall|x: usize| a.contains(x) <==> b.contains(x) by {
        if a.contains(x) {
            let p = choose|p: int| 0 <= p < a.len() && a[p] == x;
            assert(wanted(chosen(ds, a, p).name@, names, resolved));
            assert(wanted(ds[x as int].name@, names, resolved));
            let q = choose|q: int| 0 <= q < b.len() && #[trigger] b[q] == x as int;
            assert(b[q] == x);
        }
        if b.contains(x) {
            let p = choose|p: int| 0 <= p < b.len() && b[p] == x;
            assert(wanted(chosen(ds, b, p).name@, names, resolved));
            assert(wanted(ds[x as int].name@, names, resolved));
            let q = choose|q: int| 0 <= q < a.len() && #[trigger] a[q] == x as int;
            assert(a[q] == x);
        }
    }
    lemma_ascending_is_unique(a, b);
}

/// How a poll of one memory space went: the values that the open names ask for were chosen,
/// the reads are those of the plan for them, and they went as the round says.
pub open spec fn space_polled(
    session: Session,
    space: Space,
    ds: Seq<ValueParam>,
    max_gap: u16,
    names: Seq<String>,
    resolved: Seq<bool>,
    before: Seq<Io>,
    after: Seq<Io>,
    round: Round,
) -> bool {
    &&& picks(ds, round.sel, names, resolved)
    &&& is_plan(
        ds,
        round.sel,
        max_gap,
        spec_max_read(session.proto, space.spec_holds_bits()),
        round.ranges,
    )
    &&& fetched(session, space, round.ranges, round.got, before, after)
}

/// The value of `d` as a read from `start` on holds it. A read that does not reach the
/// value is malformed; bits for a register value, or registers for a bit, are a type
/// mismatch.
pub open spec fn extracted(d: ValueParam, start: u16, data: Items) -> Result<
    PrepValue,
    ModbusErrKind,
> {
    let at = d.addr - start;
    match data {
        Items::Bits(bits) => if !(d.value is Bool) {
            Err(ModbusErrKind::TypeMismatch)
        } else if 0 <= at < bits.len() {
            Ok(PrepValue::Bool(bits[at]))
        } else {
            Err(ModbusErrKind::Codec(CodecError::Malformed))
        },
        Items::Words(words) => if d.value is Bool {
            Err(ModbusErrKind::TypeMismatch)
        } else if 0 <= at && at + d.value.width() <= words.len() {
            Ok(
                d.value.with_words(words[at], words[at + d.value.width() - 1]).decoded(
                    d.little_endian,
                ),
            )
        } else {
            Err(ModbusErrKind::Codec(CodecError::Malformed))
        },
    }
}

/// What a poll reports for the value `d` when the read from `start` on that serves it gave
/// back `got`: the value as the read holds it, or the error of the read.
pub open spec fn drawn(d: ValueParam, start: u16, got: Result<Items, ModbusErrKind>) -> Result<
    PrepValue,
    ModbusErrKind,
> {
    match got {
        Ok(items) => extracted(d, start, items),
        Err(e) => Err(e),
    }
}

/// A value that a poll hands out is of the kind that its name was registered with.
pub proof fn lemma_drawn_keeps_kind(
    d: ValueParam,
    start: u16,
    got: Result<Items, ModbusErrKind>,
    v: PrepValue,
)
    requires
        drawn(d, start, got) == Ok::<PrepValue, ModbusErrKind>(v),
    ensures
        d.value.same_kind(v),
{
}

/// Takes the value of `d` out of what a read from `start` on brought back.
pub fn extract(d: &ValueParam, start: u16, data: &Readout) -> (r: Result<PrepValue, ModbusErrKind>)
    ensures
        r == extracted(*d, start, data@),
        r matches Ok(v) ==> d.value.same_kind(v),
{
    match data {
        Readout::Bits(bits) => {
            match d.value {
                RawValue::Bool(_) => {},
                _ => {
                    return Err(ModbusErrKind::TypeMismatch);
                },
            }
            if d.addr < start {
                return Err(ModbusErrKind::Codec(CodecError::Malformed));
            }
            let at: usize = (d.addr - start) as usize;
            if at < bits.len() {
                Ok(PrepValue::Bool(bits[at]))
            } else {
                Err(ModbusErrKind::Codec(CodecError::Malformed))
            }
        },
        Readout::Words(words) => {
            match d.value {
                RawValue::Bool(_) => {
                    return Err(ModbusErrKind::TypeMismatch);
                },
                _ => {},
            }
            if d.addr < start {
                return Err(ModbusErrKind::Codec(CodecError::Malformed));
            }
            let at: usize = (d.addr - start) as usize;
            let width: usize = d.value.words() as usize;
            if at + width > words.len() {
                return Err(ModbusErrKind::Codec(CodecError::Malformed));
            }
            let first: u16 = words[at];
            let second: u16 = words[at + width - 1];
            let raw = match d.value {
                RawValue::Bool(bit) => RawValue::Bool(bit),
                RawValue::Unit(_) => RawValue::Unit(first),
                RawValue::Int(_) => RawValue::Int(first),
                RawValue::DUint(_) => RawValue::DUint([first, second]),
                RawValue::DInt(_) => RawValue::DInt([first, second]),
                RawValue::Real(_) => RawValue::Real([first, second]),
            };
            assert(raw == d.value.with_words(first, second)) by {
                assert([first, second] =~= [first, second]);
            }
            Ok(raw.decode(d.little_endian))
        },
    }
}

/// Reads `count` addresses of a memory space from `start` on. The second part of the result
/// holds the calls that the read made to the transport.
pub(crate) fn read_range<T: MBNetworks>(
    driver: &mut ModbusDriver<T>,
    space: Space,
    start: u16,
    count: u16,
) -> (r: (Result<Readout, ModbusErrKind>, Ghost<Seq<Io>>))
    ensures
        final(driver)@ == old(driver)@,
        final(driver).log() == old(driver).log() + r.1@,
        read_done(old(driver)@, space, start, count, r.1@, readout_result(r.0)),
{
    let request = ReadRequest { start, count, buffer: Vec::new() };
    let ghost before = *driver;
    let ghost mut events: Seq<Io> = Seq::empty();
    let data = match space {
        Space::Coils => {
            let ghost op = ModbusFunc::ReadCoilds(request);
            let got = driver.read_coils(request);
            proof {
                events = calls_of_read(op, space, start, count, before, *driver, bits_result(got));
            }
            match got {
                Ok(bits) => Ok(Readout::Bits(bits)),
                Err(e) => Err(e),
            }
        },
        Space::DiscreteInputs => {
            let ghost op = ModbusFunc::ReadDiscreteInputs(request);
            let got = driver.read_discrete_inputs(request);
            proof {
                events = calls_of_read(op, space, start, count, before, *driver, bits_result(got));
            }
            match got {
                Ok(bits) => Ok(Readout::Bits(bits)),
                Err(e) => Err(e),
            }
        },
        Space::InputRegisters => {
            let ghost op = ModbusFunc::ReadInputRegisters(request);
            let got = driver.read_inputs_registers(request);
            proof {
                events = calls_of_read(op, space, start, count, before, *driver, words_result(got));
            }
            match got {
                Ok(words) => Ok(Readout::Words(words)),
                Err(e) => Err(e),
            }
        },
        Space::HoldingRegisters => {
            let ghost op = ModbusFunc::ReadHoldingRegisters(request);
            let got = driver.read_holed_registers(request);
            proof {
                events = calls_of_read(op, space, start, count, before, *driver, words_result(got));
            }
            match got {
                Ok(words) => Ok(Readout::Words(words)),
                Err(e) => Err(e),
            }
        },
    };
    (data, Ghost(events))
}

/// The index of the value of that name, if there is one.
pub fn find(ds: &Vec<ValueParam>, name: &String) -> (r: Option<usize>)
    ensures
        match r {
            Some(i) => i < ds@.len() && ds@[i as int].name@ == name@,
            None => !has_name(ds@, name@),
        },
{
    let mut i: usize = 0;
    while i < ds.len()
        invariant
            i <= ds.len(),
            forall|k: int| 0 <= k < i ==> (#[trigger] ds@[k]).name@ != name@,
        decreases ds.len() - i,
    {
        if ds[i].name == *name {
            return Some(i);
        }
        i = i + 1;
    }
    None
}

/// Some name that is still open is `name`.
pub open spec fn wanted(name: Seq<char>, names: Seq<String>, resolved: Seq<bool>) -> bool {
    exists|j: int| 0 <= j < names.len() && !resolved[j] && (#[trigger] names[j])@ == name
}

pub(crate) fn is_wanted(name: &String, names: &Vec<String>, resolved: &Vec<bool>) -> (r: bool)
    requires
        names@.len() == resolved@.len(),
    ensures
        r == wanted(name@, names@, resolved@),
{
    let mut j: usize = 0;
    while j < names.len()
        invariant
            j <= names.len(),
            names@.len() == resolved@.len(),
            forall|k: int| 0 <= k < j ==> resolved@[k] || (#[trigger] names@[k])@ != name@,
        decreases names.len() - j,
    {
        if !resolved[j] && names[j] == *name {
            return true;
        }
        j = j + 1;
    }
    false
}

/// The values of a space that the open names ask for, by index, in address order.
pub(crate) fn select(ds: &Vec<ValueParam>, names: &Vec<String>, resolved: &Vec<bool>) -> (sel: Vec<
    usize,
>)
    requires
        names@.len() == resolved@.len(),
    ensures
        is_selection(ds@, sel@),
        forall|p: int|
            0 <= p < sel@.len() ==> wanted(
                (#[trigger] chosen(ds@, sel@, p)).name@,
                names@,
                resolved@,
            ),
        forall|i: int|
            0 <= i < ds@.len() && wanted((#[trigger] ds@[i]).name@, names@, resolved@) ==> exists|
                p: int,
            | 0 <= p < sel@.len() && #[trigger] sel@[p] == i,
{
    let mut sel: Vec<usize> = Vec::new();
    let mut i: usize = 0;
    while i < ds.len()
        invariant
            i <= ds.len(),
            names@.len() == resolved@.len(),
            forall|p: int| 0 <= p < sel@.len() ==> #[trigger] sel@[p] < i,
            forall|p: int, q: int|
                0 <= p < q < sel@.len() ==> #[trigger] sel@[p] < #[trigger] sel@[q],
            forall|p: int|
                0 <= p < sel@.len() ==> wanted(
                    (#[trigger] chosen(ds@, sel@, p)).name@,
                    names@,
                    resolved@,
                ),
            forall|k: int|
                0 <= k < i && wanted((#[trigger] ds@[k]).name@, names@, resolved@) ==> exists|
                    p: int,
                | 0 <= p < sel@.len() && #[trigger] sel@[p] == k,
        decreases ds.len() - i,
    {
        if is_wanted(&ds[i].name, names, resolved) {
            let ghost before = sel@;
            sel.push(i);
            proof {
                assert forall|p: int| 0 <= p < sel@.len() implies wanted(
                    (#[trigger] chosen(ds@, sel@, p)).name@,
                    names@,
                    resolved@,
                ) by {
                    if p < before.len() {
                        assert(chosen(ds@, sel@, p) == chosen(ds@, before, p));
                    }
                }
                assert forall|k: int|
                    0 <= k < i + 1 && wanted(
                        (#[trigger] ds@[k]).name@,
                        names@,
                        resolved@,
                    ) implies exists|p: int| 0 <= p < sel@.len() && #[trigger] sel@[p] == k by {
                    if k < i {
                        let p = choose|p: int| 0 <= p < before.len() && #[trigger] before[p] == k;
                        assert(sel@[p] == k);
                    } else {
                        assert(sel@[sel@.len() - 1] == k);
                    }
                }
            }
        }
        i = i + 1;
    }
    sel
}

/// What a round reports for a name that the space holds: what the read that serves the
/// value of that name gave back for it.
pub open spec fn answer_in(
    ds: Seq<ValueParam>,
    round: Round,
    name: Seq<char>,
    result: Result<PrepValue, ModbusErrKind>,
) -> bool {
    exists|i: int, p: int|
        #![trigger ds[i], round.sel[p]]
        0 <= i < ds.len() && ds[i].name@ == name && 0 <= p < round.sel.len() && round.sel[p] == i
            && result == drawn(
            ds[i],
            round.ranges[serving(round.ranges, p)].start,
            round.got[serving(round.ranges, p)],
        )
}

/// The results of a round go by name: what the round reports for a name is fixed by the
/// name and by what the reads gave back.
pub proof fn lemma_one_answer_for_a_name(
    ds: Seq<ValueParam>,
    bits: bool,
    round: Round,
    name: Seq<char>,
    first: Result<PrepValue, ModbusErrKind>,
    second: Result<PrepValue, ModbusErrKind>,
)
    requires
        laid_out(ds, bits),
        is_selection(ds, round.sel),
        answer_in(ds, round, name, first),
        answer_in(ds, round, name, second),
    ensures
        first == second,
{
    let (i, p) = choose|i: int, p: int|
        #![trigger ds[i], round.sel[p]]
        0 <= i < ds.len() && ds[i].name@ == name && 0 <= p < round.sel.len() && round.sel[p] == i
            && first == drawn(
            ds[i],
            round.ranges[serving(round.ranges, p)].start,
            round.got[serving(round.ranges, p)],
        );
    let (j, q) = choose|j: int, q: int|
        #![trigger ds[j], round.sel[q]]
        0 <= j < ds.len() && ds[j].name@ == name && 0 <= q < round.sel.len() && round.sel[q] == j
            && second == drawn(
            ds[j],
            round.ranges[serving(round.ranges, q)].start,
            round.got[serving(round.ranges, q)],
        );
    if i < j {
        assert(ds[i].name@ != ds[j].name@);
    } else if j < i {
        assert(ds[j].name@ != ds[i].name@);
    }
    if p < q {
        assert(round.sel[p] < round.sel[q]);
    } else if q < p {
        assert(round.sel[q] < round.sel[p]);
    }
}

/// Fetches the chosen values with the planned reads. The result holds one entry for each
/// position of the selection, and what each read gave back. A read that fails fails the
/// values that it serves, and no others.
fn fetch<T: MBNetworks>(
    driver: &mut ModbusDriver<T>,
    space: Space,
    ds: &Vec<ValueParam>,
    sel: &Vec<usize>,
    ranges: &Vec<Span>,
    max_gap: u16,
    max_count: u16,
) -> (r: (Vec<Result<PrepValue, ModbusErrKind>>, Ghost<Seq<Result<Items, ModbusErrKind>>>))
    requires
        laid_out(ds@, space.spec_holds_bits()),
        is_selection(ds@, sel@),
        is_plan(ds@, sel@, max_gap, max_count, ranges@),
    ensures
        final(driver)@ == old(driver)@,
        r.0@.len() == sel@.len(),
        forall|p: int|
            0 <= p < sel@.len() ==> #[trigger] r.0@[p] == drawn(
                chosen(ds@, sel@, p),
                ranges@[serving(ranges@, p)].start,
                r.1@[serving(ranges@, p)],
            ),
        fetched(old(driver)@, space, ranges@, r.1@, old(driver).log(), final(driver).log()),
{
    let ghost session = driver@;
    let ghost mut parts: Seq<Seq<Io>> = Seq::empty();
    let ghost mut got: Seq<Result<Items, ModbusErrKind>> = Seq::empty();
    let mut values: Vec<Result<PrepValue, ModbusErrKind>> = Vec::new();
    let mut k: usize = 0;
    assert(driver.log() =~= old(driver).log() + parts.flatten());
    while k < ranges.len()
        invariant
            k <= ranges.len(),
            driver@ == session,
            parts.len() == k,
            got.len() == k,
            forall|i: int|
                0 <= i < k ==> read_done(
                    session,
                    space,
                    ranges@[i].start,
                    ranges@[i].count,
                    #[trigger] parts[i],
                    got[i],
                ),
            driver.log() == old(driver).log() + parts.flatten(),
            laid_out(ds@, space.spec_holds_bits()),
            is_selection(ds@, sel@),
            is_plan(ds@, sel@, max_gap, max_count, ranges@),
            k < ranges@.len() ==> values@.len() == ranges@[k as int].first,
            k == ranges@.len() ==> values@.len() == sel@.len(),
            values@.len() <= sel@.len(),
            forall|p: int| 0 <= p < values@.len() ==> 0 <= #[trigger] serving(ranges@, p) < k,
            forall|p: int|
                0 <= p < values@.len() ==> #[trigger] values@[p] == drawn(
                    chosen(ds@, sel@, p),
                    ranges@[serving(ranges@, p)].start,
                    got[serving(ranges@, p)],
                ),
        decreases ranges.len() - k,
    {
        let range = ranges[k];
        let (data, Ghost(events)) = read_range(driver, space, range.start, range.count);
        let ghost earlier = got;
        proof {
            assert(fitting(ds@, sel@, max_gap, max_count, range));
            let longer = parts.push(events);
            parts.lemma_flatten_push(events);
            assert(driver.log() =~= old(driver).log() + longer.flatten());
            got = earlier.push(readout_result(data));
            assert forall|i: int| 0 <= i < k + 1 implies read_done(
                session,
                space,
                ranges@[i].start,
                ranges@[i].count,
                #[trigger] longer[i],
                got[i],
            ) by {
                if i < k {
                    assert(longer[i] == parts[i]);
                    assert(got[i] == earlier[i]);
                }
            }
            parts = longer;
            assert forall|p: int| 0 <= p < values@.len() implies #[trigger] values@[p] == drawn(
                chosen(ds@, sel@, p),
                ranges@[serving(ranges@, p)].start,
                got[serving(ranges@, p)],
            ) by {
                assert(0 <= serving(ranges@, p) < k);
                assert(got[serving(ranges@, p)] == earlier[serving(ranges@, p)]);
            }
        }
        let mut p: usize = range.first;
        assert(range.last < sel.len());
        while p <= range.last
            invariant
                range.last < usize::MAX,
                range == ranges@[k as int],
                k < ranges@.len(),
                got.len() == k + 1,
                got[k as int] == readout_result(data),
                range.first <= p <= range.last + 1,
                range.last < sel@.len(),
                values@.len() == p,
                laid_out(ds@, space.spec_holds_bits()),
                is_selection(ds@, sel@),
                is_plan(ds@, sel@, max_gap, max_count, ranges@),
                forall|q: int|
                    0 <= q < values@.len() ==> 0 <= #[trigger] serving(ranges@, q) < k + 1,
                forall|q: int|
                    0 <= q < values@.len() ==> #[trigger] values@[q] == drawn(
                        chosen(ds@, sel@, q),
                        ranges@[serving(ranges@, q)].start,
                        got[serving(ranges@, q)],
                    ),
            decreases range.last + 1 - p,
        {
            let d = &ds[sel[p]];
            let value = match &data {
                Ok(readout) => extract(d, range.start, readout),
                Err(e) => Err(*e),
            };
            let ghost before = values@;
            values.push(value);
            proof {
                lemma_plan_covers(ds@, sel@, max_gap, max_count, ranges@, p as int);
                assert(serving(ranges@, p as int) == k);
                assert forall|q: int| 0 <= q < values@.len() implies #[trigger] values@[q]
                    == drawn(
                    chosen(ds@, sel@, q),
                    ranges@[serving(ranges@, q)].start,
                    got[serving(ranges@, q)],
                ) by {
                    if q < before.len() {
                        assert(values@[q] == before[q]);
                    }
                }
            }
            p = p + 1;
        }
        proof {
            if k + 1 < ranges@.len() {
                assert(ranges@[k + 1].first == ranges@[k as int].last + 1);
            }
        }
        k = k + 1;
    }
    (values, Ghost(got))
}

/// How one memory space carries a name on: a name that was settled before, or that the space
/// does not hold, stays as it was; any other name is settled now, with what the round
/// reports for it.
pub open spec fn carried_on(
    ds: Seq<ValueParam>,
    round: Round,
    name: Seq<char>,
    before: (bool, Result<PrepValue, ModbusErrKind>),
    after: (bool, Result<PrepValue, ModbusErrKind>),
) -> bool {
    if before.0 || !has_name(ds, name) {
        after == before
    } else {
        after.0 && answer_in(ds, round, name, after.1)
    }
}

/// The position of index `i` in a selection.
pub(crate) fn position(sel: &Vec<usize>, i: usize) -> (r: Option<usize>)
    ensures
        match r {
            Some(p) => p < sel@.len() && sel@[p as int] == i,
            None => forall|p: int| 0 <= p < sel@.len() ==> #[trigger] sel@[p] != i,
        },
{
    let mut p: usize = 0;
    while p < sel.len()
        invariant
            p <= sel.len(),
            forall|q: int| 0 <= q < p ==> #[trigger] sel@[q] != i,
        decreases sel.len() - p,
    {
        if sel[p] == i {
            return Some(p);
        }
        p = p + 1;
    }
    None
}

/// Polls one memory space for the names that are still open. Their values are fetched with
/// as few reads as the grouping allows, and each open name that the space holds gets what
/// its read gave back for it. The result tells how the poll went.
pub(crate) fn poll_space<T: MBNetworks>(
    driver: &mut ModbusDriver<T>,
    space: Space,
    ds: &Vec<ValueParam>,
    max_gap: u16,
    names: &Vec<String>,
    results: &mut Vec<Result<PrepValue, ModbusErrKind>>,
    resolved: &mut Vec<bool>,
) -> (round: Ghost<Round>)
    requires
        laid_out(ds@, space.spec_holds_bits()),
        old(results)@.len() == names@.len(),
        old(resolved)@.len() == names@.len(),
    ensures
        final(driver)@ == old(driver)@,
        final(results)@.len() == names@.len(),
        final(resolved)@.len() == names@.len(),
        forall|j: int|
            0 <= j < names@.len() ==> carried_on(
                ds@,
                round@,
                (#[trigger] names@[j])@,
                (old(resolved)@[j], old(results)@[j]),
                (final(resolved)@[j], final(results)@[j]),
            ),
        space_polled(
            old(driver)@,
            space,
            ds@,
            max_gap,
            names@,
            old(resolved)@,
            old(driver).log(),
            final(driver).log(),
            round@,
        ),
{
    let sel = select(ds, names, resolved);
    let max_count = max_read(driver.proto(), space.holds_bits());
    let ranges = plan(ds, &sel, max_gap, max_count);
    let (values, Ghost(got)) = fetch(driver, space, ds, &sel, &ranges, max_gap, max_count);
    let ghost round = Round { sel: sel@, ranges: ranges@, got };
    proof {
        assert(picks(ds@, sel@, names@, old(resolved)@));
        assert(is_plan(ds@, sel@, max_gap, max_count, ranges@));
    }
    let mut j: usize = 0;
    while j < names.len()
        invariant
            j <= names.len(),
            results@.len() == names@.len(),
            resolved@.len() == names@.len(),
            old(results)@.len() == names@.len(),
            old(resolved)@.len() == names@.len(),
            values@.len() == sel@.len(),
            is_selection(ds@, sel@),
            round == (Round { sel: sel@, ranges: ranges@, got }),
            forall|p: int|
                0 <= p < sel@.len() ==> #[trigger] values@[p] == drawn(
                    chosen(ds@, sel@, p),
                    ranges@[serving(ranges@, p)].start,
                    got[serving(ranges@, p)],
                ),
            forall|i: int|
                0 <= i < ds@.len() && wanted((#[trigger] ds@[i]).name@, names@, old(resolved)@)
                    ==> exists|p: int| 0 <= p < sel@.len() && #[trigger] sel@[p] == i,
            forall|k: int| j <= k < names@.len() ==> #[trigger] resolved@[k] == old(resolved)@[k],
            forall|k: int| j <= k < names@.len() ==> #[trigger] results@[k] == old(results)@[k],
            forall|k: int|
                0 <= k < j ==> carried_on(
                    ds@,
                    round,
                    (#[trigger] names@[k])@,
                    (old(resolved)@[k], old(results)@[k]),
                    (resolved@[k], results@[k]),
                ),
        decreases names.len() - j,
    {
        if !resolved[j] {
            match find(ds, &names[j]) {
                Some(i) => {
                    proof {
                        assert(wanted(ds@[i as int].name@, names@, old(resolved)@)) by {
                            assert(!old(resolved)@[j as int] && names@[j as int]@
                                == ds@[i as int].name@);
                        }
                    }
                    match position(&sel, i) {
                        Some(p) => {
                            let value = values[p];
                            proof {
                                assert(chosen(ds@, sel@, p as int) == ds@[i as int]);
                                assert(round.sel[p as int] == i);
                                assert(answer_in(ds@, round, names@[j as int]@, value));
                            }
                            results.set(j, value);
                            resolved.set(j, true);
                        },
                        None => {
                            // the value was chosen, so it has a position
                            proof {
                                let p = choose|p: int|
                                    0 <= p < sel@.len() && #[trigger] sel@[p] == i;
                                assert(sel@[p] != i);
                            }
                        },
                    }
                },
                None => {},
            }
        }
        j = j + 1;
    }
    Ghost(round)
}

} // verus!
