//! The register map of a slave: named values of several kinds in the four memory spaces,
//! polled and written by name.
use vstd::prelude::*;
use crate::codec::{set_coil_frame, set_holding_frame, set_holdings_bulk_frame};
use crate::driver::{
    exchanged, rejected, untouched, write_end, write_outcome, MBNetworks, ModbusDriver,
    ModbusFunc, Session,
};
use crate::error_kind::{ConfigurationError, ModbusErrKind};
use crate::frame::{SET_COIL, SET_HOLDING, SET_HOLDINGS_BULK};
use crate::layout::{has_name, laid_out, lemma_layout_is_unique, place, placement_error};
use crate::line::Io;
use crate::polling::{answer_in, carried_on, find, poll_space, space_polled, Round};
use crate::request_types::{
    all_registers, register_words, MRequestValues, MultipleWriteRequest, WriteRequest,
};
use crate::writing::{space_written, write_answer_in, write_carried_on, write_space, Sending};

verus! {

/// How a named value is stored: its decoding kind together with the register contents as
/// they stand on the wire. A value of two registers holds them in address order.
#[derive(Clone, Copy, Debug, PartialEq, Eq)]
pub enum RawValue {
    Bool(bool),
    Unit(u16),
    Int(u16),
    DUint([u16; 2]),
    DInt([u16; 2]),
    Real([u16; 2]),
}

/// A named value as its user sees it. `Real` holds the bit pattern of a 32-bit IEEE 754
/// number.
#[derive(Clone, Copy, Debug, PartialEq, Eq, Structural)]
pub enum PrepValue {
    Bool(bool),
    Unit(u16),
    Int(i16),
    DUint(u32),
    DInt(i32),
    Real(u32),
}

/// A named value of a device: where it lives, how it is stored, and which of its two
/// registers, if it has two, is the less significant one. The register contents in `value`
/// are those that the value starts out with; a poll reads the slave and hands out what it
/// holds, and keeps nothing.
pub struct ValueParam {
    pub name: String,
    pub addr: u16,
    pub value: RawValue,
    pub little_endian: bool,
}

impl RawValue {
    /// The number of addresses that the value takes.
    pub open spec fn width(self) -> nat {
        match self {
            RawValue::Bool(_) => 1,
            RawValue::Unit(_) => 1,
            RawValue::Int(_) => 1,
            RawValue::DUint(_) => 2,
            RawValue::DInt(_) => 2,
            RawValue::Real(_) => 2,
        }
    }

    /// The number of addresses that the value takes.
    pub fn words(&self) -> (n: u16)
        ensures
            n == self.width(),
    {
        match self {
            RawValue::Bool(_) => 1,
            RawValue::Unit(_) => 1,
            RawValue::Int(_) => 1,
            RawValue::DUint(_) => 2,
            RawValue::DInt(_) => 2,
            RawValue::Real(_) => 2,
        }
    }
}

impl ValueParam {
    /// The first address behind the value.
    pub open spec fn end(self) -> int {
        self.addr + self.value.width()
    }
}

/// The four memory spaces of a slave.
#[derive(Clone, Copy, Debug, PartialEq, Eq, Structural)]
pub enum Space {
    Coils,
    DiscreteInputs,
    InputRegisters,
    HoldingRegisters,
}

impl Space {
    /// The space holds single bits, not registers.
    pub open spec fn spec_holds_bits(self) -> bool {
        self is Coils || self is DiscreteInputs
    }

    pub fn holds_bits(self) -> (bits: bool)
        ensures
            bits == self.spec_holds_bits(),
    {
        match self {
            Space::Coils => true,
            Space::DiscreteInputs => true,
            Space::InputRegisters => false,
            Space::HoldingRegisters => false,
        }
    }
}

/// The addresses of a sequence of values, in the order of the sequence.
pub open spec fn addresses(x: Seq<ValueParam>) -> Seq<u16> {
    x.map_values(|p: ValueParam| p.addr)
}

/// No item is smaller than one before it.
pub open spec fn ascending(s: Seq<u16>) -> bool {
    forall|i: int, j: int| 0 <= i <= j < s.len() ==> s[i] <= s[j]
}

/// The addresses of the values in ascending order.
pub fn get_map(x: Vec<ValueParam>) -> (r: Vec<u16>)
    ensures
        ascending(r@),
        r@.to_multiset() == addresses(x@).to_multiset(),
{
    let mut out: Vec<u16> = Vec::new();
    let mut i: usize = 0;
    proof {
        assert(addresses(x@).take(0) =~= out@);
    }
    while i < x.len()
        invariant
            i <= x.len(),
            ascending(out@),
            out@.to_multiset() == addresses(x@).take(i as int).to_multiset(),
        decreases x.len() - i,
    {
        let a: u16 = x[i].addr;
        let mut pos: usize = 0;
        while pos < out.len() && out[pos] <= a
            invariant
                pos <= out.len(),
                forall|k: int| 0 <= k < pos ==> out@[k] <= a,
            decreases out.len() - pos,
        {
            pos = pos + 1;
        }
        proof {
            vstd::seq_lib::to_multiset_insert(out@, pos as int, a);
            let s = addresses(x@);
            assert(s.take(i as int + 1) == s.take(i as int).push(a));
            vstd::seq_lib::to_multiset_build(s.take(i as int), a);
        }
        out.insert(pos, a);
        i = i + 1;
    }
    proof {
        assert(addresses(x@).take(x.len() as int) == addresses(x@));
    }
    out
}

/// A slave with its register map: the driver that talks to it, and the named values of
/// each of its four memory spaces.
pub struct Device<T: MBNetworks> {
    driver: ModbusDriver<T>,
    coils: Vec<ValueParam>,
    discrete_inputs: Vec<ValueParam>,
    input_registers: Vec<ValueParam>,
    holding_registers: Vec<ValueParam>,
    max_gap: u16,
}

/// The function code of the write that stores a value of that form.
pub open spec fn write_code(raw: RawValue) -> u8 {
    match raw {
        RawValue::Bool(_) => SET_COIL,
        RawValue::Unit(_) => SET_HOLDING,
        RawValue::Int(_) => SET_HOLDING,
        RawValue::DUint(_) => SET_HOLDINGS_BULK,
        RawValue::DInt(_) => SET_HOLDINGS_BULK,
        RawValue::Real(_) => SET_HOLDINGS_BULK,
    }
}

/// The request frame of the write that stores `value` in `d`: a single write for a bit or
/// one register, a bulk write of the two registers in address order for a value of two.
pub open spec fn write_frame(session: Session, d: ValueParam, value: PrepValue) -> Option<Seq<u8>> {
    match value.encoded(d.little_endian) {
        RawValue::Bool(bit) => set_coil_frame(session.proto, session.unit_id, d.addr, bit),
        RawValue::Unit(word) => set_holding_frame(session.proto, session.unit_id, d.addr, word),
        RawValue::Int(word) => set_holding_frame(session.proto, session.unit_id, d.addr, word),
        RawValue::DUint(words) => set_holdings_bulk_frame(
            session.proto,
            session.unit_id,
            d.addr,
            seq![words[0], words[1]],
        ),
        RawValue::DInt(words) => set_holdings_bulk_frame(
            session.proto,
            session.unit_id,
            d.addr,
            seq![words[0], words[1]],
        ),
        RawValue::Real(words) => set_holdings_bulk_frame(
            session.proto,
            session.unit_id,
            d.addr,
            seq![words[0], words[1]],
        ),
    }
}

/// An earlier entry has the name of entry `j`.
pub open spec fn repeated(entries: Seq<(String, PrepValue)>, j: int) -> bool {
    exists|k: int| 0 <= k < j && (#[trigger] entries[k]).0@ == entries[j].0@
}

/// The memory spaces in the order in which a name is looked for.
pub open spec fn search_order() -> Seq<Space> {
    seq![Space::Coils, Space::DiscreteInputs, Space::InputRegisters, Space::HoldingRegisters]
}

/// The place of a memory space in that order.
pub open spec fn place_of(space: Space) -> int {
    match space {
        Space::Coils => 0,
        Space::DiscreteInputs => 1,
        Space::InputRegisters => 2,
        Space::HoldingRegisters => 3,
    }
}

impl<T: MBNetworks> Device<T> {
    /// The values of a memory space, in address order.
    pub closed spec fn descriptors(&self, space: Space) -> Seq<ValueParam> {
        match space {
            Space::Coils => self.coils@,
            Space::DiscreteInputs => self.discrete_inputs@,
            Space::InputRegisters => self.input_registers@,
            Space::HoldingRegisters => self.holding_registers@,
        }
    }

    /// The driver as the device holds it.
    pub closed spec fn driver(&self) -> ModbusDriver<T> {
        self.driver
    }

    /// The widest gap between two values that one read may bridge.
    pub closed spec fn max_gap(&self) -> u16 {
        self.max_gap
    }

    /// Each memory space is laid out well.
    pub open spec fn well_formed(&self) -> bool {
        &&& laid_out(self.descriptors(Space::Coils), true)
        &&& laid_out(self.descriptors(Space::DiscreteInputs), true)
        &&& laid_out(self.descriptors(Space::InputRegisters), false)
        &&& laid_out(self.descriptors(Space::HoldingRegisters), false)
    }

    /// The first memory space, of the first `n` in search order, that holds the name.
    pub open spec fn home_among(&self, n: int, name: Seq<char>) -> Option<Space>
        decreases n,
    {
        if n <= 0 {
            None
        } else if self.home_among(n - 1, name) is Some {
            self.home_among(n - 1, name)
        } else if n <= 4 && has_name(self.descriptors(search_order()[n - 1]), name) {
            Some(search_order()[n - 1])
        } else {
            None
        }
    }

    /// The memory space in which a poll finds the name.
    pub open spec fn home(&self, name: Seq<char>) -> Option<Space> {
        self.home_among(4, name)
    }

    /// Which of the names the first `n` memory spaces in search order hold.
    pub open spec fn found_among(&self, n: int, names: Seq<String>) -> Seq<bool> {
        Seq::new(names.len(), |j: int| self.home_among(n, names[j]@) is Some)
    }

    /// How the poll of memory space `n` in search order went: it looked for the values that
    /// the names ask for and that no earlier space holds.
    pub open spec fn polled_space(
        &self,
        n: int,
        names: Seq<String>,
        before: Seq<Io>,
        after: Seq<Io>,
        round: Round,
    ) -> bool {
        space_polled(
            self.driver()@,
            search_order()[n],
            self.descriptors(search_order()[n]),
            self.max_gap(),
            names,
            self.found_among(n, names),
            before,
            after,
            round,
        )
    }

    /// What a poll reports for a name: that it is unknown, if no memory space holds it, and
    /// else what the round of the first space that holds it reports for it.
    pub open spec fn polled(
        &self,
        name: Seq<char>,
        result: Result<PrepValue, ModbusErrKind>,
        rounds: Seq<Round>,
    ) -> bool {
        match self.home(name) {
            None => result == Err::<PrepValue, ModbusErrKind>(
                ModbusErrKind::Configuration(ConfigurationError::UnknownName),
            ),
            Some(space) => answer_in(
                self.descriptors(space),
                rounds[place_of(space)],
                name,
                result,
            ),
        }
    }

    /// How a poll went, with one round for each memory space in search order and the record
    /// of the driver before and after each of them: the rounds follow one another from the
    /// record at the start to the record `after`, and each name is reported as the rounds
    /// say.
    pub open spec fn poll_went(
        &self,
        names: Seq<String>,
        out: Seq<(String, Result<PrepValue, ModbusErrKind>)>,
        after: Seq<Io>,
        rounds: Seq<Round>,
        logs: Seq<Seq<Io>>,
    ) -> bool {
        &&& rounds.len() == 4
        &&& logs.len() == 5
        &&& logs[0] == self.driver().log()
        &&& logs[4] == after
        &&& forall|n: int|
            0 <= n < 4 ==> self.polled_space(n, names, logs[n], logs[n + 1], #[trigger] rounds[n])
        &&& out.len() == names.len()
        &&& forall|j: int|
            0 <= j < names.len() ==> self.polled(names[j]@, (#[trigger] out[j]).1, rounds)
    }

    /// A poll of the names gave `out` and left the record `after` behind.
    pub open spec fn poll_done(
        &self,
        names: Seq<String>,
        out: Seq<(String, Result<PrepValue, ModbusErrKind>)>,
        after: Seq<Io>,
    ) -> bool {
        exists|rounds: Seq<Round>, logs: Seq<Seq<Io>>|
            self.poll_went(names, out, after, rounds, logs)
    }

    /// The memory space in which a write finds the name: the coils first, then the holding
    /// registers. The other two spaces cannot be written.
    pub open spec fn target(&self, name: Seq<char>) -> Option<Space> {
        if has_name(self.descriptors(Space::Coils), name) {
            Some(Space::Coils)
        } else if has_name(self.descriptors(Space::HoldingRegisters), name) {
            Some(Space::HoldingRegisters)
        } else {
            None
        }
    }

    /// How a write to the value `d` ended. A value of another kind than `d` is a type
    /// mismatch, and nothing is sent. Else the request is the one for `d`'s address and
    /// the registers that encode `value` in `d`'s word order: where the codec refuses it,
    /// nothing is sent; else the calls to the transport are those of one exchange for that
    /// request, and the result is the error of the exchange, or the codec's verdict on the
    /// frame that came back.
    pub open spec fn written(
        &self,
        d: ValueParam,
        value: PrepValue,
        r: Result<(), ModbusErrKind>,
        after: ModbusDriver<T>,
    ) -> bool {
        let code = write_code(d.value);
        if !d.value.same_kind(value) {
            r == Err::<(), ModbusErrKind>(ModbusErrKind::TypeMismatch) && untouched(
                self.driver(),
                after,
            )
        } else {
            match write_frame(self.driver()@, d, value) {
                None => rejected(r) && untouched(self.driver(), after),
                Some(request) => exists|events: Seq<Io>, x: Result<Seq<u8>, ModbusErrKind>|
                    #[trigger] exchanged(self.driver()@.proto, request, events, x) && after.log()
                        == self.driver().log() + events && write_end(self.driver()@, code, x, r),
            }
        }
    }

    /// How entry `j` of a bulk write ended. An entry whose name an earlier entry has is a
    /// duplicate; one whose name no writable space holds is unknown; any other ends as the
    /// sending of the space that holds its name reports.
    pub open spec fn stored(
        &self,
        entries: Seq<(String, PrepValue)>,
        j: int,
        r: Result<(), ModbusErrKind>,
        coils: Sending,
        registers: Sending,
    ) -> bool {
        if repeated(entries, j) {
            r == Err::<(), ModbusErrKind>(
                ModbusErrKind::Configuration(ConfigurationError::DuplicateName),
            )
        } else {
            match self.target(entries[j].0@) {
                None => r == Err::<(), ModbusErrKind>(
                    ModbusErrKind::Configuration(ConfigurationError::UnknownName),
                ),
                Some(space) => write_answer_in(
                    self.descriptors(space),
                    if space == Space::Coils {
                        coils
                    } else {
                        registers
                    },
                    entries[j].0@,
                    entries[j].1,
                    r,
                ),
            }
        }
    }

    /// How a bulk write went, with the sending of the coils, the sending of the holding
    /// registers and the record of the driver between the two: first the writes of the plan
    /// for the coils that the entries name, then those for the holding registers that they
    /// name and no coil has the name of, and each entry ends as the sendings say.
    pub open spec fn write_many_went(
        &self,
        entries: Seq<(String, PrepValue)>,
        out: Seq<(String, Result<(), ModbusErrKind>)>,
        after: Seq<Io>,
        coils: Sending,
        registers: Sending,
        between: Seq<Io>,
    ) -> bool {
        let names = Seq::new(entries.len(), |j: int| entries[j].0);
        let repeats = Seq::new(entries.len(), |j: int| repeated(entries, j));
        let taken = Seq::new(
            entries.len(),
            |j: int|
                repeated(entries, j) || has_name(self.descriptors(Space::Coils), entries[j].0@),
        );
        &&& space_written(
            self.driver()@,
            true,
            self.descriptors(Space::Coils),
            names,
            entries,
            repeats,
            self.driver().log(),
            between,
            coils,
        )
        &&& space_written(
            self.driver()@,
            false,
            self.descriptors(Space::HoldingRegisters),
            names,
            entries,
            taken,
            between,
            after,
            registers,
        )
        &&& out.len() == entries.len()
        &&& forall|j: int|
            0 <= j < entries.len() ==> self.stored(
                entries,
                j,
                (#[trigger] out[j]).1,
                coils,
                registers,
            )
    }

    /// A bulk write of the entries gave `out` and left the record `after` behind.
    pub open spec fn write_many_done(
        &self,
        entries: Seq<(String, PrepValue)>,
        out: Seq<(String, Result<(), ModbusErrKind>)>,
        after: Seq<Io>,
    ) -> bool {
        exists|coils: Sending, registers: Sending, between: Seq<Io>|
            self.write_many_went(entries, out, after, coils, registers, between)
    }

    /// A device without values. One read bridges gaps of up to `max_gap` addresses.
    pub fn new(driver: ModbusDriver<T>, max_gap: u16) -> (device: Self)
        ensures
            device.well_formed(),
            device.driver() == driver,
            device.max_gap() == max_gap,
            forall|space: Space| #[trigger] device.descriptors(space) == Seq::<ValueParam>::empty(),
    {
        Device {
            driver,
            coils: Vec::new(),
            discrete_inputs: Vec::new(),
            input_registers: Vec::new(),
            holding_registers: Vec::new(),
            max_gap,
        }
    }

    /// Gives the driver back.
    pub fn into_driver(self) -> (driver: ModbusDriver<T>)
        ensures
            driver == self.driver(),
    {
        self.driver
    }

    /// Registers a named value in a memory space. A value that does not fit the space, or
    /// whose name or address range is taken there, is refused, and the device stays as it
    /// was.
    pub fn register(&mut self, space: Space, param: ValueParam) -> (r: Result<(), ModbusErrKind>)
        requires
            old(self).well_formed(),
        ensures
            final(self).well_formed(),
            final(self).driver() == old(self).driver(),
            final(self).max_gap() == old(self).max_gap(),
            forall|other: Space|
                other != space ==> #[trigger] final(self).descriptors(other) == old(self)
                    .descriptors(other),
            match placement_error(old(self).descriptors(space), space.spec_holds_bits(), param) {
                Some(e) => r == Err::<(), ModbusErrKind>(e) && final(self).descriptors(space)
                    == old(self).descriptors(space),
                None => r == Ok::<(), ModbusErrKind>(()) && exists|at: int|
                    0 <= at <= old(self).descriptors(space).len() && final(self).descriptors(space)
                        == #[trigger] old(self).descriptors(space).insert(at, param),
            },
    {
        match space {
            Space::Coils => place(&mut self.coils, true, param),
            Space::DiscreteInputs => place(&mut self.discrete_inputs, true, param),
            Space::InputRegisters => place(&mut self.input_registers, false, param),
            Space::HoldingRegisters => place(&mut self.holding_registers, false, param),
        }
    }

    /// Polls the device for the named values. The result has one entry for each name, in
    /// the order of the names. A name is looked for among the coils, the discrete inputs,
    /// the input registers and the holding registers, in this order. The values of each
    /// memory space are fetched in address order, neighbours in one read; a read that
    /// fails fails the names that it serves and no others.
    pub fn poll(&mut self, names: &Vec<String>) -> (out: Vec<
        (String, Result<PrepValue, ModbusErrKind>),
    >)
        requires
            old(self).well_formed(),
        ensures
            final(self).well_formed(),
            final(self).driver()@ == old(self).driver()@,
            final(self).max_gap() == old(self).max_gap(),
            forall|space: Space|
                #[trigger] final(self).descriptors(space) == old(self).descriptors(space),
            out@.len() == names@.len(),
            forall|j: int| 0 <= j < names@.len() ==> (#[trigger] out@[j]).0@ == names@[j]@,
            old(self).poll_done(names@, out@, final(self).driver().log()),
    {
        let mut results: Vec<Result<PrepValue, ModbusErrKind>> = Vec::new();
        let mut resolved: Vec<bool> = Vec::new();
        let mut j: usize = 0;
        while j < names.len()
            invariant
                j <= names.len(),
                results@.len() == j,
                resolved@.len() == j,
                forall|k: int| 0 <= k < j ==> !(#[trigger] resolved@[k]),
                forall|k: int|
                    0 <= k < j ==> #[trigger] results@[k] == Err::<PrepValue, ModbusErrKind>(
                        ModbusErrKind::Configuration(ConfigurationError::UnknownName),
                    ),
            decreases names.len() - j,
        {
            results.push(Err(ModbusErrKind::Configuration(ConfigurationError::UnknownName)));
            resolved.push(false);
            j = j + 1;
        }
        let ghost unknown = results@;
        let ghost open = resolved@;
        let ghost log0 = self.driver.log();
        let Ghost(round0) = poll_space(
            &mut self.driver,
            Space::Coils,
            &self.coils,
            self.max_gap,
            names,
            &mut results,
            &mut resolved,
        );
        let ghost results1 = results@;
        let ghost resolved1 = resolved@;
        let ghost log1 = self.driver.log();
        let Ghost(round1) = poll_space(
            &mut self.driver,
            Space::DiscreteInputs,
            &self.discrete_inputs,
            self.max_gap,
            names,
            &mut results,
            &mut resolved,
        );
        let ghost results2 = results@;
        let ghost resolved2 = resolved@;
        let ghost log2 = self.driver.log();
        let Ghost(round2) = poll_space(
            &mut self.driver,
            Space::InputRegisters,
            &self.input_registers,
            self.max_gap,
            names,
            &mut results,
            &mut resolved,
        );
        let ghost results3 = results@;
        let ghost resolved3 = resolved@;
        let ghost log3 = self.driver.log();
        let Ghost(round3) = poll_space(
            &mut self.driver,
            Space::HoldingRegisters,
            &self.holding_registers,
            self.max_gap,
            names,
            &mut results,
            &mut resolved,
        );
        let ghost rounds = seq![round0, round1, round2, round3];
        let ghost logs = seq![log0, log1, log2, log3, self.driver.log()];
        proof {
            assert(search_order()[0] == Space::Coils);
            assert(search_order()[1] == Space::DiscreteInputs);
            assert(search_order()[2] == Space::InputRegisters);
            assert(search_order()[3] == Space::HoldingRegisters);
            assert forall|k: int| 0 <= k < names@.len() implies old(self).polled(
                names@[k]@,
                #[trigger] results@[k],
                rounds,
            ) && resolved1[k] == old(self).found_among(1, names@)[k] && resolved2[k] == old(
                self,
            ).found_among(2, names@)[k] && resolved3[k] == old(self).found_among(3, names@)[k] by {
                let steps = seq![
                    (open[k], unknown[k]),
                    (resolved1[k], results1[k]),
                    (resolved2[k], results2[k]),
                    (resolved3[k], results3[k]),
                    (resolved@[k], results@[k]),
                ];
                assert(carried_on(self.coils@, rounds[0], names@[k]@, steps[0], steps[1]));
                assert(carried_on(
                    self.discrete_inputs@,
                    rounds[1],
                    names@[k]@,
                    steps[1],
                    steps[2],
                ));
                assert(carried_on(
                    self.input_registers@,
                    rounds[2],
                    names@[k]@,
                    steps[2],
                    steps[3],
                ));
                assert(carried_on(
                    self.holding_registers@,
                    rounds[3],
                    names@[k]@,
                    steps[3],
                    steps[4],
                ));
                lemma_steps_of_poll(*old(self), names@[k]@, rounds, steps);
            }
            assert(open =~= old(self).found_among(0, names@)) by {
                reveal_with_fuel(Device::home_among, 1);
            }
            assert(resolved1 =~= old(self).found_among(1, names@));
            assert(resolved2 =~= old(self).found_among(2, names@));
            assert(resolved3 =~= old(self).found_among(3, names@));
            assert(old(self).polled_space(0, names@, logs[0], logs[1], rounds[0]));
            assert(old(self).polled_space(1, names@, logs[1], logs[2], rounds[1]));
            assert(old(self).polled_space(2, names@, logs[2], logs[3], rounds[2]));
            assert(old(self).polled_space(3, names@, logs[3], logs[4], rounds[3]));
        }
        let mut out: Vec<(String, Result<PrepValue, ModbusErrKind>)> = Vec::new();
        let mut j: usize = 0;
        while j < names.len()
            invariant
                j <= names.len(),
                out@.len() == j,
                results@.len() == names@.len(),
                forall|k: int| 0 <= k < j ==> (#[trigger] out@[k]).0@ == names@[k]@,
                forall|k: int| 0 <= k < j ==> (#[trigger] out@[k]).1 == results@[k],
            decreases names.len() - j,
        {
            out.push((names[j].clone(), results[j]));
            j = j + 1;
        }
        assert(old(self).poll_went(names@, out@, self.driver.log(), rounds, logs));
        out
    }

    /// Writes a named value. The name is looked for among the coils, then among the
    /// holding registers. The value must be of the kind that the name was registered
    /// with; a value of two registers goes out as one bulk write.
    pub fn write(&mut self, name: &String, value: PrepValue) -> (r: Result<(), ModbusErrKind>)
        requires
            old(self).well_formed(),
        ensures
            final(self).well_formed(),
            final(self).driver()@ == old(self).driver()@,
            final(self).max_gap() == old(self).max_gap(),
            forall|space: Space|
                #[trigger] final(self).descriptors(space) == old(self).descriptors(space),
            match old(self).target(name@) {
                None => r == Err::<(), ModbusErrKind>(
                    ModbusErrKind::Configuration(ConfigurationError::UnknownName),
                ) && untouched(old(self).driver(), final(self).driver()),
                Some(space) => exists|i: int|
                    0 <= i < old(self).descriptors(space).len() && (#[trigger] old(self)
                        .descriptors(space)[i]).name@ == name@ && old(self).written(
                        old(self).descriptors(space)[i],
                        value,
                        r,
                        final(self).driver(),
                    ),
            },
    {
        let ghost space: Space;
        let ghost at: int;
        let (stored, addr, little_endian) = match find(&self.coils, name) {
            Some(i) => {
                proof {
                    space = Space::Coils;
                    at = i as int;
                }
                (self.coils[i].value, self.coils[i].addr, self.coils[i].little_endian)
            },
            None => match find(&self.holding_registers, name) {
                Some(i) => {
                    proof {
                        space = Space::HoldingRegisters;
                        at = i as int;
                    }
                    (
                        self.holding_registers[i].value,
                        self.holding_registers[i].addr,
                        self.holding_registers[i].little_endian,
                    )
                },
                None => {
                    return Err(ModbusErrKind::Configuration(ConfigurationError::UnknownName));
                },
            },
        };
        let ghost d = self.descriptors(space)[at];
        assert(old(self).target(name@) == Some(space));
        assert(d.name@ == name@ && d.value == stored && d.addr == addr && d.little_endian
            == little_endian);
        if !stored.kind_of(&value) {
            let r = Err(ModbusErrKind::TypeMismatch);
            assert(old(self).written(d, value, r, self.driver));
            return r;
        }
        let r = match value.encode(little_endian) {
            RawValue::Bool(bit) => {
                let request = WriteRequest {
                    start: addr,
                    value: MRequestValues::Coil(bit),
                    buffer: Vec::new(),
                };
                let ghost op = ModbusFunc::WriteSingleCoil(request);
                let r = self.driver.write_single_coil(request);
                assert(write_outcome(op, old(self).driver(), self.driver, r));
                assert(write_frame(old(self).driver()@, d, value) == set_coil_frame(
                    old(self).driver()@.proto,
                    old(self).driver()@.unit_id,
                    addr,
                    bit,
                ));
                assert(write_code(d.value) == SET_COIL);
                assert(old(self).written(d, value, r, self.driver));
                r
            },
            RawValue::Unit(word) => {
                let request = WriteRequest {
                    start: addr,
                    value: MRequestValues::Register(word),
                    buffer: Vec::new(),
                };
                let ghost op = ModbusFunc::WriteSingleHoldingRegister(request);
                let r = self.driver.write_single_holding_register(request);
                assert(write_outcome(op, old(self).driver(), self.driver, r));
                assert(write_frame(old(self).driver()@, d, value) == set_holding_frame(
                    old(self).driver()@.proto,
                    old(self).driver()@.unit_id,
                    addr,
                    word,
                ));
                assert(write_code(d.value) == SET_HOLDING);
                assert(old(self).written(d, value, r, self.driver));
                r
            },
            RawValue::Int(word) => {
                let request = WriteRequest {
                    start: addr,
                    value: MRequestValues::Register(word),
                    buffer: Vec::new(),
                };
                let ghost op = ModbusFunc::WriteSingleHoldingRegister(request);
                let r = self.driver.write_single_holding_register(request);
                assert(write_outcome(op, old(self).driver(), self.driver, r));
                assert(write_frame(old(self).driver()@, d, value) == set_holding_frame(
                    old(self).driver()@.proto,
                    old(self).driver()@.unit_id,
                    addr,
                    word,
                ));
                assert(write_code(d.value) == SET_HOLDING);
                assert(old(self).written(d, value, r, self.driver));
                r
            },
            RawValue::DUint(words) => {
                let r = self.write_pair(addr, words);
                assert(write_frame(old(self).driver()@, d, value) == set_holdings_bulk_frame(
                    old(self).driver()@.proto,
                    old(self).driver()@.unit_id,
                    addr,
                    seq![words[0], words[1]],
                ));
                assert(write_code(d.value) == SET_HOLDINGS_BULK);
                assert(old(self).written(d, value, r, self.driver));
                r
            },
            RawValue::DInt(words) => {
                let r = self.write_pair(addr, words);
                assert(write_frame(old(self).driver()@, d, value) == set_holdings_bulk_frame(
                    old(self).driver()@.proto,
                    old(self).driver()@.unit_id,
                    addr,
                    seq![words[0], words[1]],
                ));
                assert(write_code(d.value) == SET_HOLDINGS_BULK);
                assert(old(self).written(d, value, r, self.driver));
                r
            },
            RawValue::Real(words) => {
                let r = self.write_pair(addr, words);
                assert(write_frame(old(self).driver()@, d, value) == set_holdings_bulk_frame(
                    old(self).driver()@.proto,
                    old(self).driver()@.unit_id,
                    addr,
                    seq![words[0], words[1]],
                ));
                assert(write_code(d.value) == SET_HOLDINGS_BULK);
                assert(old(self).written(d, value, r, self.driver));
                r
            },
        };
        r
    }

    /// Writes two registers in address order with one bulk write.
    fn write_pair(&mut self, addr: u16, words: [u16; 2]) -> (r: Result<(), ModbusErrKind>)
        ensures
            final(self).driver()@ == old(self).driver()@,
            final(self).max_gap() == old(self).max_gap(),
            forall|space: Space|
                #[trigger] final(self).descriptors(space) == old(self).descriptors(space),
            match set_holdings_bulk_frame(
                old(self).driver()@.proto,
                old(self).driver()@.unit_id,
                addr,
                seq![words[0], words[1]],
            ) {
                None => rejected(r) && untouched(old(self).driver(), final(self).driver()),
                Some(request) => exists|events: Seq<Io>, x: Result<Seq<u8>, ModbusErrKind>|
                    #[trigger] exchanged(old(self).driver()@.proto, request, events, x)
                        && final(self).driver().log() == old(self).driver().log() + events
                        && write_end(old(self).driver()@, SET_HOLDINGS_BULK, x, r),
            },
    {
        let mut values: Vec<MRequestValues> = Vec::new();
        values.push(MRequestValues::Register(words[0]));
        values.push(MRequestValues::Register(words[1]));
        proof {
            assert(all_registers(values@));
            assert(register_words(values@) =~= seq![words[0], words[1]]);
        }
        let request = MultipleWriteRequest { start: addr, values, buffer: Vec::new() };
        let ghost op = ModbusFunc::WriteMultipleHoldingRegisters(request);
        let r = self.driver.write_multiple_holding_register(request);
        assert(write_outcome(op, old(self).driver(), self.driver, r));
        r
    }

    /// Writes several named values. The result has one entry for each entry given, in
    /// their order. The coils go out first, then the holding registers, each in address
    /// order, values that lie side by side in one bulk write; a write that fails fails the
    /// entries that it carries and no others.
    pub fn write_many(&mut self, entries: &Vec<(String, PrepValue)>) -> (out: Vec<
        (String, Result<(), ModbusErrKind>),
    >)
        requires
            old(self).well_formed(),
        ensures
            final(self).well_formed(),
            final(self).driver()@ == old(self).driver()@,
            final(self).max_gap() == old(self).max_gap(),
            forall|space: Space|
                #[trigger] final(self).descriptors(space) == old(self).descriptors(space),
            out@.len() == entries@.len(),
            forall|j: int| 0 <= j < entries@.len() ==> (#[trigger] out@[j]).0@ == entries@[j].0@,
            old(self).write_many_done(entries@, out@, final(self).driver().log()),
    {
        let mut names: Vec<String> = Vec::new();
        let mut results: Vec<Result<(), ModbusErrKind>> = Vec::new();
        let mut settled: Vec<bool> = Vec::new();
        let mut j: usize = 0;
        while j < entries.len()
            invariant
                j <= entries.len(),
                names@.len() == j,
                results@.len() == j,
                settled@.len() == j,
                forall|k: int| 0 <= k < j ==> (#[trigger] names@[k])@ == entries@[k].0@,
                forall|k: int| 0 <= k < j ==> #[trigger] names@[k] == entries@[k].0,
                forall|k: int| 0 <= k < j ==> #[trigger] settled@[k] == repeated(entries@, k),
                forall|k: int|
                    0 <= k < j && repeated(entries@, k) ==> #[trigger] results@[k] == Err::<
                        (),
                        ModbusErrKind,
                    >(ModbusErrKind::Configuration(ConfigurationError::DuplicateName)),
                forall|k: int|
                    0 <= k < j && !repeated(entries@, k) ==> #[trigger] results@[k] == Err::<
                        (),
                        ModbusErrKind,
                    >(ModbusErrKind::Configuration(ConfigurationError::UnknownName)),
            decreases entries.len() - j,
        {
            let name = entries[j].0.clone();
            let mut seen = false;
            let mut k: usize = 0;
            while k < j
                invariant
                    k <= j,
                    j < entries.len(),
                    names@.len() == j,
                    name@ == entries@[j as int].0@,
                    forall|x: int| 0 <= x < j ==> (#[trigger] names@[x])@ == entries@[x].0@,
                    seen == exists|x: int| 0 <= x < k && (#[trigger] entries@[x]).0@ == name@,
                decreases j - k,
            {
                if names[k] == name {
                    seen = true;
                }
                k = k + 1;
            }
            names.push(name);
            if seen {
                results.push(Err(ModbusErrKind::Configuration(ConfigurationError::DuplicateName)));
            } else {
                results.push(Err(ModbusErrKind::Configuration(ConfigurationError::UnknownName)));
            }
            settled.push(seen);
            j = j + 1;
        }
        proof {
            assert forall|a: int, b: int|
                0 <= a < b < names@.len() && !settled@[a] && !settled@[b] implies (
            #[trigger] names@[a])@ != (#[trigger] names@[b])@ by {
                if names@[a]@ == names@[b]@ {
                    assert(entries@[a].0@ == entries@[b].0@);
                    assert(repeated(entries@, b));
                }
            }
        }
        let ghost results0 = results@;
        let ghost settled0 = settled@;
        let Ghost(coils) = write_space(
            &mut self.driver,
            true,
            &self.coils,
            &names,
            entries,
            &mut results,
            &mut settled,
        );
        let ghost results1 = results@;
        let ghost settled1 = settled@;
        let ghost between = self.driver.log();
        let Ghost(registers) = write_space(
            &mut self.driver,
            false,
            &self.holding_registers,
            &names,
            entries,
            &mut results,
            &mut settled,
        );
        proof {
            assert forall|k: int| 0 <= k < entries@.len() implies old(self).stored(
                entries@,
                k,
                #[trigger] results@[k],
                coils,
                registers,
            ) by {
                assert(names@[k]@ == entries@[k].0@);
                assert(write_carried_on(
                    self.coils@,
                    coils,
                    names@[k]@,
                    entries@[k].1,
                    (settled0[k], results0[k]),
                    (settled1[k], results1[k]),
                ));
                assert(write_carried_on(
                    self.holding_registers@,
                    registers,
                    names@[k]@,
                    entries@[k].1,
                    (settled1[k], results1[k]),
                    (settled@[k], results@[k]),
                ));
            }
            let spelled = Seq::new(entries@.len(), |j: int| entries@[j].0);
            let repeats = Seq::new(entries@.len(), |j: int| repeated(entries@, j));
            let taken = Seq::new(
                entries@.len(),
                |j: int| repeated(entries@, j) || has_name(self.coils@, entries@[j].0@),
            );
            assert(names@ =~= spelled);
            assert(settled0 =~= repeats);
            assert(settled1 =~= taken) by {
                assert forall|k: int| 0 <= k < entries@.len() implies settled1[k] == taken[k] by {
                    assert(write_carried_on(
                        self.coils@,
                        coils,
                        names@[k]@,
                        entries@[k].1,
                        (settled0[k], results0[k]),
                        (settled1[k], results1[k]),
                    ));
                }
            }
            assert(space_written(
                old(self).driver()@,
                true,
                self.coils@,
                spelled,
                entries@,
                repeats,
                old(self).driver().log(),
                between,
                coils,
            ));
        }
        let mut out: Vec<(String, Result<(), ModbusErrKind>)> = Vec::new();
        let mut j: usize = 0;
        while j < entries.len()
            invariant
                j <= entries.len(),
                out@.len() == j,
                results@.len() == entries@.len(),
                forall|k: int| 0 <= k < j ==> (#[trigger] out@[k]).0@ == entries@[k].0@,
                forall|k: int| 0 <= k < j ==> (#[trigger] out@[k]).1 == results@[k],
            decreases entries.len() - j,
        {
            out.push((entries[j].0.clone(), results[j]));
            j = j + 1;
        }
        assert(old(self).write_many_went(
            entries@,
            out@,
            self.driver.log(),
            coils,
            registers,
            between,
        ));
        out
    }
}

/// A name goes through the memory spaces in search order: the first space that holds it
/// settles it, and the later ones leave it as it is.
proof fn lemma_steps_of_poll<T: MBNetworks>(
    device: Device<T>,
    name: Seq<char>,
    rounds: Seq<Round>,
    steps: Seq<(bool, Result<PrepValue, ModbusErrKind>)>,
)
    requires
        rounds.len() == 4,
        steps.len() == 5,
        steps[0] == (
            false,
            Err::<PrepValue, ModbusErrKind>(
                ModbusErrKind::Configuration(ConfigurationError::UnknownName),
            ),
        ),
        carried_on(device.descriptors(Space::Coils), rounds[0], name, steps[0], steps[1]),
        carried_on(device.descriptors(Space::DiscreteInputs), rounds[1], name, steps[1], steps[2]),
        carried_on(device.descriptors(Space::InputRegisters), rounds[2], name, steps[2], steps[3]),
        carried_on(
            device.descriptors(Space::HoldingRegisters),
            rounds[3],
            name,
            steps[3],
            steps[4],
        ),
    ensures
        steps[1].0 == (device.home_among(1, name) is Some),
        steps[2].0 == (device.home_among(2, name) is Some),
        steps[3].0 == (device.home_among(3, name) is Some),
        device.polled(name, steps[4].1, rounds),
{
    reveal_with_fuel(Device::home_among, 5);
    assert(search_order()[0] == Space::Coils);
    assert(search_order()[1] == Space::DiscreteInputs);
    assert(search_order()[2] == Space::InputRegisters);
    assert(search_order()[3] == Space::HoldingRegisters);
}

/// Two devices that hold the same values in each memory space find a name in the same space.
proof fn lemma_same_home<T: MBNetworks>(a: Device<T>, b: Device<T>, n: int, name: Seq<char>)
    requires
        forall|space: Space| #[trigger] a.descriptors(space) == b.descriptors(space),
    ensures
        a.home_among(n, name) == b.home_among(n, name),
    decreases n,
{
    if n > 0 {
        lemma_same_home(a, b, n - 1, name);
    }
}

/// A poll goes by the names of the values, and not by the order in which they were
/// registered. Two devices that hold the same values in each memory space, behind the same
/// session and with the same gap, hold them in the same order; a poll of both finds each name
/// in the same space, and whatever one of them may report and ask of the transport, the
/// other may too.
pub proof fn lemma_poll_goes_by_name<T: MBNetworks>(a: Device<T>, b: Device<T>)
    requires
        a.well_formed(),
        b.well_formed(),
        forall|space: Space, x: ValueParam| #[trigger]
            a.descriptors(space).contains(x) <==> b.descriptors(space).contains(x),
        a.driver()@ == b.driver()@,
        a.driver().log() == b.driver().log(),
        a.max_gap() == b.max_gap(),
    ensures
        forall|space: Space| #[trigger] a.descriptors(space) == b.descriptors(space),
        forall|name: Seq<char>| #[trigger] a.home(name) == b.home(name),
        forall|
            names: Seq<String>,
            out: Seq<(String, Result<PrepValue, ModbusErrKind>)>,
            after: Seq<Io>,
            rounds: Seq<Round>,
            logs: Seq<Seq<Io>>,
        | #[trigger]
            a.poll_went(names, out, after, rounds, logs) == b.poll_went(
                names,
                out,
                after,
                rounds,
                logs,
            ),
        forall|
            names: Seq<String>,
            out: Seq<(String, Result<PrepValue, ModbusErrKind>)>,
            after: Seq<Io>,
        | #[trigger] a.poll_done(names, out, after) == b.poll_done(names, out, after),
{
    assert forall|space: Space| #[trigger] a.descriptors(space) == b.descriptors(space) by {
        let x = a.descriptors(space);
        let y = b.descriptors(space);
        assert forall|v: ValueParam| x.contains(v) <==> y.contains(v) by {
            assert(a.descriptors(space).contains(v) <==> b.descriptors(space).contains(v));
        }
        lemma_layout_is_unique(x, y, space.spec_holds_bits());
    }
    assert forall|name: Seq<char>| #[trigger] a.home(name) == b.home(name) by {
        lemma_same_home(a, b, 4, name);
    }
    assert forall|n: int, names: Seq<String>, before: Seq<Io>, after: Seq<Io>, round: Round|
        0 <= n < 4 implies #[trigger] a.polled_space(n, names, before, after, round)
        == b.polled_space(n, names, before, after, round) by {
        assert forall|j: int| 0 <= j < names.len() implies a.found_among(n, names)[j]
            == b.found_among(n, names)[j] by {
            lemma_same_home(a, b, n, names[j]@);
        }
        assert(a.found_among(n, names) =~= b.found_among(n, names));
    }
    assert forall|
        names: Seq<String>,
        out: Seq<(String, Result<PrepValue, ModbusErrKind>)>,
        after: Seq<Io>,
        rounds: Seq<Round>,
        logs: Seq<Seq<Io>>,
    | #[trigger]
        a.poll_went(names, out, after, rounds, logs) == b.poll_went(
            names,
            out,
            after,
            rounds,
            logs,
        ) by {
        assert forall|j: int| 0 <= j < names.len() implies a.polled(names[j]@, out[j].1, rounds)
            == b.polled(names[j]@, out[j].1, rounds) by {
            assert(a.home(names[j]@) == b.home(names[j]@));
        }
    }
    assert forall|
        names: Seq<String>,
        out: Seq<(String, Result<PrepValue, ModbusErrKind>)>,
        after: Seq<Io>,
    | #[trigger] a.poll_done(names, out, after) == b.poll_done(names, out, after) by {
        if a.poll_done(names, out, after) {
            let (rounds, logs) = choose|rounds: Seq<Round>, logs: Seq<Seq<Io>>|
                a.poll_went(names, out, after, rounds, logs);
            assert(b.poll_went(names, out, after, rounds, logs));
        }
        if b.poll_done(names, out, after) {
            let (rounds, logs) = choose|rounds: Seq<Round>, logs: Seq<Seq<Io>>|
                b.poll_went(names, out, after, rounds, logs);
            assert(a.poll_went(names, out, after, rounds, logs));
        }
    }
}

} // verus!
