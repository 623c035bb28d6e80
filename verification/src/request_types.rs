//! What the eight operations take: a range to read, or a value or values to write.
use vstd::prelude::*;
use crate::error_kind::ModbusErrKind;

verus! {

/// What a read asks for: `count` items from address `start` on. `buffer` is scratch space
/// that receives the request frame.
#[derive(Clone)]
pub struct ReadRequest {
    pub start: u16,
    pub count: u16,
    pub buffer: Vec<u8>,
}

/// A value as a write carries it: one bit for a coil, sixteen bits for a register.
#[derive(Clone, Copy, Debug, PartialEq, Eq, Structural)]
pub enum MRequestValues {
    Coil(bool),
    Register(u16),
}

impl MRequestValues {
    /// The bit, if the value is one.
    pub fn get_bool(self) -> (r: Result<bool, ModbusErrKind>)
        ensures
            self matches MRequestValues::Coil(v) ==> r == Ok::<bool, ModbusErrKind>(v),
            self is Register ==> r == Err::<bool, ModbusErrKind>(ModbusErrKind::TypeMismatch),
    {
        match self {
            MRequestValues::Coil(v) => Ok(v),
            _ => Err(ModbusErrKind::TypeMismatch),
        }
    }

    /// The register content, if the value is one.
    pub fn get_register(self) -> (r: Result<u16, ModbusErrKind>)
        ensures
            self matches MRequestValues::Register(v) ==> r == Ok::<u16, ModbusErrKind>(v),
            self is Coil ==> r == Err::<u16, ModbusErrKind>(ModbusErrKind::TypeMismatch),
    {
        match self {
            MRequestValues::Register(v) => Ok(v),
            _ => Err(ModbusErrKind::TypeMismatch),
        }
    }
}

/// What a single write asks for: `value` at address `start`.
#[derive(Clone)]
pub struct WriteRequest {
    pub start: u16,
    pub value: MRequestValues,
    pub buffer: Vec<u8>,
}

/// What a bulk write asks for: `values` at the addresses from `start` on.
pub struct MultipleWriteRequest {
    pub start: u16,
    pub values: Vec<MRequestValues>,
    pub buffer: Vec<u8>,
}

/// Every value of the sequence is a bit.
pub open spec fn all_coils(values: Seq<MRequestValues>) -> bool {
    forall|i: int| 0 <= i < values.len() ==> values[i] is Coil
}

/// Every value of the sequence is a register content.
pub open spec fn all_registers(values: Seq<MRequestValues>) -> bool {
    forall|i: int| 0 <= i < values.len() ==> values[i] is Register
}

/// The bits that a sequence of coil values holds.
pub open spec fn coil_bits(values: Seq<MRequestValues>) -> Seq<bool> {
    Seq::new(values.len(), |i: int| values[i]->Coil_0)
}

/// The register contents that a sequence of register values holds.
pub open spec fn register_words(values: Seq<MRequestValues>) -> Seq<u16> {
    Seq::new(values.len(), |i: int| values[i]->Register_0)
}

/// Narrows a whole sequence to bits. One value of the other kind fails the sequence.
pub fn get_bools(values: &Vec<MRequestValues>) -> (r: Result<Vec<bool>, ModbusErrKind>)
    ensures
        all_coils(values@) ==> (r matches Ok(bits) && bits@ == coil_bits(values@)),
        !all_coils(values@) ==> r == Err::<Vec<bool>, ModbusErrKind>(ModbusErrKind::TypeMismatch),
{
    let mut bits: Vec<bool> = Vec::new();
    let mut i: usize = 0;
    while i < values.len()
        invariant
            i <= values.len(),
            bits@.len() == i,
            forall|k: int| 0 <= k < i ==> #[trigger] values@[k] is Coil,
            forall|k: int| 0 <= k < i ==> #[trigger] bits@[k] == values@[k]->Coil_0,
        decreases values.len() - i,
    {
        match values[i].get_bool() {
            Ok(bit) => bits.push(bit),
            Err(e) => {
                return Err(e);
            },
        }
        i = i + 1;
    }
    assert(bits@ =~= coil_bits(values@));
    Ok(bits)
}

/// Narrows a whole sequence to register contents. One value of the other kind fails the
/// sequence.
pub fn get_registers(values: &Vec<MRequestValues>) -> (r: Result<Vec<u16>, ModbusErrKind>)
    ensures
        all_registers(values@) ==> (r matches Ok(words) && words@ == register_words(values@)),
        !all_registers(values@) ==> r == Err::<Vec<u16>, ModbusErrKind>(
            ModbusErrKind::TypeMismatch,
        ),
{
    let mut words: Vec<u16> = Vec::new();
    let mut i: usize = 0;
    while i < values.len()
        invariant
            i <= values.len(),
            words@.len() == i,
            forall|k: int| 0 <= k < i ==> #[trigger] values@[k] is Register,
            forall|k: int| 0 <= k < i ==> #[trigger] words@[k] == values@[k]->Register_0,
        decreases values.len() - i,
    {
        match values[i].get_register() {
            Ok(word) => words.push(word),
            Err(e) => {
                return Err(e);
            },
        }
        i = i + 1;
    }
    assert(words@ =~= register_words(values@));
    Ok(words)
}

} // verus!
