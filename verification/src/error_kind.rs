//! The errors of the library.
use vstd::prelude::*;
use vstd::std_specs::convert::FromSpecImpl;

verus! {

/// The frame codec's own error value. It is carried through as it came; nothing in this
/// library looks inside it.
#[verifier::external_type_specification]
#[verifier::external_body]
pub struct ExErrorKind(rmodbus::ErrorKind);

/// What went wrong on the byte stream below the protocol.
#[derive(Clone, Copy, Debug, PartialEq, Eq, Structural)]
pub enum TransportError {
    /// The connection could not be made or broke while in use.
    Connection,
    /// A read or a write did not finish within the configured time.
    Timeout,
    /// The peer's address could not be resolved.
    AddressResolution,
    /// A read handed back another number of bytes than was asked for.
    ShortRead,
}

/// What went wrong while building a request frame or reading a response frame.
#[derive(Clone, Copy, Debug, PartialEq, Eq)]
pub enum CodecError {
    /// The codec refused the operands or the frame; this includes an exception that the
    /// slave reported, whose code the codec's error carries.
    Rejected(rmodbus::ErrorKind),
    /// The operands are outside what one call can carry: a read of no item or of more
    /// items than the protocol allows, or more values than the codec can pack.
    OperandRange,
    /// The response is shorter than its own header requires, or announces a length that no
    /// frame can have.
    Malformed,
}

/// A mistake in how the register map was set up or is being used.
#[derive(Clone, Copy, Debug, PartialEq, Eq, Structural)]
pub enum ConfigurationError {
    /// The name is already taken in that memory space.
    DuplicateName,
    /// The address range runs into that of another value of the same memory space.
    OverlappingRange,
    /// The value would reach beyond the last address of the memory space.
    AddressRange,
    /// No value of that name is registered where the operation looks for it.
    UnknownName,
}

/// Every way in which a call into this library can fail.
#[derive(Clone, Copy, Debug, PartialEq, Eq)]
pub enum ModbusErrKind {
    Transport(TransportError),
    Codec(CodecError),
    /// A value was asked for as the kind that it is not.
    TypeMismatch,
    Configuration(ConfigurationError),
}

/// A failure of the byte stream as a failure of the call.
impl From<TransportError> for ModbusErrKind {
    fn from(err: TransportError) -> (r: ModbusErrKind) {
        ModbusErrKind::Transport(err)
    }
}

impl FromSpecImpl<TransportError> for ModbusErrKind {
    open spec fn obeys_from_spec() -> bool {
        true
    }

    open spec fn from_spec(err: TransportError) -> ModbusErrKind {
        ModbusErrKind::Transport(err)
    }
}

/// A refusal by the codec as a failure of the call.
impl From<rmodbus::ErrorKind> for ModbusErrKind {
    fn from(err: rmodbus::ErrorKind) -> (r: ModbusErrKind) {
        ModbusErrKind::Codec(CodecError::Rejected(err))
    }
}

impl FromSpecImpl<rmodbus::ErrorKind> for ModbusErrKind {
    open spec fn obeys_from_spec() -> bool {
        true
    }

    open spec fn from_spec(err: rmodbus::ErrorKind) -> ModbusErrKind {
        ModbusErrKind::Codec(CodecError::Rejected(err))
    }
}

} // verus!
