//! The line to the slave: the transport together with a record of every call that was made
//! to it and of what the call gave back. Nothing else in the library can reach the
//! transport, so the record is complete.
use vstd::prelude::*;
use crate::driver::MBNetworks;
use crate::error_kind::TransportError;

verus! {

/// One call to the transport, with what it gave back.
pub enum Io {
    /// These bytes were handed over to be sent.
    Sent(Seq<u8>, Result<(), TransportError>),
    /// This many bytes were asked for.
    Asked(nat, Result<Seq<u8>, TransportError>),
}

/// What a read gave back, as a sequence.
pub open spec fn bytes_of<E>(r: Result<Vec<u8>, E>) -> Result<Seq<u8>, E> {
    match r {
        Ok(bytes) => Ok(bytes@),
        Err(e) => Err(e),
    }
}

/// A transport and the record of the calls made to it.
pub struct Line<T: MBNetworks> {
    transport: T,
    log: Ghost<Seq<Io>>,
}

impl<T: MBNetworks> Line<T> {
    /// The transport as the line holds it.
    pub closed spec fn transport(&self) -> T {
        self.transport
    }

    /// The calls made so far, the earliest first.
    pub closed spec fn log(&self) -> Seq<Io> {
        self.log@
    }

    /// A line on which nothing has happened yet.
    pub fn new(transport: T) -> (line: Self)
        ensures
            line.transport() == transport,
            line.log() == Seq::<Io>::empty(),
    {
        Line { transport, log: Ghost(Seq::empty()) }
    }

    /// Gives the transport back.
    pub fn into_transport(self) -> (transport: T)
        ensures
            transport == self.transport(),
    {
        self.transport
    }

    /// Hands the bytes to the transport to be sent, and records the call with its result.
    pub fn write_all(&mut self, bytes: &[u8]) -> (r: Result<(), TransportError>)
        ensures
            final(self).log() == old(self).log().push(Io::Sent(bytes@, r)),
    {
        let r = self.transport.write_all(bytes);
        self.log = Ghost(self.log@.push(Io::Sent(bytes@, r)));
        r
    }

    /// Asks the transport for `n` bytes, and records the call with its result.
    pub fn read_exact(&mut self, n: usize) -> (r: Result<Vec<u8>, TransportError>)
        ensures
            final(self).log() == old(self).log().push(Io::Asked(n as nat, bytes_of(r))),
    {
        let r = self.transport.read_exact(n);
        self.log = Ghost(self.log@.push(Io::Asked(n as nat, bytes_of(r))));
        r
    }
}

} // verus!
