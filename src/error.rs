//! The single error type of stream operations.
use vstd::prelude::*;
use crate::status::Status;

verus! {

/// Relies on `std::io::Error` only as an opaque value: a transport failure is
/// carried along, never inspected.
#[verifier::external_type_specification]
#[verifier::external_body]
pub struct ExIoError(std::io::Error);

/// Failure of a stream operation: a transport I/O failure, or a protocol
/// failure that carries the status to report.
#[derive(Debug)]
pub enum NetError {
    /// Local transport failure; its detail never crosses the wire.
    StdIo(std::io::Error),
    /// Protocol failure with the status that describes it.
    Status(Status),
}

/// The status that reports an error to the peer: a transport failure becomes
/// `InternalServerError`, a protocol failure keeps its own status.
pub open spec fn wire_status(e: NetError) -> Status {
    match e {
        NetError::StdIo(_) => Status::InternalServerError,
        NetError::Status(s) => s,
    }
}

impl From<std::io::Error> for NetError {
    fn from(e: std::io::Error) -> (r: NetError) {
        NetError::StdIo(e)
    }
}

impl vstd::std_specs::convert::FromSpecImpl<std::io::Error> for NetError {
    open spec fn obeys_from_spec() -> bool {
        true
    }

    open spec fn from_spec(e: std::io::Error) -> NetError {
        NetError::StdIo(e)
    }
}

impl NetError {
    /// The status that reports this error to the peer.
    pub fn wire_status(&self) -> (r: Status)
        ensures
            r == wire_status(*self),
    {
        match self {
            NetError::StdIo(_) => Status::InternalServerError,
            NetError::Status(s) => *s,
        }
    }
}

} // verus!
