//! Protocol outcome codes carried by Tail frames.
use vstd::prelude::*;

verus! {

/// The closed set of protocol outcomes, plus an escape hatch for
/// application-defined codes.
///
/// The numeric code of a status (see [`Status::as_u16`]) follows declaration
/// order: it is the one and only encoding used on the wire and in comparisons.
#[derive(Debug, Clone, Copy, PartialEq, Eq, Structural, Hash)]
pub enum Status {
    Success,
    ProtocolFailure,
    HandshakeViolation,
    MalformedFrame,
    ServiceNotFound,
    MethodNotFound,
    InvalidDataFrame,
    InternalServerError,
    Custom(u16),
}

/// The canonical numeric code of a status.
pub open spec fn status_code(s: Status) -> u16 {
    match s {
        Status::Success => 0,
        Status::ProtocolFailure => 1,
        Status::HandshakeViolation => 2,
        Status::MalformedFrame => 3,
        Status::ServiceNotFound => 4,
        Status::MethodNotFound => 5,
        Status::InvalidDataFrame => 6,
        Status::InternalServerError => 7,
        Status::Custom(code) => code,
    }
}

/// Number of codes reserved for the named statuses.
pub const NAMED_STATUS_COUNT: u16 = 8;

/// A status is canonical when decoding its code gives it back: every named
/// status, and every custom code outside the reserved range.
pub open spec fn is_canonical(s: Status) -> bool {
    match s {
        Status::Custom(code) => code >= NAMED_STATUS_COUNT,
        _ => true,
    }
}

/// The status that a received code stands for.
pub open spec fn status_of_code(code: u16) -> Status {
    if code == 0 {
        Status::Success
    } else if code == 1 {
        Status::ProtocolFailure
    } else if code == 2 {
        Status::HandshakeViolation
    } else if code == 3 {
        Status::MalformedFrame
    } else if code == 4 {
        Status::ServiceNotFound
    } else if code == 5 {
        Status::MethodNotFound
    } else if code == 6 {
        Status::InvalidDataFrame
    } else if code == 7 {
        Status::InternalServerError
    } else {
        Status::Custom(code)
    }
}

impl Status {
    /// The canonical numeric code of this status.
    pub fn as_u16(&self) -> (r: u16)
        ensures
            r == status_code(*self),
    {
        match self {
            Status::Success => 0,
            Status::ProtocolFailure => 1,
            Status::HandshakeViolation => 2,
            Status::MalformedFrame => 3,
            Status::ServiceNotFound => 4,
            Status::MethodNotFound => 5,
            Status::InvalidDataFrame => 6,
            Status::InternalServerError => 7,
            Status::Custom(code) => *code,
        }
    }

    /// The status that a received code stands for: a reserved code gives its
    /// named status, any other code a custom one.
    pub fn from_u16(code: u16) -> (r: Status)
        ensures
            r == status_of_code(code),
            is_canonical(r),
            status_code(r) == code,
    {
        match code {
            0 => Status::Success,
            1 => Status::ProtocolFailure,
            2 => Status::HandshakeViolation,
            3 => Status::MalformedFrame,
            4 => Status::ServiceNotFound,
            5 => Status::MethodNotFound,
            6 => Status::InvalidDataFrame,
            7 => Status::InternalServerError,
            _ => Status::Custom(code),
        }
    }
}

impl From<Status> for u16 {
    fn from(status: Status) -> (r: u16) {
        status.as_u16()
    }
}

impl vstd::std_specs::convert::FromSpecImpl<Status> for u16 {
    open spec fn obeys_from_spec() -> bool {
        true
    }

    open spec fn from_spec(status: Status) -> u16 {
        status_code(status)
    }
}

/// Decoding the code of a canonical status gives the status back; custom codes
/// inside the reserved range are the only statuses that do not survive.
pub proof fn lemma_status_code_round_trip(s: Status)
    requires
        is_canonical(s),
    ensures
        status_of_code(status_code(s)) == s,
{
}

/// Two canonical statuses with the same code are the same status: the code is
/// a faithful encoding.
pub proof fn lemma_status_code_injective(a: Status, b: Status)
    requires
        is_canonical(a),
        is_canonical(b),
        status_code(a) == status_code(b),
    ensures
        a == b,
{
    lemma_status_code_round_trip(a);
    lemma_status_code_round_trip(b);
}

} // verus!
