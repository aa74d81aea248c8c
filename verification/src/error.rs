use vstd::prelude::*;

verus! {

/// Machine-readable error categories; each has a fixed process exit code.
#[derive(Debug, Clone, Copy, PartialEq, Eq, Structural)]
pub enum Kind {
    InvalidInput,
    Unavailable,
    Permission,
    Authentication,
    RateLimit,
    Unsupported,
    ProtocolChanged,
    Network,
    IdentityMismatch,
    Storage,
    ConsentRequired,
}

/// Only static, reviewed messages may enter errors; never upstream bodies or headers.
#[derive(Debug, Clone)]
pub struct Error {
    pub kind: Kind,
    pub message: &'static str,
    pub retry_after_seconds: Option<u64>,
}

/// The exit code documented for each error category.
pub open spec fn exit_code_of(kind: Kind) -> u8 {
    match kind {
        Kind::InvalidInput => 2,
        Kind::Unavailable => 3,
        Kind::Permission => 4,
        Kind::Authentication | Kind::ConsentRequired => 5,
        Kind::RateLimit => 6,
        Kind::Unsupported => 7,
        Kind::ProtocolChanged => 8,
        Kind::Network => 9,
        Kind::IdentityMismatch => 10,
        Kind::Storage => 11,
    }
}

impl Error {
    pub fn new(kind: Kind, message: &'static str) -> (e: Self)
        ensures
            e.kind == kind,
            e.message@ == message@,
            e.retry_after_seconds is None,
    {
        Error { kind, message, retry_after_seconds: None }
    }

    pub fn exit_code(&self) -> (code: u8)
        ensures
            code == exit_code_of(self.kind),
    {
        match self.kind {
            Kind::InvalidInput => 2,
            Kind::Unavailable => 3,
            Kind::Permission => 4,
            Kind::Authentication | Kind::ConsentRequired => 5,
            Kind::RateLimit => 6,
            Kind::Unsupported => 7,
            Kind::ProtocolChanged => 8,
            Kind::Network => 9,
            Kind::IdentityMismatch => 10,
            Kind::Storage => 11,
        }
    }
}

/// The error for an upstream response outside the supported protocol.
pub open spec fn protocol_error() -> Error {
    Error {
        kind: Kind::ProtocolChanged,
        message: "Upstream response does not match the supported protocol",
        retry_after_seconds: None,
    }
}

pub fn protocol() -> (e: Error)
    ensures
        e == protocol_error(),
{
    Error {
        kind: Kind::ProtocolChanged,
        message: "Upstream response does not match the supported protocol",
        retry_after_seconds: None,
    }
}

/// The error for local state that cannot be read or written safely.
pub open spec fn storage_error() -> Error {
    Error {
        kind: Kind::Storage,
        message: "Cannot safely read or write local state",
        retry_after_seconds: None,
    }
}

pub fn storage() -> (e: Error)
    ensures
        e == storage_error(),
{
    Error {
        kind: Kind::Storage,
        message: "Cannot safely read or write local state",
        retry_after_seconds: None,
    }
}

} // verus!
