use vstd::prelude::*;

verus! {

/// The error type of the `redis` crate. Nothing of what it holds is visible
/// here; [`classify`] reads its kind.
#[verifier::external_type_specification]
#[verifier::external_body]
pub struct ExRedisError(redis::RedisError);

/// Why a query against the server, or an attempt to reach it, came to nothing.
#[derive(Debug, Clone, Copy, PartialEq, Eq, Structural)]
pub enum ConnectionFailure {
    /// The connection broke or timed out. A fresh connection may work.
    Transient,
    /// The server refused the credentials.
    AuthFailed,
    /// The server answered with an error this client has no reading for,
    /// such as a command it does not support.
    UnsupportedOperation,
    /// The reply did not have the shape that was asked for.
    ProtocolParse,
    /// Anything else.
    Other,
}

/// What the caller at the edge of the program does about a failure that was
/// handed up to it.
#[derive(Debug, Clone, Copy, PartialEq, Eq, Structural)]
pub enum Disposition {
    /// Note it and go on: the next cycle tries again.
    Continue,
    /// End the process with this status.
    Exit(i32),
    /// The failure is one that should not occur where the program is set up
    /// correctly. It is made known loudly, and nothing is tried again.
    Defect,
}

/// What a reader's owner does about a poll that failed.
#[derive(Debug, Clone, Copy, PartialEq, Eq, Structural)]
pub enum Recovery {
    /// Get a fresh connection with the same parameters and put it in the
    /// place of the old one.
    Reconnect,
    /// Hand the failure up to the edge of the program: a new connection
    /// would not mend it.
    Surface(ConnectionFailure),
}

/// The status with which the process ends after a fatal failure.
pub const FATAL_STATUS: i32 = 1;

impl ConnectionFailure {
    /// A fatal failure is one that no retry mends: the server refused the
    /// credentials, or does not support what was asked of it.
    pub open spec fn is_fatal(self) -> bool {
        self is AuthFailed || self is UnsupportedOperation
    }

    /// What is done about this failure at the edge of the program: a transient
    /// one is lived with, a fatal one ends the process with [`FATAL_STATUS`],
    /// and any other is a defect.
    pub open spec fn fate(self) -> Disposition {
        if self is Transient {
            Disposition::Continue
        } else if self.is_fatal() {
            Disposition::Exit(FATAL_STATUS)
        } else {
            Disposition::Defect
        }
    }

    /// What is done about a poll that failed in this way: a transient failure
    /// asks for a new connection, every other one is handed up.
    pub open spec fn remedy(self) -> Recovery {
        if self is Transient {
            Recovery::Reconnect
        } else {
            Recovery::Surface(self)
        }
    }

    /// Decides what is done about this failure at the edge of the program.
    pub fn disposition(self) -> (disposition: Disposition)
        ensures
            disposition == self.fate(),
    {
        match self {
            ConnectionFailure::Transient => Disposition::Continue,
            ConnectionFailure::AuthFailed | ConnectionFailure::UnsupportedOperation => {
                Disposition::Exit(FATAL_STATUS)
            },
            ConnectionFailure::ProtocolParse | ConnectionFailure::Other => Disposition::Defect,
        }
    }
}

/// The failure that an error of the `redis` crate stands for: what
/// [`classify`] returns for it.
pub uninterp spec fn failure_of(e: redis::RedisError) -> ConnectionFailure;

/// Calls `redis::RedisError::kind` and names the kind in this crate's terms:
/// `IoError` is transient, `AuthenticationFailed` is a failed authentication,
/// `ExtensionError` an unsupported operation, `TypeError` a reply of the wrong
/// shape, and every other kind is `Other`. The kind depends on the error
/// alone, which is all that the contract claims.
#[verifier::external_body]
pub(crate) fn classify(e: &redis::RedisError) -> (failure: ConnectionFailure)
    ensures
        failure == failure_of(*e),
{
    match e.kind() {
        redis::ErrorKind::IoError => ConnectionFailure::Transient,
        redis::ErrorKind::AuthenticationFailed => ConnectionFailure::AuthFailed,
        redis::ErrorKind::ExtensionError => ConnectionFailure::UnsupportedOperation,
        redis::ErrorKind::TypeError => ConnectionFailure::ProtocolParse,
        _ => ConnectionFailure::Other,
    }
}

/// Decides what is done about an error that came up while a connection was
/// being made: it is read as a [`ConnectionFailure`] and met as
/// [`ConnectionFailure::disposition`] says.
pub fn error_handler(e: &redis::RedisError) -> (disposition: Disposition)
    ensures
        disposition == failure_of(*e).fate(),
{
    classify(e).disposition()
}

} // verus!
