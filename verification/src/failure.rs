//! Why an attempt to connect failed, and what follows from it.
use vstd::prelude::*;
use vstd::string::StringExecFns;

verus! {

/// What kind of trouble an I/O operation met.
#[derive(Clone, Copy, Debug, PartialEq, Eq, Structural)]
pub enum FailureKind {
    NotFound,
    PermissionDenied,
    ConnectionRefused,
    ConnectionReset,
    HostUnreachable,
    NetworkUnreachable,
    ConnectionAborted,
    NotConnected,
    AddrInUse,
    AddrNotAvailable,
    NetworkDown,
    BrokenPipe,
    AlreadyExists,
    WouldBlock,
    InvalidInput,
    InvalidData,
    TimedOut,
    WriteZero,
    Interrupted,
    Unsupported,
    UnexpectedEof,
    OutOfMemory,
    Other,
}

/// A failure and its words for the user.
#[derive(Debug, PartialEq, Eq)]
pub struct Failure {
    pub kind: FailureKind,
    pub message: String,
}

impl Failure {
    pub fn new(kind: FailureKind, message: String) -> (failure: Failure)
        ensures
            failure.kind == kind,
            failure.message@ == message@,
    {
        Failure { kind, message }
    }

    pub fn kind(&self) -> (kind: FailureKind)
        ensures
            kind == self.kind,
    {
        self.kind
    }
}

/// Why a message could not be read or written.
#[derive(Debug, PartialEq, Eq)]
pub enum FramingError {
    Io(Failure),
    /// The peer's bytes made no sense; this is what was wrong with them.
    Malformed(String),
}

/// Why a client could not be set up.
#[derive(Debug, PartialEq, Eq)]
pub enum ClientError {
    ConnectionFailed(Failure),
    ConnectionLost(Failure),
    HandshakeRejected { version: u32, error: String },
    Protocol(FramingError),
    ServerShutdown { reason: Option<String> },
}

/// Whether trying again is pointless until the user has acted. It is where the
/// other side refuses to talk to this version, and it is not where the peer was
/// too slow. Of any other failure the transport that met it has to say so, and
/// `told` is what it says.
pub open spec fn needs_attention(kind: FailureKind, told: bool) -> bool {
    match kind {
        FailureKind::Unsupported => true,
        FailureKind::TimedOut => false,
        _ => told,
    }
}

pub fn failure_needs_attention(error: &Failure, told: bool) -> (attention: bool)
    ensures
        attention == needs_attention(error.kind, told),
{
    match error.kind {
        FailureKind::Unsupported => true,
        FailureKind::TimedOut => false,
        _ => told,
    }
}

/// The words for a server that shut down without giving any.
pub open spec fn silent_shutdown() -> Seq<char> {
    "server shut down during handshake"@
}

/// What a failed handshake comes down to: the I/O failure it met, or, where the
/// other side spoke, what its words amount to.
pub open spec fn handshake_failure(error: ClientError) -> (FailureKind, Seq<char>) {
    match error {
        ClientError::ConnectionFailed(failure) => (failure.kind, failure.message@),
        ClientError::ConnectionLost(failure) => (failure.kind, failure.message@),
        ClientError::HandshakeRejected { version, error } => (FailureKind::Unsupported, error@),
        ClientError::Protocol(FramingError::Io(failure)) => (failure.kind, failure.message@),
        ClientError::Protocol(FramingError::Malformed(detail)) => (
            FailureKind::InvalidData,
            detail@,
        ),
        ClientError::ServerShutdown { reason } => (
            FailureKind::ConnectionAborted,
            match reason {
                Some(words) => words@,
                None => silent_shutdown(),
            },
        ),
    }
}

pub fn handshake_error(error: ClientError) -> (failure: Failure)
    ensures
        (failure.kind, failure.message@) == handshake_failure(error),
{
    match error {
        ClientError::ConnectionFailed(failure) => failure,
        ClientError::ConnectionLost(failure) => failure,
        ClientError::HandshakeRejected { version, error } => Failure {
            kind: FailureKind::Unsupported,
            message: error,
        },
        ClientError::Protocol(FramingError::Io(failure)) => failure,
        ClientError::Protocol(FramingError::Malformed(detail)) => Failure {
            kind: FailureKind::InvalidData,
            message: detail,
        },
        ClientError::ServerShutdown { reason } => Failure {
            kind: FailureKind::ConnectionAborted,
            message: match reason {
                Some(words) => words,
                None => "server shut down during handshake".to_owned(),
            },
        },
    }
}

/// What a failure to reach the local socket counts as.
pub open spec fn local_failure_kind(kind: FailureKind) -> FailureKind {
    if kind == FailureKind::NotFound {
        FailureKind::ConnectionRefused
    } else {
        kind
    }
}

/// A failure to reach the local socket. An absent socket is transient, unlike a
/// missing installation on another machine: its server may still be started.
pub fn local_connect_failure(error: Failure) -> (failure: Failure)
    ensures
        failure.kind == local_failure_kind(error.kind),
        failure.message@ == if error.kind == FailureKind::NotFound {
            "Local is unavailable; start its server to reconnect"@
        } else {
            error.message@
        },
{
    if error.kind == FailureKind::NotFound {
        Failure {
            kind: FailureKind::ConnectionRefused,
            message: "Local is unavailable; start its server to reconnect".to_owned(),
        }
    } else {
        error
    }
}

/// A failure to reach a saved machine. Where the user has to act, the words say
/// how: by running `bootstrap_command`.
pub fn ssh_connect_failure(error: Failure, told: bool, bootstrap_command: &str) -> (failure:
    Failure)
    ensures
        failure.kind == error.kind,
        failure.message@ == if needs_attention(error.kind, told) {
            error.message@ + ". Run `"@ + bootstrap_command@
                + "` interactively to approve setup, then restart this client"@
        } else {
            error.message@
        },
{
    if failure_needs_attention(&error, told) {
        let mut message = error.message;
        message.append(". Run `");
        message.append(bootstrap_command);
        message.append("` interactively to approve setup, then restart this client");
        Failure { kind: error.kind, message }
    } else {
        error
    }
}

/// Lacking its socket, the local endpoint is judged as one that refuses
/// connections: it is retried if the transport does not ask for the user on
/// those. Any other failure to reach it counts as what it is.
pub proof fn law_local_absence_is_retried(kind: FailureKind, told: bool)
    ensures
        local_failure_kind(FailureKind::NotFound) == FailureKind::ConnectionRefused,
        !told ==> !needs_attention(local_failure_kind(FailureKind::NotFound), told),
        kind != FailureKind::NotFound ==> needs_attention(local_failure_kind(kind), told)
            == needs_attention(kind, told),
{
}

/// A peer that rejects the handshake needs the user, whatever the transport
/// says; one that was merely lost on the way is judged by the I/O failure alone,
/// and one that was too slow is tried again.
pub proof fn law_rejection_needs_attention(
    version: u32,
    error: String,
    failure: Failure,
    told: bool,
)
    ensures
        needs_attention(
            handshake_failure(ClientError::HandshakeRejected { version, error }).0,
            told,
        ),
        needs_attention(handshake_failure(ClientError::ConnectionLost(failure)).0, told)
            == needs_attention(failure.kind, told),
        needs_attention(handshake_failure(ClientError::ConnectionFailed(failure)).0, told)
            == needs_attention(failure.kind, told),
        failure.kind == FailureKind::TimedOut ==> !needs_attention(
            handshake_failure(ClientError::ConnectionLost(failure)).0,
            told,
        ),
{
}

} // verus!
