//! The rules of the socket that clients attach to: what may be replaced, what is
//! cleaned up, and what a receiver hears.
use vstd::prelude::*;
use vstd::string::*;
use crate::messages::HarnessOutputMessage;

verus! {

/// What went wrong with a socket.
#[derive(Debug, PartialEq, Eq)]
pub enum SocketTransportError {
    /// The directory of the socket could not be made.
    CreateParentDirectory { path: String, source: String },
    /// Something that is no socket is in the way.
    RefuseNonSocketPath { path: String },
    /// A socket that answers is in the way.
    ActiveSocketExists { path: String },
    /// A socket that no longer answers could not be removed.
    RemoveStaleSocket { path: String, source: String },
    /// The socket could not be bound.
    Bind { path: String, source: String },
    /// The bound socket could not be looked at.
    BoundSocketMetadata { path: String, source: String },
    /// A client could not be accepted.
    Accept { source: String },
    /// The socket could not be connected to.
    Connect { path: String, source: String },
    /// The stream could not be shared between reader and writer.
    Clone { source: String },
    /// A message could not be written down.
    Encode { source: String },
    /// A message could not be sent.
    Flush { source: String },
    /// A message could not be read.
    Decode { source: String },
}

/// What is said of an error.
pub open spec fn socket_error_text(e: SocketTransportError) -> Seq<char> {
    match e {
        SocketTransportError::CreateParentDirectory { path, source } => "failed to create socket parent directory "@
            + path@ + ": "@ + source@,
        SocketTransportError::RefuseNonSocketPath { path } => "refusing to replace non-socket path "@ + path@,
        SocketTransportError::ActiveSocketExists { path } => "refusing to replace active Unix socket "@ + path@,
        SocketTransportError::RemoveStaleSocket { path, source } => "failed to remove stale socket "@ + path@ + ": "@
            + source@,
        SocketTransportError::Bind { path, source } => "failed to bind Unix socket "@ + path@ + ": "@ + source@,
        SocketTransportError::BoundSocketMetadata { path, source } => "failed to inspect bound Unix socket "@ + path@
            + ": "@ + source@,
        SocketTransportError::Accept { source } => "failed to accept Unix socket client: "@ + source@,
        SocketTransportError::Connect { path, source } => "failed to connect to Unix socket "@ + path@ + ": "@
            + source@,
        SocketTransportError::Clone { source } => "failed to clone Unix socket stream: "@ + source@,
        SocketTransportError::Encode { source } => "failed to encode socket event: "@ + source@,
        SocketTransportError::Flush { source } => "failed to flush socket stream: "@ + source@,
        SocketTransportError::Decode { source } => "failed to decode socket event: "@ + source@,
    }
}

/// What lies behind an error, where something does.
pub open spec fn source_of(e: SocketTransportError) -> Option<Seq<char>> {
    match e {
        SocketTransportError::RefuseNonSocketPath { path: _ } => None,
        SocketTransportError::ActiveSocketExists { path: _ } => None,
        SocketTransportError::CreateParentDirectory { path: _, source } => Some(source@),
        SocketTransportError::RemoveStaleSocket { path: _, source } => Some(source@),
        SocketTransportError::Bind { path: _, source } => Some(source@),
        SocketTransportError::BoundSocketMetadata { path: _, source } => Some(source@),
        SocketTransportError::Accept { source } => Some(source@),
        SocketTransportError::Connect { path: _, source } => Some(source@),
        SocketTransportError::Clone { source } => Some(source@),
        SocketTransportError::Encode { source } => Some(source@),
        SocketTransportError::Flush { source } => Some(source@),
        SocketTransportError::Decode { source } => Some(source@),
    }
}

fn about_path(before: &str, path: &str) -> (r: String)
    ensures
        r@ == before@ + path@,
{
    let mut r = before.to_owned();
    r.append(path);
    r
}

fn about_path_and_source(before: &str, path: &str, source: &str) -> (r: String)
    ensures
        r@ == before@ + path@ + ": "@ + source@,
{
    let mut r = before.to_owned();
    r.append(path);
    r.append(": ");
    r.append(source);
    r
}

impl SocketTransportError {
    /// What is said of the error.
    pub fn text(&self) -> (r: String)
        ensures
            r@ == socket_error_text(*self),
    {
        match self {
            SocketTransportError::CreateParentDirectory { path, source } => about_path_and_source(
                "failed to create socket parent directory ",
                path.as_str(),
                source.as_str(),
            ),
            SocketTransportError::RefuseNonSocketPath { path } => about_path(
                "refusing to replace non-socket path ",
                path.as_str(),
            ),
            SocketTransportError::ActiveSocketExists { path } => about_path(
                "refusing to replace active Unix socket ",
                path.as_str(),
            ),
            SocketTransportError::RemoveStaleSocket { path, source } => about_path_and_source(
                "failed to remove stale socket ",
                path.as_str(),
                source.as_str(),
            ),
            SocketTransportError::Bind { path, source } => about_path_and_source(
                "failed to bind Unix socket ",
                path.as_str(),
                source.as_str(),
            ),
            SocketTransportError::BoundSocketMetadata { path, source } => about_path_and_source(
                "failed to inspect bound Unix socket ",
                path.as_str(),
                source.as_str(),
            ),
            SocketTransportError::Accept { source } => about_path(
                "failed to accept Unix socket client: ",
                source.as_str(),
            ),
            SocketTransportError::Connect { path, source } => about_path_and_source(
                "failed to connect to Unix socket ",
                path.as_str(),
                source.as_str(),
            ),
            SocketTransportError::Clone { source } => about_path(
                "failed to clone Unix socket stream: ",
                source.as_str(),
            ),
            SocketTransportError::Encode { source } => about_path("failed to encode socket event: ", source.as_str()),
            SocketTransportError::Flush { source } => about_path("failed to flush socket stream: ", source.as_str()),
            SocketTransportError::Decode { source } => about_path("failed to decode socket event: ", source.as_str()),
        }
    }

    /// What lies behind the error, where something does.
    pub fn source(&self) -> (r: Option<&str>)
        ensures
            match r {
                Some(s) => source_of(*self) == Some(s@),
                None => source_of(*self) is None,
            },
    {
        match self {
            SocketTransportError::RefuseNonSocketPath { path: _ } => None,
            SocketTransportError::ActiveSocketExists { path: _ } => None,
            SocketTransportError::CreateParentDirectory { path: _, source } => Some(source.as_str()),
            SocketTransportError::RemoveStaleSocket { path: _, source } => Some(source.as_str()),
            SocketTransportError::Bind { path: _, source } => Some(source.as_str()),
            SocketTransportError::BoundSocketMetadata { path: _, source } => Some(source.as_str()),
            SocketTransportError::Accept { source } => Some(source.as_str()),
            SocketTransportError::Connect { path: _, source } => Some(source.as_str()),
            SocketTransportError::Clone { source } => Some(source.as_str()),
            SocketTransportError::Encode { source } => Some(source.as_str()),
            SocketTransportError::Flush { source } => Some(source.as_str()),
            SocketTransportError::Decode { source } => Some(source.as_str()),
        }
    }
}

/// Which file a socket is.
#[derive(Clone, Copy, Debug, PartialEq, Eq, Structural)]
pub struct SocketIdentity {
    /// The device that it lies on.
    pub dev: u64,
    /// Its number there.
    pub ino: u64,
}

/// What was found at a path.
#[derive(Clone, Copy, Debug, PartialEq, Eq, Structural)]
pub enum FoundAtPath {
    Nothing,
    NoSocket,
    Socket(SocketIdentity),
}

/// What is to be done before a socket is bound.
#[derive(Clone, Copy, Debug, PartialEq, Eq, Structural)]
pub enum BindPlan {
    /// Bind it.
    Bind,
    /// Remove the socket that no longer answers, and bind.
    RemoveAndBind,
}

/// Decides what is to be done before a socket is bound at a path. `answers` says
/// whether a socket there took a connection.
pub fn plan_bind(path: &str, found: FoundAtPath, answers: bool) -> (r: Result<BindPlan, SocketTransportError>)
    ensures
        match found {
            FoundAtPath::Nothing => r == Ok::<BindPlan, SocketTransportError>(BindPlan::Bind),
            FoundAtPath::NoSocket => r matches Err(SocketTransportError::RefuseNonSocketPath { path: p }) && p@ == path@,
            FoundAtPath::Socket(_) => if answers {
                r matches Err(SocketTransportError::ActiveSocketExists { path: p }) && p@ == path@
            } else {
                r == Ok::<BindPlan, SocketTransportError>(BindPlan::RemoveAndBind)
            },
        },
{
    match found {
        FoundAtPath::Nothing => Ok(BindPlan::Bind),
        FoundAtPath::NoSocket => Err(SocketTransportError::RefuseNonSocketPath { path: path.to_owned() }),
        FoundAtPath::Socket(_) => {
            if answers {
                Err(SocketTransportError::ActiveSocketExists { path: path.to_owned() })
            } else {
                Ok(BindPlan::RemoveAndBind)
            }
        },
    }
}

/// Whether a listener that ends removes what lies at its path: only the socket
/// that it made.
pub fn removes_on_drop(found: FoundAtPath, own: SocketIdentity) -> (r: bool)
    ensures
        r == (found == FoundAtPath::Socket(own)),
{
    match found {
        FoundAtPath::Socket(identity) => identity.dev == own.dev && identity.ino == own.ino,
        _ => false,
    }
}

/// What a receiver hears.
pub enum SocketReceive {
    Message { message: HarnessOutputMessage },
    /// Nothing in the time it waited.
    Timeout,
    /// The other side closed between two messages.
    Closed,
}

/// What came of waiting for a message.
pub enum Awaited {
    /// A message was read.
    Read(HarnessOutputMessage),
    /// What arrived could not be read.
    Unreadable(String),
    /// Nothing arrived.
    TimedOut,
    /// The reader has ended.
    ReaderGone,
}

/// Tells a receiver what came of waiting.
pub fn receive(awaited: Awaited) -> (r: Result<SocketReceive, SocketTransportError>)
    ensures
        r == match awaited {
            Awaited::Read(message) => Ok::<SocketReceive, SocketTransportError>(SocketReceive::Message { message }),
            Awaited::Unreadable(source) => Err(SocketTransportError::Decode { source }),
            Awaited::TimedOut => Ok(SocketReceive::Timeout),
            Awaited::ReaderGone => Ok(SocketReceive::Closed),
        },
{
    match awaited {
        Awaited::Read(message) => Ok(SocketReceive::Message { message }),
        Awaited::Unreadable(source) => Err(SocketTransportError::Decode { source }),
        Awaited::TimedOut => Ok(SocketReceive::Timeout),
        Awaited::ReaderGone => Ok(SocketReceive::Closed),
    }
}

/// What a reader does after an attempt to read a message.
#[derive(Clone, Copy, Debug, PartialEq, Eq, Structural)]
pub enum ReaderStep {
    /// Hand over what was read, and read on.
    PassOn,
    /// Hand over the error, and end.
    PassOnAndEnd,
    /// End.
    End,
}

/// Decides what a reader does: it reads on until the other side closes, a message
/// cannot be read, or nobody takes what it hands over.
pub fn reader_step(read: bool, failed: bool, taken: bool) -> (r: ReaderStep)
    ensures
        r == if failed {
            ReaderStep::PassOnAndEnd
        } else if read && taken {
            ReaderStep::PassOn
        } else {
            ReaderStep::End
        },
{
    if failed {
        ReaderStep::PassOnAndEnd
    } else if read && taken {
        ReaderStep::PassOn
    } else {
        ReaderStep::End
    }
}

} // verus!
