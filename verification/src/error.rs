//! What can go wrong in the harness.
use vstd::prelude::*;
use vstd::string::*;

verus! {

/// Errors of the harness. An error from below carries its text.
#[derive(Debug, PartialEq, Eq)]
pub enum HarnessError {
    Io(String),
    ProtocolDecode(String),
    ProtocolEncode(String),
    SessionStore(String),
    SocketTransport(String),
    Route(String),
    ToolRoute(String),
    StartupTimeout,
    ResponseTimeout,
    ThreadJoin(String),
    Participant(String),
    NoAgentConfigured,
}

/// What a `HarnessError` holds.
pub enum Trouble {
    Io(Seq<char>),
    ProtocolDecode(Seq<char>),
    ProtocolEncode(Seq<char>),
    SessionStore(Seq<char>),
    SocketTransport(Seq<char>),
    Route(Seq<char>),
    ToolRoute(Seq<char>),
    StartupTimeout,
    ResponseTimeout,
    ThreadJoin(Seq<char>),
    Participant(Seq<char>),
    NoAgentConfigured,
}

/// The text of an error.
pub open spec fn trouble_text(t: Trouble) -> Seq<char> {
    match t {
        Trouble::Io(source) => "I/O error: "@ + source,
        Trouble::ProtocolDecode(source) => "protocol decode error: "@ + source,
        Trouble::ProtocolEncode(source) => "protocol encode error: "@ + source,
        Trouble::SessionStore(source) => "session store error: "@ + source,
        Trouble::SocketTransport(source) => "socket transport error: "@ + source,
        Trouble::Route(source) => "routing error: "@ + source,
        Trouble::ToolRoute(source) => "tool routing error: "@ + source,
        Trouble::StartupTimeout => "timed out waiting for extensions to start"@,
        Trouble::ResponseTimeout => "timed out waiting for agent response"@,
        Trouble::ThreadJoin(name) => "failed to join "@ + name + " thread cleanly"@,
        Trouble::Participant(message) => "participant error: "@ + message,
        Trouble::NoAgentConfigured => "no extension with role \"agent\" in configuration"@,
    }
}

fn told(what: &str, source: &str) -> (r: String)
    ensures
        r@ == what@ + source@,
{
    let mut r = what.to_owned();
    r.append(source);
    r
}

impl HarnessError {
    pub open spec fn view(&self) -> Trouble {
        match self {
            HarnessError::Io(source) => Trouble::Io(source@),
            HarnessError::ProtocolDecode(source) => Trouble::ProtocolDecode(source@),
            HarnessError::ProtocolEncode(source) => Trouble::ProtocolEncode(source@),
            HarnessError::SessionStore(source) => Trouble::SessionStore(source@),
            HarnessError::SocketTransport(source) => Trouble::SocketTransport(source@),
            HarnessError::Route(source) => Trouble::Route(source@),
            HarnessError::ToolRoute(source) => Trouble::ToolRoute(source@),
            HarnessError::StartupTimeout => Trouble::StartupTimeout,
            HarnessError::ResponseTimeout => Trouble::ResponseTimeout,
            HarnessError::ThreadJoin(name) => Trouble::ThreadJoin(name@),
            HarnessError::Participant(message) => Trouble::Participant(message@),
            HarnessError::NoAgentConfigured => Trouble::NoAgentConfigured,
        }
    }

    /// The error from below, where there is one.
    pub fn source(&self) -> (r: Option<&str>)
        ensures
            match self@ {
                Trouble::Io(source) => r matches Some(text) && text@ == source,
                Trouble::ProtocolDecode(source) => r matches Some(text) && text@ == source,
                Trouble::ProtocolEncode(source) => r matches Some(text) && text@ == source,
                Trouble::SessionStore(source) => r matches Some(text) && text@ == source,
                Trouble::SocketTransport(source) => r matches Some(text) && text@ == source,
                Trouble::Route(source) => r matches Some(text) && text@ == source,
                Trouble::ToolRoute(source) => r matches Some(text) && text@ == source,
                _ => r is None,
            },
    {
        match self {
            HarnessError::Io(source) => Some(source.as_str()),
            HarnessError::ProtocolDecode(source) => Some(source.as_str()),
            HarnessError::ProtocolEncode(source) => Some(source.as_str()),
            HarnessError::SessionStore(source) => Some(source.as_str()),
            HarnessError::SocketTransport(source) => Some(source.as_str()),
            HarnessError::Route(source) => Some(source.as_str()),
            HarnessError::ToolRoute(source) => Some(source.as_str()),
            _ => None,
        }
    }

    /// The text of the error.
    pub fn text(&self) -> (r: String)
        ensures
            r@ == trouble_text(self@),
    {
        match self {
            HarnessError::Io(source) => told("I/O error: ", source.as_str()),
            HarnessError::ProtocolDecode(source) => told("protocol decode error: ", source.as_str()),
            HarnessError::ProtocolEncode(source) => told("protocol encode error: ", source.as_str()),
            HarnessError::SessionStore(source) => told("session store error: ", source.as_str()),
            HarnessError::SocketTransport(source) => told("socket transport error: ", source.as_str()),
            HarnessError::Route(source) => told("routing error: ", source.as_str()),
            HarnessError::ToolRoute(source) => told("tool routing error: ", source.as_str()),
            HarnessError::StartupTimeout => "timed out waiting for extensions to start".to_owned(),
            HarnessError::ResponseTimeout => "timed out waiting for agent response".to_owned(),
            HarnessError::ThreadJoin(name) => {
                let mut r = told("failed to join ", name.as_str());
                r.append(" thread cleanly");
                r
            },
            HarnessError::Participant(message) => told("participant error: ", message.as_str()),
            HarnessError::NoAgentConfigured => "no extension with role \"agent\" in configuration".to_owned(),
        }
    }
}

} // verus!
