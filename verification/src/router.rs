//! Which events are kept, and in whose log.
use vstd::prelude::*;
use vstd::string::*;
use crate::event::Event;

verus! {

/// Whether an event ends a tool call.
pub open spec fn ends_a_tool_call(event: Event) -> bool {
    event is ToolResult || event is ToolError
}

/// Whether an event is kept: one that is not transient, and the end of every tool
/// call.
pub fn should_persist_event(event: &Event, transient: bool) -> (r: bool)
    ensures
        r == (!transient || ends_a_tool_call(*event)),
{
    let ends = match event {
        Event::ToolResult(_) => true,
        Event::ToolError(_) => true,
        _ => false,
    };
    !transient || ends
}

/// The session that an agent joins or leaves by an event.
pub open spec fn membership_of(event: Event) -> Option<Seq<char>> {
    match event {
        Event::SessionAgentLoaded { session_id, agent_id: _ } => Some(session_id@),
        Event::SessionAgentUnloaded { session_id, agent_id: _ } => Some(session_id@),
        _ => None,
    }
}

/// The session in whose log an event is kept because an agent joins or leaves it.
pub fn session_membership_id_for_event(event: &Event) -> (r: Option<String>)
    ensures
        match r {
            Some(id) => membership_of(*event) == Some(id@),
            None => membership_of(*event) is None,
        },
{
    match event {
        Event::SessionAgentLoaded { session_id, agent_id: _ } => Some(session_id.clone()),
        Event::SessionAgentUnloaded { session_id, agent_id: _ } => Some(session_id.clone()),
        _ => None,
    }
}

} // verus!
