//! Which events are kept, and where.
use tau::event::{Event, ToolError};
use tau::router::{session_membership_id_for_event, should_persist_event};

fn started() -> Event {
    Event::AgentStarted {
        parent_agent: None,
        agent_id: "agent-1".to_owned(),
        role: "default".to_owned(),
        display_name: None,
    }
}

#[test]
fn transient_non_tool_event_is_not_persisted() {
    let event = started();

    assert!(!should_persist_event(&event, true));
    assert!(should_persist_event(&event, false));
}

#[test]
fn transient_terminal_tool_event_is_persisted() {
    let event = Event::ToolError(ToolError {
        call_id: "call-1".to_owned(),
        tool_name: "tool".to_owned(),
        message: "failed".to_owned(),
        details: None,
    });

    assert!(should_persist_event(&event, true));
}

#[test]
fn session_membership_events_route_to_session_log() {
    let loaded = Event::SessionAgentLoaded { session_id: "session-1".to_owned(), agent_id: "agent-1".to_owned() };
    let unloaded = Event::SessionAgentUnloaded { session_id: "session-2".to_owned(), agent_id: "agent-1".to_owned() };

    assert_eq!(session_membership_id_for_event(&loaded).as_deref(), Some("session-1"));
    assert_eq!(session_membership_id_for_event(&unloaded).as_deref(), Some("session-2"));
    assert_eq!(session_membership_id_for_event(&started()), None);
}
