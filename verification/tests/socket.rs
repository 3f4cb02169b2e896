//! Sockets: what is bound, what is removed, what is received.
use tau::socket::{
    plan_bind, reader_step, receive, removes_on_drop, Awaited, BindPlan, FoundAtPath, ReaderStep, SocketIdentity,
    SocketReceive, SocketTransportError,
};

fn socket(ino: u64) -> SocketIdentity {
    SocketIdentity { dev: 1, ino }
}

#[test]
fn bind_refuses_existing_non_socket_path() {
    let error = plan_bind("/run/tau.sock", FoundAtPath::NoSocket, false).expect_err("bind should refuse file");
    assert!(matches!(error, SocketTransportError::RefuseNonSocketPath { .. }));
    assert!(error.text().contains("/run/tau.sock"));
}

#[test]
fn bind_refuses_active_socket_path() {
    let error = plan_bind("/run/tau.sock", FoundAtPath::Socket(socket(1)), true)
        .expect_err("bind should refuse active socket");
    assert!(matches!(error, SocketTransportError::ActiveSocketExists { .. }));
}

#[test]
fn bind_replaces_inactive_stale_socket_path() {
    assert_eq!(
        plan_bind("/run/tau.sock", FoundAtPath::Socket(socket(1)), false),
        Ok(BindPlan::RemoveAndBind)
    );
    assert_eq!(plan_bind("/run/tau.sock", FoundAtPath::Nothing, false), Ok(BindPlan::Bind));
}

#[test]
fn drop_does_not_remove_replacement_socket() {
    assert!(!removes_on_drop(FoundAtPath::Socket(socket(2)), socket(1)));
    assert!(!removes_on_drop(FoundAtPath::NoSocket, socket(1)));
    assert!(!removes_on_drop(FoundAtPath::Nothing, socket(1)));
    assert!(removes_on_drop(FoundAtPath::Socket(socket(1)), socket(1)));
}

#[test]
fn partial_frame_close_is_decode_error() {
    assert!(matches!(
        receive(Awaited::Unreadable("unexpected end".to_owned())),
        Err(SocketTransportError::Decode { .. })
    ));
    assert!(matches!(receive(Awaited::TimedOut), Ok(SocketReceive::Timeout)));
    assert!(matches!(receive(Awaited::ReaderGone), Ok(SocketReceive::Closed)));
}

#[test]
fn dropping_peer_stops_background_reader() {
    assert_eq!(reader_step(true, false, true), ReaderStep::PassOn);
    assert_eq!(reader_step(true, false, false), ReaderStep::End);
    assert_eq!(reader_step(false, true, true), ReaderStep::PassOnAndEnd);
    assert_eq!(reader_step(false, false, true), ReaderStep::End);
}

#[test]
fn errors_keep_their_source() {
    let error = SocketTransportError::Bind { path: "/run/t".to_owned(), source: "denied".to_owned() };
    assert_eq!(error.source(), Some("denied"));
    assert!(error.text().contains("/run/t"));
    assert_eq!(SocketTransportError::RefuseNonSocketPath { path: "/x".to_owned() }.source(), None);
}
