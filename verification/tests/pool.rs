//! Connections that are kept between turns.
use tau::chat_completions::LlmError;
use tau::context::PromptOriginator;
use tau::pool::{conversation_id, pool_max, same_key, PoolKey, ResponsesConfig, WsConn, WsPool, MAX_CONNECTION_AGE};
use tau::pool_run::{
    is_recoverable_ws_error, PoolRun, RunAction, RunEvent, SharedWsPool, TryCheckout,
    WsTurnError,
};

fn key(session: &str) -> PoolKey {
    let config = ResponsesConfig {
        base_url: "https://x/v1".to_owned(),
        api_key: "k".to_owned(),
        account_id: None,
    };
    PoolKey::for_request(&config, session, &PromptOriginator::User)
}

fn conn(handle: u64, opened_at: u64) -> WsConn {
    WsConn { handle, bearer: "b".to_owned(), opened_at }
}

fn proceed() -> RunEvent {
    RunEvent::Proceed { aborted: false, now: 10 }
}

#[test]
fn what_is_released_is_checked_out() {
    let mut pool = WsPool::new(None);
    pool.release(key("a"), conn(1, 0));
    assert_eq!(pool.checkout(&key("b"), "b", 5), None);
    assert_eq!(pool.checkout(&key("a"), "b", 5), Some(conn(1, 0)));
    assert_eq!(pool.checkout(&key("a"), "b", 5), None);
}

#[test]
fn old_connections_and_other_bearers_are_dropped() {
    let mut pool = WsPool::new(None);
    pool.release(key("a"), conn(1, 0));
    assert_eq!(pool.checkout(&key("a"), "other", 5), None);
    assert_eq!(pool.len(), 0);
    pool.release(key("a"), conn(1, 0));
    assert_eq!(pool.checkout(&key("a"), "b", MAX_CONNECTION_AGE + 1), None);
}

#[test]
fn the_one_used_longest_ago_makes_room() {
    let mut pool = WsPool::new(Some("2"));
    pool.release(key("a"), conn(1, 0));
    pool.release(key("b"), conn(2, 0));
    pool.release(key("c"), conn(3, 0));
    assert_eq!(pool.len(), 2);
    assert_eq!(pool.checkout(&key("a"), "b", 5), None);
    assert_eq!(pool.checkout(&key("c"), "b", 5), Some(conn(3, 0)));
}

#[test]
fn sizes_and_keys() {
    assert_eq!(pool_max(Some("3")), 3);
    assert_eq!(pool_max(Some("many")), pool_max(None));
    assert!(same_key(&key("a"), &key("a")));
    assert!(!same_key(&key("a"), &key("b")));
    let extension = PromptOriginator::Extension { name: "n".to_owned(), query_id: "q".to_owned() };
    assert_ne!(conversation_id(&PromptOriginator::User), conversation_id(&extension));
}

#[test]
fn conversations_exclude_each_other() {
    let mut pool = SharedWsPool::new(None);
    assert_eq!(pool.try_checkout(&key("a"), "b", 0), TryCheckout::Reserved(None));
    assert_eq!(pool.try_checkout(&key("a"), "b", 0), TryCheckout::Busy);
    assert_eq!(pool.try_checkout(&key("b"), "b", 0), TryCheckout::Reserved(None));
    pool.release(&key("a"), conn(1, 0));
    assert_eq!(pool.try_checkout(&key("a"), "b", 1), TryCheckout::Reserved(Some(conn(1, 0))));
    pool.abandon(&key("a"));
    assert_eq!(pool.try_checkout(&key("a"), "b", 1), TryCheckout::Reserved(None));
}

#[test]
fn a_turn_opens_a_connection_and_keeps_it() {
    let mut pool = SharedWsPool::new(None);
    let run = PoolRun::turn(key("a"), "b".to_owned(), true);
    let (mut run, mut action) = pool.step(run, proceed());
    while action == RunAction::Check {
        (run, action) = pool.step(run, proceed());
    }
    assert_eq!(action, RunAction::Connect);
    let (mut run, mut action) = pool.step(run, RunEvent::Connected(Ok(conn(7, 3))));
    while action == RunAction::Check {
        (run, action) = pool.step(run, proceed());
    }
    assert_eq!(action, RunAction::Send { handle: 7, chained: false });
    let (_, action) = pool.step(run, RunEvent::Ended { result: Ok(()), at_limit: false });
    assert_eq!(action, RunAction::Finish);
    assert_eq!(pool.stats().upgrades, 1);
    assert_eq!(pool.stats().chain_strips_on_fresh, 1);
    assert_eq!(pool.try_checkout(&key("a"), "b", 4), TryCheckout::Reserved(Some(conn(7, 3))));
}

#[test]
fn a_dead_connection_is_replaced_once() {
    let mut pool = SharedWsPool::new(None);
    assert_eq!(pool.try_checkout(&key("a"), "b", 0), TryCheckout::Reserved(None));
    pool.release(&key("a"), conn(1, 0));
    let (mut run, mut action) = pool.step(PoolRun::turn(key("a"), "b".to_owned(), true), proceed());
    while action == RunAction::Check {
        (run, action) = pool.step(run, proceed());
    }
    assert_eq!(action, RunAction::Send { handle: 1, chained: true });
    let lost = Err(LlmError::HttpStatus(0, "stream error: reset".to_owned()));
    let (mut run, mut action) = pool.step(run, RunEvent::Ended { result: lost, at_limit: false });
    while action == RunAction::Check {
        (run, action) = pool.step(run, proceed());
    }
    assert_eq!(action, RunAction::Connect);
    assert_eq!(pool.stats().silent_reconnects, 1);
    let (_, action) = pool.step(run, RunEvent::Connected(Err(LlmError::Http("down".to_owned()))));
    assert_eq!(action, RunAction::Fail(WsTurnError::Other(LlmError::Http("down".to_owned()))));
}

#[test]
fn warming_up_does_not_wait_and_giving_up_is_heard() {
    let mut pool = SharedWsPool::new(None);
    assert_eq!(pool.try_checkout(&key("a"), "b", 0), TryCheckout::Reserved(None));
    let (_, action) = pool.step(PoolRun::prewarm(key("a"), "b".to_owned()), proceed());
    assert_eq!(action, RunAction::Skip);
    let (run, action) = pool.step(PoolRun::turn(key("a"), "b".to_owned(), false), proceed());
    assert_eq!(action, RunAction::Wait);
    let (_, action) = pool.step(run, RunEvent::Proceed { aborted: true, now: 11 });
    assert_eq!(action, RunAction::Fail(WsTurnError::Canceled));
}

#[test]
fn only_transport_errors_are_recovered_from() {
    let status = |code: u16, body: &str| LlmError::HttpStatus(code, body.to_owned());
    assert!(is_recoverable_ws_error(&status(0, "stream error: reset"), false));
    assert!(!is_recoverable_ws_error(&status(0, "stream error: usage_limit_reached"), true));
    assert!(!is_recoverable_ws_error(&status(500, "stream error: reset"), false));
    assert!(!is_recoverable_ws_error(&status(0, "bad request"), false));
    assert!(!is_recoverable_ws_error(&LlmError::Io("reset".to_owned()), false));
}
