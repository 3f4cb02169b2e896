//! The log of events.
use tau::event::{Event, HarnessInfoLevel};
use tau::event_log::{CommitLog, EventLog};
use tau::messages::EventLogSeq;

fn info(message: &str) -> Event {
    Event::HarnessInfo { message: message.to_owned(), level: HarnessInfoLevel::Normal }
}

#[test]
fn append_and_get() {
    let mut log = EventLog::new();
    let (seq, recorded_at) = log.append(Some("conn-1".to_owned()), info("hello"));
    assert_eq!(seq, 0);
    assert!(recorded_at.get() > 0, "append should stamp wall-clock time");

    let entry = log.get_next_from(0).expect("entry should exist");
    assert_eq!(entry.seq, 0);
    assert_eq!(entry.recorded_at, recorded_at);
    assert_eq!(entry.source, Some("conn-1".to_owned()));

    assert!(log.get_next_from(1).is_none());
}

#[test]
fn get_next_from_skips_earlier() {
    let mut log = EventLog::new();
    log.append(None, info("a"));
    log.append(None, info("b"));
    log.append(None, info("c"));

    let entry = log.get_next_from(1).expect("entry should exist");
    assert_eq!(entry.seq, 1);
    let Event::HarnessInfo { message, .. } = &entry.event else {
        panic!("expected HarnessInfo");
    };
    assert_eq!(message, "b");
}

#[test]
fn append_assigns_sequence_and_timestamp_without_retaining_payloads_in_production() {
    let mut log = CommitLog::new();
    let (seq, recorded_at) = log.append();
    assert_eq!(seq.get(), 0);
    assert!(recorded_at.get() > 0, "append should stamp wall-clock time");
    assert_eq!(log.next_seq().get(), 1);
}

#[test]
fn test_observer_records_committed_events() {
    let mut log = CommitLog::new();
    let (seq, recorded_at) = log.append();
    log.record_for_test(seq, recorded_at, Some("conn-1".to_owned()), info("hello"));

    let entry = log.get_next_from(EventLogSeq::new(0)).expect("entry should exist");
    assert_eq!(entry.seq, 0);
    assert_eq!(entry.recorded_at, recorded_at);
    assert_eq!(entry.source, Some("conn-1".to_owned()));
}

#[test]
fn get_next_from_skips_earlier_test_observer_entries() {
    let mut log = CommitLog::new();
    for message in ["a", "b", "c"] {
        let (seq, recorded_at) = log.append();
        log.record_for_test(seq, recorded_at, None, info(message));
    }

    let entry = log.get_next_from(EventLogSeq::new(1)).expect("entry should exist");
    assert_eq!(entry.seq, 1);
    let Event::HarnessInfo { message, .. } = &entry.event else {
        panic!("expected HarnessInfo");
    };
    assert_eq!(message, "b");
}
