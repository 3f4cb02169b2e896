//! The log of published events.
use vstd::prelude::*;
use crate::event::Event;
use crate::messages::{EventLogSeq, UnixMicros};

verus! {

/// One published event.
pub struct LogEntry {
    /// The position of the entry in the log.
    pub seq: u64,
    /// When the entry was made.
    pub recorded_at: UnixMicros,
    /// The connection that the event came from.
    pub source: Option<String>,
    pub event: Event,
}

/// An append-only log. Entries are numbered from zero and never leave it.
pub struct EventLog {
    pub entries: Vec<LogEntry>,
}

impl EventLog {
    /// Every entry carries its position.
    pub open spec fn wf(&self) -> bool {
        forall|i: int| 0 <= i < self.entries@.len() ==> (#[trigger] self.entries@[i]).seq == i
    }

    /// A log without entries.
    pub fn new() -> (r: EventLog)
        ensures
            r.wf(),
            r.entries@.len() == 0,
    {
        EventLog { entries: Vec::new() }
    }

    /// Appends an event under the next number, stamped with `recorded_at`.
    pub fn append_at(&mut self, source: Option<String>, event: Event, recorded_at: UnixMicros) -> (seq: u64)
        requires
            old(self).wf(),
        ensures
            final(self).wf(),
            seq == old(self).entries@.len(),
            final(self).entries@ == old(self).entries@.push(LogEntry { seq, recorded_at, source, event }),
    {
        let seq = self.entries.len() as u64;
        self.entries.push(LogEntry { seq, recorded_at, source, event });
        seq
    }

    /// Appends an event under the next number, stamped with the time. Returns
    /// both.
    pub fn append(&mut self, source: Option<String>, event: Event) -> (r: (u64, UnixMicros))
        requires
            old(self).wf(),
        ensures
            final(self).wf(),
            r.0 == old(self).entries@.len(),
            final(self).entries@ == old(self).entries@.push(
                LogEntry { seq: r.0, recorded_at: r.1, source, event },
            ),
    {
        let recorded_at = UnixMicros::now();
        let seq = self.append_at(source, event, recorded_at);
        (seq, recorded_at)
    }

    /// The first entry whose number is not below `from`.
    pub fn get_next_from(&self, from: u64) -> (r: Option<&LogEntry>)
        requires
            self.wf(),
        ensures
            match r {
                Some(entry) => from < self.entries@.len() && *entry == self.entries@[from as int],
                None => self.entries@.len() <= from,
            },
    {
        if from < self.entries.len() as u64 {
            Some(&self.entries[from as usize])
        } else {
            None
        }
    }

    /// The number that the next entry will have.
    pub fn next_seq(&self) -> (r: u64)
        ensures
            r == self.entries@.len(),
    {
        self.entries.len() as u64
    }
}

/// What one entry of a log and a later one have in common with the order in which
/// they were appended: the later one has the greater number.
pub proof fn later_entries_have_greater_numbers(log: EventLog, i: int, j: int)
    requires
        log.wf(),
        0 <= i < j < log.entries@.len(),
    ensures
        log.entries@[i].seq < log.entries@[j].seq,
{
}

/// A stream of numbers and times for events that are committed elsewhere. An
/// observer may record the events beside it.
pub struct CommitLog {
    next: u64,
    recorded: Vec<LogEntry>,
}

/// The position of the first recorded entry whose number is not below `from`.
pub open spec fn first_recorded(entries: Seq<LogEntry>, from: u64) -> Option<int>
    decreases entries.len(),
{
    if entries.len() == 0 {
        None
    } else {
        match first_recorded(entries.drop_last(), from) {
            Some(i) => Some(i),
            None => if entries.last().seq >= from {
                Some(entries.len() - 1)
            } else {
                None
            },
        }
    }
}

impl CommitLog {
    /// The number that the next event gets.
    pub closed spec fn next_number(&self) -> u64 {
        self.next
    }

    /// What was recorded.
    pub closed spec fn observed(&self) -> Seq<LogEntry> {
        self.recorded@
    }

    /// A stream that starts at zero.
    pub fn new() -> (r: CommitLog)
        ensures
            r.next_number() == 0,
            r.observed().len() == 0,
    {
        CommitLog { next: 0, recorded: Vec::new() }
    }

    /// Assigns the next number and the time. Keeps no event.
    pub fn append(&mut self) -> (r: (EventLogSeq, UnixMicros))
        requires
            old(self).next_number() < u64::MAX,
        ensures
            r.0@ == old(self).next_number(),
            final(self).next_number() == old(self).next_number() + 1,
            final(self).observed() == old(self).observed(),
    {
        let seq = EventLogSeq::new(self.next);
        self.next = self.next + 1;
        (seq, UnixMicros::now())
    }

    /// The number that the next event gets.
    pub fn next_seq(&self) -> (r: EventLogSeq)
        ensures
            r@ == self.next_number(),
    {
        EventLogSeq::new(self.next)
    }

    /// Records an event that was committed under `seq`.
    pub fn record_for_test(&mut self, seq: EventLogSeq, recorded_at: UnixMicros, source: Option<String>, event: Event)
        ensures
            final(self).next_number() == old(self).next_number(),
            final(self).observed() == old(self).observed().push(
                LogEntry { seq: seq@, recorded_at, source, event },
            ),
    {
        self.recorded.push(LogEntry { seq: seq.get(), recorded_at, source, event });
    }

    /// The first recorded entry whose number is not below `from`.
    pub fn get_next_from(&self, from: EventLogSeq) -> (r: Option<&LogEntry>)
        ensures
            match r {
                Some(entry) => first_recorded(self.observed(), from@) matches Some(i) && 0 <= i
                    < self.observed().len() && *entry == self.observed()[i],
                None => first_recorded(self.observed(), from@) is None,
            },
    {
        let mut i: usize = 0;
        assert(self.recorded@.take(0) =~= Seq::empty());
        while i < self.recorded.len()
            invariant
                i <= self.recorded.len(),
                first_recorded(self.recorded@.take(i as int), from@) is None,
            decreases self.recorded.len() - i,
        {
            let ghost now = self.recorded@.take(i + 1);
            assert(now.drop_last() =~= self.recorded@.take(i as int));
            if self.recorded[i].seq >= from.get() {
                proof {
                    lemma_first_recorded_stays(self.recorded@, from@, i + 1);
                }
                return Some(&self.recorded[i]);
            }
            i += 1;
        }
        assert(self.recorded@.take(self.recorded@.len() as int) =~= self.recorded@);
        None
    }
}

proof fn lemma_first_recorded_stays(entries: Seq<LogEntry>, from: u64, n: int)
    requires
        0 <= n <= entries.len(),
        first_recorded(entries.take(n), from) is Some,
    ensures
        first_recorded(entries, from) == first_recorded(entries.take(n), from),
    decreases entries.len(),
{
    if n < entries.len() {
        let init = entries.drop_last();
        assert(init.take(n) =~= entries.take(n));
        lemma_first_recorded_stays(init, from, n);
    } else {
        assert(entries.take(n) =~= entries);
    }
}

} // verus!
