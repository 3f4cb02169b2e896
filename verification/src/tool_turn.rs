//! Which of the tool calls that conversations ask for may run at the same time.
//!
//! Calls wait in one queue. Within a conversation they start in their order and
//! only together with calls they are compatible with; conversations do not wait
//! for each other. A call may leave the foreground of its conversation while it
//! still runs.
use vstd::prelude::*;
use vstd::string::*;
use crate::event::AgentToolCall;
use crate::text::{same, texts};

verus! {

/// What a tool call may run beside.
#[derive(Clone, Copy, Debug, PartialEq, Eq, Structural)]
pub enum ToolExecutionMode {
    /// Beside shared calls and one update.
    Shared,
    /// Beside shared calls.
    Update,
    /// Beside nothing.
    Exclusive,
}

/// When a tool call may leave the foreground.
#[derive(Clone, Copy, Debug, PartialEq, Eq, Structural)]
pub enum BackgroundSupport {
    /// Not before it ends.
    Never,
    /// As soon as it has started.
    Instant,
    /// After this many seconds.
    MinForegroundSeconds(u64),
}

/// How long a tool call keeps incompatible calls waiting.
#[derive(Clone, Copy, Debug, PartialEq, Eq, Structural)]
pub enum ToolTurnLockScope {
    /// Until it ends.
    Normal,
    /// Until it leaves the foreground: it only launches work that is scheduled
    /// elsewhere.
    DelegateLauncher,
}

/// What follows for the foreground when a call starts.
#[derive(Debug, PartialEq, Eq)]
pub enum ForegroundAction {
    /// The call stays in the foreground.
    Nothing,
    /// The call leaves the foreground at once.
    Background { call_id: String },
}

/// A call that waits.
#[derive(Debug, PartialEq, Eq)]
pub struct PendingTool {
    pub conversation_id: String,
    pub invocation: AgentToolCall,
    pub mode: ToolExecutionMode,
    pub background_support: BackgroundSupport,
    pub lock_scope: ToolTurnLockScope,
}

/// What a `PendingTool` holds.
pub struct Waiting {
    pub conversation: Seq<char>,
    pub invocation: AgentToolCall,
    pub mode: ToolExecutionMode,
    pub background: BackgroundSupport,
    pub scope: ToolTurnLockScope,
}

impl PendingTool {
    pub open spec fn view(&self) -> Waiting {
        Waiting {
            conversation: self.conversation_id@,
            invocation: self.invocation,
            mode: self.mode,
            background: self.background_support,
            scope: self.lock_scope,
        }
    }
}

/// A call that runs.
#[derive(Debug, PartialEq, Eq)]
pub struct RunningTool {
    pub conversation_id: String,
    pub call_id: String,
    pub mode: ToolExecutionMode,
    pub lock_scope: ToolTurnLockScope,
    /// When it leaves the foreground, in milliseconds.
    pub deadline: Option<u64>,
    pub backgrounded: bool,
}

/// What a `RunningTool` holds.
pub struct Running {
    pub conversation: Seq<char>,
    pub id: Seq<char>,
    pub mode: ToolExecutionMode,
    pub scope: ToolTurnLockScope,
    pub deadline: Option<u64>,
    pub backgrounded: bool,
}

impl RunningTool {
    pub open spec fn view(&self) -> Running {
        Running {
            conversation: self.conversation_id@,
            id: self.call_id@,
            mode: self.mode,
            scope: self.lock_scope,
            deadline: self.deadline,
            backgrounded: self.backgrounded,
        }
    }
}

/// The calls that wait and the calls that run.
#[derive(Debug, PartialEq, Eq)]
pub struct ToolTurnMachine {
    waiting: Vec<PendingTool>,
    running: Vec<RunningTool>,
}

/// What a `ToolTurnMachine` holds.
#[verifier::ext_equal]
pub struct Turn {
    pub waiting: Seq<Waiting>,
    pub running: Seq<Running>,
}

// ---------------------------------------------------------------------------
// The rules
// ---------------------------------------------------------------------------

/// Whether two calls of one conversation may run at the same time.
pub open spec fn compatible(a: ToolExecutionMode, b: ToolExecutionMode) -> bool {
    match (a, b) {
        (ToolExecutionMode::Shared, ToolExecutionMode::Shared) => true,
        (ToolExecutionMode::Shared, ToolExecutionMode::Update) => true,
        (ToolExecutionMode::Update, ToolExecutionMode::Shared) => true,
        _ => false,
    }
}

/// Whether a running call keeps incompatible calls of its conversation waiting.
pub open spec fn holds_lane(r: Running) -> bool {
    r.scope == ToolTurnLockScope::Normal || !r.backgrounded
}

/// Whether every running call leaves room for one of the given conversation and
/// mode.
pub open spec fn lane_free(running: Seq<Running>, conversation: Seq<char>, mode: ToolExecutionMode) -> bool {
    forall|k: int|
        0 <= k < running.len() && (#[trigger] running[k]).conversation == conversation && holds_lane(running[k])
            ==> compatible(running[k].mode, mode)
}

/// Whether a waiting call lets a later one of its conversation pass: only a
/// launcher passes a normal call.
pub open spec fn lets_pass(earlier: Waiting, later: Waiting) -> bool {
    earlier.scope == ToolTurnLockScope::Normal && later.scope == ToolTurnLockScope::DelegateLauncher
}

/// Whether no waiting call stands in the way of the one at `i`.
pub open spec fn at_the_head(waiting: Seq<Waiting>, i: int) -> bool {
    forall|j: int|
        0 <= j < i && (#[trigger] waiting[j]).conversation == waiting[i].conversation ==> lets_pass(
            waiting[j],
            waiting[i],
        )
}

/// Whether the waiting call at `i` may start.
pub open spec fn may_start(t: Turn, i: int) -> bool {
    &&& 0 <= i < t.waiting.len()
    &&& at_the_head(t.waiting, i)
    &&& lane_free(t.running, t.waiting[i].conversation, t.waiting[i].mode)
}

/// The first waiting call from `i` on that may start.
pub open spec fn startable_from(t: Turn, i: int) -> Option<int>
    decreases t.waiting.len() - i,
{
    if i < 0 || i >= t.waiting.len() {
        None
    } else if may_start(t, i) {
        Some(i)
    } else {
        startable_from(t, i + 1)
    }
}

/// The first waiting call that may start.
pub open spec fn startable(t: Turn) -> Option<int> {
    startable_from(t, 0)
}

/// When a call that starts at `now` leaves the foreground by itself.
pub open spec fn deadline_of(background: BackgroundSupport, now: u64) -> Option<u64> {
    match background {
        BackgroundSupport::MinForegroundSeconds(seconds) => Some(
            if now + 1000 * seconds > u64::MAX {
                u64::MAX
            } else {
                (now + 1000 * seconds) as u64
            },
        ),
        _ => None,
    }
}

/// A waiting call once it runs.
pub open spec fn started(w: Waiting, now: u64) -> Running {
    Running {
        conversation: w.conversation,
        id: w.invocation.id@,
        mode: w.mode,
        scope: w.scope,
        deadline: deadline_of(w.background, now),
        backgrounded: false,
    }
}

/// The machine after the waiting call at `i` has started.
pub open spec fn after_start(t: Turn, i: int, now: u64) -> Turn {
    Turn { waiting: t.waiting.remove(i), running: t.running.push(started(t.waiting[i], now)) }
}

/// The first running call with the given id.
pub open spec fn running_at(running: Seq<Running>, id: Seq<char>) -> Option<int>
    decreases running.len(),
{
    if running.len() == 0 {
        None
    } else {
        match running_at(running.drop_last(), id) {
            Some(i) => Some(i),
            None => if running.last().id == id {
                Some(running.len() - 1)
            } else {
                None
            },
        }
    }
}

/// The machine after the call with the given id has left the foreground.
pub open spec fn after_background(t: Turn, id: Seq<char>) -> Turn {
    match running_at(t.running, id) {
        Some(i) => Turn {
            running: t.running.update(i, (Running { backgrounded: true, ..t.running[i] })),
            ..t
        },
        None => t,
    }
}

/// The machine after the call with the given id has ended.
pub open spec fn after_end(t: Turn, id: Seq<char>) -> Turn {
    match running_at(t.running, id) {
        Some(i) => Turn { running: t.running.remove(i), ..t },
        None => t,
    }
}

/// Whether a running call is to leave the foreground at `now`.
pub open spec fn is_due(r: Running, now: u64) -> bool {
    !r.backgrounded && match r.deadline {
        Some(deadline) => deadline <= now,
        None => false,
    }
}

/// The calls that are to leave the foreground at `now`.
pub open spec fn due_ids(running: Seq<Running>, now: u64) -> Seq<Seq<char>>
    decreases running.len(),
{
    if running.len() == 0 {
        Seq::empty()
    } else {
        let before = due_ids(running.drop_last(), now);
        if is_due(running.last(), now) {
            before.push(running.last().id)
        } else {
            before
        }
    }
}

/// The running calls after those that were due at `now` have left the foreground.
pub open spec fn after_due(running: Seq<Running>, now: u64) -> Seq<Running> {
    Seq::new(
        running.len(),
        |i: int|
            if is_due(running[i], now) {
                Running { backgrounded: true, ..running[i] }
            } else {
                running[i]
            },
    )
}

/// The earliest time at which a running call leaves the foreground.
pub open spec fn next_deadline(running: Seq<Running>) -> Option<u64>
    decreases running.len(),
{
    if running.len() == 0 {
        None
    } else {
        let before = next_deadline(running.drop_last());
        let last = running.last();
        match last.deadline {
            Some(deadline) if !last.backgrounded => match before {
                Some(d) if d <= deadline => Some(d),
                _ => Some(deadline),
            },
            _ => before,
        }
    }
}

// ---------------------------------------------------------------------------
// The machine
// ---------------------------------------------------------------------------

fn modes_fit(a: ToolExecutionMode, b: ToolExecutionMode) -> (r: bool)
    ensures
        r == compatible(a, b),
{
    match (a, b) {
        (ToolExecutionMode::Shared, ToolExecutionMode::Shared) => true,
        (ToolExecutionMode::Shared, ToolExecutionMode::Update) => true,
        (ToolExecutionMode::Update, ToolExecutionMode::Shared) => true,
        _ => false,
    }
}

proof fn lemma_running_at(running: Seq<Running>, id: Seq<char>, i: int)
    requires
        0 <= i <= running.len(),
        forall|k: int| 0 <= k < i ==> (#[trigger] running[k]).id != id,
        i < running.len() ==> running[i].id == id,
    ensures
        running_at(running, id) == if i < running.len() {
            Some(i)
        } else {
            None
        },
    decreases running.len(),
{
    if running.len() > 0 {
        let init = running.drop_last();
        lemma_running_at(
            init,
            id,
            if i <= init.len() {
                i
            } else {
                init.len() as int
            },
        );
    }
}

impl Default for ToolTurnMachine {
    /// No call waits and none runs.
    fn default() -> (r: ToolTurnMachine)
        ensures
            r@ == (Turn { waiting: Seq::empty(), running: Seq::empty() }),
    {
        let r = ToolTurnMachine { waiting: Vec::new(), running: Vec::new() };
        assert(r@ =~= Turn { waiting: Seq::empty(), running: Seq::empty() });
        r
    }
}

impl ToolTurnMachine {
    pub closed spec fn view(&self) -> Turn {
        Turn {
            waiting: Seq::new(self.waiting@.len(), |i: int| self.waiting@[i]@),
            running: Seq::new(self.running@.len(), |i: int| self.running@[i]@),
        }
    }

    /// Puts a call at the end of the queue.
    pub fn push(
        &mut self,
        conversation_id: String,
        invocation: AgentToolCall,
        mode: ToolExecutionMode,
        background_support: BackgroundSupport,
        lock_scope: ToolTurnLockScope,
    )
        ensures
            final(self)@ == (Turn {
                waiting: old(self)@.waiting.push(
                    Waiting {
                        conversation: conversation_id@,
                        invocation,
                        mode,
                        background: background_support,
                        scope: lock_scope,
                    },
                ),
                ..old(self)@
            }),
    {
        let ghost before = self@;
        let call = PendingTool { conversation_id, invocation, mode, background_support, lock_scope };
        let ghost added = call@;
        self.waiting.push(call);
        assert(self@ =~= Turn { waiting: before.waiting.push(added), ..before });
    }

    fn is_lane_free(&self, conversation_id: &str, mode: ToolExecutionMode) -> (r: bool)
        ensures
            r == lane_free(self@.running, conversation_id@, mode),
    {
        let ghost running = self@.running;
        let mut k: usize = 0;
        while k < self.running.len()
            invariant
                k <= self.running.len(),
                running == self@.running,
                forall|m: int|
                    0 <= m < k && (#[trigger] running[m]).conversation == conversation_id@ && holds_lane(running[m])
                        ==> compatible(running[m].mode, mode),
            decreases self.running.len() - k,
        {
            let call = &self.running[k];
            assert(running[k as int] == call@);
            let held = match call.lock_scope {
                ToolTurnLockScope::Normal => true,
                ToolTurnLockScope::DelegateLauncher => !call.backgrounded,
            };
            if held && same(call.conversation_id.as_str(), conversation_id) && !modes_fit(call.mode, mode) {
                return false;
            }
            k += 1;
        }
        true
    }

    fn is_at_the_head(&self, i: usize) -> (r: bool)
        requires
            i < self@.waiting.len(),
        ensures
            r == at_the_head(self@.waiting, i as int),
    {
        let ghost waiting = self@.waiting;
        let mut j: usize = 0;
        while j < i
            invariant
                j <= i,
                i < self.waiting.len(),
                waiting == self@.waiting,
                forall|m: int|
                    0 <= m < j && (#[trigger] waiting[m]).conversation == waiting[i as int].conversation ==> lets_pass(
                        waiting[m],
                        waiting[i as int],
                    ),
            decreases i - j,
        {
            let earlier = &self.waiting[j];
            let later = &self.waiting[i];
            assert(waiting[j as int] == earlier@);
            assert(waiting[i as int] == later@);
            let passes = match (earlier.lock_scope, later.lock_scope) {
                (ToolTurnLockScope::Normal, ToolTurnLockScope::DelegateLauncher) => true,
                _ => false,
            };
            if !passes && same(earlier.conversation_id.as_str(), later.conversation_id.as_str()) {
                return false;
            }
            j += 1;
        }
        true
    }

    fn first_startable(&self) -> (r: Option<usize>)
        ensures
            match r {
                Some(i) => startable(self@) == Some(i as int),
                None => startable(self@) is None,
            },
    {
        let mut i: usize = 0;
        while i < self.waiting.len()
            invariant
                i <= self.waiting.len(),
                startable(self@) == startable_from(self@, i as int),
            decreases self.waiting.len() - i,
        {
            assert(self@.waiting[i as int] == self.waiting@[i as int]@);
            if self.is_at_the_head(i) && self.is_lane_free(
                self.waiting[i].conversation_id.as_str(),
                self.waiting[i].mode,
            ) {
                return Some(i);
            }
            i += 1;
        }
        None
    }

    /// Starts the first waiting call that may start. Time is given in
    /// milliseconds.
    pub fn pop_dispatchable(&mut self, now: u64) -> (r: Option<(PendingTool, ForegroundAction)>)
        ensures
            match startable(old(self)@) {
                None => r is None && final(self)@ == old(self)@,
                Some(i) => {
                    &&& final(self)@ == after_start(old(self)@, i, now)
                    &&& r matches Some((call, action))
                    &&& call@ == old(self)@.waiting[i]
                    &&& match call.background_support {
                        BackgroundSupport::Instant => action matches ForegroundAction::Background { call_id }
                            && call_id@ == call.invocation.id@,
                        _ => action is Nothing,
                    }
                },
            },
    {
        let ghost before = self@;
        let i = match self.first_startable() {
            Some(i) => i,
            None => {
                return None;
            },
        };
        proof {
            lemma_startable(before, 0);
        }
        let call = self.waiting.remove(i);
        assert(call@ == before.waiting[i as int]);
        let deadline: Option<u64> = match call.background_support {
            BackgroundSupport::MinForegroundSeconds(seconds) => {
                let at: u128 = now as u128 + 1000 * (seconds as u128);
                if at > u64::MAX as u128 {
                    Some(u64::MAX)
                } else {
                    Some(at as u64)
                }
            },
            _ => None,
        };
        let run = RunningTool {
            conversation_id: call.conversation_id.clone(),
            call_id: call.invocation.id.clone(),
            mode: call.mode,
            lock_scope: call.lock_scope,
            deadline,
            backgrounded: false,
        };
        assert(run@ == started(before.waiting[i as int], now));
        self.running.push(run);
        assert(self@ =~= after_start(before, i as int, now));
        let action = match call.background_support {
            BackgroundSupport::Instant => ForegroundAction::Background { call_id: call.invocation.id.clone() },
            _ => ForegroundAction::Nothing,
        };
        Some((call, action))
    }

    /// Whether some call of a conversation waits.
    pub fn any_pending_for(&self, conversation_id: &str) -> (r: bool)
        ensures
            r == exists|i: int|
                0 <= i < self@.waiting.len() && (#[trigger] self@.waiting[i]).conversation == conversation_id@,
    {
        let mut i: usize = 0;
        while i < self.waiting.len()
            invariant
                i <= self.waiting.len(),
                forall|k: int| 0 <= k < i ==> (#[trigger] self@.waiting[k]).conversation != conversation_id@,
            decreases self.waiting.len() - i,
        {
            assert(self@.waiting[i as int] == self.waiting@[i as int]@);
            if same(self.waiting[i].conversation_id.as_str(), conversation_id) {
                return true;
            }
            i += 1;
        }
        false
    }

    /// Whether some call of a conversation runs in the foreground.
    pub fn any_in_flight_for(&self, conversation_id: &str) -> (r: bool)
        ensures
            r == exists|i: int|
                0 <= i < self@.running.len() && (#[trigger] self@.running[i]).conversation == conversation_id@
                    && !self@.running[i].backgrounded,
    {
        let mut i: usize = 0;
        while i < self.running.len()
            invariant
                i <= self.running.len(),
                forall|k: int|
                    0 <= k < i ==> (#[trigger] self@.running[k]).conversation != conversation_id@
                        || self@.running[k].backgrounded,
            decreases self.running.len() - i,
        {
            assert(self@.running[i as int] == self.running@[i as int]@);
            if !self.running[i].backgrounded && same(self.running[i].conversation_id.as_str(), conversation_id) {
                return true;
            }
            i += 1;
        }
        false
    }

    /// The number of running calls, in the foreground or not.
    pub fn in_flight_len(&self) -> (r: usize)
        ensures
            r == self@.running.len(),
    {
        self.running.len()
    }

    /// The number of waiting calls.
    pub fn pending_len(&self) -> (r: usize)
        ensures
            r == self@.waiting.len(),
    {
        self.waiting.len()
    }

    /// The waiting call at a place of the queue.
    pub fn pending(&self, index: usize) -> (r: Option<&PendingTool>)
        ensures
            match r {
                Some(call) => index < self@.waiting.len() && call@ == self@.waiting[index as int],
                None => index >= self@.waiting.len(),
            },
    {
        if index < self.waiting.len() {
            assert(self@.waiting[index as int] == self.waiting@[index as int]@);
            Some(&self.waiting[index])
        } else {
            None
        }
    }

    fn position(&self, call_id: &str) -> (r: Option<usize>)
        ensures
            match r {
                Some(i) => i < self@.running.len() && running_at(self@.running, call_id@) == Some(i as int),
                None => running_at(self@.running, call_id@) is None,
            },
    {
        let ghost running = self@.running;
        let mut i: usize = 0;
        while i < self.running.len()
            invariant
                i <= self.running.len(),
                running == self@.running,
                forall|k: int| 0 <= k < i ==> (#[trigger] running[k]).id != call_id@,
            decreases self.running.len() - i,
        {
            assert(running[i as int] == self.running@[i as int]@);
            if same(self.running[i].call_id.as_str(), call_id) {
                proof {
                    lemma_running_at(running, call_id@, i as int);
                }
                return Some(i);
            }
            i += 1;
        }
        proof {
            lemma_running_at(running, call_id@, running.len() as int);
        }
        None
    }

    /// Forgets a running call that has ended, and returns its mode.
    pub fn mark_complete(&mut self, call_id: &str) -> (r: Option<ToolExecutionMode>)
        ensures
            final(self)@ == after_end(old(self)@, call_id@),
            r == match running_at(old(self)@.running, call_id@) {
                Some(i) => Some(old(self)@.running[i].mode),
                None => None,
            },
    {
        let ghost before = self@;
        match self.position(call_id) {
            Some(i) => {
                let call = self.running.remove(i);
                assert(call@ == before.running[i as int]);
                assert(self@ =~= Turn { running: before.running.remove(i as int), ..before });
                Some(call.mode)
            },
            None => None,
        }
    }

    /// Takes a running call out of the foreground. Whether it was there.
    pub fn mark_backgrounded(&mut self, call_id: &str) -> (r: bool)
        ensures
            final(self)@ == after_background(old(self)@, call_id@),
            r == match running_at(old(self)@.running, call_id@) {
                Some(i) => !old(self)@.running[i].backgrounded,
                None => false,
            },
    {
        let ghost before = self@;
        match self.position(call_id) {
            Some(i) => {
                assert(before.running[i as int] == self.running@[i as int]@);
                let was = self.running[i].backgrounded;
                self.running[i].backgrounded = true;
                assert(self@ =~= Turn {
                    running: before.running.update(
                        i as int,
                        (Running { backgrounded: true, ..before.running[i as int] }),
                    ),
                    ..before
                });
                !was
            },
            None => false,
        }
    }

    /// Whether a call runs outside the foreground.
    pub fn is_backgrounded(&self, call_id: &str) -> (r: bool)
        ensures
            r == match running_at(self@.running, call_id@) {
                Some(i) => self@.running[i].backgrounded,
                None => false,
            },
    {
        match self.position(call_id) {
            Some(i) => {
                assert(self@.running[i as int] == self.running@[i as int]@);
                self.running[i].backgrounded
            },
            None => false,
        }
    }

    /// Takes the calls whose time in the foreground is over out of it, and returns
    /// their ids.
    pub fn background_due(&mut self, now: u64) -> (r: Vec<String>)
        ensures
            texts(r@) == due_ids(old(self)@.running, now),
            final(self)@ == (Turn { running: after_due(old(self)@.running, now), ..old(self)@ }),
    {
        let ghost before = self@;
        let mut due: Vec<String> = Vec::new();
        let mut i: usize = 0;
        assert(before.running.take(0) =~= Seq::empty());
        assert(texts(due@) =~= Seq::empty());
        while i < self.running.len()
            invariant
                i <= self.running.len(),
                before.running.len() == self.running@.len(),
                before.waiting == self@.waiting,
                texts(due@) == due_ids(before.running.take(i as int), now),
                forall|k: int| 0 <= k < i ==> (#[trigger] self.running@[k])@ == after_due(before.running, now)[k],
                forall|k: int| i <= k < self.running@.len() ==> (#[trigger] self.running@[k])@ == before.running[k],
            decreases self.running.len() - i,
        {
            proof {
                assert(before.running.take(i + 1).drop_last() =~= before.running.take(i as int));
                assert(before.running.take(i + 1).last() == before.running[i as int]);
                assert(self.running@[i as int]@ == before.running[i as int]);
            }
            let over = !self.running[i].backgrounded && match self.running[i].deadline {
                Some(deadline) => deadline <= now,
                None => false,
            };
            if over {
                let ghost ids = texts(due@);
                due.push(self.running[i].call_id.clone());
                assert(texts(due@) =~= ids.push(before.running[i as int].id));
                self.running[i].backgrounded = true;
            }
            i += 1;
        }
        assert(before.running.take(before.running.len() as int) =~= before.running);
        assert(self@ =~= Turn { running: after_due(before.running, now), ..before });
        due
    }

    /// When the next call leaves the foreground by itself.
    pub fn next_background_deadline(&self) -> (r: Option<u64>)
        ensures
            r == next_deadline(self@.running),
    {
        let ghost running = self@.running;
        let mut next: Option<u64> = None;
        let mut i: usize = 0;
        assert(running.take(0) =~= Seq::empty());
        while i < self.running.len()
            invariant
                i <= self.running.len(),
                running == self@.running,
                next == next_deadline(running.take(i as int)),
            decreases self.running.len() - i,
        {
            proof {
                assert(running.take(i + 1).drop_last() =~= running.take(i as int));
                assert(running.take(i + 1).last() == self.running@[i as int]@);
            }
            if !self.running[i].backgrounded {
                if let Some(deadline) = self.running[i].deadline {
                    next = match next {
                        Some(d) => if d <= deadline {
                            Some(d)
                        } else {
                            Some(deadline)
                        },
                        None => Some(deadline),
                    };
                }
            }
            i += 1;
        }
        assert(running.take(running.len() as int) =~= running);
        next
    }
}

// ---------------------------------------------------------------------------
// What holds of every machine
// ---------------------------------------------------------------------------

proof fn lemma_startable(t: Turn, i: int)
    requires
        0 <= i,
    ensures
        match startable_from(t, i) {
            Some(k) => i <= k && may_start(t, k) && forall|j: int| i <= j < k ==> !#[trigger] may_start(t, j),
            None => forall|j: int| i <= j ==> !#[trigger] may_start(t, j),
        },
    decreases t.waiting.len() - i,
{
    if i < t.waiting.len() && !may_start(t, i) {
        lemma_startable(t, i + 1);
    }
}

/// A call is left waiting only where it may not start: the one that starts is the
/// first that may, and none starts only where none may.
pub proof fn first_that_may_start(t: Turn)
    ensures
        match startable(t) {
            Some(k) => may_start(t, k) && forall|j: int| 0 <= j < k ==> !#[trigger] may_start(t, j),
            None => forall|j: int| 0 <= j < t.waiting.len() ==> !#[trigger] may_start(t, j),
        },
{
    lemma_startable(t, 0);
}

/// The calls of a conversation start in their order: one starts ahead of an
/// earlier one only where it is a launcher and the earlier one is not.
pub proof fn calls_start_in_order(t: Turn, j: int)
    requires
        startable(t) matches Some(i) && 0 <= j < i && t.waiting[j].conversation == t.waiting[i].conversation,
    ensures
        lets_pass(t.waiting[j], t.waiting[startable(t)->Some_0]),
{
    lemma_startable(t, 0);
}

/// A conversation does not wait for another: a call starts, or some call ahead
/// of it does, where no call of its own conversation waits ahead of it or runs.
pub proof fn conversations_are_independent(t: Turn, i: int)
    requires
        0 <= i < t.waiting.len(),
        forall|j: int| 0 <= j < i ==> (#[trigger] t.waiting[j]).conversation != t.waiting[i].conversation,
        forall|k: int| 0 <= k < t.running.len() ==> (#[trigger] t.running[k]).conversation != t.waiting[i].conversation,
    ensures
        startable(t) matches Some(k) && k <= i,
{
    lemma_startable(t, 0);
    assert(may_start(t, i));
}

/// Whether all running calls of a conversation that hold their lane are
/// compatible with each other.
pub open spec fn lanes_respected(t: Turn) -> bool {
    forall|i: int, j: int|
        0 <= i < j < t.running.len() && (#[trigger] t.running[i]).conversation == (#[trigger] t.running[j]).conversation
            && holds_lane(t.running[i]) && holds_lane(t.running[j]) ==> compatible(t.running[i].mode, t.running[j].mode)
}

/// An empty machine respects its lanes, and starting a call keeps them respected.
pub proof fn starting_respects_lanes(t: Turn, now: u64)
    requires
        lanes_respected(t),
    ensures
        lanes_respected(Turn { waiting: t.waiting, running: Seq::empty() }),
        startable(t) matches Some(i) ==> lanes_respected(after_start(t, i, now)),
{
    lemma_startable(t, 0);
}

proof fn lemma_running_at_range(running: Seq<Running>, id: Seq<char>)
    ensures
        running_at(running, id) matches Some(i) ==> 0 <= i < running.len() && running[i].id == id,
        running_at(running, id) is None ==> forall|k: int| 0 <= k < running.len() ==> (#[trigger] running[k]).id != id,
    decreases running.len(),
{
    if running.len() > 0 {
        let init = running.drop_last();
        lemma_running_at_range(init, id);
        assert forall|k: int| 0 <= k < running.len() && running_at(running, id) is None implies (
        #[trigger] running[k]).id != id by {
            if k < init.len() {
                assert(init[k].id != id);
            }
        }
    }
}

/// Ending a call, taking it out of the foreground, and letting time pass keep the
/// lanes respected.
pub proof fn leaving_respects_lanes(t: Turn, id: Seq<char>, now: u64)
    requires
        lanes_respected(t),
    ensures
        lanes_respected(after_end(t, id)),
        lanes_respected(after_background(t, id)),
        lanes_respected(Turn { running: after_due(t.running, now), ..t }),
{
    lemma_running_at_range(t.running, id);
    match running_at(t.running, id) {
        Some(k) => {
            let ended = after_end(t, id).running;
            assert forall|i: int, j: int|
                0 <= i < j < ended.len() && (#[trigger] ended[i]).conversation == (#[trigger] ended[j]).conversation
                    && holds_lane(ended[i]) && holds_lane(ended[j]) implies compatible(ended[i].mode, ended[j].mode) by {
                let a = if i < k { i } else { i + 1 };
                let b = if j < k { j } else { j + 1 };
                assert(ended[i] == t.running[a] && ended[j] == t.running[b]);
            }
            let put = after_background(t, id).running;
            assert forall|i: int, j: int|
                0 <= i < j < put.len() && (#[trigger] put[i]).conversation == (#[trigger] put[j]).conversation
                    && holds_lane(put[i]) && holds_lane(put[j]) implies compatible(put[i].mode, put[j].mode) by {
                assert(holds_lane(t.running[i]) && holds_lane(t.running[j]));
            }
        },
        None => {},
    }
    let later = after_due(t.running, now);
    assert forall|i: int, j: int|
        0 <= i < j < later.len() && (#[trigger] later[i]).conversation == (#[trigger] later[j]).conversation
            && holds_lane(later[i]) && holds_lane(later[j]) implies compatible(later[i].mode, later[j].mode) by {
        assert(holds_lane(t.running[i]) && holds_lane(t.running[j]));
    }
}

/// A call that has left the foreground keeps its lane until it ends, unless it is
/// a launcher.
pub proof fn background_keeps_the_lane(t: Turn, id: Seq<char>)
    ensures
        running_at(t.running, id) matches Some(i) ==> {
            &&& after_background(t, id).running[i].mode == t.running[i].mode
            &&& holds_lane(after_background(t, id).running[i]) <==> t.running[i].scope == ToolTurnLockScope::Normal
        },
{
    lemma_running_at_range(t.running, id);
}

/// No call leaves the foreground twice for the same deadline.
pub proof fn due_once(running: Seq<Running>, now: u64)
    ensures
        due_ids(after_due(running, now), now).len() == 0,
    decreases running.len(),
{
    if running.len() > 0 {
        let later = after_due(running, now);
        assert(later.drop_last() =~= after_due(running.drop_last(), now));
        due_once(running.drop_last(), now);
    }
}

/// The next deadline is the time at which the next call is due, and none is due
/// before it.
pub proof fn nothing_is_due_before_the_deadline(running: Seq<Running>, now: u64)
    ensures
        due_ids(running, now).len() > 0 <==> (next_deadline(running) matches Some(d) && d <= now),
    decreases running.len(),
{
    if running.len() > 0 {
        nothing_is_due_before_the_deadline(running.drop_last(), now);
    }
}

} // verus!
