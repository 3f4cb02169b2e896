//! The course of a turn, or of a request that only warms a connection up, over the
//! cached connections that several workers share.
//!
//! A worker asks what to do next, does it, and says what came of it. Whoever works
//! for a conversation holds its reservation from the first connection to the end.
use vstd::prelude::*;
use vstd::string::*;
use crate::chat_completions::LlmError;
use crate::context::AgentPromptCreated;
use crate::pool::{checked_out, released, same_key, Conn, Key, Pool, PoolKey, WsConn, WsPool, WsPoolStats};
use crate::text::{begins, contains, starts_with};

verus! {

// ---------------------------------------------------------------------------
// Errors
// ---------------------------------------------------------------------------

/// Why a turn came to nothing.
#[derive(Debug, PartialEq, Eq)]
pub enum WsTurnError {
    /// It was given up.
    Canceled,
    Other(LlmError),
}

impl WsTurnError {
    /// The error as other requests report theirs.
    pub fn into_llm_error(self) -> (r: LlmError)
        ensures
            match self {
                WsTurnError::Canceled => r matches LlmError::HttpStatus(499, body) && body@ == "cancelled by harness"@,
                WsTurnError::Other(error) => r == error,
            },
    {
        match self {
            WsTurnError::Canceled => LlmError::HttpStatus(499, "cancelled by harness".to_owned()),
            WsTurnError::Other(error) => error,
        }
    }
}

/// Whether another connection can be expected to serve where this one failed. None can
/// where the account is at its limit.
pub open spec fn recoverable(e: LlmError, at_limit: bool) -> bool {
    match e {
        LlmError::HttpStatus(code, body) => code == 0 && begins(body@, "stream error:"@) && !at_limit,
        _ => false,
    }
}

/// Whether another connection can be expected to serve where this one failed. None can
/// where the account is at its limit.
pub fn is_recoverable_ws_error(err: &LlmError, at_limit: bool) -> (r: bool)
    ensures
        r == recoverable(*err, at_limit),
{
    match err {
        LlmError::HttpStatus(code, body) => {
            *code == 0 && starts_with(body.as_str(), "stream error:") && !at_limit
        },
        _ => false,
    }
}

/// The request without the response that it follows. A new connection knows of
/// none.
pub fn without_previous_response(request: AgentPromptCreated) -> (r: AgentPromptCreated)
    ensures
        r == (AgentPromptCreated { previous_response_candidate: None, ..request }),
{
    AgentPromptCreated { previous_response_candidate: None, ..request }
}

// ---------------------------------------------------------------------------
// The shared pool
// ---------------------------------------------------------------------------

/// The cached connections and the reservations of those who use them.
#[derive(Debug, PartialEq, Eq)]
pub struct SharedWsPool {
    pool: WsPool,
    busy: Vec<PoolKey>,
}

/// What a `SharedWsPool` holds.
#[verifier::ext_equal]
pub struct Shared {
    pub pool: Pool,
    pub busy: Set<Key>,
}

/// The keys of a list.
pub open spec fn key_views(keys: Seq<PoolKey>) -> Seq<Key> {
    Seq::new(keys.len(), |i: int| keys[i]@)
}

/// What came of the attempt to reserve a key without waiting.
#[derive(Debug, PartialEq, Eq)]
pub enum TryCheckout {
    /// It is reserved, with the connection that was kept for it.
    Reserved(Option<WsConn>),
    /// Somebody else has reserved it.
    Busy,
}

/// Whether the counts can still grow.
pub open spec fn counts_fit(stats: WsPoolStats) -> bool {
    stats.upgrades < u64::MAX && stats.silent_reconnects < u64::MAX && stats.chain_strips_on_fresh < u64::MAX
}

/// The counts after a connection was opened.
pub open spec fn after_open(stats: WsPoolStats, chained: bool) -> WsPoolStats {
    WsPoolStats {
        upgrades: (stats.upgrades + 1) as u64,
        chain_strips_on_fresh: if chained {
            (stats.chain_strips_on_fresh + 1) as u64
        } else {
            stats.chain_strips_on_fresh
        },
        ..stats
    }
}

/// The counts after a kept connection died.
pub open spec fn after_loss(stats: WsPoolStats) -> WsPoolStats {
    WsPoolStats { silent_reconnects: (stats.silent_reconnects + 1) as u64, ..stats }
}

impl SharedWsPool {
    pub closed spec fn view(&self) -> Shared {
        Shared { pool: self.pool@, busy: Set::new(|k: Key| key_views(self.busy@).contains(k)) }
    }

    /// An empty pool that nobody uses. `setting` is what the variable for its size
    /// holds.
    pub fn new(setting: Option<&str>) -> (r: SharedWsPool)
        ensures
            r@.pool.wf(),
            r@.pool.conns.len() == 0,
            r@.pool.max == crate::pool::configured_max(
                match setting {
                    Some(s) => Some(s@),
                    None => None,
                },
            ),
            r@.pool.stats == (WsPoolStats { upgrades: 0, silent_reconnects: 0, chain_strips_on_fresh: 0 }),
            r@.busy == Set::<Key>::empty(),
    {
        let r = SharedWsPool { pool: WsPool::new(setting), busy: Vec::new() };
        assert(key_views(r.busy@) =~= Seq::empty());
        assert(r@.busy =~= Set::<Key>::empty());
        r
    }

    /// The counts so far.
    pub fn stats(&self) -> (r: WsPoolStats)
        ensures
            r == self@.pool.stats,
    {
        self.pool.stats()
    }

    fn is_busy(&self, key: &PoolKey) -> (r: bool)
        ensures
            r == self@.busy.contains(key@),
    {
        let ghost keys = key_views(self.busy@);
        let mut i: usize = 0;
        while i < self.busy.len()
            invariant
                i <= self.busy.len(),
                keys == key_views(self.busy@),
                forall|k: int| 0 <= k < i ==> #[trigger] keys[k] != key@,
            decreases self.busy.len() - i,
        {
            assert(keys[i as int] == self.busy@[i as int]@);
            if same_key(&self.busy[i], key) {
                assert(keys.contains(key@));
                return true;
            }
            i += 1;
        }
        assert(!keys.contains(key@));
        false
    }

    fn set_busy(&mut self, key: &PoolKey)
        ensures
            final(self)@ == (Shared { busy: old(self)@.busy.insert(key@), ..old(self)@ }),
    {
        let ghost before = self@;
        let ghost keys = key_views(self.busy@);
        self.busy.push(key.clone());
        let ghost now = key_views(self.busy@);
        assert(now =~= keys.push(key@));
        assert forall|k: Key| self@.busy.contains(k) == before.busy.insert(key@).contains(k) by {
            if keys.contains(k) {
                let i = choose|i: int| 0 <= i < keys.len() && keys[i] == k;
                assert(now[i] == k);
            }
            if now.contains(k) && k != key@ {
                let i = choose|i: int| 0 <= i < now.len() && now[i] == k;
                assert(keys[i] == k);
            }
            assert(now[now.len() - 1] == key@);
        }
        assert(self@.busy =~= before.busy.insert(key@));
    }

    /// Gives a reservation up.
    pub fn abandon(&mut self, key: &PoolKey)
        ensures
            final(self)@ == (Shared { busy: old(self)@.busy.remove(key@), ..old(self)@ }),
    {
        let ghost before = self@;
        let ghost keys = key_views(self.busy@);
        let mut kept: Vec<PoolKey> = Vec::new();
        let mut i: usize = 0;
        while i < self.busy.len()
            invariant
                i <= self.busy.len(),
                keys == key_views(self.busy@),
                self@ == before,
                forall|k: Key|
                    #[trigger] key_views(kept@).contains(k) <==> (k != key@ && keys.take(i as int).contains(k)),
            decreases self.busy.len() - i,
        {
            let ghost had = key_views(kept@);
            let ghost seen = keys.take(i as int);
            let ghost here = keys[i as int];
            assert(here == self.busy@[i as int]@);
            assert(keys.take(i + 1) =~= seen.push(here));
            if !same_key(&self.busy[i], key) {
                kept.push(self.busy[i].clone());
                assert(key_views(kept@) =~= had.push(here));
            }
            assert forall|k: Key|
                #[trigger] key_views(kept@).contains(k) <==> (k != key@ && keys.take(i + 1).contains(k)) by {
                lemma_push_contains(had, here, k);
                lemma_push_contains(seen, here, k);
                assert(had.contains(k) <==> (k != key@ && seen.contains(k)));
            }
            i += 1;
        }
        assert(keys.take(keys.len() as int) =~= keys);
        self.busy = kept;
        assert(self@.busy =~= before.busy.remove(key@));
    }

    /// Reserves a key without waiting.
    pub fn try_checkout(&mut self, key: &PoolKey, current_bearer: &str, now: u64) -> (r: TryCheckout)
        requires
            old(self)@.pool.wf(),
        ensures
            final(self)@.pool.wf(),
            if old(self)@.busy.contains(key@) {
                r is Busy && final(self)@ == old(self)@
            } else {
                &&& final(self)@ == reserved(old(self)@, key@)
                &&& match checked_out(old(self)@.pool, key@, current_bearer@, now) {
                    Some(conn) => r matches TryCheckout::Reserved(Some(c)) && c@ == conn,
                    None => r == TryCheckout::Reserved(None),
                }
            },
    {
        if self.is_busy(key) {
            return TryCheckout::Busy;
        }
        let ghost before = self@;
        self.set_busy(key);
        let conn = self.pool.checkout(key, current_bearer, now);
        assert(self@ =~= reserved(before, key@));
        TryCheckout::Reserved(conn)
    }

    /// Puts a connection back and gives the reservation up.
    pub fn release(&mut self, key: &PoolKey, conn: WsConn)
        requires
            old(self)@.pool.wf(),
        ensures
            final(self)@.pool.wf(),
            final(self)@ == given_back(old(self)@, key@, conn@),
    {
        let ghost before = self@;
        let ghost back = conn@;
        self.pool.release(key.clone(), conn);
        assert(self@ =~= Shared { pool: released(before.pool, key@, back), ..before });
        self.abandon(key);
        assert(self@ =~= given_back(before, key@, back));
    }

    /// Counts a kept connection that died.
    pub fn bump_silent_reconnects(&mut self) -> (r: u64)
        requires
            counts_fit(old(self)@.pool.stats),
        ensures
            final(self)@ == with_stats(old(self)@, after_loss(old(self)@.pool.stats)),
            r == final(self)@.pool.stats.silent_reconnects,
    {
        let ghost before = self@;
        let mut stats = self.pool.stats();
        stats.silent_reconnects = stats.silent_reconnects + 1;
        self.pool.set_stats(stats);
        assert(self@ =~= with_stats(before, after_loss(before.pool.stats)));
        stats.silent_reconnects
    }

    /// Counts a connection that was opened.
    pub fn record_fresh_open(&mut self, previous_response: bool) -> (r: WsPoolStats)
        requires
            counts_fit(old(self)@.pool.stats),
        ensures
            final(self)@ == with_stats(old(self)@, after_open(old(self)@.pool.stats, previous_response)),
            r == final(self)@.pool.stats,
    {
        let ghost before = self@;
        let mut stats = self.pool.stats();
        stats.upgrades = stats.upgrades + 1;
        if previous_response {
            stats.chain_strips_on_fresh = stats.chain_strips_on_fresh + 1;
        }
        self.pool.set_stats(stats);
        assert(self@ =~= with_stats(before, after_open(before.pool.stats, previous_response)));
        stats
    }
}

proof fn lemma_push_contains(s: Seq<Key>, x: Key, k: Key)
    ensures
        s.push(x).contains(k) <==> (s.contains(k) || k == x),
{
    if s.contains(k) {
        let i = choose|i: int| 0 <= i < s.len() && s[i] == k;
        assert(s.push(x)[i] == k);
    }
    if k == x {
        assert(s.push(x)[s.len() as int] == k);
    }
    if s.push(x).contains(k) {
        let i = choose|i: int| 0 <= i < s.push(x).len() && s.push(x)[i] == k;
        if i < s.len() {
            assert(s[i] == k);
        }
    }
}

/// The pool with other counts.
pub open spec fn with_stats(s: Shared, stats: WsPoolStats) -> Shared {
    Shared { pool: Pool { stats, ..s.pool }, ..s }
}

/// The pool after a key was reserved and its connection taken out.
pub open spec fn reserved(s: Shared, key: Key) -> Shared {
    Shared { pool: s.pool.without(key), busy: s.busy.insert(key) }
}

/// The pool after a connection came back and the reservation was given up.
pub open spec fn given_back(s: Shared, key: Key, conn: Conn) -> Shared {
    Shared { pool: released(s.pool, key, conn), busy: s.busy.remove(key) }
}

/// The pool after a reservation was given up.
pub open spec fn given_up(s: Shared, key: Key) -> Shared {
    Shared { busy: s.busy.remove(key), ..s }
}

// ---------------------------------------------------------------------------
// Runs
// ---------------------------------------------------------------------------

/// How far a run has come.
#[derive(Debug, PartialEq, Eq)]
pub enum RunStage {
    /// It has reserved nothing yet.
    Waiting,
    /// It holds the connection that was kept.
    Holding(WsConn),
    /// The request runs over the connection that was kept.
    OnCached(WsConn),
    /// It needs a new connection.
    Missing,
    /// A new connection is being opened.
    Opening,
    /// It holds a new connection.
    Opened(WsConn),
    /// The request runs over a new connection.
    OnFresh(WsConn),
    /// It is over.
    Over,
}

/// What a `RunStage` holds.
pub enum Stage {
    Waiting,
    Holding(Conn),
    OnCached(Conn),
    Missing,
    Opening,
    Opened(Conn),
    OnFresh(Conn),
    Over,
}

impl RunStage {
    pub open spec fn view(&self) -> Stage {
        match self {
            RunStage::Waiting => Stage::Waiting,
            RunStage::Holding(conn) => Stage::Holding(conn@),
            RunStage::OnCached(conn) => Stage::OnCached(conn@),
            RunStage::Missing => Stage::Missing,
            RunStage::Opening => Stage::Opening,
            RunStage::Opened(conn) => Stage::Opened(conn@),
            RunStage::OnFresh(conn) => Stage::OnFresh(conn@),
            RunStage::Over => Stage::Over,
        }
    }
}

/// One request over the shared pool.
#[derive(Debug, PartialEq, Eq)]
pub struct PoolRun {
    pub key: PoolKey,
    pub bearer: String,
    /// Whether the request follows a response.
    pub chained: bool,
    /// Whether it waits for others to finish; a request that only warms up does
    /// not.
    pub waits: bool,
    pub stage: RunStage,
}

/// What a `PoolRun` holds.
pub struct Run {
    pub key: Key,
    pub bearer: Seq<char>,
    pub chained: bool,
    pub waits: bool,
    pub stage: Stage,
}

impl PoolRun {
    pub open spec fn view(&self) -> Run {
        Run {
            key: self.key@,
            bearer: self.bearer@,
            chained: self.chained,
            waits: self.waits,
            stage: self.stage@,
        }
    }
}

/// What happened to a run.
#[derive(Debug, PartialEq, Eq)]
pub enum RunEvent {
    /// It goes on, unless it is to be given up.
    Proceed { aborted: bool, now: u64 },
    /// The attempt to open a connection ended.
    Connected(Result<WsConn, LlmError>),
    /// The request ended. Where it failed, the answer may say that the account is at
    /// its limit.
    Ended { result: Result<(), LlmError>, at_limit: bool },
}

/// What is to be done next.
#[derive(Debug, PartialEq, Eq)]
pub enum RunAction {
    /// Wait for others to finish, and proceed.
    Wait,
    /// Proceed.
    Check,
    /// Run the request over the connection with this number, with or without the
    /// response that it follows.
    Send { handle: u64, chained: bool },
    /// Open a connection.
    Connect,
    /// Report that the request ran.
    Finish,
    /// Report that others were at work, so that nothing was done.
    Skip,
    /// Report an error.
    Fail(WsTurnError),
}

/// What follows an event: the pool, the stage, and what is to be done.
pub struct Next {
    pub shared: Shared,
    pub stage: Stage,
    pub action: RunAction,
}

/// Whether an event can happen to a run at its stage.
pub open spec fn expects(stage: Stage, event: RunEvent) -> bool {
    match stage {
        Stage::Waiting => event is Proceed,
        Stage::Holding(_) => event is Proceed,
        Stage::OnCached(_) => event is Ended,
        Stage::Missing => event is Proceed,
        Stage::Opening => event is Connected,
        Stage::Opened(_) => event is Proceed,
        Stage::OnFresh(_) => event is Ended,
        Stage::Over => false,
    }
}

/// A run that waits reserves its key once nobody else has.
pub open spec fn after_waiting(s: Shared, run: Run, aborted: bool, now: u64) -> Next {
    if s.busy.contains(run.key) {
        if !run.waits {
            Next { shared: s, stage: Stage::Over, action: RunAction::Skip }
        } else if aborted {
            Next { shared: s, stage: Stage::Over, action: RunAction::Fail(WsTurnError::Canceled) }
        } else {
            Next { shared: s, stage: Stage::Waiting, action: RunAction::Wait }
        }
    } else if run.waits && aborted {
        Next { shared: s, stage: Stage::Over, action: RunAction::Fail(WsTurnError::Canceled) }
    } else {
        Next {
            shared: reserved(s, run.key),
            stage: match checked_out(s.pool, run.key, run.bearer, now) {
                Some(conn) => Stage::Holding(conn),
                None => Stage::Missing,
            },
            action: RunAction::Check,
        }
    }
}

/// A request over a kept connection ended.
pub open spec fn after_cached(
    s: Shared,
    run: Run,
    conn: Conn,
    result: Result<(), LlmError>,
    at_limit: bool,
) -> Next {
    match result {
        Ok(_) => Next {
            shared: given_back(s, run.key, conn),
            stage: Stage::Over,
            action: RunAction::Finish,
        },
        Err(e) => if recoverable(e, at_limit) {
            Next {
                shared: with_stats(s, after_loss(s.pool.stats)),
                stage: Stage::Missing,
                action: RunAction::Check,
            }
        } else {
            Next {
                shared: given_up(s, run.key),
                stage: Stage::Over,
                action: RunAction::Fail(WsTurnError::Other(e)),
            }
        },
    }
}

/// A request over a new connection ended.
pub open spec fn after_fresh(s: Shared, run: Run, conn: Conn, result: Result<(), LlmError>) -> Next {
    match result {
        Ok(_) => Next {
            shared: given_back(s, run.key, conn),
            stage: Stage::Over,
            action: RunAction::Finish,
        },
        Err(e) => Next {
            shared: given_up(s, run.key),
            stage: Stage::Over,
            action: RunAction::Fail(WsTurnError::Other(e)),
        },
    }
}

/// What follows an event.
pub open spec fn next(s: Shared, run: Run, event: RunEvent) -> Next {
    match (run.stage, event) {
        (Stage::Waiting, RunEvent::Proceed { aborted, now }) => after_waiting(s, run, aborted, now),
        (Stage::Holding(conn), RunEvent::Proceed { aborted, now: _ }) => if run.waits && aborted {
            Next {
                shared: given_back(s, run.key, conn),
                stage: Stage::Over,
                action: RunAction::Fail(WsTurnError::Canceled),
            }
        } else {
            Next {
                shared: s,
                stage: Stage::OnCached(conn),
                action: RunAction::Send { handle: conn.handle, chained: run.chained },
            }
        },
        (Stage::OnCached(conn), RunEvent::Ended { result, at_limit }) => after_cached(s, run, conn, result, at_limit),
        (Stage::Missing, RunEvent::Proceed { aborted, now: _ }) => if run.waits && aborted {
            Next {
                shared: given_up(s, run.key),
                stage: Stage::Over,
                action: RunAction::Fail(WsTurnError::Canceled),
            }
        } else {
            Next { shared: s, stage: Stage::Opening, action: RunAction::Connect }
        },
        (Stage::Opening, RunEvent::Connected(Ok(conn))) => Next {
            shared: s,
            stage: Stage::Opened(conn@),
            action: RunAction::Check,
        },
        (Stage::Opening, RunEvent::Connected(Err(e))) => Next {
            shared: given_up(s, run.key),
            stage: Stage::Over,
            action: RunAction::Fail(WsTurnError::Other(e)),
        },
        (Stage::Opened(conn), RunEvent::Proceed { aborted, now: _ }) => if run.waits && aborted {
            Next {
                shared: given_up(s, run.key),
                stage: Stage::Over,
                action: RunAction::Fail(WsTurnError::Canceled),
            }
        } else {
            Next {
                shared: with_stats(s, after_open(s.pool.stats, run.chained)),
                stage: Stage::OnFresh(conn),
                action: RunAction::Send { handle: conn.handle, chained: false },
            }
        },
        (Stage::OnFresh(conn), RunEvent::Ended { result, at_limit: _ }) => after_fresh(s, run, conn, result),
        _ => Next { shared: s, stage: run.stage, action: RunAction::Check },
    }
}

impl PoolRun {
    /// A turn that is about to begin.
    pub fn turn(key: PoolKey, bearer: String, chained: bool) -> (r: PoolRun)
        ensures
            r@ == (Run { key: key@, bearer: bearer@, chained, waits: true, stage: Stage::Waiting }),
    {
        PoolRun { key, bearer, chained, waits: true, stage: RunStage::Waiting }
    }

    /// A request that only warms a connection up.
    pub fn prewarm(key: PoolKey, bearer: String) -> (r: PoolRun)
        ensures
            r@ == (Run { key: key@, bearer: bearer@, chained: false, waits: false, stage: Stage::Waiting }),
    {
        PoolRun { key, bearer, chained: false, waits: false, stage: RunStage::Waiting }
    }
}

impl SharedWsPool {
    fn begin(&mut self, key: &PoolKey, bearer: &str, waits: bool, aborted: bool, now: u64) -> (r: (RunStage, RunAction))
        requires
            old(self)@.pool.wf(),
        ensures
            final(self)@.pool.wf(),
            forall|run: Run|
                run.key == key@ && run.bearer == bearer@ && run.waits == waits ==> #[trigger] after_waiting(
                    old(self)@,
                    run,
                    aborted,
                    now,
                ) == (Next { shared: final(self)@, stage: r.0@, action: r.1 }),
    {
        if self.is_busy(key) {
            if !waits {
                return (RunStage::Over, RunAction::Skip);
            }
            if aborted {
                return (RunStage::Over, RunAction::Fail(WsTurnError::Canceled));
            }
            return (RunStage::Waiting, RunAction::Wait);
        }
        if waits && aborted {
            return (RunStage::Over, RunAction::Fail(WsTurnError::Canceled));
        }
        match self.try_checkout(key, bearer, now) {
            TryCheckout::Reserved(Some(conn)) => (RunStage::Holding(conn), RunAction::Check),
            TryCheckout::Reserved(None) => (RunStage::Missing, RunAction::Check),
            TryCheckout::Busy => (RunStage::Waiting, RunAction::Wait),
        }
    }

    /// Takes an event of a run over, and says what is to be done next.
    pub fn step(&mut self, run: PoolRun, event: RunEvent) -> (r: (PoolRun, RunAction))
        requires
            old(self)@.pool.wf(),
            counts_fit(old(self)@.pool.stats),
            expects(run.stage@, event),
        ensures
            final(self)@.pool.wf(),
            r.0@ == (Run { stage: r.0.stage@, ..run@ }),
            next(old(self)@, run@, event) == (Next { shared: final(self)@, stage: r.0.stage@, action: r.1 }),
    {
        let PoolRun { key, bearer, chained, waits, stage } = run;
        let (stage, action) = match (stage, event) {
            (RunStage::Waiting, RunEvent::Proceed { aborted, now }) => {
                let ghost before = self@;
                let r = self.begin(&key, bearer.as_str(), waits, aborted, now);
                assert(after_waiting(before, run@, aborted, now) == (Next {
                    shared: self@,
                    stage: r.0@,
                    action: r.1,
                }));
                r
            },
            (RunStage::Holding(conn), RunEvent::Proceed { aborted, now: _ }) => {
                if waits && aborted {
                    self.release(&key, conn);
                    (RunStage::Over, RunAction::Fail(WsTurnError::Canceled))
                } else {
                    let handle = conn.handle;
                    (RunStage::OnCached(conn), RunAction::Send { handle, chained })
                }
            },
            (RunStage::OnCached(conn), RunEvent::Ended { result, at_limit }) => match result {
                Ok(_) => {
                    self.release(&key, conn);
                    (RunStage::Over, RunAction::Finish)
                },
                Err(e) => {
                    if is_recoverable_ws_error(&e, at_limit) {
                        self.bump_silent_reconnects();
                        (RunStage::Missing, RunAction::Check)
                    } else {
                        self.abandon(&key);
                        (RunStage::Over, RunAction::Fail(WsTurnError::Other(e)))
                    }
                },
            },
            (RunStage::Missing, RunEvent::Proceed { aborted, now: _ }) => {
                if waits && aborted {
                    self.abandon(&key);
                    (RunStage::Over, RunAction::Fail(WsTurnError::Canceled))
                } else {
                    (RunStage::Opening, RunAction::Connect)
                }
            },
            (RunStage::Opening, RunEvent::Connected(result)) => match result {
                Ok(conn) => (RunStage::Opened(conn), RunAction::Check),
                Err(e) => {
                    self.abandon(&key);
                    (RunStage::Over, RunAction::Fail(WsTurnError::Other(e)))
                },
            },
            (RunStage::Opened(conn), RunEvent::Proceed { aborted, now: _ }) => {
                if waits && aborted {
                    self.abandon(&key);
                    (RunStage::Over, RunAction::Fail(WsTurnError::Canceled))
                } else {
                    self.record_fresh_open(chained);
                    let handle = conn.handle;
                    (RunStage::OnFresh(conn), RunAction::Send { handle, chained: false })
                }
            },
            (RunStage::OnFresh(conn), RunEvent::Ended { result, at_limit: _ }) => match result {
                Ok(_) => {
                    self.release(&key, conn);
                    (RunStage::Over, RunAction::Finish)
                },
                Err(e) => {
                    self.abandon(&key);
                    (RunStage::Over, RunAction::Fail(WsTurnError::Other(e)))
                },
            },
            (stage, _) => (stage, RunAction::Check),
        };
        (PoolRun { key, bearer, chained, waits, stage }, action)
    }
}

// ---------------------------------------------------------------------------
// What holds of every run
// ---------------------------------------------------------------------------

/// Whether a run holds the reservation of its key.
pub open spec fn holds_key(stage: Stage) -> bool {
    !(stage is Waiting || stage is Over)
}

/// Whether the reservation of a run that holds one is in the books.
pub open spec fn run_wf(s: Shared, run: Run) -> bool {
    holds_key(run.stage) ==> s.busy.contains(run.key)
}

/// A run reserves its key only where nobody else has, keeps the reservation until
/// it is over, and then gives it up. Reservations of others stay as they are.
pub proof fn runs_exclude_each_other(s: Shared, run: Run, event: RunEvent)
    requires
        run_wf(s, run),
        expects(run.stage, event),
    ensures
        run_wf(next(s, run, event).shared, Run { stage: next(s, run, event).stage, ..run }),
        !holds_key(run.stage) && holds_key(next(s, run, event).stage) ==> !s.busy.contains(run.key),
        holds_key(run.stage) && !holds_key(next(s, run, event).stage) ==> !next(s, run, event).shared.busy.contains(
            run.key,
        ),
        !holds_key(run.stage) && !holds_key(next(s, run, event).stage) ==> next(s, run, event).shared == s,
        forall|other: Key|
            other != run.key ==> (#[trigger] next(s, run, event).shared.busy.contains(other) <==> s.busy.contains(other)),
{
}

/// Over a new connection no request follows a response.
pub proof fn new_connections_start_chains(s: Shared, run: Run, event: RunEvent)
    requires
        run.stage is Opened,
        expects(run.stage, event),
    ensures
        next(s, run, event).action matches RunAction::Send { handle: _, chained } ==> !chained,
{
}

/// How far a stage is from the end.
pub open spec fn stages_left(stage: Stage) -> nat {
    match stage {
        Stage::Waiting => 7,
        Stage::Holding(_) => 6,
        Stage::OnCached(_) => 5,
        Stage::Missing => 4,
        Stage::Opening => 3,
        Stage::Opened(_) => 2,
        Stage::OnFresh(_) => 1,
        Stage::Over => 0,
    }
}

/// A run comes to its end: each event brings it further, unless it waits for
/// others. So at most one connection is opened for it.
pub proof fn runs_come_to_an_end(s: Shared, run: Run, event: RunEvent)
    requires
        expects(run.stage, event),
    ensures
        next(s, run, event).action is Wait || stages_left(next(s, run, event).stage) < stages_left(run.stage),
        next(s, run, event).action is Wait ==> run.waits && s.busy.contains(run.key),
{
}

/// A run that is given up before it begins leaves everything as it is.
pub proof fn given_up_at_once(s: Shared, run: Run, now: u64)
    requires
        run.stage is Waiting,
        run.waits,
    ensures
        next(s, run, RunEvent::Proceed { aborted: true, now }).shared == s,
        next(s, run, RunEvent::Proceed { aborted: true, now }).stage is Over,
        next(s, run, RunEvent::Proceed { aborted: true, now }).action == RunAction::Fail(WsTurnError::Canceled),
{
}

} // verus!
