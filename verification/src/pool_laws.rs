//! What holds of kept connections and of the runs that share them.
use vstd::prelude::*;
use crate::chat_completions::LlmError;
use crate::context::PromptOriginator;
use crate::pool::{
    checked_out, configured_max, conversation_of, digits_value, place_of, released, usable, Conn, Key, Pool,
    DEFAULT_POOL_MAX, MAX_CONNECTION_AGE,
};
use crate::pool_run::{next, recoverable, Run, RunAction, RunEvent, Shared, Stage, WsTurnError};
use crate::text::{begins, decimal};

verus! {

proof fn lemma_place(conns: Seq<(Key, Conn)>, key: Key)
    ensures
        match place_of(conns, key) {
            Some(i) => 0 <= i < conns.len() && conns[i].0 == key && forall|k: int|
                0 <= k < i ==> (#[trigger] conns[k]).0 != key,
            None => forall|k: int| 0 <= k < conns.len() ==> (#[trigger] conns[k]).0 != key,
        },
    decreases conns.len(),
{
    if conns.len() > 0 {
        let short = conns.drop_last();
        lemma_place(short, key);
        match place_of(short, key) {
            Some(i) => {
                assert(short[i] == conns[i]);
                assert forall|k: int| 0 <= k < i implies (#[trigger] conns[k]).0 != key by {
                    assert(short[k] == conns[k]);
                }
            },
            None => {
                assert forall|k: int| 0 <= k < conns.len() - 1 implies (#[trigger] conns[k]).0 != key by {
                    assert(short[k] == conns[k]);
                }
            },
        }
    }
}

/// A connection that is handed out was kept under the key that is asked for, is signed
/// in alike and not too old.
pub proof fn connections_fit_their_use(p: Pool, key: Key, bearer: Seq<char>, now: u64)
    ensures
        checked_out(p, key, bearer, now) matches Some(conn) ==> {
            &&& p.conns.contains((key, conn))
            &&& conn.bearer == bearer
            &&& now < conn.opened_at + MAX_CONNECTION_AGE
        },
{
    lemma_place(p.conns, key);
    if let Some(i) = place_of(p.conns, key) {
        assert(p.conns[i] == (key, p.conns[i].1));
    }
}

/// A connection that is kept, signed in alike and not too old, is handed out for its key.
pub proof fn kept_connections_are_handed_out(p: Pool, i: int, bearer: Seq<char>, now: u64)
    requires
        p.wf(),
        0 <= i < p.conns.len(),
        p.conns[i].1.bearer == bearer,
        now < p.conns[i].1.opened_at + MAX_CONNECTION_AGE,
    ensures
        checked_out(p, p.conns[i].0, bearer, now) == Some(p.conns[i].1),
{
    let key = p.conns[i].0;
    lemma_place(p.conns, key);
    match place_of(p.conns, key) {
        Some(k) => {
            if k < i {
                assert(p.conns[k].0 != p.conns[i].0);
            }
            if i < k {
                assert(p.conns[i].0 != p.conns[k].0);
            }
        },
        None => {
            assert(p.conns[i].0 != key);
        },
    }
}

/// A pool that is full makes room by giving up the connection that was used longest ago.
pub proof fn full_pools_give_up_the_oldest(p: Pool, key: Key, conn: Conn, i: int)
    requires
        p.wf(),
        p.conns.len() == p.max,
        forall|k: int| 0 <= k < p.conns.len() ==> (#[trigger] p.conns[k]).0 != key,
    ensures
        released(p, key, conn).conns.len() == p.max,
        released(p, key, conn).conns[0] == (key, conn),
        0 <= i < p.conns.len() - 1 ==> released(p, key, conn).conns[i + 1] == p.conns[i],
{
    lemma_place(p.conns, key);
    if let Some(k) = place_of(p.conns, key) {
        assert(p.conns[k].0 != key);
    }
}

/// The connection that was used last stands first.
pub proof fn the_last_used_stands_first(p: Pool, key: Key, conn: Conn)
    ensures
        released(p, key, conn).conns.len() > 0,
        released(p, key, conn).conns[0] == (key, conn),
        released(p, key, conn).max == p.max,
{
}

/// The conversation of an extension is told apart from the user's.
pub proof fn conversations_are_told_apart(name: String, query_id: String)
    ensures
        conversation_of(PromptOriginator::Extension { name, query_id }) == "extension/"@ + name@ + "/"@ + query_id@,
        conversation_of(PromptOriginator::User) != conversation_of(PromptOriginator::Extension { name, query_id }),
{
    reveal_strlit("user");
    reveal_strlit("extension/");
    assert("user"@[0] == 'u');
    assert(conversation_of(PromptOriginator::Extension { name, query_id })[0] == 'e');
}

proof fn lemma_decimal_reads_back(n: nat)
    ensures
        digits_value(decimal(n)) == Some(n),
        decimal(n).len() > 0,
        decimal(n)[0] != '+',
    decreases n,
{
    reveal_with_fuel(digits_value, 2);
    if n < 10 {
        assert(decimal(n).drop_last() =~= Seq::empty());
    } else {
        lemma_decimal_reads_back(n / 10);
        let high = decimal(n / 10);
        assert(decimal(n) =~= high.push(crate::text::digit_char((n % 10) as int)));
        assert(decimal(n).drop_last() =~= high);
        assert(decimal(n)[0] == high[0]);
    }
}

/// The number of connections to keep is the one that is set, where that is a number above
/// zero, and else the usual one.
pub proof fn the_set_number_counts(n: nat)
    ensures
        0 < n <= usize::MAX ==> configured_max(Some(decimal(n))) == n,
        0 < n <= usize::MAX ==> configured_max(Some(seq!['+'] + decimal(n))) == n,
        configured_max(Some(decimal(0))) == DEFAULT_POOL_MAX,
        configured_max(Some(Seq::empty())) == DEFAULT_POOL_MAX,
        configured_max(None) == DEFAULT_POOL_MAX,
        configured_max(Some(seq!['-'] + decimal(n))) == DEFAULT_POOL_MAX,
{
    lemma_decimal_reads_back(n);
    lemma_decimal_reads_back(0);
    assert((seq!['+'] + decimal(n)).skip(1) =~= decimal(n));
    lemma_bad_start(decimal(n));
}

proof fn lemma_bad_start(s: Seq<char>)
    ensures
        digits_value(seq!['-'] + s) is None,
    decreases s.len(),
{
    let all = seq!['-'] + s;
    if s.len() == 0 {
        assert(all.last() == '-');
    } else {
        lemma_bad_start(s.drop_last());
        assert(all.drop_last() =~= seq!['-'] + s.drop_last());
    }
}

/// A request goes over the connection that the run holds, as a follow-up only where the
/// connection is not new.
pub proof fn requests_go_over_the_held_connection(s: Shared, run: Run, conn: Conn, now: u64)
    ensures
        run.stage == Stage::Holding(conn) ==> next(s, run, RunEvent::Proceed { aborted: false, now }).action
            == (RunAction::Send { handle: conn.handle, chained: run.chained }),
        run.stage == Stage::Opened(conn) ==> next(s, run, RunEvent::Proceed { aborted: false, now }).action
            == (RunAction::Send { handle: conn.handle, chained: false }),
        run.stage == Stage::Holding(conn) ==> next(s, run, RunEvent::Proceed { aborted: false, now }).stage
            == Stage::OnCached(conn),
        run.stage == Stage::Opened(conn) ==> next(s, run, RunEvent::Proceed { aborted: false, now }).stage
            == Stage::OnFresh(conn),
{
}

/// After a request that went well, the connection is kept for the next one with its key,
/// and the key is free.
pub proof fn good_connections_are_kept(s: Shared, run: Run, conn: Conn, at_limit: bool, now: u64)
    requires
        run.stage == Stage::OnCached(conn) || run.stage == Stage::OnFresh(conn),
        s.pool.wf(),
        usable(conn, run.bearer, now),
    ensures
        ({
            let n = next(s, run, RunEvent::Ended { result: Ok(()), at_limit });
            &&& n.action is Finish
            &&& n.stage is Over
            &&& checked_out(n.shared.pool, run.key, run.bearer, now) == Some(conn)
            &&& !n.shared.busy.contains(run.key)
        }),
{
    crate::pool::released_is_checked_out(s.pool, run.key, conn, run.bearer, now);
}

/// After a request that failed, the connection is not kept. A kept connection that broke
/// is replaced by a new one without a word; any other failure is reported as it is.
pub proof fn broken_connections_are_not_kept(s: Shared, run: Run, conn: Conn, e: LlmError, at_limit: bool)
    requires
        run.stage == Stage::OnCached(conn) || run.stage == Stage::OnFresh(conn),
    ensures
        ({
            let n = next(s, run, RunEvent::Ended { result: Err(e), at_limit });
            let again = run.stage is OnCached && recoverable(e, at_limit);
            &&& n.shared.pool.conns == s.pool.conns
            &&& again ==> n.stage is Missing && n.action is Check
            &&& !again ==> n.stage is Over && n.action == RunAction::Fail(WsTurnError::Other(e)) && !n.shared.busy.contains(
                run.key,
            )
        }),
{
}

/// Only a stream that broke without an answer is tried again, and not at the limit of the
/// account.
pub proof fn only_broken_streams_are_tried_again(e: LlmError, at_limit: bool)
    ensures
        recoverable(e, at_limit) ==> !at_limit,
        recoverable(e, at_limit) ==> (e matches LlmError::HttpStatus(code, body) && code == 0 && begins(
            body@,
            "stream error:"@,
        )),
        e matches LlmError::HttpStatus(code, body) ==> code == 0 && begins(body@, "stream error:"@) && !at_limit
            ==> recoverable(e, at_limit),
{
}

/// A key that is taken out leaves nothing of its connection in the pool: a run that
/// begins holds the fitting connection or has to open one.
pub proof fn runs_begin_with_the_kept_connection(s: Shared, run: Run, now: u64)
    requires
        run.stage is Waiting,
        !s.busy.contains(run.key),
    ensures
        ({
            let n = next(s, run, RunEvent::Proceed { aborted: false, now });
            &&& n.shared.busy.contains(run.key)
            &&& match checked_out(s.pool, run.key, run.bearer, now) {
                Some(conn) => n.stage == Stage::Holding(conn),
                None => n.stage is Missing,
            }
        }),
{
}

/// A run whose key others are at work on waits, or is skipped where it is not to wait.
pub proof fn busy_keys_are_waited_for(s: Shared, run: Run, now: u64)
    requires
        run.stage is Waiting,
        s.busy.contains(run.key),
    ensures
        run.waits ==> next(s, run, RunEvent::Proceed { aborted: false, now }).action is Wait,
        !run.waits ==> next(s, run, RunEvent::Proceed { aborted: false, now }).action is Skip,
        next(s, run, RunEvent::Proceed { aborted: false, now }).shared == s,
{
}

/// Every new connection is counted once, and every silent replacement once.
pub proof fn connections_are_counted(s: Shared, run: Run, conn: Conn, e: LlmError, now: u64)
    requires
        s.pool.stats.upgrades < u64::MAX,
        s.pool.stats.silent_reconnects < u64::MAX,
        s.pool.stats.chain_strips_on_fresh < u64::MAX,
    ensures
        run.stage == Stage::Opened(conn) ==> ({
            let stats = next(s, run, RunEvent::Proceed { aborted: false, now }).shared.pool.stats;
            &&& stats.upgrades == s.pool.stats.upgrades + 1
            &&& stats.chain_strips_on_fresh == s.pool.stats.chain_strips_on_fresh + (if run.chained {
                1int
            } else {
                0int
            })
            &&& stats.silent_reconnects == s.pool.stats.silent_reconnects
        }),
        run.stage == Stage::OnCached(conn) && recoverable(e, false) ==> next(
            s,
            run,
            RunEvent::Ended { result: Err(e), at_limit: false },
        ).shared.pool.stats.silent_reconnects == s.pool.stats.silent_reconnects + 1,
{
}

/// A run that waits and is given up lets go of its key, whatever it has come to, and keeps
/// the connection that it held for others.
pub proof fn canceled_runs_let_go(s: Shared, run: Run, conn: Conn, now: u64)
    requires
        run.waits,
        run.stage == Stage::Holding(conn) || run.stage is Missing || run.stage == Stage::Opened(conn),
    ensures
        ({
            let n = next(s, run, RunEvent::Proceed { aborted: true, now });
            &&& n.action == RunAction::Fail(WsTurnError::Canceled)
            &&& n.stage is Over
            &&& !n.shared.busy.contains(run.key)
            &&& n.shared.pool == (if run.stage == Stage::Holding(conn) {
                released(s.pool, run.key, conn)
            } else {
                s.pool
            })
        }),
{
}

/// A run that does not wait is not given up either.
pub proof fn runs_that_do_not_wait_go_on(s: Shared, run: Run, now: u64)
    requires
        !run.waits,
    ensures
        next(s, run, RunEvent::Proceed { aborted: true, now }) == next(s, run, RunEvent::Proceed { aborted: false, now }),
{
}

/// A run that cannot connect fails with what went wrong, and lets go of its key.
pub proof fn runs_without_a_connection_fail(s: Shared, run: Run, e: LlmError)
    requires
        run.stage is Opening,
    ensures
        ({
            let n = next(s, run, RunEvent::Connected(Err(e)));
            &&& n.action == RunAction::Fail(WsTurnError::Other(e))
            &&& n.stage is Over
            &&& !n.shared.busy.contains(run.key)
            &&& n.shared.pool == s.pool
        }),
{
}

} // verus!
