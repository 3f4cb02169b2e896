//! What holds of tool calls that wait and run beside each other.
use vstd::prelude::*;
use crate::minting::{agent_name, hex_digits};
use crate::text::{begins, digit_char};
use crate::tool_turn::{
    after_background, after_due, after_end, after_start, compatible, due_ids, first_that_may_start, next_deadline,
    running_at, startable, started, BackgroundSupport, Running, ToolExecutionMode, ToolTurnLockScope, Turn, Waiting,
};

verus! {

/// An exclusive call runs beside nothing, an update beside no other update, and shared
/// calls beside each other. Which of two calls came first makes no difference.
pub proof fn modes_go_together_or_not(a: ToolExecutionMode, b: ToolExecutionMode)
    ensures
        compatible(a, b) == compatible(b, a),
        !compatible(ToolExecutionMode::Exclusive, a),
        !compatible(ToolExecutionMode::Update, ToolExecutionMode::Update),
        a != ToolExecutionMode::Exclusive ==> compatible(ToolExecutionMode::Shared, a),
{
}

/// A call that starts finds no call of its conversation that it cannot run beside, unless
/// that one is a launcher in the background.
pub proof fn calls_start_beside_fitting_calls(t: Turn, k: int)
    requires
        startable(t) is Some,
        0 <= k < t.running.len(),
        t.running[k].conversation == t.waiting[startable(t)->Some_0].conversation,
        t.running[k].scope == ToolTurnLockScope::Normal || !t.running[k].backgrounded,
    ensures
        compatible(t.running[k].mode, t.waiting[startable(t)->Some_0].mode),
        0 <= startable(t)->Some_0 < t.waiting.len(),
{
    first_that_may_start(t);
}

/// A call that starts leaves those that wait and runs as what it was asked for, in the
/// foreground.
pub proof fn started_calls_run(t: Turn, i: int, now: u64, j: int)
    requires
        0 <= i < t.waiting.len(),
    ensures
        ({
            let after = after_start(t, i, now);
            let w = t.waiting[i];
            &&& after.running.len() == t.running.len() + 1
            &&& 0 <= j < t.running.len() ==> after.running[j] == t.running[j]
            &&& after.running.last().id == w.invocation.id@
            &&& after.running.last().conversation == w.conversation
            &&& after.running.last().mode == w.mode
            &&& after.running.last().scope == w.scope
            &&& !after.running.last().backgrounded
            &&& after.waiting.len() == t.waiting.len() - 1
            &&& 0 <= j < i ==> after.waiting[j] == t.waiting[j]
            &&& i <= j < after.waiting.len() ==> after.waiting[j] == t.waiting[j + 1]
        }),
{
}

/// A call that may leave the foreground after some seconds has its deadline so many
/// seconds after its start; no other call has one.
pub proof fn deadlines_are_seconds_away(w: Waiting, now: u64)
    ensures
        w.background matches BackgroundSupport::MinForegroundSeconds(seconds) ==> now + 1000 * seconds <= u64::MAX
            ==> started(w, now).deadline == Some((now + 1000 * seconds) as u64),
        w.background matches BackgroundSupport::MinForegroundSeconds(seconds) ==> now + 1000 * seconds > u64::MAX
            ==> started(w, now).deadline == Some(u64::MAX),
        !(w.background is MinForegroundSeconds) ==> started(w, now).deadline is None,
{
}

proof fn lemma_running_at(running: Seq<Running>, id: Seq<char>)
    ensures
        running_at(running, id) matches Some(i) ==> 0 <= i < running.len() && running[i].id == id && forall|j: int|
            0 <= j < i ==> (#[trigger] running[j]).id != id,
        running_at(running, id) is None ==> forall|k: int| 0 <= k < running.len() ==> (#[trigger] running[k]).id != id,
    decreases running.len(),
{
    if running.len() > 0 {
        let short = running.drop_last();
        lemma_running_at(short, id);
        match running_at(short, id) {
            Some(i) => {
                assert(short[i] == running[i]);
                assert forall|j: int| 0 <= j < i implies (#[trigger] running[j]).id != id by {
                    assert(short[j] == running[j]);
                }
            },
            None => {
                assert forall|k: int| 0 <= k < running.len() - 1 implies (#[trigger] running[k]).id != id by {
                    assert(short[k] == running[k]);
                }
            },
        }
    }
}

/// A call that ends is gone, and all other calls go on as they were.
pub proof fn ended_calls_are_gone(t: Turn, i: int)
    requires
        0 <= i < t.running.len(),
        forall|a: int, b: int|
            0 <= a < b < t.running.len() ==> (#[trigger] t.running[a]).id != (#[trigger] t.running[b]).id,
    ensures
        after_end(t, t.running[i].id).running == t.running.remove(i),
        after_end(t, t.running[i].id).waiting == t.waiting,
{
    lemma_running_at(t.running, t.running[i].id);
    let k = running_at(t.running, t.running[i].id)->Some_0;
    if k < i {
        assert(t.running[k].id != t.running[i].id);
    }
    if i < k {
        assert(t.running[i].id != t.running[k].id);
    }
}

/// A call that is unknown ends nothing.
pub proof fn unknown_calls_end_nothing(t: Turn, id: Seq<char>)
    requires
        forall|k: int| 0 <= k < t.running.len() ==> (#[trigger] t.running[k]).id != id,
    ensures
        after_end(t, id) == t,
        after_background(t, id) == t,
{
    lemma_running_at(t.running, id);
}

/// A call that goes to the background goes on as it was but for that, and so do all
/// others.
pub proof fn backgrounded_calls_go_on(t: Turn, i: int, j: int)
    requires
        0 <= i < t.running.len(),
        0 <= j < t.running.len(),
        forall|a: int, b: int|
            0 <= a < b < t.running.len() ==> (#[trigger] t.running[a]).id != (#[trigger] t.running[b]).id,
    ensures
        ({
            let after = after_background(t, t.running[i].id);
            &&& after.running.len() == t.running.len()
            &&& after.running[i] == (Running { backgrounded: true, ..t.running[i] })
            &&& j != i ==> after.running[j] == t.running[j]
            &&& after.waiting == t.waiting
        }),
{
    lemma_running_at(t.running, t.running[i].id);
    let k = running_at(t.running, t.running[i].id)->Some_0;
    if k < i {
        assert(t.running[k].id != t.running[i].id);
    }
    if i < k {
        assert(t.running[i].id != t.running[k].id);
    }
}

/// The calls that are due are those in the foreground whose deadline has come, and they
/// alone go to the background.
pub proof fn due_calls_leave_the_foreground(running: Seq<Running>, now: u64, i: int)
    requires
        0 <= i < running.len(),
    ensures
        !running[i].backgrounded && (running[i].deadline matches Some(d) && d <= now) ==> due_ids(running, now).contains(
            running[i].id,
        ) && after_due(running, now)[i] == (Running { backgrounded: true, ..running[i] }),
        running[i].backgrounded || (running[i].deadline matches Some(d) ==> d > now) ==> after_due(running, now)[i]
            == running[i],
        after_due(running, now).len() == running.len(),
    decreases running.len(),
{
    if !running[i].backgrounded && (running[i].deadline matches Some(d) && d <= now) {
        let short = running.drop_last();
        let before = due_ids(short, now);
        if i < short.len() {
            due_calls_leave_the_foreground(short, now, i);
            let k = choose|k: int| 0 <= k < before.len() && before[k] == short[i].id;
            assert(due_ids(running, now)[k] == running[i].id);
        } else {
            assert(due_ids(running, now)[before.len() as int] == running[i].id);
        }
    }
}

/// Every call that is said to be due is in the foreground and past its deadline.
pub proof fn only_due_calls_are_due(running: Seq<Running>, now: u64, k: int)
    requires
        0 <= k < due_ids(running, now).len(),
    ensures
        exists|i: int|
            0 <= i < running.len() && (#[trigger] running[i]).id == due_ids(running, now)[k] && !running[i].backgrounded
                && (running[i].deadline matches Some(d) && d <= now),
    decreases running.len(),
{
    let short = running.drop_last();
    let before = due_ids(short, now);
    if k < before.len() {
        only_due_calls_are_due(short, now, k);
        let i = choose|i: int|
            0 <= i < short.len() && (#[trigger] short[i]).id == before[k] && !short[i].backgrounded && (short[i].deadline matches Some(
                d,
            ) && d <= now);
        assert(running[i] == short[i]);
    } else {
        assert(running[running.len() - 1].id == due_ids(running, now)[k]);
    }
}

/// The next deadline is that of a call in the foreground, and none of them has an earlier
/// one.
pub proof fn the_next_deadline_is_the_earliest(running: Seq<Running>, i: int)
    ensures
        next_deadline(running) matches Some(d) ==> exists|k: int|
            0 <= k < running.len() && !(#[trigger] running[k]).backgrounded && running[k].deadline == Some(d),
        0 <= i < running.len() && !running[i].backgrounded && running[i].deadline is Some ==> (next_deadline(running) matches Some(
            d,
        ) && d <= running[i].deadline->Some_0),
    decreases running.len(),
{
    if running.len() > 0 {
        let short = running.drop_last();
        let n = running.len() - 1;
        the_next_deadline_is_the_earliest(short, i);
        if let Some(d) = next_deadline(short) {
            let k = choose|k: int|
                0 <= k < short.len() && !(#[trigger] short[k]).backgrounded && short[k].deadline == Some(d);
            assert(running[k] == short[k]);
        }
        assert(running[n] == running.last());
        if 0 <= i < n {
            assert(short[i] == running[i]);
        }
    }
}

proof fn lemma_hex_digits(n: nat, width: nat, i: int)
    ensures
        hex_digits(n, width).len() == width,
        0 <= i < width ==> exists|d: int| 0 <= d < 16 && hex_digits(n, width)[i] == #[trigger] digit_char(d),
    decreases width,
{
    if width > 0 {
        lemma_hex_digits(n / 16, (width - 1) as nat, i);
        if i == width - 1 {
            assert(hex_digits(n, width)[i] == digit_char((n % 16) as int));
        }
    }
}

/// The name of an agent is its role, an underscore and as many hexadecimal digits as are
/// asked for.
pub proof fn agents_are_named_after_their_role(role: Seq<char>, n: nat, width: nat, i: int)
    ensures
        begins(agent_name(role, n, width), role + seq!['_']),
        agent_name(role, n, width).len() == role.len() + 1 + width,
        role.len() < i < agent_name(role, n, width).len() ==> exists|d: int|
            0 <= d < 16 && agent_name(role, n, width)[i] == #[trigger] digit_char(d),
{
    lemma_hex_digits(n, width, i - role.len() - 1);
    assert(agent_name(role, n, width).take(role.len() as int + 1) =~= role + seq!['_']);
}

} // verus!
