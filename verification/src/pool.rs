//! Cached connections to a provider, one for each conversation, and the course of
//! a turn over them.
//!
//! The provider remembers the last response of each connection, so a conversation
//! keeps its own. A connection is taken out while a turn runs over it; other turns
//! of the same conversation wait for it.
use vstd::prelude::*;
use vstd::string::*;
use crate::context::PromptOriginator;
use crate::text::{chars_of, same};

verus! {

/// How many connections are kept where nothing else is configured.
pub const DEFAULT_POOL_MAX: usize = 10;

/// The variable by which another number is configured.
pub const POOL_MAX_ENV: &'static str = "TAU_WS_POOL_MAX";

/// The age at which a connection is no longer used, in milliseconds. The server
/// closes it five minutes later.
pub const MAX_CONNECTION_AGE: u64 = 3_300_000;

// ---------------------------------------------------------------------------
// Keys and connections
// ---------------------------------------------------------------------------

/// What a connection is kept for.
#[derive(Debug, PartialEq, Eq)]
pub struct PoolKey {
    pub base_url: String,
    pub account_id: Option<String>,
    pub session_id: String,
    pub conversation_id: String,
}

/// What a `PoolKey` holds.
pub struct Key {
    pub base_url: Seq<char>,
    pub account: Option<Seq<char>>,
    pub session: Seq<char>,
    pub conversation: Seq<char>,
}

impl PoolKey {
    pub open spec fn view(&self) -> Key {
        Key {
            base_url: self.base_url@,
            account: crate::session::option_text(self.account_id),
            session: self.session_id@,
            conversation: self.conversation_id@,
        }
    }
}

impl Clone for PoolKey {
    fn clone(&self) -> (r: PoolKey)
        ensures
            r@ == self@,
    {
        PoolKey {
            base_url: self.base_url.clone(),
            account_id: match &self.account_id {
                Some(id) => Some(id.clone()),
                None => None,
            },
            session_id: self.session_id.clone(),
            conversation_id: self.conversation_id.clone(),
        }
    }
}

/// The conversation of whoever asks.
pub open spec fn conversation_of(originator: PromptOriginator) -> Seq<char> {
    match originator {
        PromptOriginator::User => "user"@,
        PromptOriginator::Extension { name, query_id } => "extension/"@ + name@ + "/"@ + query_id@,
    }
}

/// The conversation of whoever asks.
pub fn conversation_id(originator: &PromptOriginator) -> (r: String)
    ensures
        r@ == conversation_of(*originator),
{
    match originator {
        PromptOriginator::User => "user".to_owned(),
        PromptOriginator::Extension { name, query_id } => {
            let mut r = "extension/".to_owned();
            r.append(name.as_str());
            r.append("/");
            r.append(query_id.as_str());
            r
        },
    }
}

/// How the provider is reached.
#[derive(Debug, PartialEq, Eq)]
pub struct ResponsesConfig {
    pub base_url: String,
    pub api_key: String,
    pub account_id: Option<String>,
}

impl PoolKey {
    /// The key for a request.
    pub fn for_request(config: &ResponsesConfig, session_id: &str, originator: &PromptOriginator) -> (r: PoolKey)
        ensures
            r@ == (Key {
                base_url: config.base_url@,
                account: crate::session::option_text(config.account_id),
                session: session_id@,
                conversation: conversation_of(*originator),
            }),
    {
        PoolKey {
            base_url: config.base_url.clone(),
            account_id: match &config.account_id {
                Some(id) => Some(id.clone()),
                None => None,
            },
            session_id: session_id.to_owned(),
            conversation_id: conversation_id(originator),
        }
    }
}

/// Whether two keys are the same.
pub fn same_key(a: &PoolKey, b: &PoolKey) -> (r: bool)
    ensures
        r == (a@ == b@),
{
    let accounts = match (&a.account_id, &b.account_id) {
        (Some(x), Some(y)) => same(x.as_str(), y.as_str()),
        (None, None) => true,
        _ => false,
    };
    accounts && same(a.base_url.as_str(), b.base_url.as_str()) && same(a.session_id.as_str(), b.session_id.as_str())
        && same(a.conversation_id.as_str(), b.conversation_id.as_str())
}

/// A connection that is kept: the number under which it is held, the key it was
/// opened with, and when that was, in milliseconds.
#[derive(Debug, PartialEq, Eq)]
pub struct WsConn {
    pub handle: u64,
    pub bearer: String,
    pub opened_at: u64,
}

/// What a `WsConn` holds.
pub struct Conn {
    pub handle: u64,
    pub bearer: Seq<char>,
    pub opened_at: u64,
}

impl WsConn {
    pub open spec fn view(&self) -> Conn {
        Conn { handle: self.handle, bearer: self.bearer@, opened_at: self.opened_at }
    }
}

/// Counts of what happened to the connections.
#[derive(Clone, Copy, Debug, PartialEq, Eq, Structural)]
pub struct WsPoolStats {
    /// Connections opened.
    pub upgrades: u64,
    /// Kept connections that died during a turn and were replaced.
    pub silent_reconnects: u64,
    /// Requests whose chain was dropped because their connection was new.
    pub chain_strips_on_fresh: u64,
}

// ---------------------------------------------------------------------------
// The pool
// ---------------------------------------------------------------------------

/// The connections that are kept, the one used last first.
#[derive(Debug, PartialEq, Eq)]
pub struct WsPool {
    conns: Vec<(PoolKey, WsConn)>,
    max: usize,
    stats: WsPoolStats,
}

/// What a `WsPool` holds.
#[verifier::ext_equal]
pub struct Pool {
    pub conns: Seq<(Key, Conn)>,
    pub max: nat,
    pub stats: WsPoolStats,
}

/// The place of a key.
pub open spec fn place_of(conns: Seq<(Key, Conn)>, key: Key) -> Option<int>
    decreases conns.len(),
{
    if conns.len() == 0 {
        None
    } else {
        match place_of(conns.drop_last(), key) {
            Some(i) => Some(i),
            None => if conns.last().0 == key {
                Some(conns.len() - 1)
            } else {
                None
            },
        }
    }
}

impl Pool {
    /// Every key is there once, and no more connections than may be kept.
    pub open spec fn wf(self) -> bool {
        &&& self.max > 0
        &&& self.conns.len() <= self.max
        &&& forall|i: int, j: int|
            0 <= i < j < self.conns.len() ==> (#[trigger] self.conns[i]).0 != (#[trigger] self.conns[j]).0
    }

    /// The pool without the connection of a key.
    pub open spec fn without(self, key: Key) -> Pool {
        match place_of(self.conns, key) {
            Some(i) => Pool { conns: self.conns.remove(i), ..self },
            None => self,
        }
    }
}

/// Whether a kept connection can serve a request.
pub open spec fn usable(conn: Conn, bearer: Seq<char>, now: u64) -> bool {
    conn.bearer == bearer && now - conn.opened_at < MAX_CONNECTION_AGE
}

/// The connection that serves a request; the pool no longer holds it, nor one that
/// cannot serve.
pub open spec fn checked_out(p: Pool, key: Key, bearer: Seq<char>, now: u64) -> Option<Conn> {
    match place_of(p.conns, key) {
        Some(i) => if usable(p.conns[i].1, bearer, now) {
            Some(p.conns[i].1)
        } else {
            None
        },
        None => None,
    }
}

/// The pool after a connection came back: it stands first, and where there was no
/// room for it, the one used longest ago is gone.
pub open spec fn released(p: Pool, key: Key, conn: Conn) -> Pool {
    let made_room = if p.conns.len() >= p.max && place_of(p.conns, key) is None {
        Pool { conns: p.conns.drop_last(), ..p }
    } else {
        p.without(key)
    };
    Pool { conns: seq![(key, conn)] + made_room.conns, ..p }
}

proof fn lemma_place(conns: Seq<(Key, Conn)>, key: Key, i: int)
    requires
        0 <= i <= conns.len(),
        forall|k: int| 0 <= k < i ==> (#[trigger] conns[k]).0 != key,
        i < conns.len() ==> conns[i].0 == key,
    ensures
        place_of(conns, key) == if i < conns.len() {
            Some(i)
        } else {
            None
        },
    decreases conns.len(),
{
    if conns.len() > 0 {
        let init = conns.drop_last();
        lemma_place(
            init,
            key,
            if i <= init.len() {
                i
            } else {
                init.len() as int
            },
        );
    }
}

proof fn lemma_place_range(conns: Seq<(Key, Conn)>, key: Key)
    ensures
        place_of(conns, key) matches Some(i) ==> 0 <= i < conns.len() && conns[i].0 == key,
        place_of(conns, key) is None ==> forall|k: int| 0 <= k < conns.len() ==> (#[trigger] conns[k]).0 != key,
    decreases conns.len(),
{
    if conns.len() > 0 {
        let init = conns.drop_last();
        lemma_place_range(init, key);
        assert forall|k: int| 0 <= k < conns.len() && place_of(conns, key) is None implies (
        #[trigger] conns[k]).0 != key by {
            if k < init.len() {
                assert(init[k].0 != key);
            }
        }
    }
}

/// The number that a text reads as in decimal, an optional plus in front; none
/// where it reads as no number that fits.
pub open spec fn digits_value(s: Seq<char>) -> Option<nat>
    decreases s.len(),
{
    if s.len() == 0 {
        Some(0)
    } else if '0' <= s.last() && s.last() <= '9' {
        match digits_value(s.drop_last()) {
            Some(n) => Some((10 * n + (s.last() as u32 - '0' as u32)) as nat),
            None => None,
        }
    } else {
        None
    }
}

/// The digits of a number that may have a plus in front.
pub open spec fn after_plus(s: Seq<char>) -> Seq<char> {
    if s.len() > 0 && s[0] == '+' {
        s.skip(1)
    } else {
        s
    }
}

/// The number of connections that a setting asks for.
pub open spec fn configured_max(setting: Option<Seq<char>>) -> nat {
    match setting {
        Some(s) => {
            let digits = after_plus(s);
            match digits_value(digits) {
                Some(n) => if digits.len() > 0 && 0 < n <= usize::MAX {
                    n
                } else {
                    DEFAULT_POOL_MAX as nat
                },
                None => DEFAULT_POOL_MAX as nat,
            }
        },
        None => DEFAULT_POOL_MAX as nat,
    }
}

proof fn lemma_digits_grow(s: Seq<char>, k: int)
    requires
        0 <= k <= s.len(),
        digits_value(s) is Some,
    ensures
        digits_value(s.take(k)) matches Some(n) && n <= digits_value(s)->Some_0,
    decreases s.len() - k,
{
    if k == s.len() {
        assert(s.take(k) =~= s);
    } else {
        lemma_digits_of_beginning(s, k + 1);
        lemma_digits_grow(s, k + 1);
        assert(s.take(k + 1).drop_last() =~= s.take(k));
    }
}

proof fn lemma_digits_of_beginning(s: Seq<char>, k: int)
    requires
        0 <= k <= s.len(),
        digits_value(s) is Some,
    ensures
        digits_value(s.take(k)) is Some,
    decreases s.len() - k,
{
    if k == s.len() {
        assert(s.take(k) =~= s);
    } else {
        lemma_digits_of_beginning(s, k + 1);
        assert(s.take(k + 1).drop_last() =~= s.take(k));
    }
}

/// Reads a decimal number that fits.
fn read_digits(v: &Vec<char>, from: usize) -> (r: Option<usize>)
    requires
        from <= v.len(),
    ensures
        match r {
            Some(n) => digits_value(v@.skip(from as int)) == Some(n as nat),
            None => digits_value(v@.skip(from as int)) matches Some(n) ==> n > usize::MAX,
        },
{
    let ghost digits = v@.skip(from as int);
    let mut n: usize = 0;
    let mut i: usize = from;
    assert(digits.take(0) =~= Seq::empty());
    while i < v.len()
        invariant
            from <= i <= v.len(),
            digits == v@.skip(from as int),
            digits_value(digits.take(i - from)) == Some(n as nat),
        decreases v.len() - i,
    {
        let ghost upto = digits.take(i - from + 1);
        proof {
            assert(upto.drop_last() =~= digits.take(i - from));
            assert(upto.last() == v@[i as int]);
        }
        let c = v[i];
        if !('0' <= c && c <= '9') {
            proof {
                if digits_value(digits) is Some {
                    lemma_digits_of_beginning(digits, i - from + 1);
                }
            }
            return None;
        }
        let d: usize = (c as u32 - '0' as u32) as usize;
        let bigger: u128 = 10 * (n as u128) + d as u128;
        if bigger > usize::MAX as u128 {
            proof {
                if digits_value(digits) is Some {
                    lemma_digits_grow(digits, i - from + 1);
                }
            }
            return None;
        }
        n = bigger as usize;
        i += 1;
    }
    assert(digits.take(digits.len() as int) =~= digits);
    Some(n)
}

/// The number of connections that a setting asks for.
pub fn pool_max(setting: Option<&str>) -> (r: usize)
    ensures
        r == configured_max(
            match setting {
                Some(s) => Some(s@),
                None => None,
            },
        ),
        r > 0,
{
    match setting {
        Some(s) => {
            let v = chars_of(s);
            let from: usize = if v.len() > 0 && v[0] == '+' {
                1
            } else {
                0
            };
            assert(v@.skip(0) =~= v@);
            assert(v@.skip(from as int) =~= after_plus(s@));
            if from == v.len() {
                return DEFAULT_POOL_MAX;
            }
            match read_digits(&v, from) {
                Some(n) => if n > 0 {
                    n
                } else {
                    DEFAULT_POOL_MAX
                },
                None => DEFAULT_POOL_MAX,
            }
        },
        None => DEFAULT_POOL_MAX,
    }
}

impl WsPool {
    pub closed spec fn view(&self) -> Pool {
        Pool {
            conns: Seq::new(self.conns@.len(), |i: int| (self.conns@[i].0@, self.conns@[i].1@)),
            max: self.max as nat,
            stats: self.stats,
        }
    }

    /// An empty pool. `setting` is what the variable for its size holds.
    pub fn new(setting: Option<&str>) -> (r: WsPool)
        ensures
            r@.wf(),
            r@ == (Pool {
                conns: Seq::empty(),
                max: configured_max(
                    match setting {
                        Some(s) => Some(s@),
                        None => None,
                    },
                ),
                stats: WsPoolStats { upgrades: 0, silent_reconnects: 0, chain_strips_on_fresh: 0 },
            }),
    {
        let max = pool_max(setting);
        let r = WsPool {
            conns: Vec::new(),
            max,
            stats: WsPoolStats { upgrades: 0, silent_reconnects: 0, chain_strips_on_fresh: 0 },
        };
        assert(r@.conns =~= Seq::empty());
        r
    }

    /// The counts so far.
    pub fn stats(&self) -> (r: WsPoolStats)
        ensures
            r == self@.stats,
    {
        self.stats
    }

    /// Replaces the counts.
    pub fn set_stats(&mut self, stats: WsPoolStats)
        ensures
            final(self)@ == (Pool { stats, ..old(self)@ }),
    {
        let ghost before = self@;
        self.stats = stats;
        assert(self@ =~= Pool { stats, ..before });
    }

    /// The number of connections that are kept.
    pub fn len(&self) -> (r: usize)
        ensures
            r == self@.conns.len(),
    {
        self.conns.len()
    }

    fn position(&self, key: &PoolKey) -> (r: Option<usize>)
        ensures
            match r {
                Some(i) => i < self@.conns.len() && place_of(self@.conns, key@) == Some(i as int),
                None => place_of(self@.conns, key@) is None,
            },
    {
        let ghost conns = self@.conns;
        let mut i: usize = 0;
        while i < self.conns.len()
            invariant
                i <= self.conns.len(),
                conns == self@.conns,
                forall|k: int| 0 <= k < i ==> (#[trigger] conns[k]).0 != key@,
            decreases self.conns.len() - i,
        {
            assert(conns[i as int].0 == self.conns@[i as int].0@);
            if same_key(&self.conns[i].0, key) {
                proof {
                    lemma_place(conns, key@, i as int);
                }
                return Some(i);
            }
            i += 1;
        }
        proof {
            lemma_place(conns, key@, conns.len() as int);
        }
        None
    }

    /// Takes the connection of a key out of the pool. One that was opened with
    /// another bearer, or is too old, is dropped.
    pub fn checkout(&mut self, key: &PoolKey, current_bearer: &str, now: u64) -> (r: Option<WsConn>)
        requires
            old(self)@.wf(),
        ensures
            final(self)@.wf(),
            final(self)@ == old(self)@.without(key@),
            match r {
                Some(conn) => checked_out(old(self)@, key@, current_bearer@, now) == Some(conn@),
                None => checked_out(old(self)@, key@, current_bearer@, now) is None,
            },
    {
        let ghost before = self@;
        let i = match self.position(key) {
            Some(i) => i,
            None => {
                return None;
            },
        };
        let (_, conn) = self.conns.remove(i);
        proof {
            assert(conn@ == before.conns[i as int].1);
            assert(self@ =~= Pool { conns: before.conns.remove(i as int), ..before });
            lemma_without_wf(before, key@);
        }
        if !same(conn.bearer.as_str(), current_bearer) {
            return None;
        }
        if now >= conn.opened_at && now - conn.opened_at >= MAX_CONNECTION_AGE {
            return None;
        }
        Some(conn)
    }

    /// Puts a connection into the pool.
    pub fn release(&mut self, key: PoolKey, conn: WsConn)
        requires
            old(self)@.wf(),
        ensures
            final(self)@.wf(),
            final(self)@ == released(old(self)@, key@, conn@),
    {
        let ghost before = self@;
        proof {
            lemma_released_wf(before, key@, conn@);
        }
        match self.position(&key) {
            Some(i) => {
                self.conns.remove(i);
                assert(self@ =~= before.without(key@));
            },
            None => {
                if self.conns.len() >= self.max {
                    self.conns.pop();
                    assert(self@ =~= Pool { conns: before.conns.drop_last(), ..before });
                }
            },
        }
        let ghost made_room = self@.conns;
        let ghost added = (key@, conn@);
        self.conns.insert(0, (key, conn));
        assert(self@.conns =~= seq![added] + made_room);
        assert(self@ =~= released(before, added.0, added.1));
    }
}

proof fn lemma_without_wf(p: Pool, key: Key)
    requires
        p.wf(),
    ensures
        p.without(key).wf(),
        place_of(p.without(key).conns, key) is None,
{
    lemma_place_range(p.conns, key);
    match place_of(p.conns, key) {
        Some(i) => {
            let r = p.conns.remove(i);
            assert forall|a: int, b: int| 0 <= a < b < r.len() implies (#[trigger] r[a]).0 != (
            #[trigger] r[b]).0 by {
                let x = if a < i { a } else { a + 1 };
                let y = if b < i { b } else { b + 1 };
                assert(r[a] == p.conns[x] && r[b] == p.conns[y]);
            }
            assert forall|a: int| 0 <= a < r.len() implies (#[trigger] r[a]).0 != key by {
                let x = if a < i { a } else { a + 1 };
                assert(r[a] == p.conns[x]);
                if x < i {
                    assert(p.conns[x].0 != p.conns[i].0);
                } else {
                    assert(p.conns[i].0 != p.conns[x].0);
                }
            }
            lemma_place(r, key, r.len() as int);
        },
        None => {},
    }
}

proof fn lemma_released_wf(p: Pool, key: Key, conn: Conn)
    requires
        p.wf(),
    ensures
        released(p, key, conn).wf(),
{
    lemma_place_range(p.conns, key);
    lemma_without_wf(p, key);
    lemma_place_range(p.without(key).conns, key);
    let made_room = if p.conns.len() >= p.max && place_of(p.conns, key) is None {
        Pool { conns: p.conns.drop_last(), ..p }
    } else {
        p.without(key)
    };
    let r = released(p, key, conn).conns;
    assert forall|a: int, b: int| 0 <= a < b < r.len() implies (#[trigger] r[a]).0 != (#[trigger] r[b]).0 by {
        assert(r[b] == made_room.conns[b - 1]);
        if a > 0 {
            assert(r[a] == made_room.conns[a - 1]);
        }
    }
}

/// What was put into the pool is taken out again, as long as it can serve.
pub proof fn released_is_checked_out(p: Pool, key: Key, conn: Conn, bearer: Seq<char>, now: u64)
    requires
        p.wf(),
        usable(conn, bearer, now),
    ensures
        checked_out(released(p, key, conn), key, bearer, now) == Some(conn),
        place_of(released(p, key, conn).without(key).conns, key) is None,
{
    lemma_released_wf(p, key, conn);
    lemma_place(released(p, key, conn).conns, key, 0);
    lemma_without_wf(released(p, key, conn), key);
}

/// Putting a connection into a pool with room leaves the others in it.
pub proof fn release_keeps_the_others(p: Pool, key: Key, conn: Conn, other: Key, bearer: Seq<char>, now: u64)
    requires
        p.wf(),
        other != key,
        p.conns.len() < p.max || place_of(p.conns, key) is Some || place_of(p.conns, other) != Some(p.conns.len() - 1),
    ensures
        checked_out(released(p, key, conn), other, bearer, now) == checked_out(p, other, bearer, now),
{
    lemma_place_range(p.conns, key);
    lemma_place_range(p.conns, other);
    let r = released(p, key, conn).conns;
    match place_of(p.conns, other) {
        Some(i) => {
            let at: int = match place_of(p.conns, key) {
                Some(k) => if i < k {
                    i + 1
                } else {
                    i
                },
                None => i + 1,
            };
            assert(r[at] == p.conns[i]);
            assert forall|m: int| 0 <= m < at implies (#[trigger] r[m]).0 != other by {
                if m > 0 {
                    let from: int = match place_of(p.conns, key) {
                        Some(k) => if m - 1 < k {
                            m - 1
                        } else {
                            m
                        },
                        None => m - 1,
                    };
                    assert(r[m] == p.conns[from]);
                    assert(from < i);
                    assert(p.conns[from].0 != p.conns[i].0);
                }
            }
            lemma_place(r, other, at);
        },
        None => {
            assert forall|m: int| 0 <= m < r.len() implies (#[trigger] r[m]).0 != other by {
                if m > 0 {
                    let from: int = match place_of(p.conns, key) {
                        Some(k) => if m - 1 < k {
                            m - 1
                        } else {
                            m
                        },
                        None => m - 1,
                    };
                    assert(r[m] == p.conns[from]);
                }
            }
            lemma_place(r, other, r.len() as int);
        },
    }
}

} // verus!
