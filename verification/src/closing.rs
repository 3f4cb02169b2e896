//! The end of a harness.
use vstd::prelude::*;
use vstd::string::*;
use crate::error::{HarnessError, Trouble};
use crate::harness::{extensions_view, Harness};
use crate::handlers::trouble_of;
use crate::state::{ext_exited, ext_named, peers_without, Ext, Peer, State};
use crate::text::same;

verus! {

broadcast use crate::state::publishing_changes_the_log_alone;

/// How the thread of an extension ended.
#[derive(Debug, PartialEq, Eq)]
pub enum ThreadEnd {
    /// The extension has no thread of its own.
    NoThread,
    /// It came to its end.
    Ended,
    /// It failed.
    Failed(String),
    /// It could not be joined.
    Lost,
}

/// The connections that are left when those of extensions are taken off the list.
pub open spec fn hung_up(connections: Seq<Peer>, extensions: Seq<Ext>) -> Seq<Peer>
    decreases extensions.len(),
{
    if extensions.len() == 0 {
        connections
    } else {
        peers_without(hung_up(connections, extensions.drop_last()), extensions.last().connection_id)
    }
}

/// What the end of a thread comes to.
pub open spec fn end_trouble(name: Seq<char>, end: Option<ThreadEnd>) -> Option<Trouble> {
    match end {
        Some(ThreadEnd::Failed(message)) => Some(Trouble::Participant(message@)),
        Some(ThreadEnd::Lost) => Some(Trouble::ThreadJoin(name)),
        _ => None,
    }
}

/// The end of the thread of extension `i`; nothing is known beyond the list.
pub open spec fn end_of(ends: Seq<ThreadEnd>, i: int) -> Option<ThreadEnd> {
    if i < ends.len() {
        Some(ends[i])
    } else {
        None
    }
}

/// The state after the first `n` extensions have ended, up to the first one whose
/// end went wrong.
pub open spec fn ended(s: State, ends: Seq<ThreadEnd>, n: nat) -> (State, Option<Trouble>)
    decreases n,
{
    if n == 0 {
        (s, None)
    } else {
        let (before, trouble) = ended(s, ends, (n - 1) as nat);
        let name = s.extensions[n - 1].name;
        match trouble {
            Some(trouble) => (before, Some(trouble)),
            None => match end_trouble(name, end_of(ends, n - 1)) {
                Some(trouble) => (before, Some(trouble)),
                None => (ext_exited(before, name), None),
            },
        }
    }
}

/// The state after every extension was disconnected and has ended.
pub open spec fn shut_down(s: State, ends: Seq<ThreadEnd>) -> (State, Option<Trouble>) {
    ended(State { connections: hung_up(s.connections, s.extensions), ..s }, ends, s.extensions.len())
}

proof fn lemma_first_trouble_stays(s: State, ends: Seq<ThreadEnd>, n: nat, all: nat)
    requires
        n <= all,
        ended(s, ends, n).1 is Some,
    ensures
        ended(s, ends, all) == ended(s, ends, n),
    decreases all - n,
{
    if n < all {
        assert(ended(s, ends, n + 1) == ended(s, ends, n));
        lemma_first_trouble_stays(s, ends, n + 1, all);
    }
}

impl Harness {
    /// Ends the harness: its extensions are disconnected, and announced as gone
    /// once their threads have ended.
    pub fn shutdown(&mut self, ends: &Vec<ThreadEnd>) -> (r: Result<(), HarnessError>)
        requires
            old(self).wf(),
        ensures
            final(self).wf(),
            (final(self)@, trouble_of(r)) == shut_down(old(self)@, ends@),
    {
        let ghost first = self@;
        let total: usize = self.extensions.len();
        let mut i: usize = 0;
        assert(first.extensions.take(0) =~= Seq::empty());
        while i < total
            invariant
                self.wf(),
                i <= total,
                total == self.extensions.len(),
                total == first.extensions.len(),
                self@ == (State { connections: hung_up(first.connections, first.extensions.take(i as int)), ..first }),
            decreases total - i,
        {
            let id = self.extensions[i].connection_id.clone();
            proof {
                let seen = first.extensions.take(i + 1);
                assert(seen.drop_last() =~= first.extensions.take(i as int));
                assert(extensions_view(self.extensions@)[i as int] == first.extensions[i as int]);
                assert(seen.last() == first.extensions[i as int]);
            }
            self.remove_connection(id.as_str());
            assert(extensions_view(self.extensions@).len() == first.extensions.len());
            i += 1;
        }
        assert(first.extensions.take(total as int) =~= first.extensions);
        let ghost alone = self@;
        let mut k: usize = 0;
        while k < total
            invariant
                self.wf(),
                k <= total,
                total == self.extensions.len(),
                total == alone.extensions.len(),
                self@.extensions == alone.extensions,
                (self@, None::<Trouble>) == ended(alone, ends@, k as nat),
                first == old(self)@,
                shut_down(first, ends@) == ended(alone, ends@, total as nat),
            decreases total - k,
        {
            let name = self.extensions[k].name.clone();
            assert(extensions_view(self.extensions@)[k as int] == alone.extensions[k as int]);
            let ghost next = ended(alone, ends@, (k + 1) as nat);
            if k < ends.len() {
                match &ends[k] {
                    ThreadEnd::Failed(message) => {
                        proof {
                            assert(next.1 is Some);
                            lemma_first_trouble_stays(alone, ends@, (k + 1) as nat, total as nat);
                        }
                        return Err(HarnessError::Participant(message.clone()));
                    },
                    ThreadEnd::Lost => {
                        proof {
                            assert(next.1 is Some);
                            lemma_first_trouble_stays(alone, ends@, (k + 1) as nat, total as nat);
                        }
                        return Err(HarnessError::ThreadJoin(name));
                    },
                    ThreadEnd::NoThread => {},
                    ThreadEnd::Ended => {},
                }
            }
            self.emit_extension_exited(name.as_str());
            assert(extensions_view(self.extensions@).len() == alone.extensions.len());
            k += 1;
        }
        Ok(())
    }

    /// The connection of the first extension with this name.
    pub fn extension_connection_id(&self, name: &str) -> (r: Option<&str>)
        requires
            self.wf(),
        ensures
            match ext_named(self@.extensions, name@) {
                Some(i) => r matches Some(id) && id@ == self@.extensions[i].connection_id,
                None => r is None,
            },
    {
        let ghost all = self@.extensions;
        let mut i: usize = 0;
        assert(all.take(0) =~= Seq::empty());
        while i < self.extensions.len()
            invariant
                self.wf(),
                all == self@.extensions,
                i <= self.extensions.len(),
                ext_named(all.take(i as int), name@) is None,
            decreases self.extensions.len() - i,
        {
            proof {
                assert(all.take(i + 1).drop_last() =~= all.take(i as int));
                assert(extensions_view(self.extensions@)[i as int] == all[i as int]);
                assert(all.take(i + 1).last() == all[i as int]);
            }
            if same(self.extensions[i].name.as_str(), name) {
                proof {
                    assert(ext_named(all.take(i + 1), name@) == Some(i as int));
                    lemma_named_stays(all, name@, (i + 1) as int);
                }
                return Some(self.extensions[i].connection_id.as_str());
            }
            i += 1;
        }
        assert(all.take(all.len() as int) =~= all);
        None
    }
}

proof fn lemma_named_stays(extensions: Seq<Ext>, name: Seq<char>, n: int)
    requires
        0 <= n <= extensions.len(),
        ext_named(extensions.take(n), name) is Some,
    ensures
        ext_named(extensions, name) == ext_named(extensions.take(n), name),
    decreases extensions.len(),
{
    if n < extensions.len() {
        let init = extensions.drop_last();
        assert(init.take(n) =~= extensions.take(n));
        lemma_named_stays(init, name, n);
    } else {
        assert(extensions.take(n) =~= extensions);
    }
}

/// Every extension is gone from the connections once the harness has ended.
pub proof fn ended_harnesses_are_alone(s: State, ends: Seq<ThreadEnd>, i: int, k: int)
    requires
        0 <= i < s.extensions.len(),
    ensures
        0 <= k < shut_down(s, ends).0.connections.len() ==> shut_down(s, ends).0.connections[k].id
            != s.extensions[i].connection_id,
{
    let alone = State { connections: hung_up(s.connections, s.extensions), ..s };
    lemma_ending_keeps_connections(alone, ends, s.extensions.len());
    if 0 <= k < alone.connections.len() {
        lemma_hung_up(s.connections, s.extensions, i, k);
    }
}

proof fn lemma_ending_keeps_connections(s: State, ends: Seq<ThreadEnd>, n: nat)
    ensures
        ended(s, ends, n).0.connections == s.connections,
    decreases n,
{
    if n > 0 {
        lemma_ending_keeps_connections(s, ends, (n - 1) as nat);
    }
}

proof fn lemma_without(connections: Seq<Peer>, id: Seq<char>, k: int)
    requires
        0 <= k < peers_without(connections, id).len(),
    ensures
        peers_without(connections, id)[k].id != id,
        exists|j: int| 0 <= j < connections.len() && connections[j] == #[trigger] peers_without(connections, id)[k],
    decreases connections.len(),
{
    let init = connections.drop_last();
    let left = peers_without(init, id);
    if k < left.len() {
        lemma_without(init, id, k);
        let j = choose|j: int| 0 <= j < init.len() && init[j] == #[trigger] left[k];
        assert(connections[j] == peers_without(connections, id)[k]);
    } else {
        assert(connections[connections.len() - 1] == peers_without(connections, id)[k]);
    }
}

proof fn lemma_hung_up(connections: Seq<Peer>, extensions: Seq<Ext>, i: int, k: int)
    requires
        0 <= i < extensions.len(),
        0 <= k < hung_up(connections, extensions).len(),
    ensures
        hung_up(connections, extensions)[k].id != extensions[i].connection_id,
    decreases extensions.len(),
{
    let init = extensions.drop_last();
    let before = hung_up(connections, init);
    lemma_without(before, extensions.last().connection_id, k);
    if i < init.len() {
        let after = hung_up(connections, extensions);
        let j = choose|j: int| 0 <= j < before.len() && before[j] == #[trigger] after[k];
        lemma_hung_up(connections, init, i, j);
    }
}

} // verus!
