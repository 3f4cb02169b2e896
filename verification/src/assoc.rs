//! Association lists keyed by text.
use vstd::prelude::*;
use crate::text::same;

verus! {

/// The value filed under `key`.
#[verifier::opaque]
pub open spec fn lookup<V>(list: Seq<(Seq<char>, V)>, key: Seq<char>) -> Option<V>
    decreases list.len(),
{
    if list.len() == 0 {
        None
    } else if list[0].0 == key {
        Some(list[0].1)
    } else {
        lookup(list.drop_first(), key)
    }
}

/// The list with `value` filed under `key`: in place of the value that stood
/// there, or at the end.
#[verifier::opaque]
pub open spec fn stored<V>(list: Seq<(Seq<char>, V)>, key: Seq<char>, value: V) -> Seq<(Seq<char>, V)>
    decreases list.len(),
{
    if list.len() == 0 {
        seq![(key, value)]
    } else if list[0].0 == key {
        seq![(key, value)] + list.drop_first()
    } else {
        seq![list[0]] + stored(list.drop_first(), key, value)
    }
}

/// The list without what is filed under `key`.
#[verifier::opaque]
pub open spec fn removed<V>(list: Seq<(Seq<char>, V)>, key: Seq<char>) -> Seq<(Seq<char>, V)>
    decreases list.len(),
{
    if list.len() == 0 {
        list
    } else if list.last().0 == key {
        removed(list.drop_last(), key)
    } else {
        removed(list.drop_last(), key).push(list.last())
    }
}

pub proof fn lemma_found<V>(list: Seq<(Seq<char>, V)>, key: Seq<char>, value: V, i: int)
    requires
        0 <= i < list.len(),
        list[i].0 == key,
        forall|k: int| 0 <= k < i ==> (#[trigger] list[k]).0 != key,
    ensures
        lookup(list, key) == Some(list[i].1),
        stored(list, key, value) == list.update(i, (key, value)),
    decreases list.len(),
{
    reveal_with_fuel(lookup, 2);
    reveal_with_fuel(stored, 2);
    if i == 0 {
        assert(stored(list, key, value) =~= list.update(i, (key, value)));
    } else {
        assert(list[0].0 != key);
        lemma_found(list.drop_first(), key, value, i - 1);
        assert(stored(list, key, value) =~= list.update(i, (key, value)));
    }
}

pub proof fn lemma_missing<V>(list: Seq<(Seq<char>, V)>, key: Seq<char>, value: V)
    requires
        forall|k: int| 0 <= k < list.len() ==> (#[trigger] list[k]).0 != key,
    ensures
        lookup(list, key) is None,
        stored(list, key, value) == list.push((key, value)),
        removed(list, key) == list,
    decreases list.len(),
{
    reveal_with_fuel(lookup, 2);
    reveal_with_fuel(stored, 2);
    reveal_with_fuel(removed, 2);
    if list.len() > 0 {
        assert(list[0].0 != key);
        lemma_missing(list.drop_first(), key, value);
        lemma_missing(list.drop_last(), key, value);
        assert(removed(list, key) =~= list);
    }
    assert(stored(list, key, value) =~= list.push((key, value)));
}

/// What is found under a key stands somewhere in the list under that key; where
/// nothing is found the key does not occur.
pub proof fn lemma_lookup_stands<V>(list: Seq<(Seq<char>, V)>, key: Seq<char>)
    ensures
        lookup(list, key) matches Some(value) ==> exists|i: int|
            0 <= i < list.len() && (#[trigger] list[i]).0 == key && list[i].1 == value,
        lookup(list, key) is None ==> forall|i: int| 0 <= i < list.len() ==> (#[trigger] list[i]).0 != key,
    decreases list.len(),
{
    reveal_with_fuel(lookup, 2);
    if list.len() > 0 {
        let rest = list.drop_first();
        lemma_lookup_stands(rest, key);
        if list[0].0 == key {
            assert(list[0].0 == key && list[0].1 == lookup(list, key)->Some_0);
        } else if let Some(value) = lookup(list, key) {
            let i = choose|i: int| 0 <= i < rest.len() && (#[trigger] rest[i]).0 == key && rest[i].1 == value;
            assert(list[i + 1].0 == key && list[i + 1].1 == value);
        } else {
            assert forall|i: int| 0 <= i < list.len() implies (#[trigger] list[i]).0 != key by {
                if i > 0 {
                    assert(rest[i - 1].0 != key);
                }
            }
        }
    }
}

/// Whether no key occurs twice.
pub open spec fn keys_differ<V>(list: Seq<(Seq<char>, V)>) -> bool {
    forall|i: int, j: int| 0 <= i < j < list.len() ==> (#[trigger] list[i]).0 != (#[trigger] list[j]).0
}

/// Filing a value under `key` makes it what is found there, and leaves what is
/// found under every other key.
pub proof fn lookup_after_stored<V>(list: Seq<(Seq<char>, V)>, key: Seq<char>, value: V, other: Seq<char>)
    ensures
        lookup(stored(list, key, value), other) == (if other == key { Some(value) } else { lookup(list, other) }),
    decreases list.len(),
{
    reveal_with_fuel(lookup, 2);
    reveal_with_fuel(stored, 2);
    let after = stored(list, key, value);
    if list.len() == 0 {
        assert(lookup(after.drop_first(), other) is None);
    } else if list[0].0 == key {
        assert(after.drop_first() =~= list.drop_first());
    } else {
        lookup_after_stored(list.drop_first(), key, value, other);
        assert(after.drop_first() =~= stored(list.drop_first(), key, value));
    }
}

pub proof fn lemma_lookup_push<V>(list: Seq<(Seq<char>, V)>, entry: (Seq<char>, V), key: Seq<char>)
    ensures
        lookup(list.push(entry), key) == (match lookup(list, key) {
            Some(v) => Some(v),
            None => if entry.0 == key { Some(entry.1) } else { None },
        }),
    decreases list.len(),
{
    reveal_with_fuel(lookup, 2);
    let after = list.push(entry);
    if list.len() == 0 {
        assert(lookup(after.drop_first(), key) is None);
    } else {
        lemma_lookup_push(list.drop_first(), entry, key);
        assert(after.drop_first() =~= list.drop_first().push(entry));
    }
}

/// Filing a value keeps the keys apart.
pub proof fn stored_keys_differ<V>(list: Seq<(Seq<char>, V)>, key: Seq<char>, value: V)
    requires
        keys_differ(list),
    ensures
        keys_differ(stored(list, key, value)),
{
    lemma_lookup_stands(list, key);
    if lookup(list, key) is Some {
        let found = lookup(list, key)->Some_0;
        let i = choose|i: int| 0 <= i < list.len() && (#[trigger] list[i]).0 == key && list[i].1 == found;
        assert forall|k: int| 0 <= k < i implies (#[trigger] list[k]).0 != key by {
            assert(list[k].0 != list[i].0);
        }
        lemma_found(list, key, value, i);
        let after = stored(list, key, value);
        assert forall|a: int, b: int| 0 <= a < b < after.len() implies (#[trigger] after[a]).0 != (#[trigger] after[b]).0 by {
            assert(after[a].0 == list[a].0);
            assert(after[b].0 == list[b].0);
        }
    } else {
        lemma_missing(list, key, value);
        let after = stored(list, key, value);
        assert forall|a: int, b: int| 0 <= a < b < after.len() implies (#[trigger] after[a]).0 != (#[trigger] after[b]).0 by {
            assert(after[a] == list[a]);
            if b < list.len() {
                assert(after[b] == list[b]);
            }
        }
    }
}

/// After removal nothing is found under `key`, and every other key keeps what
/// was found there.
pub proof fn lookup_after_removed<V>(list: Seq<(Seq<char>, V)>, key: Seq<char>, other: Seq<char>)
    ensures
        lookup(removed(list, key), other) == (if other == key { None } else { lookup(list, other) }),
    decreases list.len(),
{
    reveal_with_fuel(lookup, 2);
    reveal_with_fuel(removed, 2);
    if list.len() > 0 {
        let init = list.drop_last();
        lookup_after_removed(init, key, other);
        assert(list =~= init.push(list.last()));
        lemma_lookup_push(init, list.last(), other);
        if list.last().0 != key {
            lemma_lookup_push(removed(init, key), list.last(), other);
        }
    }
}

/// An association list whose keys are strings.
#[derive(Clone, Debug, PartialEq, Eq)]
pub struct TextMap<V> {
    pub entries: Vec<(String, V)>,
}

/// The entries of an association list over the views of its keys and values.
pub open spec fn entries_view<V: View>(entries: Seq<(String, V)>) -> Seq<(Seq<char>, V::V)> {
    entries.map_values(|e: (String, V)| (e.0@, e.1@))
}

impl<V: View> TextMap<V> {
    pub open spec fn view(&self) -> Seq<(Seq<char>, V::V)> {
        entries_view(self.entries@)
    }

    /// The empty list.
    pub fn new() -> (r: TextMap<V>)
        ensures
            r@ == Seq::<(Seq<char>, V::V)>::empty(),
    {
        let r = TextMap { entries: Vec::new() };
        assert(r@ =~= Seq::<(Seq<char>, V::V)>::empty());
        r
    }

    /// Where `key` first stands in the list.
    pub fn position(&self, key: &str) -> (r: Option<usize>)
        ensures
            match r {
                Some(i) => i < self@.len() && self@[i as int].0 == key@ && forall|k: int|
                    0 <= k < i ==> (#[trigger] self@[k]).0 != key@,
                None => forall|k: int| 0 <= k < self@.len() ==> (#[trigger] self@[k]).0 != key@,
            },
    {
        let mut i: usize = 0;
        while i < self.entries.len()
            invariant
                i <= self.entries.len(),
                forall|k: int| 0 <= k < i ==> (#[trigger] self@[k]).0 != key@,
            decreases self.entries.len() - i,
        {
            assert(self@[i as int].0 == self.entries@[i as int].0@);
            if same(self.entries[i].0.as_str(), key) {
                return Some(i);
            }
            i += 1;
        }
        None
    }

    /// What is filed under `key`.
    pub fn get(&self, key: &str) -> (r: Option<&V>)
        ensures
            match r {
                Some(v) => lookup(self@, key@) == Some(v@),
                None => lookup(self@, key@) is None,
            },
    {
        match self.position(key) {
            Some(i) => {
                proof {
                    lemma_found(self@, key@, self@[i as int].1, i as int);
                }
                Some(&self.entries[i].1)
            },
            None => {
                proof {
                    reveal_with_fuel(lookup, 1);
                    if self@.len() > 0 {
                        lemma_missing(self@, key@, self@[0].1);
                    }
                }
                None
            },
        }
    }

    /// Whether something is filed under `key`.
    pub fn contains_key(&self, key: &str) -> (r: bool)
        ensures
            r == (lookup(self@, key@) is Some),
    {
        self.get(key).is_some()
    }

    /// Files `value` under `key`.
    pub fn insert(&mut self, key: String, value: V)
        ensures
            final(self)@ == stored(old(self)@, key@, value@),
    {
        let ghost before = self@;
        match self.position(key.as_str()) {
            Some(i) => {
                proof {
                    lemma_found(before, key@, value@, i as int);
                }
                self.entries.set(i, (key, value));
                assert(self@ =~= before.update(i as int, (key@, value@)));
            },
            None => {
                proof {
                    lemma_missing(before, key@, value@);
                }
                self.entries.push((key, value));
                assert(self@ =~= before.push((key@, value@)));
            },
        }
    }

    /// Takes out what is filed under `key`, and returns it.
    pub fn remove(&mut self, key: &str) -> (r: Option<V>)
        ensures
            final(self)@ == removed(old(self)@, key@),
            match r {
                Some(v) => lookup(old(self)@, key@) == Some(v@),
                None => lookup(old(self)@, key@) is None,
            },
    {
        proof {
            reveal_with_fuel(lookup, 1);
            reveal_with_fuel(removed, 1);
        }
        let ghost before = self@;
        let mut found: Option<V> = None;
        let mut kept: Vec<(String, V)> = Vec::new();
        let mut rest: Vec<(String, V)> = Vec::new();
        rest.append(&mut self.entries);
        assert(entries_view(rest@) =~= before);
        assert(entries_view(kept@) =~= removed(before.take(0), key@));
        let ghost mut done: int = 0;
        while rest.len() > 0
            invariant
                0 <= done,
                done + rest.len() == before.len(),
                entries_view(rest@) == before.skip(done),
                entries_view(kept@) == removed(before.take(done), key@),
                match found {
                    Some(v) => lookup(before.take(done), key@) == Some(v@),
                    None => lookup(before.take(done), key@) is None,
                },
            decreases rest.len(),
        {
            let ghost rest_before = entries_view(rest@);
            let entry = rest.remove(0);
            proof {
                reveal_with_fuel(removed, 1);
                assert(entries_view(rest@) =~= rest_before.drop_first());
                assert(before.skip(done).drop_first() =~= before.skip(done + 1));
                assert(rest_before[0] == (entry.0@, entry.1@));
                assert(before[done] == (entry.0@, entry.1@));
                let now = before.take(done + 1);
                assert(now.drop_last() =~= before.take(done));
                assert(now =~= before.take(done).push(before[done]));
                lemma_lookup_push(before.take(done), before[done], key@);
                assert(entries_view(rest@) =~= before.skip(done + 1));
            }
            if same(entry.0.as_str(), key) {
                if found.is_none() {
                    found = Some(entry.1);
                }
            } else {
                let ghost kept_before = entries_view(kept@);
                kept.push(entry);
                assert(entries_view(kept@) =~= kept_before.push((entry.0@, entry.1@)));
            }
            proof {
                done = done + 1;
            }
        }
        assert(before.take(done) =~= before);
        self.entries = kept;
        found
    }
}

} // verus!
