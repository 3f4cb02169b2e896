//! Stable sorting by text.
use vstd::prelude::*;
use crate::text::{less, text_less, texts};

verus! {

// ---------------------------------------------------------------------------
// The order of texts
// ---------------------------------------------------------------------------

/// No text comes before itself.
pub proof fn text_less_irreflexive(a: Seq<char>)
    ensures
        !text_less(a, a),
    decreases a.len(),
{
    if a.len() > 0 {
        text_less_irreflexive(a.drop_first());
    }
}

/// The order of texts is transitive.
pub proof fn text_less_transitive(a: Seq<char>, b: Seq<char>, c: Seq<char>)
    requires
        text_less(a, b),
        text_less(b, c),
    ensures
        text_less(a, c),
    decreases a.len(),
{
    if a.len() > 0 && b.len() > 0 && c.len() > 0 && a[0] == b[0] && b[0] == c[0] {
        text_less_transitive(a.drop_first(), b.drop_first(), c.drop_first());
    }
}

/// Of two different texts one comes before the other.
pub proof fn text_less_total(a: Seq<char>, b: Seq<char>)
    ensures
        a == b || text_less(a, b) || text_less(b, a),
    decreases a.len(),
{
    if a.len() == 0 && b.len() == 0 {
        assert(a =~= b);
    } else if a.len() > 0 && b.len() > 0 && a[0] == b[0] {
        text_less_total(a.drop_first(), b.drop_first());
        if a.drop_first() == b.drop_first() {
            assert(a =~= seq![a[0]] + a.drop_first());
            assert(b =~= seq![b[0]] + b.drop_first());
        }
    } else if a.len() > 0 && b.len() > 0 {
        assert(a[0] as int != b[0] as int);
    }
}

// ---------------------------------------------------------------------------
// Sorting
// ---------------------------------------------------------------------------

/// `placed` with position `i` put behind every position whose key is not
/// greater.
pub open spec fn placed_with(keys: Seq<Seq<char>>, placed: Seq<int>, i: int) -> Seq<int>
    decreases placed.len(),
{
    if placed.len() == 0 {
        seq![i]
    } else if text_less(keys[i], keys[placed.last()]) {
        placed_with(keys, placed.drop_last(), i).push(placed.last())
    } else {
        placed.push(i)
    }
}

/// The positions of the first `n` keys, in the order of their keys.
pub open spec fn placed_first(keys: Seq<Seq<char>>, n: nat) -> Seq<int>
    decreases n,
{
    if n == 0 {
        Seq::empty()
    } else {
        placed_with(keys, placed_first(keys, (n - 1) as nat), n - 1)
    }
}

/// The positions of `keys` in the order of their keys; equal keys keep the order
/// in which they stand.
pub open spec fn sorted_positions(keys: Seq<Seq<char>>) -> Seq<int> {
    placed_first(keys, keys.len())
}

/// Whether `r` holds exactly the positions below `n`, ordered by key, and equal
/// keys by position.
pub open spec fn in_order(keys: Seq<Seq<char>>, r: Seq<int>, n: int) -> bool {
    &&& r.len() == n
    &&& forall|k: int| 0 <= k < n ==> 0 <= #[trigger] r[k] < n
    &&& forall|a: int, b: int|
        0 <= a < b < n ==> (text_less(keys[#[trigger] r[a]], keys[#[trigger] r[b]]) || (keys[r[a]] == keys[r[b]]
            && r[a] < r[b]))
}

proof fn lemma_placed_with(keys: Seq<Seq<char>>, placed: Seq<int>, i: int)
    requires
        forall|k: int| 0 <= k < placed.len() ==> 0 <= #[trigger] placed[k] < i,
        forall|a: int, b: int|
            0 <= a < b < placed.len() ==> (text_less(keys[#[trigger] placed[a]], keys[#[trigger] placed[b]])
                || (keys[placed[a]] == keys[placed[b]] && placed[a] < placed[b])),
        0 <= i,
    ensures
        placed_with(keys, placed, i).len() == placed.len() + 1,
        forall|k: int|
            0 <= k < placed.len() + 1 ==> 0 <= #[trigger] placed_with(keys, placed, i)[k] <= i,
        forall|k: int|
            0 <= k < placed.len() + 1 ==> (#[trigger] placed_with(keys, placed, i)[k] == i
                || placed.contains(placed_with(keys, placed, i)[k])),
        forall|a: int, b: int|
            0 <= a < b < placed.len() + 1 ==> (text_less(
                keys[#[trigger] placed_with(keys, placed, i)[a]],
                keys[#[trigger] placed_with(keys, placed, i)[b]],
            ) || (keys[placed_with(keys, placed, i)[a]] == keys[placed_with(keys, placed, i)[b]]
                && placed_with(keys, placed, i)[a] < placed_with(keys, placed, i)[b])),
    decreases placed.len(),
{
    let r = placed_with(keys, placed, i);
    if placed.len() == 0 {
        assert(r[0] == i);
    } else if text_less(keys[i], keys[placed.last()]) {
        let init = placed.drop_last();
        lemma_placed_with(keys, init, i);
        let inner = placed_with(keys, init, i);
        assert(r == inner.push(placed.last()));
        assert forall|k: int| 0 <= k < placed.len() + 1 implies (#[trigger] r[k] == i || placed.contains(r[k])) by {
            if k < inner.len() {
                assert(r[k] == inner[k]);
                if inner[k] != i {
                    assert(init.contains(inner[k]));
                    let j = choose|j: int| 0 <= j < init.len() && init[j] == inner[k];
                    assert(placed[j] == r[k]);
                }
            } else {
                assert(placed[placed.len() - 1] == r[k]);
            }
        }
        assert forall|a: int, b: int| 0 <= a < b < placed.len() + 1 implies (text_less(
            keys[#[trigger] r[a]],
            keys[#[trigger] r[b]],
        ) || (keys[r[a]] == keys[r[b]] && r[a] < r[b])) by {
            if b < inner.len() {
                assert(r[a] == inner[a] && r[b] == inner[b]);
            } else {
                assert(r[a] == inner[a]);
                assert(r[b] == placed.last());
                if inner[a] != i {
                    assert(init.contains(inner[a]));
                    let j = choose|j: int| 0 <= j < init.len() && init[j] == inner[a];
                    assert(placed[j] == r[a] && placed[placed.len() - 1] == r[b]);
                }
            }
        }
    } else {
        assert(r[placed.len() as int] == i);
        assert forall|k: int| 0 <= k < placed.len() + 1 implies (#[trigger] r[k] == i || placed.contains(r[k])) by {
            if k < placed.len() {
                assert(placed[k] == r[k]);
            }
        }
        assert forall|a: int, b: int| 0 <= a < b < placed.len() + 1 implies (text_less(
            keys[#[trigger] r[a]],
            keys[#[trigger] r[b]],
        ) || (keys[r[a]] == keys[r[b]] && r[a] < r[b])) by {
            if b < placed.len() {
                assert(r[a] == placed[a] && r[b] == placed[b]);
            } else {
                assert(r[a] == placed[a] && r[b] == i);
                let top = placed.last();
                let n = placed.len() - 1;
                assert(placed[n] == top);
                text_less_total(keys[i], keys[top]);
                if a < n {
                    assert(text_less(keys[placed[a]], keys[placed[n]]) || keys[placed[a]] == keys[placed[n]]);
                    if text_less(keys[placed[a]], keys[top]) && text_less(keys[top], keys[i]) {
                        text_less_transitive(keys[placed[a]], keys[top], keys[i]);
                    }
                }
            }
        }
    }
}

proof fn lemma_placed_first(keys: Seq<Seq<char>>, n: nat)
    requires
        n <= keys.len(),
    ensures
        in_order(keys, placed_first(keys, n), n as int),
        forall|i: int| 0 <= i < n ==> #[trigger] placed_first(keys, n).contains(i),
    decreases n,
{
    if n > 0 {
        lemma_placed_first(keys, (n - 1) as nat);
        let placed = placed_first(keys, (n - 1) as nat);
        lemma_placed_with(keys, placed, n - 1);
        let r = placed_first(keys, n);
        assert forall|i: int| 0 <= i < n implies #[trigger] r.contains(i) by {
            lemma_placed_with_keeps(keys, placed, n - 1, i);
        }
    }
}

proof fn lemma_placed_with_keeps(keys: Seq<Seq<char>>, placed: Seq<int>, i: int, x: int)
    requires
        x == i || placed.contains(x),
    ensures
        placed_with(keys, placed, i).contains(x),
    decreases placed.len(),
{
    let r = placed_with(keys, placed, i);
    if placed.len() == 0 {
        assert(r[0] == i);
    } else if text_less(keys[i], keys[placed.last()]) {
        let init = placed.drop_last();
        let inner = placed_with(keys, init, i);
        if x == i || init.contains(x) {
            lemma_placed_with_keeps(keys, init, i, x);
            let w = choose|w: int| 0 <= w < inner.len() && inner[w] == x;
            assert(r[w] == x);
        } else {
            let w = choose|w: int| 0 <= w < placed.len() && placed[w] == x;
            if w < init.len() {
                assert(init[w] == x);
            }
            assert(r[inner.len() as int] == x);
        }
    } else {
        if x == i {
            assert(r[placed.len() as int] == x);
        } else {
            let w = choose|w: int| 0 <= w < placed.len() && placed[w] == x;
            assert(r[w] == x);
        }
    }
}

/// Sorting lists every position once, by ascending key, and equal keys in the
/// order in which they stand.
pub proof fn sorted_positions_in_order(keys: Seq<Seq<char>>)
    ensures
        in_order(keys, sorted_positions(keys), keys.len() as int),
        forall|i: int| 0 <= i < keys.len() ==> #[trigger] sorted_positions(keys).contains(i),
{
    lemma_placed_first(keys, keys.len());
}

proof fn lemma_placed_alike(keys: Seq<Seq<char>>, more: Seq<Seq<char>>, placed: Seq<int>, i: int)
    requires
        keys[i] == more[i],
        forall|k: int| 0 <= k < placed.len() ==> keys[#[trigger] placed[k]] == more[placed[k]],
    ensures
        placed_with(keys, placed, i) == placed_with(more, placed, i),
    decreases placed.len(),
{
    if placed.len() > 0 {
        let init = placed.drop_last();
        assert forall|k: int| 0 <= k < init.len() implies keys[#[trigger] init[k]] == more[init[k]] by {
            assert(init[k] == placed[k]);
        }
        lemma_placed_alike(keys, more, init, i);
        assert(placed.last() == placed[placed.len() - 1]);
    }
}

proof fn lemma_first_placed_alike(keys: Seq<Seq<char>>, key: Seq<char>, n: nat)
    requires
        n <= keys.len(),
    ensures
        placed_first(keys.push(key), n) == placed_first(keys, n),
    decreases n,
{
    if n > 0 {
        lemma_first_placed_alike(keys, key, (n - 1) as nat);
        lemma_placed_first(keys, (n - 1) as nat);
        lemma_placed_alike(keys, keys.push(key), placed_first(keys, (n - 1) as nat), n - 1);
    }
}

/// One more key behind the others is put behind every key that is not greater, and
/// the others stay in their order.
pub proof fn one_more_key_finds_its_place(keys: Seq<Seq<char>>, key: Seq<char>)
    ensures
        sorted_positions(keys.push(key)) == placed_with(keys.push(key), sorted_positions(keys), keys.len() as int),
{
    lemma_first_placed_alike(keys, key, keys.len());
}

/// The positions of a list as integers.
pub open spec fn positions(v: Seq<usize>) -> Seq<int> {
    v.map_values(|i: usize| i as int)
}

/// The positions of `keys` in the order of their keys.
pub fn sort_positions(keys: &Vec<String>) -> (r: Vec<usize>)
    ensures
        positions(r@) == sorted_positions(texts(keys@)),
        r.len() == keys.len(),
        forall|k: int| 0 <= k < r.len() ==> (#[trigger] r@[k]) < keys.len(),
{
    let ghost all = texts(keys@);
    let mut r: Vec<usize> = Vec::new();
    let mut n: usize = 0;
    assert(positions(r@) =~= placed_first(all, 0));
    while n < keys.len()
        invariant
            all == texts(keys@),
            n <= keys.len(),
            positions(r@) == placed_first(all, n as nat),
            r.len() == n,
            forall|k: int| 0 <= k < r.len() ==> (#[trigger] r@[k]) < n,
        decreases keys.len() - n,
    {
        let ghost before = r@;
        let ghost placed = positions(r@);
        let mut at: usize = r.len();
        assert(placed.take(at as int) =~= placed);
        assert(placed_with(all, placed, n as int) =~= placed_with(all, placed.take(at as int), n as int)
            + placed.skip(at as int));
        while at > 0 && less(keys[n].as_str(), keys[r[at - 1]].as_str())
            invariant
                at <= r.len(),
                n < keys.len(),
                r@ == before,
                placed == positions(before),
                all == texts(keys@),
                forall|k: int| 0 <= k < r.len() ==> (#[trigger] r@[k]) < n,
                placed_with(all, placed, n as int) == placed_with(all, placed.take(at as int), n as int)
                    + placed.skip(at as int),
            decreases at,
        {
            proof {
                let head = placed.take(at as int);
                assert(head.last() == r@[at - 1] as int);
                assert(all[head.last()] == keys@[r@[at - 1] as int]@);
                assert(head.drop_last() =~= placed.take(at - 1));
                assert(placed_with(all, head, n as int) == placed_with(all, head.drop_last(), n as int).push(
                    head.last(),
                ));
                assert(placed_with(all, placed, n as int) =~= placed_with(all, placed.take(at - 1), n as int)
                    + placed.skip(at - 1));
            }
            at -= 1;
        }
        proof {
            let head = placed.take(at as int);
            if at > 0 {
                assert(head.last() == r@[at - 1] as int);
                assert(all[head.last()] == keys@[r@[at - 1] as int]@);
            }
            assert(placed_with(all, head, n as int) =~= head.push(n as int));
        }
        r.insert(at, n);
        assert(positions(r@) =~= placed.take(at as int).push(n as int) + placed.skip(at as int));
        n += 1;
    }
    r
}

} // verus!
