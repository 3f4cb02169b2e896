//! Parting the text of an answer from reasoning that stands between `<think>` and
//! `</think>`, while the answer arrives in pieces.
use vstd::prelude::*;
use vstd::string::*;
use crate::text::{chars_of, ends_in, ends_with, find_chars, found_at, has_text, stands_at, text_between};

verus! {

/// What has been parted so far, and what is not yet known to be the one or the
/// other.
#[verifier::ext_equal]
pub struct Split {
    pub text: Seq<char>,
    pub thinking: Seq<char>,
    pub pending: Seq<char>,
    /// Whether the last mark began reasoning.
    pub inside: bool,
}

/// Nothing has arrived.
pub open spec fn nothing_split() -> Split {
    Split { text: Seq::empty(), thinking: Seq::empty(), pending: Seq::empty(), inside: false }
}

/// The mark that ends what is being read.
pub open spec fn next_mark(inside: bool) -> Seq<char> {
    if inside {
        "</think>"@
    } else {
        "<think>"@
    }
}

/// The first position of a needle.
pub open spec fn position_of(text: Seq<char>, needle: Seq<char>) -> Option<int> {
    if has_text(text, needle) {
        Some(choose|i: int| found_at(text, needle, i))
    } else {
        None
    }
}

/// A piece goes where what is being read goes.
pub open spec fn sorted_in(s: Split, piece: Seq<char>) -> Split {
    if s.inside {
        Split { thinking: s.thinking + piece, ..s }
    } else {
        Split { text: s.text + piece, ..s }
    }
}

/// The longest beginning of a mark, of at most `n` characters, that a text ends in.
pub open spec fn begun_mark(text: Seq<char>, mark: Seq<char>, n: nat) -> nat
    decreases n,
{
    if n == 0 {
        0
    } else if ends_in(text, mark.take(n as int)) {
        n
    } else {
        begun_mark(text, mark, (n - 1) as nat)
    }
}

/// How many characters at the end may turn out to begin a mark.
pub open spec fn held_back(text: Seq<char>, mark: Seq<char>) -> nat {
    if mark.len() == 0 {
        0
    } else {
        begun_mark(text, mark, (mark.len() - 1) as nat)
    }
}

/// What is left after the mark at `i`.
pub open spec fn after_mark(s: Split, i: int) -> Split {
    Split {
        pending: s.pending.skip(i + next_mark(s.inside).len()),
        inside: !s.inside,
        ..sorted_in(s, s.pending.take(i))
    }
}

/// What is parted once the pending text is read, and whether anything was: all up
/// to the last mark, and what follows it but for the beginning of another.
pub open spec fn fed(s: Split) -> (Split, bool)
    decreases s.pending.len(),
    when next_mark(s.inside).len() > 0
{
    let mark = next_mark(s.inside);
    match position_of(s.pending, mark) {
        Some(i) => if 0 <= i && i + mark.len() <= s.pending.len() {
            (fed(after_mark(s, i)).0, true)
        } else {
            (s, false)
        },
        None => {
            let n = s.pending.len() - held_back(s.pending, mark);
            if n <= 0 {
                (s, false)
            } else {
                (Split { pending: s.pending.skip(n), ..sorted_in(s, s.pending.take(n)) }, true)
            }
        },
    }
}

/// What more arrives is pending.
pub open spec fn with_more(s: Split, content: Seq<char>) -> Split {
    Split { pending: s.pending + content, ..s }
}

/// Where nothing more arrives, what is pending goes where what is being read goes.
pub open spec fn flushed(s: Split) -> Split {
    Split { pending: Seq::empty(), ..sorted_in(s, s.pending) }
}

// ---------------------------------------------------------------------------
// Reading
// ---------------------------------------------------------------------------

proof fn lemma_marks()
    ensures
        next_mark(true).len() == 8,
        next_mark(false).len() == 7,
{
    reveal_strlit("</think>");
    reveal_strlit("<think>");
}

proof fn lemma_position(text: Seq<char>, needle: Seq<char>, i: int)
    requires
        found_at(text, needle, i),
    ensures
        position_of(text, needle) == Some(i),
{
    assert(stands_at(text, needle, i));
    let j = choose|j: int| found_at(text, needle, j);
    assert(found_at(text, needle, j));
    if i < j {
        assert(!stands_at(text, needle, i));
    }
    if j < i {
        assert(!stands_at(text, needle, j));
    }
}

/// Where a needle stands at all, it stands somewhere first.
proof fn lemma_position_is_found(text: Seq<char>, needle: Seq<char>)
    ensures
        position_of(text, needle) matches Some(i) ==> found_at(text, needle, i),
{
    if has_text(text, needle) {
        let i = choose|i: int| stands_at(text, needle, i);
        lemma_first_position(text, needle, i);
        let k = choose|k: int| found_at(text, needle, k);
        lemma_position(text, needle, k);
    }
}

proof fn lemma_first_position(text: Seq<char>, needle: Seq<char>, i: int)
    requires
        stands_at(text, needle, i),
    ensures
        exists|k: int| found_at(text, needle, k),
    decreases i,
{
    if forall|j: int| 0 <= j < i ==> !stands_at(text, needle, j) {
        assert(found_at(text, needle, i));
    } else {
        let j = choose|j: int| 0 <= j < i && stands_at(text, needle, j);
        lemma_first_position(text, needle, j);
    }
}

/// How many characters at the end of a text may turn out to begin a mark.
pub fn partial_tag_suffix_len(text: &str, tag: &str) -> (r: usize)
    ensures
        r == held_back(text@, tag@),
{
    let mark = chars_of(tag);
    if mark.len() == 0 {
        return 0;
    }
    let mut n: usize = mark.len() - 1;
    while n > 0
        invariant
            mark@ == tag@,
            n <= mark.len(),
            held_back(text@, tag@) == begun_mark(text@, tag@, n as nat),
        decreases n,
    {
        let begun = text_between(&mark, 0, n);
        assert(mark@.subrange(0, n as int) =~= mark@.take(n as int));
        if ends_with(text, begun.as_str()) {
            return n;
        }
        n -= 1;
    }
    0
}

/// The state of the given texts.
pub open spec fn split_view(text: String, thinking: String, pending: String, inside: bool) -> Split {
    Split { text: text@, thinking: thinking@, pending: pending@, inside }
}

/// Reads one more piece of the answer. Whether the text or the reasoning changed.
pub fn feed_content(
    text: &mut String,
    thinking: &mut String,
    pending: &mut String,
    inside: &mut bool,
    content: &str,
) -> (changed: bool)
    ensures
        (split_view(*final(text), *final(thinking), *final(pending), *final(inside)), changed) == fed(
            with_more(split_view(*old(text), *old(thinking), *old(pending), *old(inside)), content@),
        ),
{
    let ghost start = with_more(split_view(*text, *thinking, *pending, *inside), content@);
    pending.append(content);
    let mut changed = false;
    proof {
        lemma_marks();
    }
    loop
        invariant_except_break
            fed(start).0 == fed(split_view(*text, *thinking, *pending, *inside)).0,
            fed(start).1 == (changed || fed(split_view(*text, *thinking, *pending, *inside)).1),
        invariant
            next_mark(true).len() == 8,
            next_mark(false).len() == 7,
        ensures
            (split_view(*text, *thinking, *pending, *inside), changed) == fed(start),
        decreases pending@.len(),
    {
        let ghost now = split_view(*text, *thinking, *pending, *inside);
        let tag = if *inside {
            "</think>"
        } else {
            "<think>"
        };
        assert(tag@ == next_mark(*inside));
        let v = chars_of(pending.as_str());
        let mark = chars_of(tag);
        let at = match find_chars(&v, &mark) {
            Some(i) => i,
            None => {
                let keep = partial_tag_suffix_len(pending.as_str(), tag);
                proof {
                    lemma_held_back_bound(v@, mark@);
                }
                let n: usize = v.len() - keep;
                if n == 0 {
                    break;
                }
                let piece = text_between(&v, 0, n);
                let rest = text_between(&v, n, v.len());
                assert(v@.subrange(0, n as int) =~= v@.take(n as int));
                assert(v@.subrange(n as int, v@.len() as int) =~= v@.skip(n as int));
                if *inside {
                    thinking.append(piece.as_str());
                } else {
                    text.append(piece.as_str());
                }
                *pending = rest;
                changed = true;
                break;
            },
        };
        proof {
            lemma_position(v@, mark@, at as int);
            assert(stands_at(v@, mark@, at as int));
        }
        let total: usize = v.len();
        let width: usize = mark.len();
        let piece = text_between(&v, 0, at);
        let rest = text_between(&v, at + width, total);
        assert(v@.subrange(0, at as int) =~= v@.take(at as int));
        assert(v@.subrange(at + mark@.len(), v@.len() as int) =~= v@.skip(at + mark@.len()));
        if *inside {
            thinking.append(piece.as_str());
        } else {
            text.append(piece.as_str());
        }
        *inside = !*inside;
        *pending = rest;
        changed = true;
        assert(split_view(*text, *thinking, *pending, *inside) =~= after_mark(now, at as int));
    }
    changed
}

proof fn lemma_held_back_bound(text: Seq<char>, mark: Seq<char>)
    requires
        mark.len() > 0,
    ensures
        held_back(text, mark) <= text.len(),
        held_back(text, mark) < mark.len(),
        held_back(text, mark) > 0 ==> ends_in(text, mark.take(held_back(text, mark) as int)),
        forall|n: int|
            #![trigger mark.take(n)]
            0 < n < mark.len() && ends_in(text, mark.take(n)) ==> n <= held_back(text, mark),
{
    lemma_begun_mark(text, mark, (mark.len() - 1) as nat);
}

proof fn lemma_begun_mark(text: Seq<char>, mark: Seq<char>, n: nat)
    requires
        n < mark.len(),
    ensures
        begun_mark(text, mark, n) <= text.len(),
        begun_mark(text, mark, n) <= n,
        begun_mark(text, mark, n) > 0 ==> ends_in(text, mark.take(begun_mark(text, mark, n) as int)),
        forall|m: int|
            #![trigger mark.take(m)]
            0 < m <= n && ends_in(text, mark.take(m)) ==> m <= begun_mark(text, mark, n),
    decreases n,
{
    if n > 0 {
        assert(mark.take(n as int).len() == n);
        lemma_begun_mark(text, mark, (n - 1) as nat);
    }
}

/// Ends the answer. Whether anything was pending.
pub fn flush_content(text: &mut String, thinking: &mut String, pending: &mut String, inside: bool) -> (changed: bool)
    ensures
        changed == (old(pending)@.len() > 0),
        split_view(*final(text), *final(thinking), *final(pending), inside) == flushed(
            split_view(*old(text), *old(thinking), *old(pending), inside),
        ),
{
    let ghost before = split_view(*text, *thinking, *pending, inside);
    if pending.as_str().is_empty() {
        assert(text@ + pending@ =~= text@);
        assert(thinking@ + pending@ =~= thinking@);
        assert(split_view(*text, *thinking, *pending, inside) =~= flushed(before));
        return false;
    }
    if inside {
        thinking.append(pending.as_str());
    } else {
        text.append(pending.as_str());
    }
    *pending = String::new();
    assert(split_view(*text, *thinking, *pending, inside) =~= flushed(before));
    true
}

// ---------------------------------------------------------------------------
// How the answer is cut into pieces does not matter
// ---------------------------------------------------------------------------

/// What is parted where all of the answer is pending and nothing more arrives.
pub open spec fn whole(s: Split) -> Split
    decreases s.pending.len(),
    when next_mark(s.inside).len() > 0
{
    let mark = next_mark(s.inside);
    match position_of(s.pending, mark) {
        Some(i) => if 0 <= i && i + mark.len() <= s.pending.len() {
            whole(after_mark(s, i))
        } else {
            s
        },
        None => flushed(s),
    }
}

proof fn lemma_flush_after_feed(s: Split)
    ensures
        flushed(fed(s).0) == whole(s),
    decreases s.pending.len(),
{
    lemma_marks();
    let mark = next_mark(s.inside);
    lemma_position_is_found(s.pending, mark);
    match position_of(s.pending, mark) {
        Some(i) => {
            lemma_flush_after_feed(after_mark(s, i));
        },
        None => {
            lemma_held_back_bound(s.pending, mark);
            let n = s.pending.len() - held_back(s.pending, mark);
            if n > 0 {
                assert(s.pending.take(n) + s.pending.skip(n) =~= s.pending);
                assert(s.text + s.pending.take(n) + s.pending.skip(n) =~= s.text + s.pending);
                assert(s.thinking + s.pending.take(n) + s.pending.skip(n) =~= s.thinking + s.pending);
                assert(flushed(fed(s).0) =~= whole(s));
            }
        },
    }
}

proof fn lemma_stands_in_front(p: Seq<char>, b: Seq<char>, mark: Seq<char>, j: int)
    requires
        0 <= j,
        j + mark.len() <= p.len(),
    ensures
        stands_at(p + b, mark, j) == stands_at(p, mark, j),
{
    assert((p + b).subrange(j, j + mark.len()) =~= p.subrange(j, j + mark.len()));
}

/// Marks that are not yet whole lie in what is held back.
proof fn lemma_no_mark_in_front(p: Seq<char>, b: Seq<char>, mark: Seq<char>, j: int)
    requires
        mark.len() > 0,
        !has_text(p, mark),
        0 <= j < p.len() - held_back(p, mark),
    ensures
        !stands_at(p + b, mark, j),
{
    if stands_at(p + b, mark, j) {
        if j + mark.len() <= p.len() {
            lemma_stands_in_front(p, b, mark, j);
            assert(stands_at(p, mark, j));
        } else {
            let n = p.len() - j;
            assert(p.skip(p.len() - mark.take(n).len()) =~= mark.take(n)) by {
                assert forall|k: int| 0 <= k < n implies p[j + k] == mark[k] by {
                    assert((p + b).subrange(j, j + mark.len())[k] == mark[k]);
                }
            }
            assert(ends_in(p, mark.take(n)));
            lemma_held_back_bound(p, mark);
        }
    }
}

/// A mark that is whole stays where it is when more arrives.
proof fn lemma_mark_stays(s: Split, b: Seq<char>, i: int)
    requires
        found_at(s.pending, next_mark(s.inside), i),
    ensures
        found_at(s.pending + b, next_mark(s.inside), i),
        after_mark(with_more(s, b), i) == with_more(after_mark(s, i), b),
{
    lemma_marks();
    let mark = next_mark(s.inside);
    let p = s.pending;
    let full = p + b;
    lemma_stands_in_front(p, b, mark, i);
    assert forall|j: int| 0 <= j < i implies !stands_at(full, mark, j) by {
        lemma_stands_in_front(p, b, mark, j);
    }
    assert(full.skip(i + mark.len()) =~= p.skip(i + mark.len()) + b);
    assert(full.take(i) =~= p.take(i));
    assert(after_mark(with_more(s, b), i) =~= with_more(after_mark(s, i), b));
}

/// Where a mark stands behind what is let go, and where in the whole.
proof fn lemma_stands_behind(p: Seq<char>, b: Seq<char>, mark: Seq<char>, m: int, j: int)
    requires
        0 <= m <= p.len(),
        0 <= j,
    ensures
        stands_at(p.skip(m) + b, mark, j) == stands_at(p + b, mark, j + m),
{
    let full = p + b;
    let rest = p.skip(m) + b;
    assert(rest =~= full.skip(m));
    if j + m + mark.len() <= full.len() {
        assert(rest.subrange(j, j + mark.len()) =~= full.subrange(j + m, j + m + mark.len()));
    }
}

/// What is held back of the whole lies in what was held back before, and in what
/// arrived since.
proof fn lemma_held_back_later(p: Seq<char>, b: Seq<char>, mark: Seq<char>)
    requires
        mark.len() > 0,
    ensures
        held_back(p + b, mark) <= held_back(p, mark) + b.len(),
        held_back(p + b, mark) == held_back(p.skip(p.len() - held_back(p, mark)) + b, mark),
{
    let full = p + b;
    let m = p.len() - held_back(p, mark);
    let rest = p.skip(m) + b;
    lemma_held_back_bound(p, mark);
    lemma_held_back_bound(full, mark);
    lemma_held_back_bound(rest, mark);
    assert(rest =~= full.skip(m));
    let k = held_back(full, mark) as int;
    if k > held_back(p, mark) + b.len() {
        let n = k - b.len();
        assert(full.skip(full.len() - mark.take(k).len()) == mark.take(k));
        assert(p.skip(p.len() - mark.take(n).len()) =~= mark.take(n)) by {
            assert forall|i: int| 0 <= i < n implies p[p.len() - n + i] == mark[i] by {
                assert(full.skip(full.len() - k)[i] == mark.take(k)[i]);
            }
        }
        assert(ends_in(p, mark.take(n)));
    }
    if k > 0 {
        assert(rest.skip(rest.len() - k) =~= full.skip(full.len() - k));
        assert(ends_in(rest, mark.take(k)));
    }
    let h = held_back(rest, mark) as int;
    if h > 0 {
        assert(rest.skip(rest.len() - h) =~= full.skip(full.len() - h));
        assert(ends_in(full, mark.take(h)));
    }
}

/// A piece that is sorted in in two parts.
proof fn lemma_sorted_in_parts(s: Split, x: Seq<char>, y: Seq<char>)
    ensures
        sorted_in(sorted_in(s, x), y) == sorted_in(s, x + y),
{
    assert(s.text + x + y =~= s.text + (x + y));
    assert(s.thinking + x + y =~= s.thinking + (x + y));
}

/// Reading goes on from what is held back as it would from the whole, where a mark
/// stands in the whole.
proof fn lemma_mark_behind(s: Split, b: Seq<char>, m: int, i: int)
    requires
        !has_text(s.pending, next_mark(s.inside)),
        m == s.pending.len() - held_back(s.pending, next_mark(s.inside)),
        m > 0,
        found_at(s.pending.skip(m) + b, next_mark(s.inside), i),
    ensures
        found_at(s.pending + b, next_mark(s.inside), i + m),
        after_mark(with_more(s, b), i + m) == after_mark(with_more(fed(s).0, b), i),
{
    lemma_marks();
    let mark = next_mark(s.inside);
    let p = s.pending;
    let full = p + b;
    let rest = p.skip(m) + b;
    lemma_position_is_found(p, mark);
    lemma_held_back_bound(p, mark);
    lemma_stands_behind(p, b, mark, m, i);
    assert forall|j: int| 0 <= j < i + m implies !stands_at(full, mark, j) by {
        if j < m {
            lemma_no_mark_in_front(p, b, mark, j);
        } else {
            lemma_stands_behind(p, b, mark, m, j - m);
            assert(!stands_at(rest, mark, j - m));
        }
    }
    let s1 = fed(s).0;
    assert(s1 == Split { pending: p.skip(m), ..sorted_in(s, p.take(m)) });
    assert(full.take(i + m) =~= p.take(m) + rest.take(i));
    assert(full.skip(i + m + mark.len()) =~= rest.skip(i + mark.len()));
    lemma_sorted_in_parts(s, p.take(m), rest.take(i));
    assert(after_mark(with_more(s, b), i + m) =~= after_mark(with_more(s1, b), i));
}

/// The same where no mark stands in the whole.
proof fn lemma_no_mark_behind(s: Split, b: Seq<char>, m: int)
    requires
        !has_text(s.pending, next_mark(s.inside)),
        m == s.pending.len() - held_back(s.pending, next_mark(s.inside)),
        m > 0,
        !has_text(s.pending.skip(m) + b, next_mark(s.inside)),
    ensures
        fed(with_more(fed(s).0, b)).0 == fed(with_more(s, b)).0,
        fed(with_more(s, b)).1,
{
    lemma_marks();
    let mark = next_mark(s.inside);
    let p = s.pending;
    let full = p + b;
    let rest = p.skip(m) + b;
    lemma_position_is_found(p, mark);
    lemma_held_back_bound(p, mark);
    if has_text(full, mark) {
        let j = choose|j: int| stands_at(full, mark, j);
        if j < m {
            lemma_no_mark_in_front(p, b, mark, j);
        } else {
            lemma_stands_behind(p, b, mark, m, j - m);
            assert(stands_at(rest, mark, j - m));
        }
    }
    lemma_held_back_later(p, b, mark);
    lemma_held_back_bound(rest, mark);
    let s1 = fed(s).0;
    assert(s1 == Split { pending: p.skip(m), ..sorted_in(s, p.take(m)) });
    let n = full.len() - held_back(full, mark);
    let k = rest.len() - held_back(rest, mark);
    assert(n == m + k);
    assert(full.take(n) =~= p.take(m) + rest.take(k));
    assert(full.skip(n) =~= rest.skip(k));
    lemma_sorted_in_parts(s, p.take(m), rest.take(k));
    if k == 0 {
        assert(p.take(m) + rest.take(k) =~= p.take(m));
        assert(rest.skip(k) =~= rest);
    }
    assert(fed(with_more(s1, b)).0 =~= fed(with_more(s, b)).0);
}

/// Reading what is pending before more arrives changes nothing in the end.
proof fn lemma_more_after_feed(s: Split, b: Seq<char>)
    ensures
        fed(with_more(fed(s).0, b)).0 == fed(with_more(s, b)).0,
        fed(with_more(s, b)).1 == (fed(s).1 || fed(with_more(fed(s).0, b)).1),
    decreases s.pending.len(),
{
    lemma_marks();
    let mark = next_mark(s.inside);
    let p = s.pending;
    lemma_position_is_found(p, mark);
    match position_of(p, mark) {
        Some(i) => {
            lemma_mark_stays(s, b, i);
            lemma_position(p + b, mark, i);
            lemma_more_after_feed(after_mark(s, i), b);
        },
        None => {
            lemma_held_back_bound(p, mark);
            let m = p.len() - held_back(p, mark);
            if m > 0 {
                let rest = p.skip(m) + b;
                lemma_position_is_found(rest, mark);
                match position_of(rest, mark) {
                    Some(i) => {
                        lemma_mark_behind(s, b, m, i);
                        lemma_position(p + b, mark, i + m);
                        assert(stands_at(rest, mark, i));
                    },
                    None => {
                        lemma_no_mark_behind(s, b, m);
                    },
                }
            }
        },
    }
}

/// Where the answer is cut does not matter, not even inside a mark: reading two
/// pieces one after the other leaves what reading them as one leaves, the pending
/// text and the mark included, and it changes something where one of the two does.
pub proof fn cuts_do_not_matter(s: Split, a: Seq<char>, b: Seq<char>)
    ensures
        fed(with_more(fed(with_more(s, a)).0, b)).0 == fed(with_more(s, a + b)).0,
        fed(with_more(s, a + b)).1 == (fed(with_more(s, a)).1 || fed(with_more(fed(with_more(s, a)).0, b)).1),
{
    lemma_more_after_feed(with_more(s, a), b);
    assert(with_more(with_more(s, a), b) =~= with_more(s, a + b));
}

/// What is parted once the pieces have arrived one after the other.
pub open spec fn fed_all(pieces: Seq<Seq<char>>) -> Split
    decreases pieces.len(),
{
    if pieces.len() == 0 {
        nothing_split()
    } else {
        fed(with_more(fed_all(pieces.drop_last()), pieces.last())).0
    }
}

/// The pieces in a row.
pub open spec fn in_a_row(pieces: Seq<Seq<char>>) -> Seq<char>
    decreases pieces.len(),
{
    if pieces.len() == 0 {
        Seq::empty()
    } else {
        in_a_row(pieces.drop_last()) + pieces.last()
    }
}

proof fn lemma_fed_all(pieces: Seq<Seq<char>>, b: Seq<char>)
    ensures
        whole(with_more(fed_all(pieces), b)) == whole(with_more(nothing_split(), in_a_row(pieces) + b)),
    decreases pieces.len(),
{
    if pieces.len() == 0 {
        assert(in_a_row(pieces) + b =~= b);
    } else {
        let before = fed_all(pieces.drop_last());
        let s = with_more(before, pieces.last());
        lemma_more_after_feed(s, b);
        lemma_flush_after_feed(with_more(fed(s).0, b));
        lemma_flush_after_feed(with_more(s, b));
        assert(with_more(s, b) =~= with_more(before, pieces.last() + b));
        lemma_fed_all(pieces.drop_last(), pieces.last() + b);
        assert(in_a_row(pieces.drop_last()) + (pieces.last() + b) =~= in_a_row(pieces) + b);
    }
}

/// In whatever pieces an answer arrives, it is parted as if it arrived whole.
pub proof fn pieces_do_not_matter(pieces: Seq<Seq<char>>)
    ensures
        flushed(fed_all(pieces)) == whole(with_more(nothing_split(), in_a_row(pieces))),
{
    lemma_marks();
    if pieces.len() == 0 {
        let none = with_more(nothing_split(), Seq::empty());
        assert(none =~= nothing_split());
        let mark = next_mark(false);
        lemma_position_is_found(none.pending, mark);
    } else {
        let before = fed_all(pieces.drop_last());
        let s = with_more(before, pieces.last());
        lemma_flush_after_feed(s);
        lemma_fed_all(pieces.drop_last(), pieces.last());
    }
}

/// An answer without the mark that begins reasoning is text, all of it.
pub proof fn plain_answers_are_text(answer: Seq<char>)
    requires
        !has_text(answer, next_mark(false)),
    ensures
        whole(with_more(nothing_split(), answer)).text == answer,
        whole(with_more(nothing_split(), answer)).thinking == Seq::<char>::empty(),
{
    lemma_marks();
    let s = with_more(nothing_split(), answer);
    assert(s.pending =~= answer);
    assert(Seq::<char>::empty() + answer =~= answer);
}

/// The reasoning between the marks is parted from the text round it.
pub proof fn reasoning_is_parted(before: Seq<char>, reasoning: Seq<char>, after: Seq<char>)
    requires
        position_of(before + next_mark(false) + reasoning + next_mark(true) + after, next_mark(false)) == Some(
            before.len() as int,
        ),
        position_of(reasoning + next_mark(true) + after, next_mark(true)) == Some(reasoning.len() as int),
        !has_text(after, next_mark(false)),
    ensures
        whole(
            with_more(nothing_split(), before + next_mark(false) + reasoning + next_mark(true) + after),
        ).text == before + after,
        whole(
            with_more(nothing_split(), before + next_mark(false) + reasoning + next_mark(true) + after),
        ).thinking == reasoning,
{
    lemma_marks();
    let answer = before + next_mark(false) + reasoning + next_mark(true) + after;
    let s = with_more(nothing_split(), answer);
    assert(s.pending =~= answer);
    let s1 = after_mark(s, before.len() as int);
    assert(s1.pending =~= reasoning + next_mark(true) + after);
    assert(s1.text =~= before);
    assert(s1.thinking =~= Seq::empty());
    let s2 = after_mark(s1, reasoning.len() as int);
    assert(s2.pending =~= after);
    assert(s2.text =~= before);
    assert(s2.thinking =~= reasoning);
    assert(whole(s) == whole(s1));
    assert(whole(s1) == whole(s2));
}

/// Whether `longer` begins with `shorter`.
pub open spec fn extends(longer: Seq<char>, shorter: Seq<char>) -> bool {
    longer.len() >= shorter.len() && longer.take(shorter.len() as int) == shorter
}

pub proof fn lemma_extends_further(a: Seq<char>, b: Seq<char>, c: Seq<char>)
    requires
        extends(b, a),
        extends(c, b),
    ensures
        extends(c, a),
{
    assert(c.take(a.len() as int) =~= b.take(a.len() as int));
}

pub proof fn lemma_appended(a: Seq<char>, b: Seq<char>)
    ensures
        extends(a + b, a),
{
    assert((a + b).take(a.len() as int) =~= a);
}

/// Reading pending text only ever adds to the text and to the reasoning. It reports
/// that something was read exactly where less is pending afterwards, and where nothing
/// was, all is as it was.
pub proof fn reading_adds(s: Split)
    ensures
        extends(fed(s).0.text, s.text),
        extends(fed(s).0.thinking, s.thinking),
        fed(s).1 <==> fed(s).0.pending.len() < s.pending.len(),
        !fed(s).1 ==> fed(s).0 == s,
    decreases s.pending.len(),
{
    lemma_marks();
    let mark = next_mark(s.inside);
    lemma_appended(s.text, Seq::empty());
    lemma_appended(s.thinking, Seq::empty());
    assert(s.text + Seq::empty() =~= s.text);
    assert(s.thinking + Seq::empty() =~= s.thinking);
    match position_of(s.pending, mark) {
        Some(i) => {
            if 0 <= i && i + mark.len() <= s.pending.len() {
                let next = after_mark(s, i);
                lemma_appended(s.text, s.pending.take(i));
                lemma_appended(s.thinking, s.pending.take(i));
                reading_adds(next);
                lemma_extends_further(s.text, next.text, fed(next).0.text);
                lemma_extends_further(s.thinking, next.thinking, fed(next).0.thinking);
            }
        },
        None => {
            let n = s.pending.len() - held_back(s.pending, mark);
            if n > 0 {
                lemma_held_back_bound(s.pending, mark);
                lemma_appended(s.text, s.pending.take(n));
                lemma_appended(s.thinking, s.pending.take(n));
            }
        },
    }
}

/// Text in which no mark can begin is read at once, and goes where what is being read
/// goes.
pub proof fn unmarked_text_is_read(s: Split)
    requires
        s.pending.len() > 0,
        !s.pending.contains('<'),
    ensures
        fed(s).1,
        fed(s).0.pending.len() == 0,
        fed(s).0.inside == s.inside,
        s.inside ==> fed(s).0.text == s.text && fed(s).0.thinking == s.thinking + s.pending,
        !s.inside ==> fed(s).0.text == s.text + s.pending && fed(s).0.thinking == s.thinking,
{
    lemma_marks();
    reveal_strlit("</think>");
    reveal_strlit("<think>");
    let mark = next_mark(s.inside);
    assert(mark[0] == '<');
    if has_text(s.pending, mark) {
        let i = choose|i: int| stands_at(s.pending, mark, i);
        assert(s.pending.subrange(i, i + mark.len())[0] == mark[0]);
        assert(s.pending[i] == '<');
    }
    lemma_held_back_bound(s.pending, mark);
    let n = held_back(s.pending, mark);
    if n > 0 {
        assert(mark.take(n as int)[0] == '<');
        assert(s.pending[s.pending.len() - n] == '<');
    }
    assert(s.pending.take(s.pending.len() as int) =~= s.pending);
}

} // verus!
