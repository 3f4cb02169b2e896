//! What holds of texts: joining and parting, cutting, trimming, numerals and order.
use vstd::prelude::*;
use crate::text::{
    ascii_lower, ascii_upper, begins, byte_len, cut_bytes, decimal, digit_char, end_trimmed, ends_in, first_chars,
    has_text, is_space, joined, last_bytes, lemma_first_at, numeral, parts_of, replaced, right_aligned,
    signed_decimal, split_at_first, stands_at, start_trimmed, text_less, trimmed,
};

verus! {

/// Joining nothing gives nothing, joining one text gives that text, and one more text
/// comes behind the others with the separator before it.
pub proof fn one_more_text_is_joined(parts: Seq<Seq<char>>, part: Seq<char>, separator: Seq<char>)
    ensures
        joined(Seq::empty(), separator) == Seq::<char>::empty(),
        joined(seq![part], separator) == part,
        parts.len() > 0 ==> joined(parts.push(part), separator) == joined(parts, separator) + separator + part,
{
    assert(parts.push(part).drop_last() =~= parts);
}

/// The parts of a text hold no separator, and joined with it they are the text.
pub proof fn parts_join_to_the_text(text: Seq<char>, c: char, i: int)
    ensures
        joined(parts_of(text, c), seq![c]) == text,
        0 <= i < parts_of(text, c).len() ==> !parts_of(text, c)[i].contains(c),
        parts_of(text, c).len() > 0,
    decreases text.len(),
{
    if text.len() > 0 {
        let short = text.drop_last();
        let before = parts_of(short, c);
        let parts = parts_of(text, c);
        let n = before.len() - 1;
        parts_join_to_the_text(short, c, i);
        parts_join_to_the_text(short, c, n);
        assert(text =~= short.push(text.last()));
        if text.last() == c {
            assert(parts =~= before.push(Seq::empty()));
            one_more_text_is_joined(before, Seq::empty(), seq![c]);
            assert(joined(before, seq![c]) + seq![c] + Seq::<char>::empty() =~= text);
        } else {
            let grown = before.last().push(text.last());
            assert(parts =~= before.drop_last().push(grown));
            assert(before =~= before.drop_last().push(before.last()));
            if before.len() == 1 {
                assert(before =~= seq![before.last()]);
                assert(parts =~= seq![grown]);
            } else {
                one_more_text_is_joined(before.drop_last(), before.last(), seq![c]);
                one_more_text_is_joined(before.drop_last(), grown, seq![c]);
                assert(joined(before.drop_last(), seq![c]) + seq![c] + grown =~= (joined(before.drop_last(), seq![c])
                    + seq![c] + before.last()).push(text.last()));
            }
            if i == n {
                assert forall|k: int| 0 <= k < grown.len() implies grown[k] != c by {
                    if k < before.last().len() {
                        assert(before.last().contains(before.last()[k]));
                    }
                }
            }
        }
    }
}

/// A text with a separator is split at the first one.
pub proof fn texts_split_at_the_first(before: Seq<char>, c: char, after: Seq<char>)
    requires
        !before.contains(c),
    ensures
        split_at_first(before + seq![c] + after, c) == Some((before, after)),
        split_at_first(before, c) is None,
{
    let text = before + seq![c] + after;
    assert(text[before.len() as int] == c);
    assert forall|k: int| 0 <= k < before.len() implies text[k] != c by {
        assert(before.contains(before[k]));
    }
    lemma_first_at(text, c, before.len() as int);
    assert(text.take(before.len() as int) =~= before);
    assert(text.skip(before.len() as int + 1) =~= after);
    assert(text.subrange(before.len() as int + 1, text.len() as int) =~= after);
    assert(text.subrange(0, before.len() as int) =~= before);
}

/// The value of a digit.
pub open spec fn digit_value(c: char) -> int {
    if '0' <= c && c <= '9' {
        c as int - '0' as int
    } else {
        10 + (c as int - 'a' as int)
    }
}

/// The number that digits stand for, the most significant first.
pub open spec fn number_of(s: Seq<char>, base: nat) -> int
    decreases s.len(),
{
    if s.len() == 0 {
        0
    } else {
        number_of(s.drop_last(), base) * base + digit_value(s.last())
    }
}

/// A numeral stands for its number, and no numeral but that of zero starts with zero.
pub proof fn numerals_stand_for_their_numbers(n: nat, base: nat)
    requires
        2 <= base <= 16,
    ensures
        number_of(numeral(n, base), base) == n,
        numeral(n, base).len() > 0,
        n > 0 ==> numeral(n, base)[0] != '0',
    decreases n,
{
    reveal_with_fuel(number_of, 2);
    if n < base {
        assert(numeral(n, base).drop_last() =~= Seq::empty());
        assert(0 * base == 0) by (nonlinear_arith);
    } else {
        assert(n / base < n) by (nonlinear_arith)
            requires
                2 <= base <= n,
        ;
        assert(n / base > 0) by (nonlinear_arith)
            requires
                2 <= base <= n,
        ;
        assert(n == (n / base) * base + n % base && 0 <= n % base < base) by (nonlinear_arith)
            requires
                base >= 2,
        ;
        numerals_stand_for_their_numbers(n / base, base);
        let high = numeral(n / base, base);
        assert(numeral(n, base) =~= high.push(digit_char((n % base) as int)));
        assert(numeral(n, base).drop_last() =~= high);
    }
}

/// A negative number is written as the numeral of its amount behind a minus sign.
pub proof fn signs_are_written(n: nat)
    ensures
        signed_decimal(n as int) == decimal(n),
        n > 0 ==> signed_decimal(-n) == seq!['-'] + decimal(n),
{
}

/// Whether a text is nothing but white space.
pub open spec fn blank(s: Seq<char>) -> bool {
    forall|i: int| 0 <= i < s.len() ==> is_space(#[trigger] s[i])
}

proof fn lemma_start_trimmed(s: Seq<char>)
    ensures
        start_trimmed(s).len() <= s.len(),
        s.skip(s.len() - start_trimmed(s).len()) == start_trimmed(s),
        blank(s.take(s.len() - start_trimmed(s).len())),
        start_trimmed(s).len() > 0 ==> !is_space(start_trimmed(s)[0]),
    decreases s.len(),
{
    if s.len() > 0 && is_space(s[0]) {
        let rest = s.drop_first();
        lemma_start_trimmed(rest);
        let k = rest.len() - start_trimmed(rest).len();
        assert(s.skip(k + 1) =~= rest.skip(k));
        assert forall|i: int| 0 <= i < k + 1 implies is_space(#[trigger] s.take(k + 1)[i]) by {
            if i > 0 {
                assert(is_space(rest.take(k)[i - 1]));
            }
        }
    } else {
        assert(s.skip(0) =~= s);
    }
}

proof fn lemma_end_trimmed(s: Seq<char>)
    ensures
        end_trimmed(s).len() <= s.len(),
        s.take(end_trimmed(s).len() as int) == end_trimmed(s),
        blank(s.skip(end_trimmed(s).len() as int)),
        end_trimmed(s).len() > 0 ==> !is_space(end_trimmed(s).last()),
    decreases s.len(),
{
    if s.len() > 0 && is_space(s.last()) {
        let rest = s.drop_last();
        lemma_end_trimmed(rest);
        let k = end_trimmed(rest).len() as int;
        assert(s.take(k) =~= rest.take(k));
        assert forall|i: int| 0 <= i < s.len() - k implies is_space(#[trigger] s.skip(k)[i]) by {
            if i < rest.len() - k {
                assert(is_space(rest.skip(k)[i]));
            }
        }
    } else {
        assert(s.take(s.len() as int) =~= s);
    }
}

/// Trimming takes white space off both ends and nothing else.
pub proof fn trimming_takes_off_white_space(s: Seq<char>)
    ensures
        exists|before: Seq<char>, after: Seq<char>|
            blank(before) && blank(after) && s == #[trigger] (before + trimmed(s) + after),
        trimmed(s).len() > 0 ==> !is_space(trimmed(s)[0]) && !is_space(trimmed(s).last()),
        exists|after: Seq<char>| blank(after) && s == #[trigger] (end_trimmed(s) + after),
        end_trimmed(s).len() > 0 ==> !is_space(end_trimmed(s).last()),
{
    lemma_start_trimmed(s);
    lemma_end_trimmed(s);
    let late = start_trimmed(s);
    lemma_end_trimmed(late);
    let before = s.take(s.len() - late.len());
    let after = late.skip(trimmed(s).len() as int);
    assert(s =~= before + trimmed(s) + after);
    let end = s.skip(end_trimmed(s).len() as int);
    assert(s =~= end_trimmed(s) + end);
}

/// The bytes of two texts in a row are those of the one and of the other.
pub proof fn bytes_add_up(a: Seq<char>, b: Seq<char>)
    ensures
        byte_len(a + b) == byte_len(a) + byte_len(b),
        byte_len(Seq::empty()) == 0,
    decreases b.len(),
{
    if b.len() == 0 {
        assert(a + b =~= a);
    } else {
        bytes_add_up(a, b.drop_last());
        assert((a + b).drop_last() =~= a + b.drop_last());
    }
}

/// A cut text is the longest beginning that fits.
pub proof fn cut_texts_are_beginnings(s: Seq<char>, n: nat)
    ensures
        begins(s, cut_bytes(s, n)),
        byte_len(cut_bytes(s, n)) <= n,
        cut_bytes(s, n).len() < s.len() ==> byte_len(s.take(cut_bytes(s, n).len() as int + 1)) > n,
    decreases s.len(),
{
    if byte_len(s) <= n {
        assert(s.take(s.len() as int) =~= s);
    } else {
        let short = s.drop_last();
        cut_texts_are_beginnings(short, n);
        let k = cut_bytes(s, n).len() as int;
        assert(short.take(k) =~= s.take(k));
        if k < short.len() {
            assert(short.take(k + 1) =~= s.take(k + 1));
        } else {
            assert(s.take(k + 1) =~= s);
        }
    }
}

/// The last bytes of a text are the longest ending that fits.
pub proof fn last_bytes_are_endings(s: Seq<char>, n: nat)
    ensures
        ends_in(s, last_bytes(s, n)),
        byte_len(last_bytes(s, n)) <= n,
        last_bytes(s, n).len() < s.len() ==> byte_len(s.skip(s.len() - last_bytes(s, n).len() - 1)) > n,
    decreases s.len(),
{
    if byte_len(s) <= n {
        assert(s.skip(0) =~= s);
    } else {
        let short = s.drop_first();
        last_bytes_are_endings(short, n);
        let k = last_bytes(s, n).len();
        assert(short.skip(short.len() - k) =~= s.skip(s.len() - k));
        if k < short.len() {
            assert(short.skip(short.len() - k - 1) =~= s.skip(s.len() - k - 1));
        } else {
            assert(s.skip(0) =~= s);
        }
    }
}

/// A text that does not hold the pattern stays as it is.
pub proof fn texts_without_the_pattern_stay(text: Seq<char>, pattern: Seq<char>, with: Seq<char>)
    requires
        !has_text(text, pattern),
    ensures
        replaced(text, pattern, with) == text,
    decreases text.len(),
{
    if text.len() > 0 {
        assert(!stands_at(text, pattern, 0));
        let rest = text.drop_first();
        assert forall|i: int| !stands_at(rest, pattern, i) by {
            if stands_at(rest, pattern, i) {
                assert(text.subrange(i + 1, i + 1 + pattern.len()) =~= rest.subrange(i, i + pattern.len()));
                assert(stands_at(text, pattern, i + 1));
            }
        }
        texts_without_the_pattern_stay(rest, pattern, with);
        assert(seq![text[0]] + rest =~= text);
    }
}

/// Replacing acts on the first place where the pattern stands, and on what is behind it
/// in the same way.
pub proof fn patterns_are_replaced(before: Seq<char>, pattern: Seq<char>, after: Seq<char>, with: Seq<char>)
    requires
        pattern.len() > 0,
        forall|i: int| 0 <= i < before.len() ==> !stands_at(before + pattern + after, pattern, i),
    ensures
        replaced(before + pattern + after, pattern, with) == before + with + replaced(after, pattern, with),
    decreases before.len(),
{
    let text = before + pattern + after;
    if before.len() == 0 {
        assert(text.subrange(0, pattern.len() as int) =~= pattern);
        assert(stands_at(text, pattern, 0));
        assert(text.skip(pattern.len() as int) =~= after);
        assert(before + with + replaced(after, pattern, with) =~= with + replaced(after, pattern, with));
    } else {
        let rest = before.drop_first();
        assert(!stands_at(text, pattern, 0));
        assert(text.drop_first() =~= rest + pattern + after);
        assert forall|i: int| 0 <= i < rest.len() implies !stands_at(rest + pattern + after, pattern, i) by {
            if stands_at(rest + pattern + after, pattern, i) {
                assert(text.subrange(i + 1, i + 1 + pattern.len()) =~= (rest + pattern + after).subrange(
                    i,
                    i + pattern.len(),
                ));
                assert(stands_at(text, pattern, i + 1));
            }
        }
        patterns_are_replaced(rest, pattern, after, with);
        assert(seq![text[0]] + (rest + with + replaced(after, pattern, with)) =~= before + with + replaced(
            after,
            pattern,
            with,
        ));
    }
}

/// What two texts begin with alike does not matter for their order: the first
/// difference decides, and a text comes before what goes on behind it.
pub proof fn the_first_difference_decides(alike: Seq<char>, a: Seq<char>, b: Seq<char>)
    ensures
        text_less(alike + a, alike + b) == text_less(a, b),
        a.len() > 0 && b.len() > 0 && a[0] != b[0] ==> text_less(a, b) == ((a[0] as int) < (b[0] as int)),
        text_less(alike, alike + b) == (b.len() > 0),
        !text_less(alike + a, alike),
    decreases alike.len(),
{
    if alike.len() == 0 {
        assert(alike + a =~= a);
        assert(alike + b =~= b);
    } else {
        the_first_difference_decides(alike.drop_first(), a, b);
        assert((alike + a).drop_first() =~= alike.drop_first() + a);
        assert((alike + b).drop_first() =~= alike.drop_first() + b);
    }
}

/// A text is found inside every text that it is part of.
pub proof fn parts_are_found(before: Seq<char>, needle: Seq<char>, after: Seq<char>)
    ensures
        has_text(before + needle + after, needle),
        begins(needle + after, needle),
        ends_in(before + needle, needle),
{
    assert((before + needle + after).subrange(before.len() as int, before.len() as int + needle.len()) =~= needle);
    assert(stands_at(before + needle + after, needle, before.len() as int));
    assert((needle + after).take(needle.len() as int) =~= needle);
    assert((before + needle).skip(before.len() as int) =~= needle);
}

/// Every character of a text is kept, but for letters of the other case, which lie
/// thirty-two codes apart.
pub proof fn letters_change_their_case(s: Seq<char>, i: int)
    requires
        0 <= i < s.len(),
    ensures
        ascii_lower(s).len() == s.len(),
        ascii_upper(s).len() == s.len(),
        ascii_lower(s)[i] as int == s[i] as int + (if 'A' <= s[i] && s[i] <= 'Z' { 32int } else { 0int }),
        ascii_upper(s)[i] as int == s[i] as int - (if 'a' <= s[i] && s[i] <= 'z' { 32int } else { 0int }),
{
    let c = s[i];
    if 'A' <= c && c <= 'Z' {
        let u = c as u8;
        assert(u == c as int);
    }
}

/// An aligned text has the width that is asked for, or its own where that is greater.
/// A shortened text is its beginning.
pub proof fn widths_are_kept(s: Seq<char>, n: nat)
    ensures
        ends_in(right_aligned(s, n as int), s),
        right_aligned(s, n as int).len() == (if s.len() < n { n } else { s.len() }),
        forall|i: int| 0 <= i < right_aligned(s, n as int).len() - s.len() ==> right_aligned(s, n as int)[i] == ' ',
        begins(s, first_chars(s, n as int)),
        first_chars(s, n as int).len() == (if s.len() < n { s.len() } else { n }),
{
    let r = right_aligned(s, n as int);
    assert(r.skip(r.len() - s.len()) =~= s);
    assert(s.take(s.len() as int) =~= s);
    assert(s.take(first_chars(s, n as int).len() as int) =~= first_chars(s, n as int));
}

} // verus!
