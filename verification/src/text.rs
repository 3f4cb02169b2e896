//! Text as sequences of characters.
//!
//! Every string of the crate is described by the sequence of its characters.
//! The executable functions below compute on strings; the specification
//! functions say what they compute on sequences.
use vstd::prelude::*;
use vstd::string::*;

verus! {

/// `String::push` appends one character.
pub assume_specification[ String::push ](s: &mut String, c: char)
    ensures
        final(s)@ == old(s)@.push(c),
;

/// `str::eq` holds exactly where both strings have the same characters.
pub assume_specification[ <str as PartialEq>::eq ](a: &str, b: &str) -> (r: bool)
    ensures
        r == (a@ == b@),
;

/// Whether two strings have the same characters.
pub fn same(a: &str, b: &str) -> (r: bool)
    ensures
        r == (a@ == b@),
{
    *a == *b
}

/// The characters of `s`, in order.
pub fn chars_of(s: &str) -> (v: Vec<char>)
    ensures
        v@ == s@,
{
    let mut v: Vec<char> = Vec::new();
    for c in it: s.chars()
        invariant
            it.seq() == s@,
            v@ == it.seq().take(it.index()),
    {
        v.push(c);
    }
    v
}

/// The string with the characters `v[from..to]`.
pub fn text_between(v: &Vec<char>, from: usize, to: usize) -> (s: String)
    requires
        from <= to <= v.len(),
    ensures
        s@ == v@.subrange(from as int, to as int),
{
    let mut s = String::new();
    let mut i: usize = from;
    while i < to
        invariant
            from <= i <= to <= v.len(),
            s@ == v@.subrange(from as int, i as int),
        decreases to - i,
    {
        s.push(v[i]);
        i += 1;
        assert(v@.subrange(from as int, i as int) =~= v@.subrange(from as int, i - 1).push(v@[i - 1]));
    }
    s
}

/// The string with the characters of `v`.
pub fn text_of(v: &Vec<char>) -> (s: String)
    ensures
        s@ == v@,
{
    let s = text_between(v, 0, v.len());
    assert(v@.subrange(0, v.len() as int) =~= v@);
    s
}

/// The texts of a sequence of strings.
pub open spec fn texts(v: Seq<String>) -> Seq<Seq<char>> {
    v.map_values(|s: String| s@)
}

/// A copy of a list of strings.
pub fn copy_texts(v: &Vec<String>) -> (r: Vec<String>)
    ensures
        r@ == v@,
{
    let mut r: Vec<String> = Vec::new();
    let mut i: usize = 0;
    while i < v.len()
        invariant
            i <= v.len(),
            r@ == v@.take(i as int),
        decreases v.len() - i,
    {
        r.push(v[i].clone());
        i += 1;
        assert(v@.take(i as int) =~= v@.take(i - 1).push(v@[i - 1]));
    }
    assert(v@.take(v.len() as int) =~= v@);
    r
}

/// Whether `v` holds a string with the characters of `s`.
pub fn holds_text(v: &Vec<String>, s: &str) -> (r: bool)
    ensures
        r == texts(v@).contains(s@),
{
    let mut i: usize = 0;
    while i < v.len()
        invariant
            i <= v.len(),
            forall|k: int| 0 <= k < i ==> (#[trigger] v@[k])@ != s@,
        decreases v.len() - i,
    {
        if same(v[i].as_str(), s) {
            assert(texts(v@)[i as int] == s@);
            return true;
        }
        i += 1;
    }
    proof {
        if texts(v@).contains(s@) {
            let k = choose|k: int| 0 <= k < texts(v@).len() && texts(v@)[k] == s@;
            assert(v@[k]@ == s@);
        }
    }
    false
}

// ---------------------------------------------------------------------------
// Numbers
// ---------------------------------------------------------------------------

/// The character of one digit below sixteen.
pub open spec fn digit_char(d: int) -> char {
    if d <= 0 {
        '0'
    } else if d == 1 {
        '1'
    } else if d == 2 {
        '2'
    } else if d == 3 {
        '3'
    } else if d == 4 {
        '4'
    } else if d == 5 {
        '5'
    } else if d == 6 {
        '6'
    } else if d == 7 {
        '7'
    } else if d == 8 {
        '8'
    } else if d == 9 {
        '9'
    } else if d == 10 {
        'a'
    } else if d == 11 {
        'b'
    } else if d == 12 {
        'c'
    } else if d == 13 {
        'd'
    } else if d == 14 {
        'e'
    } else {
        'f'
    }
}

/// The numeral of `n` in `base`, without leading zeros.
pub open spec fn numeral(n: nat, base: nat) -> Seq<char>
    decreases n,
    when base >= 2
{
    if n < base {
        seq![digit_char(n as int)]
    } else {
        proof {
            assert(n / base < n) by (nonlinear_arith)
                requires
                    2 <= base <= n,
            ;
        }
        numeral(n / base, base).push(digit_char((n % base) as int))
    }
}

proof fn lemma_digits_differ(a: int, b: int)
    requires
        0 <= a < 16,
        0 <= b < 16,
        digit_char(a) == digit_char(b),
    ensures
        a == b,
{
}

proof fn lemma_numeral_not_empty(n: nat, base: nat)
    requires
        base >= 2,
    ensures
        numeral(n, base).len() > 0,
{
}

/// Different numbers have different numerals.
pub proof fn numerals_differ(a: nat, b: nat, base: nat)
    requires
        2 <= base <= 16,
        numeral(a, base) == numeral(b, base),
    ensures
        a == b,
    decreases a,
{
    reveal_with_fuel(numeral, 2);
    let left = numeral(a, base);
    let right = numeral(b, base);
    if a < base {
        assert(left =~= seq![digit_char(a as int)]);
    } else {
        assert(left =~= numeral(a / base, base).push(digit_char((a % base) as int)));
    }
    if b < base {
        assert(right =~= seq![digit_char(b as int)]);
    } else {
        assert(right =~= numeral(b / base, base).push(digit_char((b % base) as int)));
    }
    if a < base && b < base {
        assert(left[0] == digit_char(a as int));
        assert(right[0] == digit_char(b as int));
        lemma_digits_differ(a as int, b as int);
    } else if a < base {
        lemma_numeral_not_empty(b / base, base);
        assert(right.len() > left.len());
    } else if b < base {
        lemma_numeral_not_empty(a / base, base);
        assert(left.len() > right.len());
    } else {
        assert(left.drop_last() =~= numeral(a / base, base));
        assert(right.drop_last() =~= numeral(b / base, base));
        assert(left.last() == digit_char((a % base) as int));
        assert(right.last() == digit_char((b % base) as int));
        assert(a / base < a) by (nonlinear_arith)
            requires
                2 <= base <= a,
        ;
        numerals_differ(a / base, b / base, base);
        lemma_digits_differ((a % base) as int, (b % base) as int);
        vstd::arithmetic::div_mod::lemma_fundamental_div_mod(a as int, base as int);
        vstd::arithmetic::div_mod::lemma_fundamental_div_mod(b as int, base as int);
    }
}

/// The decimal numeral of `n`.
pub open spec fn decimal(n: nat) -> Seq<char> {
    numeral(n, 10)
}

/// The decimal numeral of an integer, with a minus sign where it is negative.
pub open spec fn signed_decimal(n: int) -> Seq<char> {
    if n < 0 {
        seq!['-'] + decimal((-n) as nat)
    } else {
        decimal(n as nat)
    }
}

pub fn digit(d: u128) -> (c: char)
    requires
        d < 16,
    ensures
        c == digit_char(d as int),
{
    if d == 0 {
        '0'
    } else if d == 1 {
        '1'
    } else if d == 2 {
        '2'
    } else if d == 3 {
        '3'
    } else if d == 4 {
        '4'
    } else if d == 5 {
        '5'
    } else if d == 6 {
        '6'
    } else if d == 7 {
        '7'
    } else if d == 8 {
        '8'
    } else if d == 9 {
        '9'
    } else if d == 10 {
        'a'
    } else if d == 11 {
        'b'
    } else if d == 12 {
        'c'
    } else if d == 13 {
        'd'
    } else if d == 14 {
        'e'
    } else {
        'f'
    }
}

fn numeral_text(n: u128, base: u128) -> (s: String)
    requires
        2 <= base <= 16,
    ensures
        s@ == numeral(n as nat, base as nat),
    decreases n,
{
    if n < base {
        let mut s = String::new();
        s.push(digit(n));
        assert(s@ =~= seq![digit_char(n as int)]);
        s
    } else {
        assert(n / base < n) by (nonlinear_arith)
            requires
                2 <= base <= n,
        ;
        let mut s = numeral_text(n / base, base);
        s.push(digit(n % base));
        s
    }
}

/// `n` in decimal.
pub fn decimal_text(n: u128) -> (s: String)
    ensures
        s@ == decimal(n as nat),
{
    numeral_text(n, 10)
}

/// `n` in lower-case hexadecimal.
pub fn hex_text(n: u128) -> (s: String)
    ensures
        s@ == numeral(n as nat, 16),
{
    numeral_text(n, 16)
}

/// A signed number in decimal.
pub fn signed_text(n: i128) -> (s: String)
    ensures
        s@ == signed_decimal(n as int),
{
    if n >= 0 {
        decimal_text(n as u128)
    } else {
        let mut s = String::new();
        s.push('-');
        let magnitude: u128 = if n == i128::MIN {
            170141183460469231731687303715884105728u128
        } else {
            (-n) as u128
        };
        assert(magnitude == -n);
        s.append(decimal_text(magnitude).as_str());
        assert(s@ =~= seq!['-'] + decimal((-n) as nat));
        s
    }
}

// ---------------------------------------------------------------------------
// Concatenation
// ---------------------------------------------------------------------------

/// The texts of `parts` with `sep` between each two neighbours.
pub open spec fn joined(parts: Seq<Seq<char>>, sep: Seq<char>) -> Seq<char>
    decreases parts.len(),
{
    if parts.len() == 0 {
        Seq::empty()
    } else if parts.len() == 1 {
        parts[0]
    } else {
        joined(parts.drop_last(), sep) + sep + parts.last()
    }
}

/// Joins `parts` with `sep`.
pub fn join(parts: &Vec<String>, sep: &str) -> (s: String)
    ensures
        s@ == joined(texts(parts@), sep@),
{
    let mut s = String::new();
    let mut i: usize = 0;
    while i < parts.len()
        invariant
            i <= parts.len(),
            s@ == joined(texts(parts@).take(i as int), sep@),
        decreases parts.len() - i,
    {
        if i > 0 {
            s.append(sep);
        }
        s.append(parts[i].as_str());
        i += 1;
        proof {
            let before = texts(parts@).take(i - 1);
            let after = texts(parts@).take(i as int);
            assert(after.drop_last() =~= before);
            assert(after.last() == parts@[i - 1]@);
            if i == 1 {
                assert(s@ =~= parts@[0]@);
            }
        }
    }
    assert(texts(parts@).take(parts.len() as int) =~= texts(parts@));
    s
}

// ---------------------------------------------------------------------------
// Order and search
// ---------------------------------------------------------------------------

/// Strict lexicographic order by character code.
pub open spec fn text_less(a: Seq<char>, b: Seq<char>) -> bool
    decreases a.len(),
{
    if b.len() == 0 {
        false
    } else if a.len() == 0 {
        true
    } else if a[0] != b[0] {
        (a[0] as int) < (b[0] as int)
    } else {
        text_less(a.drop_first(), b.drop_first())
    }
}

/// Whether `a` comes strictly before `b`.
pub fn less(a: &str, b: &str) -> (r: bool)
    ensures
        r == text_less(a@, b@),
{
    let x = chars_of(a);
    let y = chars_of(b);
    let mut i: usize = 0;
    assert(x@.skip(0) =~= x@);
    assert(y@.skip(0) =~= y@);
    while i < x.len() && i < y.len() && x[i] == y[i]
        invariant
            i <= x.len(),
            i <= y.len(),
            text_less(x@, y@) == text_less(x@.skip(i as int), y@.skip(i as int)),
        decreases x.len() - i,
    {
        proof {
            assert(x@.skip(i as int).drop_first() =~= x@.skip(i + 1));
            assert(y@.skip(i as int).drop_first() =~= y@.skip(i + 1));
        }
        i += 1;
    }
    proof {
        reveal_with_fuel(text_less, 2);
    }
    if i >= y.len() {
        false
    } else if i >= x.len() {
        true
    } else {
        let p: char = x[i];
        let q: char = y[i];
        p < q
    }
}

/// Whether `prefix` begins `text`.
pub open spec fn begins(text: Seq<char>, prefix: Seq<char>) -> bool {
    prefix.len() <= text.len() && text.take(prefix.len() as int) == prefix
}

/// Whether `text` begins with `prefix`.
pub fn starts_with(text: &str, prefix: &str) -> (r: bool)
    ensures
        r == begins(text@, prefix@),
{
    let t = chars_of(text);
    let p = chars_of(prefix);
    if p.len() > t.len() {
        return false;
    }
    let head = text_between(&t, 0, p.len());
    assert(t@.subrange(0, p.len() as int) =~= t@.take(p.len() as int));
    same(head.as_str(), prefix)
}

/// Whether `text` holds the character `c`.
pub fn has_char(text: &str, c: char) -> (r: bool)
    ensures
        r == text@.contains(c),
{
    let t = chars_of(text);
    let mut i: usize = 0;
    while i < t.len()
        invariant
            i <= t.len(),
            t@ == text@,
            forall|k: int| 0 <= k < i ==> t@[k] != c,
        decreases t.len() - i,
    {
        if t[i] == c {
            assert(t@[i as int] == c);
            return true;
        }
        i += 1;
    }
    false
}

/// The position of the first `c` in `text`, or its length.
pub open spec fn first_at(text: Seq<char>, c: char) -> int
    decreases text.len(),
{
    if text.len() == 0 || text[0] == c {
        0
    } else {
        1 + first_at(text.drop_first(), c)
    }
}

/// What lies before and after the first `c`; nothing where there is none.
pub open spec fn split_at_first(text: Seq<char>, c: char) -> Option<(Seq<char>, Seq<char>)> {
    if text.contains(c) {
        let i = first_at(text, c);
        Some((text.take(i), text.skip(i + 1)))
    } else {
        None
    }
}

pub proof fn lemma_first_at(text: Seq<char>, c: char, i: int)
    requires
        0 <= i < text.len(),
        text[i] == c,
        forall|k: int| 0 <= k < i ==> text[k] != c,
    ensures
        first_at(text, c) == i,
    decreases text.len(),
{
    if i > 0 {
        assert(text[0] != c);
        lemma_first_at(text.drop_first(), c, i - 1);
    }
}

/// Splits `text` at the first `c`.
pub fn split_once(text: &str, c: char) -> (r: Option<(String, String)>)
    ensures
        match r {
            Some(p) => split_at_first(text@, c) == Some((p.0@, p.1@)),
            None => split_at_first(text@, c) is None,
        },
{
    let t = chars_of(text);
    let mut i: usize = 0;
    while i < t.len()
        invariant
            i <= t.len(),
            t@ == text@,
            forall|k: int| 0 <= k < i ==> t@[k] != c,
        decreases t.len() - i,
    {
        if t[i] == c {
            proof {
                lemma_first_at(t@, c, i as int);
                assert(t@[i as int] == c);
            }
            let a = text_between(&t, 0, i);
            let b = text_between(&t, i + 1, t.len());
            assert(a@ =~= t@.take(i as int));
            assert(b@ =~= t@.skip(i + 1));
            return Some((a, b));
        }
        i += 1;
    }
    None
}

// ---------------------------------------------------------------------------
// Bytes, padding and truncation
// ---------------------------------------------------------------------------

/// The number of bytes that UTF-8 spends on one character.
pub open spec fn utf8_width(c: char) -> nat {
    if (c as u32) < 0x80 {
        1
    } else if (c as u32) < 0x800 {
        2
    } else if (c as u32) < 0x10000 {
        3
    } else {
        4
    }
}

/// The number of bytes of a text in UTF-8.
pub open spec fn byte_len(s: Seq<char>) -> nat
    decreases s.len(),
{
    if s.len() == 0 {
        0
    } else {
        byte_len(s.drop_last()) + utf8_width(s.last())
    }
}

/// The longest beginning of `s` that takes at most `n` bytes.
pub open spec fn cut_bytes(s: Seq<char>, n: nat) -> Seq<char>
    decreases s.len(),
{
    if byte_len(s) <= n {
        s
    } else {
        cut_bytes(s.drop_last(), n)
    }
}

/// Whether some beginning of `s` takes exactly `n` bytes.
pub open spec fn cuts_evenly(s: Seq<char>, n: nat) -> bool {
    byte_len(cut_bytes(s, n)) == n
}

pub fn width_of(c: char) -> (n: usize)
    ensures
        n == utf8_width(c),
{
    let code: u32 = c as u32;
    if code < 0x80 {
        1
    } else if code < 0x800 {
        2
    } else if code < 0x10000 {
        3
    } else {
        4
    }
}

pub proof fn lemma_byte_len_bounds(s: Seq<char>)
    ensures
        s.len() <= byte_len(s) <= 4 * s.len(),
    decreases s.len(),
{
    if s.len() > 0 {
        lemma_byte_len_bounds(s.drop_last());
    }
}

pub proof fn lemma_byte_len_take(s: Seq<char>, k: int)
    requires
        0 <= k < s.len(),
    ensures
        byte_len(s.take(k + 1)) == byte_len(s.take(k)) + utf8_width(s[k]),
{
    assert(s.take(k + 1).drop_last() =~= s.take(k));
}

pub proof fn lemma_byte_len_monotonic(s: Seq<char>, i: int, j: int)
    requires
        0 <= i <= j <= s.len(),
    ensures
        byte_len(s.take(i)) + (j - i) <= byte_len(s.take(j)),
    decreases j - i,
{
    if i < j {
        lemma_byte_len_monotonic(s, i, j - 1);
        lemma_byte_len_take(s, j - 1);
    }
}

pub proof fn lemma_cut_bytes(s: Seq<char>, n: nat, k: int)
    requires
        0 <= k <= s.len(),
        byte_len(s.take(k)) <= n,
        k < s.len() ==> byte_len(s.take(k + 1)) > n,
    ensures
        cut_bytes(s, n) == s.take(k),
    decreases s.len(),
{
    assert(s.take(s.len() as int) =~= s);
    if k < s.len() {
        lemma_byte_len_monotonic(s, k + 1, s.len() as int);
        let init = s.drop_last();
        assert(init.take(k) =~= s.take(k));
        if k < init.len() {
            assert(init.take(k + 1) =~= s.take(k + 1));
        }
        lemma_cut_bytes(init, n, k);
    }
}

proof fn lemma_scalar_width(c: char)
    ensures
        vstd::utf8::encode_scalar(c as u32).len() == utf8_width(c),
{
}

/// The encoding of a text ends in the encoding of its last character.
proof fn lemma_encoded_len(s: Seq<char>)
    requires
        s.len() > 0,
    ensures
        vstd::utf8::encode_utf8(s).len() == vstd::utf8::encode_utf8(s.drop_last()).len() + utf8_width(s.last()),
    decreases s.len(),
{
    reveal_with_fuel(vstd::utf8::encode_utf8, 2);
    if s.len() == 1 {
        assert(s.drop_first() =~= Seq::empty());
        assert(s.drop_last() =~= Seq::empty());
        assert(vstd::utf8::encode_utf8(Seq::<char>::empty()).len() == 0);
        lemma_scalar_width(s[0]);
        assert(vstd::utf8::encode_utf8(s) == vstd::utf8::encode_scalar(s[0] as u32) + vstd::utf8::encode_utf8(s.drop_first()));
    } else {
        let rest = s.drop_first();
        lemma_encoded_len(rest);
        assert(s.drop_last().drop_first() =~= rest.drop_last());
        assert(s.drop_last()[0] == s[0]);
        assert(rest.last() == s.last());
    }
}

proof fn lemma_byte_len_is_encoded_len(s: Seq<char>)
    ensures
        byte_len(s) == vstd::utf8::encode_utf8(s).len(),
    decreases s.len(),
{
    if s.len() > 0 {
        lemma_encoded_len(s);
        lemma_byte_len_is_encoded_len(s.drop_last());
    }
}

/// The number of bytes of a text in UTF-8.
pub fn byte_count(s: &str) -> (n: usize)
    ensures
        n == byte_len(s@),
{
    proof {
        lemma_byte_len_is_encoded_len(s@);
    }
    let bytes = s.as_bytes_vec();
    bytes.len()
}

/// The longest beginning of `s` that takes at most `n` bytes.
pub fn cut_to_bytes(s: &str, n: usize) -> (r: String)
    ensures
        r@ == cut_bytes(s@, n as nat),
{
    let v = chars_of(s);
    let mut k: usize = 0;
    let mut used: usize = 0;
    assert(v@.take(0) =~= Seq::<char>::empty());
    while k < v.len()
        invariant_except_break
            v@ == s@,
            k <= v.len(),
            used == byte_len(v@.take(k as int)),
            used <= n,
        ensures
            v@ == s@,
            k <= v.len(),
            byte_len(v@.take(k as int)) <= n,
            k < v.len() ==> byte_len(v@.take(k + 1)) > n,
        decreases v.len() - k,
    {
        proof {
            lemma_byte_len_take(v@, k as int);
        }
        let w = width_of(v[k]);
        if w > n - used {
            break;
        }
        used = used + w;
        k += 1;
    }
    proof {
        lemma_cut_bytes(v@, n as nat, k as int);
        assert(v@.subrange(0, k as int) =~= v@.take(k as int));
    }
    text_between(&v, 0, k)
}

/// Whether `s` takes more than `n` bytes.
pub fn longer_than_bytes(s: &str, n: usize) -> (r: bool)
    ensures
        r == (byte_len(s@) > n),
{
    let cut = cut_to_bytes(s, n);
    proof {
        lemma_cut_len(s@, n as nat);
    }
    !same(cut.as_str(), s)
}

pub proof fn lemma_cut_len(s: Seq<char>, n: nat)
    ensures
        byte_len(cut_bytes(s, n)) <= n || cut_bytes(s, n).len() == 0,
        byte_len(s) > n ==> cut_bytes(s, n).len() < s.len(),
        byte_len(s) <= n ==> cut_bytes(s, n) == s,
    decreases s.len(),
{
    if byte_len(s) > n {
        lemma_cut_len(s.drop_last(), n);
    }
}

/// The longest ending of `s` that takes at most `n` bytes.
pub open spec fn last_bytes(s: Seq<char>, n: nat) -> Seq<char>
    decreases s.len(),
{
    if byte_len(s) <= n {
        s
    } else {
        last_bytes(s.drop_first(), n)
    }
}

pub proof fn lemma_byte_len_first(s: Seq<char>)
    requires
        s.len() > 0,
    ensures
        byte_len(s) == utf8_width(s[0]) + byte_len(s.drop_first()),
    decreases s.len(),
{
    if s.len() > 1 {
        lemma_byte_len_first(s.drop_last());
        assert(s.drop_last().drop_first() =~= s.drop_first().drop_last());
    } else {
        assert(s.drop_first() =~= Seq::empty());
        assert(s.drop_last() =~= Seq::empty());
        assert(byte_len(s.drop_last()) == 0);
    }
}

proof fn lemma_last_bytes(s: Seq<char>, n: nat, k: int)
    requires
        0 <= k <= s.len(),
        byte_len(s.skip(k)) <= n,
        k > 0 ==> byte_len(s.skip(k - 1)) > n,
    ensures
        last_bytes(s, n) == s.skip(k),
    decreases s.len(),
{
    assert(s.skip(0) =~= s);
    if k > 0 {
        let rest = s.drop_first();
        lemma_bytes_of_ending(s, k - 1);
        assert(rest.skip(k - 1) =~= s.skip(k));
        if k > 1 {
            assert(rest.skip(k - 2) =~= s.skip(k - 1));
        }
        lemma_last_bytes(rest, n, k - 1);
    }
}

proof fn lemma_bytes_of_ending(s: Seq<char>, k: int)
    requires
        0 <= k <= s.len(),
    ensures
        byte_len(s.skip(k)) <= byte_len(s),
    decreases k,
{
    assert(s.skip(0) =~= s);
    if k > 0 {
        lemma_bytes_of_ending(s, k - 1);
        lemma_byte_len_first(s.skip(k - 1));
        assert(s.skip(k - 1).drop_first() =~= s.skip(k));
    }
}

/// The longest ending of `s` that takes at most `n` bytes.
pub fn take_last_bytes(s: &str, n: usize) -> (r: String)
    ensures
        r@ == last_bytes(s@, n as nat),
{
    let v = chars_of(s);
    let mut k: usize = v.len();
    let mut used: usize = 0;
    assert(v@.skip(v@.len() as int) =~= Seq::<char>::empty());
    while k > 0
        invariant_except_break
            v@ == s@,
            k <= v.len(),
            used == byte_len(v@.skip(k as int)),
            used <= n,
        ensures
            v@ == s@,
            k <= v.len(),
            byte_len(v@.skip(k as int)) <= n,
            k > 0 ==> byte_len(v@.skip(k - 1)) > n,
        decreases k,
    {
        proof {
            lemma_byte_len_first(v@.skip(k - 1));
            assert(v@.skip(k - 1).drop_first() =~= v@.skip(k as int));
        }
        let w = width_of(v[k - 1]);
        if w > n - used {
            break;
        }
        used = used + w;
        k -= 1;
    }
    proof {
        lemma_last_bytes(v@, n as nat, k as int);
        assert(v@.subrange(k as int, v@.len() as int) =~= v@.skip(k as int));
    }
    text_between(&v, k, v.len())
}

/// The text with every occurrence of a pattern replaced, from the left.
pub open spec fn replaced(text: Seq<char>, pattern: Seq<char>, with: Seq<char>) -> Seq<char>
    decreases text.len(),
{
    if text.len() == 0 {
        text
    } else if pattern.len() > 0 && stands_at(text, pattern, 0) {
        with + replaced(text.skip(pattern.len() as int), pattern, with)
    } else {
        seq![text[0]] + replaced(text.drop_first(), pattern, with)
    }
}

/// Replaces every occurrence of a pattern, from the left.
pub fn replace(text: &str, pattern: &str, with: &str) -> (r: String)
    ensures
        r@ == replaced(text@, pattern@, with@),
{
    let v = chars_of(text);
    let p = chars_of(pattern);
    let mut r = String::new();
    let mut i: usize = 0;
    assert(v@.skip(0) =~= v@);
    assert(r@ + replaced(v@, p@, with@) =~= replaced(v@, p@, with@));
    while i < v.len()
        invariant
            i <= v.len(),
            v@ == text@,
            p@ == pattern@,
            r@ + replaced(v@.skip(i as int), p@, with@) == replaced(text@, p@, with@),
        decreases v.len() - i,
    {
        let ghost rest = v@.skip(i as int);
        let ghost before = r@;
        proof {
            assert(rest.drop_first() =~= v@.skip(i + 1));
            assert(stands_at(v@, p@, i as int) == stands_at(rest, p@, 0)) by {
                if stands_at(v@, p@, i as int) {
                    assert(rest.subrange(0, p@.len() as int) =~= v@.subrange(i as int, i + p@.len()));
                }
                if stands_at(rest, p@, 0) {
                    assert(rest.subrange(0, p@.len() as int) =~= v@.subrange(i as int, i + p@.len()));
                }
            }
        }
        if p.len() > 0 && p.len() <= v.len() - i && stands_here(&v, &p, i) {
            r.append(with);
            proof {
                assert(rest.skip(p@.len() as int) =~= v@.skip(i + p@.len()));
                assert(r@ + replaced(v@.skip(i + p@.len()), p@, with@) =~= before + replaced(rest, p@, with@));
            }
            i += p.len();
        } else {
            r.push(v[i]);
            assert(r@ + replaced(v@.skip(i + 1), p@, with@) =~= before + replaced(rest, p@, with@));
            i += 1;
        }
    }
    assert(v@.skip(v@.len() as int) =~= Seq::<char>::empty());
    r
}

/// `n` spaces.
pub open spec fn spaces(n: int) -> Seq<char> {
    Seq::new(if n > 0 { n as nat } else { 0 }, |i: int| ' ')
}

/// `s` with spaces before it, up to `width` characters in all.
pub open spec fn right_aligned(s: Seq<char>, width: int) -> Seq<char> {
    spaces(width - s.len()) + s
}

/// Pads `s` with spaces on the left, up to `width` characters in all.
pub fn align_right(s: &str, width: usize) -> (r: String)
    ensures
        r@ == right_aligned(s@, width as int),
{
    let n = s.unicode_len();
    let mut r = String::new();
    let mut i: usize = n;
    assert(r@ =~= spaces(0));
    while i < width
        invariant
            n <= i,
            i <= width || i == n,
            r@ == spaces(i - n),
        decreases width - i,
    {
        r.push(' ');
        i += 1;
        assert(r@ =~= spaces(i - n));
    }
    assert(r@ =~= spaces(width - n));
    r.append(s);
    r
}

/// The first `n` characters of `s`, or all of them.
pub open spec fn first_chars(s: Seq<char>, n: int) -> Seq<char> {
    if s.len() <= n {
        s
    } else {
        s.take(n)
    }
}

/// The first `n` characters of `s`.
pub fn take_chars(s: &str, n: usize) -> (r: String)
    ensures
        r@ == first_chars(s@, n as int),
{
    let v = chars_of(s);
    if v.len() <= n {
        text_of(&v)
    } else {
        assert(v@.subrange(0, n as int) =~= v@.take(n as int));
        text_between(&v, 0, n)
    }
}

/// `s` with every `from` replaced by `to`.
pub open spec fn with_char_replaced(s: Seq<char>, from: char, to: char) -> Seq<char> {
    s.map_values(|c: char| if c == from { to } else { c })
}

/// Replaces every `from` in `s` by `to`.
pub fn replace_char(s: &str, from: char, to: char) -> (r: String)
    ensures
        r@ == with_char_replaced(s@, from, to),
{
    let v = chars_of(s);
    let mut r = String::new();
    let mut i: usize = 0;
    while i < v.len()
        invariant
            i <= v.len(),
            r@ == with_char_replaced(v@.take(i as int), from, to),
        decreases v.len() - i,
    {
        if v[i] == from {
            r.push(to);
        } else {
            r.push(v[i]);
        }
        i += 1;
        assert(r@ =~= with_char_replaced(v@.take(i as int), from, to));
    }
    assert(v@.take(v.len() as int) =~= v@);
    r
}

// ---------------------------------------------------------------------------
// Whitespace and lines
// ---------------------------------------------------------------------------

/// Whether a character is whitespace (the White_Space property of Unicode).
pub open spec fn is_space(c: char) -> bool {
    ('\u{9}' <= c && c <= '\u{d}') || c == ' ' || c == '\u{85}' || c == '\u{a0}' || c == '\u{1680}' || ('\u{2000}' <= c
        && c <= '\u{200a}') || c == '\u{2028}' || c == '\u{2029}' || c == '\u{202f}' || c == '\u{205f}' || c == '\u{3000}'
}

/// Whether a character is whitespace.
pub fn is_whitespace(c: char) -> (r: bool)
    ensures
        r == is_space(c),
{
    ('\u{9}' <= c && c <= '\u{d}') || c == ' ' || c == '\u{85}' || c == '\u{a0}' || c == '\u{1680}' || ('\u{2000}' <= c
        && c <= '\u{200a}') || c == '\u{2028}' || c == '\u{2029}' || c == '\u{202f}' || c == '\u{205f}' || c == '\u{3000}'
}

/// Text without the whitespace at its start.
pub open spec fn start_trimmed(s: Seq<char>) -> Seq<char>
    decreases s.len(),
{
    if s.len() > 0 && is_space(s[0]) {
        start_trimmed(s.drop_first())
    } else {
        s
    }
}

/// Text without the whitespace at its end.
pub open spec fn end_trimmed(s: Seq<char>) -> Seq<char>
    decreases s.len(),
{
    if s.len() > 0 && is_space(s.last()) {
        end_trimmed(s.drop_last())
    } else {
        s
    }
}

/// Text without the whitespace at both ends.
pub open spec fn trimmed(s: Seq<char>) -> Seq<char> {
    end_trimmed(start_trimmed(s))
}

/// The part of `v[from..to]` without whitespace at both ends.
pub fn trim_between(v: &Vec<char>, from: usize, to: usize) -> (r: String)
    requires
        from <= to <= v.len(),
    ensures
        r@ == trimmed(v@.subrange(from as int, to as int)),
{
    let mut a: usize = from;
    while a < to && is_whitespace(v[a])
        invariant
            from <= a <= to <= v.len(),
            start_trimmed(v@.subrange(from as int, to as int)) == start_trimmed(v@.subrange(a as int, to as int)),
        decreases to - a,
    {
        assert(v@.subrange(a as int, to as int).drop_first() =~= v@.subrange(a + 1, to as int));
        a += 1;
    }
    let mut b: usize = to;
    while b > a && is_whitespace(v[b - 1])
        invariant
            a <= b <= to <= v.len(),
            end_trimmed(v@.subrange(a as int, to as int)) == end_trimmed(v@.subrange(a as int, b as int)),
        decreases b - a,
    {
        assert(v@.subrange(a as int, b as int).drop_last() =~= v@.subrange(a as int, b - 1));
        b -= 1;
    }
    text_between(v, a, b)
}

/// Removes the whitespace at both ends.
pub fn trim(s: &str) -> (r: String)
    ensures
        r@ == trimmed(s@),
{
    let v = chars_of(s);
    let r = trim_between(&v, 0, v.len());
    assert(v@.subrange(0, v.len() as int) =~= v@);
    r
}

/// Removes the whitespace at the end.
pub fn trim_end(s: &str) -> (r: String)
    ensures
        r@ == end_trimmed(s@),
{
    let v = chars_of(s);
    let mut b: usize = v.len();
    assert(v@.subrange(0, b as int) =~= v@);
    while b > 0 && is_whitespace(v[b - 1])
        invariant
            b <= v.len(),
            v@ == s@,
            end_trimmed(s@) == end_trimmed(v@.subrange(0, b as int)),
        decreases b,
    {
        assert(v@.subrange(0, b as int).drop_last() =~= v@.subrange(0, b - 1));
        b -= 1;
    }
    text_between(&v, 0, b)
}

/// Whether `needle` stands in `text` at position `i`.
pub open spec fn stands_at(text: Seq<char>, needle: Seq<char>, i: int) -> bool {
    0 <= i && i + needle.len() <= text.len() && text.subrange(i, i + needle.len()) == needle
}

/// Whether `needle` stands somewhere in `text`.
pub open spec fn has_text(text: Seq<char>, needle: Seq<char>) -> bool {
    exists|i: int| stands_at(text, needle, i)
}

/// Whether `needle` stands in `v` at position `i`.
pub fn stands_here(v: &Vec<char>, needle: &Vec<char>, i: usize) -> (r: bool)
    requires
        i <= v.len(),
    ensures
        r == stands_at(v@, needle@, i as int),
{
    if needle.len() > v.len() - i {
        return false;
    }
    let mut k: usize = 0;
    while k < needle.len()
        invariant
            k <= needle.len(),
            i + needle.len() <= v.len(),
            forall|j: int| 0 <= j < k ==> v@[i + j] == needle@[j],
        decreases needle.len() - k,
    {
        if v[i + k] != needle[k] {
            proof {
                if stands_at(v@, needle@, i as int) {
                    assert(v@.subrange(i as int, i + needle@.len())[k as int] == needle@[k as int]);
                }
            }
            return false;
        }
        k += 1;
    }
    assert(v@.subrange(i as int, i + needle@.len()) =~= needle@);
    true
}

/// Whether a text ends in another.
pub open spec fn ends_in(text: Seq<char>, end: Seq<char>) -> bool {
    text.len() >= end.len() && text.skip(text.len() - end.len()) == end
}

/// Whether a text ends in another.
pub fn ends_with(text: &str, end: &str) -> (r: bool)
    ensures
        r == ends_in(text@, end@),
{
    let t = chars_of(text);
    let e = chars_of(end);
    if t.len() < e.len() {
        return false;
    }
    let from = t.len() - e.len();
    let mut i: usize = 0;
    while i < e.len()
        invariant
            i <= e.len(),
            e.len() <= t.len(),
            from == t.len() - e.len(),
            t@ == text@,
            e@ == end@,
            forall|k: int| 0 <= k < i ==> t@[from + k] == #[trigger] e@[k],
        decreases e.len() - i,
    {
        if t[from + i] != e[i] {
            assert(text@.skip(from as int)[i as int] != end@[i as int]);
            return false;
        }
        i += 1;
    }
    assert(text@.skip(from as int) =~= end@);
    true
}

/// The first position at which `needle` stands in `text`.
pub open spec fn found_at(text: Seq<char>, needle: Seq<char>, i: int) -> bool {
    stands_at(text, needle, i) && forall|j: int| 0 <= j < i ==> !stands_at(text, needle, j)
}

/// Finds the first position of `needle`.
pub fn find_chars(v: &Vec<char>, needle: &Vec<char>) -> (r: Option<usize>)
    ensures
        match r {
            Some(i) => found_at(v@, needle@, i as int),
            None => !has_text(v@, needle@),
        },
{
    if needle.len() > v.len() {
        return None;
    }
    let mut i: usize = 0;
    while i <= v.len() - needle.len()
        invariant
            needle.len() <= v.len(),
            i <= v.len() - needle.len() + 1,
            forall|j: int| 0 <= j < i ==> !stands_at(v@, needle@, j),
        decreases v.len() - needle.len() + 1 - i,
    {
        if stands_here(v, needle, i) {
            return Some(i);
        }
        if i == v.len() - needle.len() {
            assert forall|j: int| !stands_at(v@, needle@, j) by {}
            return None;
        }
        i += 1;
    }
    None
}

/// Whether `needle` stands somewhere in `text`.
pub fn contains(text: &str, needle: &str) -> (r: bool)
    ensures
        r == has_text(text@, needle@),
{
    let v = chars_of(text);
    let n = chars_of(needle);
    match find_chars(&v, &n) {
        Some(i) => {
            assert(stands_at(v@, n@, i as int));
            true
        },
        None => false,
    }
}

/// Where the line that starts at `from` ends.
pub open spec fn line_end(s: Seq<char>, from: int) -> int
    decreases s.len() - from,
{
    if from < 0 || from >= s.len() || s[from] == '\n' {
        from
    } else {
        line_end(s, from + 1)
    }
}

pub proof fn lemma_line_end(s: Seq<char>, from: int)
    requires
        0 <= from <= s.len(),
    ensures
        from <= line_end(s, from) <= s.len(),
        line_end(s, from) < s.len() ==> s[line_end(s, from)] == '\n',
    decreases s.len() - from,
{
    if from < s.len() && s[from] != '\n' {
        lemma_line_end(s, from + 1);
    }
}

/// Finds where the line that starts at `from` ends.
pub fn find_line_end(v: &Vec<char>, from: usize) -> (r: usize)
    requires
        from <= v.len(),
    ensures
        from <= r <= v.len(),
        r == line_end(v@, from as int),
        r < v.len() ==> v@[r as int] == '\n',
{
    let mut i: usize = from;
    while i < v.len() && v[i] != '\n'
        invariant
            from <= i <= v.len(),
            line_end(v@, from as int) == line_end(v@, i as int),
        decreases v.len() - i,
    {
        i += 1;
    }
    i
}

/// Whether two lists hold the same texts in the same order.
pub fn same_texts(a: &Vec<String>, b: &Vec<String>) -> (r: bool)
    ensures
        r == (texts(a@) == texts(b@)),
{
    let ghost x = texts(a@);
    let ghost y = texts(b@);
    if a.len() != b.len() {
        assert(x.len() != y.len());
        return false;
    }
    let mut i: usize = 0;
    while i < a.len()
        invariant
            i <= a.len(),
            a.len() == b.len(),
            x == texts(a@),
            y == texts(b@),
            forall|k: int| 0 <= k < i ==> (#[trigger] x[k]) == y[k],
        decreases a.len() - i,
    {
        assert(x[i as int] == a@[i as int]@ && y[i as int] == b@[i as int]@);
        if !same(a[i].as_str(), b[i].as_str()) {
            return false;
        }
        i += 1;
    }
    assert(x =~= y);
    true
}

// ---------------------------------------------------------------------------
// Parts
// ---------------------------------------------------------------------------

/// The parts of a text between the characters `c`; one more than there are such
/// characters.
pub open spec fn parts_of(text: Seq<char>, c: char) -> Seq<Seq<char>>
    decreases text.len(),
{
    if text.len() == 0 {
        seq![Seq::empty()]
    } else {
        let before = parts_of(text.drop_last(), c);
        if text.last() == c {
            before.push(Seq::empty())
        } else {
            before.drop_last().push(before.last().push(text.last()))
        }
    }
}

/// Splits a text at the characters `c`.
pub fn split_parts(text: &str, c: char) -> (r: Vec<String>)
    ensures
        texts(r@) == parts_of(text@, c),
{
    let v = chars_of(text);
    let mut r: Vec<String> = Vec::new();
    let mut current = String::new();
    let mut i: usize = 0;
    assert(texts(r@).push(current@) =~= parts_of(v@.take(0), c));
    while i < v.len()
        invariant
            i <= v.len(),
            texts(r@).push(current@) == parts_of(v@.take(i as int), c),
        decreases v.len() - i,
    {
        let ghost whole = texts(r@).push(current@);
        let ghost done = texts(r@);
        proof {
            assert(v@.take(i + 1).drop_last() =~= v@.take(i as int));
            assert(v@.take(i + 1).last() == v@[i as int]);
            assert(whole.drop_last() =~= done);
            assert(whole.last() == current@);
        }
        if v[i] == c {
            r.push(current);
            assert(texts(r@) =~= whole);
            current = String::new();
            assert(current@ =~= Seq::empty());
        } else {
            current.push(v[i]);
        }
        i += 1;
    }
    assert(v@.take(v.len() as int) =~= v@);
    let ghost done = texts(r@);
    r.push(current);
    assert(texts(r@) =~= done.push(current@));
    r
}

/// The number of lines of a text, each ended by a line feed, the last one
/// perhaps by the end of the text.
pub open spec fn line_count(text: Seq<char>) -> nat {
    let parts = parts_of(text, '\n');
    if parts.last().len() == 0 {
        (parts.len() - 1) as nat
    } else {
        parts.len()
    }
}

pub proof fn lemma_parts_exist(text: Seq<char>, c: char)
    ensures
        parts_of(text, c).len() > 0,
    decreases text.len(),
{
    if text.len() > 0 {
        lemma_parts_exist(text.drop_last(), c);
    }
}

/// Counts the lines of a text.
pub fn count_lines(text: &str) -> (n: usize)
    ensures
        n == line_count(text@),
{
    let parts = split_parts(text, '\n');
    proof {
        lemma_parts_exist(text@, '\n');
        assert(texts(parts@).last() == parts@.last()@);
    }
    if parts[parts.len() - 1].as_str().is_empty() {
        parts.len() - 1
    } else {
        parts.len()
    }
}

// ---------------------------------------------------------------------------
// ASCII letters
// ---------------------------------------------------------------------------

/// An ASCII letter in lower case; any other character as it is.
pub open spec fn lower_char(c: char) -> char {
    if 'A' <= c && c <= 'Z' {
        (c as u8 + 32) as u8 as char
    } else {
        c
    }
}

/// An ASCII letter in upper case; any other character as it is.
pub open spec fn upper_char(c: char) -> char {
    if 'a' <= c && c <= 'z' {
        (c as u8 - 32) as u8 as char
    } else {
        c
    }
}

/// A text with its ASCII letters in lower case.
pub open spec fn ascii_lower(s: Seq<char>) -> Seq<char> {
    s.map_values(|c: char| lower_char(c))
}

/// A text with its ASCII letters in upper case.
pub open spec fn ascii_upper(s: Seq<char>) -> Seq<char> {
    s.map_values(|c: char| upper_char(c))
}

fn to_lower(c: char) -> (r: char)
    ensures
        r == lower_char(c),
{
    if 'A' <= c && c <= 'Z' {
        (c as u8 + 32) as char
    } else {
        c
    }
}

fn to_upper(c: char) -> (r: char)
    ensures
        r == upper_char(c),
{
    if 'a' <= c && c <= 'z' {
        (c as u8 - 32) as char
    } else {
        c
    }
}

/// Puts the ASCII letters of a text into lower case.
pub fn lowercase_ascii(s: &str) -> (r: String)
    ensures
        r@ == ascii_lower(s@),
{
    let v = chars_of(s);
    let mut r = String::new();
    let mut i: usize = 0;
    assert(r@ =~= ascii_lower(v@.take(0)));
    while i < v.len()
        invariant
            i <= v.len(),
            r@ == ascii_lower(v@.take(i as int)),
        decreases v.len() - i,
    {
        let c: char = v[i];
        r.push(to_lower(c));
        i += 1;
        assert(ascii_lower(v@.take(i as int)) =~= ascii_lower(v@.take(i - 1)).push(lower_char(v@[i - 1])));
    }
    assert(v@.take(v.len() as int) =~= v@);
    r
}

/// Puts the ASCII letters of a text into upper case.
pub fn uppercase_ascii(s: &str) -> (r: String)
    ensures
        r@ == ascii_upper(s@),
{
    let v = chars_of(s);
    let mut r = String::new();
    let mut i: usize = 0;
    assert(r@ =~= ascii_upper(v@.take(0)));
    while i < v.len()
        invariant
            i <= v.len(),
            r@ == ascii_upper(v@.take(i as int)),
        decreases v.len() - i,
    {
        let c: char = v[i];
        r.push(to_upper(c));
        i += 1;
        assert(ascii_upper(v@.take(i as int)) =~= ascii_upper(v@.take(i - 1)).push(upper_char(v@[i - 1])));
    }
    assert(v@.take(v.len() as int) =~= v@);
    r
}

// ---------------------------------------------------------------------------
// Letters of every script
// ---------------------------------------------------------------------------

/// What `str::to_lowercase` returns for a text.
pub uninterp spec fn lowercased(s: Seq<char>) -> Seq<char>;

/// Calls `str::to_lowercase`. Which characters have a lower case, and which one,
/// is left to that function: the result is its name applied to the text.
#[verifier::external_body]
pub(crate) fn lowercase(s: &str) -> (r: String)
    ensures
        r@ == lowercased(s@),
{
    s.to_lowercase()
}

// ---------------------------------------------------------------------------
// Quoting
// ---------------------------------------------------------------------------

/// What the `{:?}` format of the standard library writes for a string.
pub uninterp spec fn debug_quoted(s: Seq<char>) -> Seq<char>;

/// Quotes a string as the `{:?}` format of `std::fmt` does. Which characters it
/// escapes is left to that format: the result is its name applied to the string.
#[verifier::external_body]
pub(crate) fn quote(s: &str) -> (r: String)
    ensures
        r@ == debug_quoted(s@),
{
    format!("{:?}", s)
}

} // verus!
