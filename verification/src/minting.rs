//! Short names for new agents: the role, an underscore, and a few hex digits.
use vstd::prelude::*;
use vstd::string::*;
use crate::text::{digit, digit_char, holds_text, texts};

verus! {

/// The fewest hex digits of a name.
pub const AGENT_ID_MIN_SUFFIX_NIBBLES: usize = 1;

/// The most hex digits of a name.
pub const AGENT_ID_MAX_SUFFIX_NIBBLES: usize = 8;

/// How many suffixes have `width` hex digits.
pub open spec fn suffix_count(width: nat) -> nat
    decreases width,
{
    if width == 0 {
        1
    } else {
        16 * suffix_count((width - 1) as nat)
    }
}

/// The last `width` hex digits of a number.
pub open spec fn hex_digits(n: nat, width: nat) -> Seq<char>
    decreases width,
{
    if width == 0 {
        Seq::empty()
    } else {
        hex_digits(n / 16, (width - 1) as nat).push(digit_char((n % 16) as int))
    }
}

/// The name with the given role and suffix.
pub open spec fn agent_name(role: Seq<char>, n: nat, width: nat) -> Seq<char> {
    role.push('_') + hex_digits(n, width)
}

/// The first name that is not taken, from the suffix `start` on, the suffixes in
/// a circle; `k` of them are already out.
pub open spec fn free_name(role: Seq<char>, taken: Seq<Seq<char>>, width: nat, start: nat, k: nat) -> Option<Seq<char>>
    decreases suffix_count(width) - k,
{
    if k >= suffix_count(width) {
        None
    } else {
        let name = agent_name(role, (start + k) % suffix_count(width), width);
        if taken.contains(name) {
            free_name(role, taken, width, start, k + 1)
        } else {
            Some(name)
        }
    }
}

/// Where the search among the names with `width` digits starts.
pub open spec fn start_of(starts: Seq<u64>, width: nat) -> nat {
    if width - AGENT_ID_MIN_SUFFIX_NIBBLES < starts.len() {
        starts[width - AGENT_ID_MIN_SUFFIX_NIBBLES] as nat
    } else {
        0
    }
}

/// The shortest name that is not taken, among those with `width` digits or more.
pub open spec fn minted_from(role: Seq<char>, taken: Seq<Seq<char>>, starts: Seq<u64>, width: nat) -> Option<Seq<char>>
    decreases AGENT_ID_MAX_SUFFIX_NIBBLES + 1 - width,
{
    if width > AGENT_ID_MAX_SUFFIX_NIBBLES {
        None
    } else {
        match free_name(role, taken, width, start_of(starts, width), 0) {
            Some(name) => Some(name),
            None => minted_from(role, taken, starts, width + 1),
        }
    }
}

/// The shortest name that is not taken.
pub open spec fn minted(role: Seq<char>, taken: Seq<Seq<char>>, starts: Seq<u64>) -> Option<Seq<char>> {
    minted_from(role, taken, starts, AGENT_ID_MIN_SUFFIX_NIBBLES as nat)
}

/// The text or the absence of one.
pub open spec fn name_view(o: Option<String>) -> Option<Seq<char>> {
    match o {
        Some(s) => Some(s@),
        None => None,
    }
}

proof fn lemma_suffix_count(width: nat)
    requires
        width <= 8,
    ensures
        1 <= suffix_count(width) <= 0x1_0000_0000,
        width > 0 ==> suffix_count(width) == 16 * suffix_count((width - 1) as nat),
{
    reveal_with_fuel(suffix_count, 9);
}

/// The last `width` hex digits of a number.
pub fn hex_suffix(n: u64, width: usize) -> (r: String)
    ensures
        r@ == hex_digits(n as nat, width as nat),
    decreases width,
{
    if width == 0 {
        let r = String::new();
        assert(r@ =~= hex_digits(n as nat, 0));
        return r;
    }
    let mut r = hex_suffix(n / 16, width - 1);
    r.push(digit((n % 16) as u128));
    r
}

fn name_of_agent(role: &str, n: u64, width: usize) -> (r: String)
    ensures
        r@ == agent_name(role@, n as nat, width as nat),
{
    let mut r = role.to_owned();
    r.push('_');
    let suffix = hex_suffix(n, width);
    r.append(suffix.as_str());
    r
}

fn count_suffixes(width: usize) -> (r: u64)
    requires
        width <= 8,
    ensures
        r == suffix_count(width as nat),
{
    let mut count: u64 = 1;
    let mut w: usize = 0;
    while w < width
        invariant
            w <= width <= 8,
            count == suffix_count(w as nat),
            count <= 0x1_0000_0000,
        decreases width - w,
    {
        proof {
            lemma_suffix_count((w + 1) as nat);
        }
        count = count * 16;
        w += 1;
    }
    count
}

fn find_free_name(role: &str, taken: &Vec<String>, width: usize, start: u64) -> (r: Option<String>)
    requires
        width <= 8,
    ensures
        name_view(r) == free_name(role@, texts(taken@), width as nat, start as nat, 0),
{
    let count: u64 = count_suffixes(width);
    proof {
        lemma_suffix_count(width as nat);
    }
    let mut k: u64 = 0;
    while k < count
        invariant
            k <= count,
            count == suffix_count(width as nat),
            0 < count <= 0x1_0000_0000,
            free_name(role@, texts(taken@), width as nat, start as nat, 0) == free_name(
                role@,
                texts(taken@),
                width as nat,
                start as nat,
                k as nat,
            ),
        decreases count - k,
    {
        let n: u64 = ((start as u128 + k as u128) % (count as u128)) as u64;
        assert(n == (start as nat + k as nat) % suffix_count(width as nat));
        let name = name_of_agent(role, n, width);
        if !holds_text(taken, name.as_str()) {
            return Some(name);
        }
        k += 1;
    }
    None
}

/// The shortest name for an agent of a role that is not taken. Among the names of
/// one length the search goes in a circle; `starts` says where it begins, first
/// for the shortest names.
pub fn mint_available_agent_id_for_role_with(role: &str, taken: &Vec<String>, starts: &Vec<u64>) -> (r: Option<String>)
    ensures
        name_view(r) == minted(role@, texts(taken@), starts@),
{
    let mut width: usize = AGENT_ID_MIN_SUFFIX_NIBBLES;
    while width <= AGENT_ID_MAX_SUFFIX_NIBBLES
        invariant
            AGENT_ID_MIN_SUFFIX_NIBBLES <= width <= AGENT_ID_MAX_SUFFIX_NIBBLES + 1,
            minted(role@, texts(taken@), starts@) == minted_from(role@, texts(taken@), starts@, width as nat),
        decreases AGENT_ID_MAX_SUFFIX_NIBBLES + 1 - width,
    {
        let at: usize = width - AGENT_ID_MIN_SUFFIX_NIBBLES;
        let start: u64 = if at < starts.len() {
            starts[at]
        } else {
            0
        };
        match find_free_name(role, taken, width, start) {
            Some(name) => {
                return Some(name);
            },
            None => {},
        }
        width += 1;
    }
    None
}

/// Draws a number with `rand::random`. Any number may come.
#[verifier::external_body]
pub(crate) fn random_number() -> (r: u64) {
    rand::random::<u64>()
}

/// The shortest name for an agent of a role that is not taken. Where the search
/// begins is drawn.
pub fn mint_available_agent_id_for_role(role: &str, taken: &Vec<String>) -> (r: Option<String>)
    ensures
        exists|starts: Seq<u64>| name_view(r) == #[trigger] minted(role@, texts(taken@), starts),
{
    let mut starts: Vec<u64> = Vec::new();
    let mut width: usize = AGENT_ID_MIN_SUFFIX_NIBBLES;
    while width <= AGENT_ID_MAX_SUFFIX_NIBBLES
        invariant
            AGENT_ID_MIN_SUFFIX_NIBBLES <= width <= AGENT_ID_MAX_SUFFIX_NIBBLES + 1,
        decreases AGENT_ID_MAX_SUFFIX_NIBBLES + 1 - width,
    {
        starts.push(random_number());
        width += 1;
    }
    mint_available_agent_id_for_role_with(role, taken, &starts)
}

/// A name for an agent of a role, as short as names are.
pub fn mint_agent_id_for_role(role: &str) -> (r: String)
    ensures
        exists|n: nat|
            n < suffix_count(AGENT_ID_MIN_SUFFIX_NIBBLES as nat) && r@ == #[trigger] agent_name(
                role@,
                n,
                AGENT_ID_MIN_SUFFIX_NIBBLES as nat,
            ),
{
    let drawn: u64 = random_number();
    let count: u64 = count_suffixes(AGENT_ID_MIN_SUFFIX_NIBBLES);
    proof {
        lemma_suffix_count(AGENT_ID_MIN_SUFFIX_NIBBLES as nat);
    }
    let n: u64 = drawn % count;
    let r = name_of_agent(role, n, AGENT_ID_MIN_SUFFIX_NIBBLES);
    assert((n as nat) < suffix_count(AGENT_ID_MIN_SUFFIX_NIBBLES as nat) && r@ == agent_name(
        role@,
        n as nat,
        AGENT_ID_MIN_SUFFIX_NIBBLES as nat,
    ));
    r
}

// ---------------------------------------------------------------------------
// What holds of every name
// ---------------------------------------------------------------------------

proof fn lemma_free_name(role: Seq<char>, taken: Seq<Seq<char>>, width: nat, start: nat, k: nat)
    ensures
        free_name(role, taken, width, start, k) matches Some(name) ==> !taken.contains(name) && exists|n: nat|
            name == #[trigger] agent_name(role, n, width),
        free_name(role, taken, width, start, k) is None ==> forall|j: nat|
            k <= j < suffix_count(width) ==> taken.contains(
                #[trigger] agent_name(role, (start + j) % suffix_count(width), width),
            ),
    decreases suffix_count(width) - k,
{
    if k < suffix_count(width) {
        lemma_free_name(role, taken, width, start, k + 1);
        let name = agent_name(role, (start + k) % suffix_count(width), width);
        if taken.contains(name) {
            assert forall|j: nat|
                k <= j < suffix_count(width) && free_name(role, taken, width, start, k) is None implies taken.contains(
                #[trigger] agent_name(role, (start + j) % suffix_count(width), width),
            ) by {
                if j == k {
                    assert(taken.contains(name));
                }
            }
        }
    }
}

proof fn lemma_minted_from(role: Seq<char>, taken: Seq<Seq<char>>, starts: Seq<u64>, width: nat)
    requires
        1 <= width,
    ensures
        minted_from(role, taken, starts, width) matches Some(name) ==> !taken.contains(name),
        minted_from(role, taken, starts, width) matches Some(name) ==> exists|n: nat, w: nat|
            name == #[trigger] agent_name(role, n, w) && width <= w <= AGENT_ID_MAX_SUFFIX_NIBBLES && forall|v: nat|
                width <= v < w ==> #[trigger] free_name(role, taken, v, start_of(starts, v), 0) is None,
        minted_from(role, taken, starts, width) is None ==> forall|v: nat|
            width <= v <= AGENT_ID_MAX_SUFFIX_NIBBLES ==> #[trigger] free_name(
                role,
                taken,
                v,
                start_of(starts, v),
                0,
            ) is None,
    decreases AGENT_ID_MAX_SUFFIX_NIBBLES + 1 - width,
{
    if width <= AGENT_ID_MAX_SUFFIX_NIBBLES {
        lemma_free_name(role, taken, width, start_of(starts, width), 0);
        match free_name(role, taken, width, start_of(starts, width), 0) {
            Some(name) => {
                let n = choose|n: nat| name == #[trigger] agent_name(role, n, width);
                assert(name == agent_name(role, n, width));
            },
            None => {
                lemma_minted_from(role, taken, starts, width + 1);
                if let Some(name) = minted_from(role, taken, starts, width + 1) {
                    let (n, w) = choose|n: nat, w: nat|
                        name == #[trigger] agent_name(role, n, w) && width + 1 <= w <= AGENT_ID_MAX_SUFFIX_NIBBLES
                            && forall|v: nat|
                            width + 1 <= v < w ==> #[trigger] free_name(role, taken, v, start_of(starts, v), 0) is None;
                    assert(name == agent_name(role, n, w));
                }
            },
        }
    }
}

/// A minted name is not taken.
pub proof fn minted_names_are_free(role: Seq<char>, taken: Seq<Seq<char>>, starts: Seq<u64>)
    ensures
        minted(role, taken, starts) matches Some(name) ==> !taken.contains(name),
{
    lemma_minted_from(role, taken, starts, AGENT_ID_MIN_SUFFIX_NIBBLES as nat);
}

proof fn lemma_all_taken(role: Seq<char>, taken: Seq<Seq<char>>, width: nat, start: nat, n: nat)
    requires
        free_name(role, taken, width, start, 0) is None,
        n < suffix_count(width),
    ensures
        taken.contains(agent_name(role, n, width)),
{
    let count = suffix_count(width);
    lemma_free_name(role, taken, width, start, 0);
    let at = start % count;
    let j: nat = if n >= at {
        (n - at) as nat
    } else {
        (n + count - at) as nat
    };
    let q = (start / count) as int;
    vstd::arithmetic::div_mod::lemma_fundamental_div_mod(start as int, count as int);
    vstd::arithmetic::div_mod::lemma_small_mod(n, count);
    if n >= at {
        vstd::arithmetic::div_mod::lemma_mod_multiples_vanish(q, n as int, count as int);
        assert(start + j == count * q + n);
    } else {
        vstd::arithmetic::div_mod::lemma_mod_multiples_vanish(q + 1, n as int, count as int);
        assert(count * (q + 1) == count * q + count) by (nonlinear_arith);
        assert(start + j == count * (q + 1) + n);
    }
    assert((start + j) % count == n);
    assert(j < count);
    assert(taken.contains(agent_name(role, (start + j) % count, width)));
}

/// A name grows longer only where every shorter one is taken.
pub proof fn minted_names_are_short(role: Seq<char>, taken: Seq<Seq<char>>, starts: Seq<u64>, n: nat, width: nat)
    requires
        AGENT_ID_MIN_SUFFIX_NIBBLES <= width <= AGENT_ID_MAX_SUFFIX_NIBBLES,
        n < suffix_count(width),
        match minted(role, taken, starts) {
            Some(name) => name.len() > role.len() + 1 + width,
            None => true,
        },
    ensures
        taken.contains(agent_name(role, n, width)),
{
    lemma_minted_from(role, taken, starts, AGENT_ID_MIN_SUFFIX_NIBBLES as nat);
    if let Some(name) = minted(role, taken, starts) {
        let (m, w) = choose|m: nat, w: nat|
            name == #[trigger] agent_name(role, m, w) && AGENT_ID_MIN_SUFFIX_NIBBLES <= w
                <= AGENT_ID_MAX_SUFFIX_NIBBLES && forall|v: nat|
                AGENT_ID_MIN_SUFFIX_NIBBLES <= v < w ==> #[trigger] free_name(
                    role,
                    taken,
                    v,
                    start_of(starts, v),
                    0,
                ) is None;
        lemma_hex_digits_len(m, w);
        assert(free_name(role, taken, width, start_of(starts, width), 0) is None);
    }
    lemma_all_taken(role, taken, width, start_of(starts, width), n);
}

proof fn lemma_hex_digits_len(n: nat, width: nat)
    ensures
        hex_digits(n, width).len() == width,
    decreases width,
{
    if width > 0 {
        lemma_hex_digits_len(n / 16, (width - 1) as nat);
    }
}

} // verus!
