//! Paths, as text.
use vstd::prelude::*;
use vstd::string::*;
use crate::session::option_text;
use crate::text::{chars_of, parts_of, same, same_texts, split_parts, text_between, texts};

verus! {

/// The path `rest` below `base`. An absolute `rest` stands alone.
pub open spec fn path_join(base: Seq<char>, rest: Seq<char>) -> Seq<char> {
    if rest.len() > 0 && rest[0] == '/' {
        rest
    } else if base.len() == 0 || base.last() == '/' {
        base + rest
    } else {
        base + seq!['/'] + rest
    }
}

/// Joins two paths.
pub fn join_path(base: &str, rest: &str) -> (r: String)
    ensures
        r@ == path_join(base@, rest@),
{
    let tail = chars_of(rest);
    if tail.len() > 0 && tail[0] == '/' {
        return rest.to_owned();
    }
    let head = chars_of(base);
    let mut r = base.to_owned();
    if head.len() > 0 && head[head.len() - 1] != '/' {
        r.push('/');
        assert(r@ =~= base@ + seq!['/']);
    }
    r.append(rest);
    r
}

/// Where the last slash of a path stands, before `end`.
pub open spec fn last_slash(path: Seq<char>, end: int) -> Option<int>
    decreases end,
{
    if end <= 0 || end > path.len() {
        None
    } else if path[end - 1] == '/' {
        Some(end - 1)
    } else {
        last_slash(path, end - 1)
    }
}

/// A path without the slashes and the `.` at its end that say nothing. The root, and
/// a path that is `.` alone, stay.
pub open spec fn settled(path: Seq<char>) -> Seq<char>
    decreases path.len(),
{
    if path.len() < 2 {
        path
    } else if path.last() == '/' || (path.last() == '.' && path[path.len() - 2] == '/') {
        settled(path.drop_last())
    } else {
        path
    }
}

/// The name that a path ends in: none where it is empty, is the root or `.`, or ends
/// in `..`.
pub open spec fn file_name(path: Seq<char>) -> Option<Seq<char>> {
    let kept = settled(path);
    let name = match last_slash(kept, kept.len() as int) {
        Some(i) => kept.skip(i + 1),
        None => kept,
    };
    if name.len() == 0 || name == "."@ || name == ".."@ {
        None
    } else {
        Some(name)
    }
}

/// A path without its last component: empty where it has no other, none where it
/// has no component at all.
pub open spec fn parent_path(path: Seq<char>) -> Option<Seq<char>> {
    let kept = settled(path);
    if kept.len() == 0 || kept == seq!['/'] {
        None
    } else {
        match last_slash(kept, kept.len() as int) {
            Some(i) => Some(settled(kept.take(i + 1))),
            None => Some(Seq::empty()),
        }
    }
}

/// How many characters of a path stay without what says nothing at its end.
fn settle(v: &Vec<char>, end: usize) -> (n: usize)
    requires
        end <= v.len(),
    ensures
        n <= end,
        v@.take(n as int) == settled(v@.take(end as int)),
{
    let mut n: usize = end;
    while n >= 2 && (v[n - 1] == '/' || (v[n - 1] == '.' && v[n - 2] == '/'))
        invariant
            n <= end <= v.len(),
            settled(v@.take(n as int)) == settled(v@.take(end as int)),
        decreases n,
    {
        assert(v@.take(n as int).drop_last() =~= v@.take(n - 1));
        n -= 1;
    }
    n
}

fn find_last_slash(v: &Vec<char>, len: usize) -> (r: Option<usize>)
    requires
        len <= v.len(),
    ensures
        match r {
            Some(i) => last_slash(v@.take(len as int), len as int) == Some(i as int) && i < len,
            None => last_slash(v@.take(len as int), len as int) is None,
        },
{
    let mut end: usize = len;
    while end > 0
        invariant
            end <= len <= v.len(),
            last_slash(v@.take(len as int), len as int) == last_slash(v@.take(len as int), end as int),
        decreases end,
    {
        if v[end - 1] == '/' {
            return Some(end - 1);
        }
        end -= 1;
    }
    None
}

/// The name that a path ends in.
pub fn name_of(path: &str) -> (r: Option<String>)
    ensures
        option_text(r) == file_name(path@),
{
    let v = chars_of(path);
    let n = settle(&v, v.len());
    assert(v@.take(v@.len() as int) =~= path@);
    let ghost kept = v@.take(n as int);
    let name = match find_last_slash(&v, n) {
        Some(i) => {
            let name = text_between(&v, i + 1, n);
            assert(name@ =~= kept.skip(i + 1));
            name
        },
        None => {
            let name = text_between(&v, 0, n);
            assert(name@ =~= kept);
            name
        },
    };
    if name.as_str().is_empty() || same(name.as_str(), ".") || same(name.as_str(), "..") {
        None
    } else {
        Some(name)
    }
}

/// A path without its last component.
pub fn parent_of(path: &str) -> (r: Option<String>)
    ensures
        option_text(r) == parent_path(path@),
{
    let v = chars_of(path);
    let n = settle(&v, v.len());
    assert(v@.take(v@.len() as int) =~= path@);
    let ghost kept = v@.take(n as int);
    if n == 0 || (n == 1 && v[0] == '/') {
        assert(n == 1 ==> kept =~= seq!['/']);
        return None;
    }
    assert(kept != seq!['/']) by {
        assert(kept[0] == v@[0]);
    }
    match find_last_slash(&v, n) {
        Some(i) => {
            let end = settle(&v, i + 1);
            assert(v@.take(i + 1) =~= kept.take(i + 1));
            let r = text_between(&v, 0, end);
            assert(r@ =~= v@.take(end as int));
            Some(r)
        },
        None => {
            let r = String::new();
            assert(r@ =~= Seq::empty());
            Some(r)
        },
    }
}

// ---------------------------------------------------------------------------
// Components
// ---------------------------------------------------------------------------

/// Whether the part at position `i` of a path counts: empty parts do not, nor
/// does `.`, except at the very beginning.
pub open spec fn counts(part: Seq<char>, i: int) -> bool {
    part.len() > 0 && (part != "."@ || i == 0)
}

/// Those of the first `n` parts that count.
pub open spec fn counted(parts: Seq<Seq<char>>, n: nat) -> Seq<Seq<char>>
    decreases n,
{
    if n == 0 || n > parts.len() {
        Seq::empty()
    } else if counts(parts[n - 1], n - 1) {
        counted(parts, (n - 1) as nat).push(parts[n - 1])
    } else {
        counted(parts, (n - 1) as nat)
    }
}

/// The components of a path, without the root.
pub open spec fn path_parts(path: Seq<char>) -> Seq<Seq<char>> {
    counted(parts_of(path, '/'), parts_of(path, '/').len())
}

/// Whether a path is absolute.
pub open spec fn is_absolute(path: Seq<char>) -> bool {
    path.len() > 0 && path[0] == '/'
}

/// Whether two paths are the same, component by component.
pub open spec fn same_path(a: Seq<char>, b: Seq<char>) -> bool {
    is_absolute(a) == is_absolute(b) && path_parts(a) == path_parts(b)
}

/// The components of a path, without the root.
pub fn components(path: &str) -> (r: Vec<String>)
    ensures
        texts(r@) == path_parts(path@),
{
    let parts = split_parts(path, '/');
    let ghost all = texts(parts@);
    let mut r: Vec<String> = Vec::new();
    let mut i: usize = 0;
    assert(texts(r@) =~= counted(all, 0));
    while i < parts.len()
        invariant
            i <= parts.len(),
            all == texts(parts@),
            texts(r@) == counted(all, i as nat),
        decreases parts.len() - i,
    {
        let ghost before = texts(r@);
        let part = &parts[i];
        assert(all[i as int] == part@);
        if !part.as_str().is_empty() && (i == 0 || !same(part.as_str(), ".")) {
            r.push(part.clone());
            assert(texts(r@) =~= before.push(part@));
        }
        i += 1;
    }
    r
}

/// Whether a path is absolute.
pub fn absolute(path: &str) -> (r: bool)
    ensures
        r == is_absolute(path@),
{
    let v = chars_of(path);
    v.len() > 0 && v[0] == '/'
}

/// Whether two paths are the same, component by component.
pub fn equal_paths(a: &str, b: &str) -> (r: bool)
    ensures
        r == same_path(a@, b@),
{
    let x = components(a);
    let y = components(b);
    absolute(a) == absolute(b) && same_texts(&x, &y)
}

// ---------------------------------------------------------------------------
// Where the harness keeps its files
// ---------------------------------------------------------------------------

/// Where the standard error of an extension is written:
/// `<state_dir>/<session_id>/extensions/<name>.log`.
pub open spec fn stderr_log(state_dir: Seq<char>, session_id: Seq<char>, name: Seq<char>) -> Seq<char> {
    path_join(path_join(path_join(state_dir, session_id), "extensions"@), name + ".log"@)
}

/// Where the standard error of an extension is written.
pub fn extension_stderr_log_path(state_dir: &str, session_id: &str, name: &str) -> (r: String)
    ensures
        r@ == stderr_log(state_dir@, session_id@, name@),
{
    let session = join_path(state_dir, session_id);
    let extensions = join_path(session.as_str(), "extensions");
    let mut file = name.to_owned();
    file.append(".log");
    join_path(extensions.as_str(), file.as_str())
}

/// Where approvals are kept.
pub fn policy_store_path_from(state_dir: &str) -> (r: String)
    ensures
        r@ == path_join(state_dir@, "policy.cbor"@),
{
    join_path(state_dir, "policy.cbor")
}

/// Where the state of the program is kept: below the user's state directory, or
/// below the current one.
pub open spec fn state_dir_of(user_dir: Option<Seq<char>>) -> Seq<char> {
    match user_dir {
        Some(dir) => dir,
        None => ".tau/state"@,
    }
}

/// Where the state of the program is kept, given the user's state directory.
pub fn state_dir_or_default(user_dir: Option<String>) -> (r: String)
    ensures
        r@ == state_dir_of(option_text(user_dir)),
{
    match user_dir {
        Some(dir) => dir,
        None => ".tau/state".to_owned(),
    }
}

/// The session that is used where none is named.
pub fn default_session_id() -> (r: &'static str)
    ensures
        r@ == "default"@,
{
    "default"
}

} // verus!
