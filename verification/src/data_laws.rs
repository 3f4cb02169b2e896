//! What holds of paths, of the data of extensions and of dates.
use vstd::prelude::*;
use crate::calendar::{
    days_before_month, day_number, is_date, is_leap, month_days, two_digits, year_days, Date,
};
use crate::extension_data::{
    ancestors, appended_len, checked_path, clean_path, entries_by_path, entry_paths, is_missing, kind_of_failure,
    listable, listing, shown_entries, temp_name, write_plan, wrong_ancestor, wrong_file, wrong_file_size, wrong_part,
    wrong_rename, DataTrouble, EntryView, ExtensionDataErrorKind, Found, IoFailure, ListedEntry,
    MAX_EXTENSION_DATA_FILE_BYTES, MAX_EXTENSION_DATA_LIST_ENTRIES,
};
use crate::order::{sorted_positions, sorted_positions_in_order};
use crate::paths::{counted, file_name, is_absolute, last_slash, parent_path, path_join, path_parts, settled};
use crate::text::{begins, decimal, ends_in, joined, parts_of, text_less};
use crate::text_laws::numerals_stand_for_their_numbers;

verus! {

/// Whether a text is one component of a path: not empty, without a slash, and neither the
/// directory itself nor the one above.
pub open spec fn is_component(s: Seq<char>) -> bool {
    s.len() > 0 && !s.contains('/') && s != "."@ && s != ".."@
}

proof fn lemma_no_slash(s: Seq<char>)
    requires
        !s.contains('/'),
    ensures
        forall|i: int| 0 <= i < s.len() ==> s[i] != '/',
{
    assert forall|i: int| 0 <= i < s.len() implies s[i] != '/' by {
        assert(s.contains(s[i]));
    }
}

proof fn lemma_last_slash(path: Seq<char>, end: int, at: int)
    requires
        0 <= at < end <= path.len(),
        path[at] == '/',
        forall|i: int| at < i < end ==> path[i] != '/',
    ensures
        last_slash(path, end) == Some(at),
    decreases end,
{
    if end - 1 > at {
        lemma_last_slash(path, end - 1, at);
    }
}

/// A relative path behind a directory lies in it; an absolute one stays as it is.
pub proof fn paths_lie_in_their_directory(dir: Seq<char>, rest: Seq<char>)
    ensures
        !is_absolute(rest) ==> begins(path_join(dir, rest), dir) && ends_in(path_join(dir, rest), rest),
        is_absolute(rest) ==> path_join(dir, rest) == rest,
        !is_absolute(rest) && dir.len() > 0 && dir.last() != '/' ==> path_join(dir, rest) == dir + seq!['/'] + rest,
{
    let path = path_join(dir, rest);
    if !is_absolute(rest) {
        assert(path.take(dir.len() as int) =~= dir);
        assert(path.skip(path.len() - rest.len()) =~= rest);
    }
}

/// The name of a file in a directory is the last component of its path, and the directory
/// is what lies before it.
pub proof fn files_are_named_by_their_last_component(dir: Seq<char>, name: Seq<char>)
    requires
        is_component(name),
        dir.len() > 0,
        dir.last() != '/',
    ensures
        file_name(path_join(dir, name)) == Some(name),
        parent_path(path_join(dir, name)) == Some(settled(dir)),
{
    let path = path_join(dir, name);
    lemma_no_slash(name);
    reveal_strlit(".");
    assert(name =~= "."@ || name.len() > 1 || name[0] != '.');
    assert(path =~= dir + seq!['/'] + name);
    assert(path.last() == name.last());
    if path.last() == '.' {
        assert(name.len() > 1) by {
            if name.len() == 1 {
                assert(name =~= "."@);
            }
        }
        assert(path[path.len() - 2] == name[name.len() - 2]);
    }
    assert(settled(path) == path);
    lemma_last_slash(path, path.len() as int, dir.len() as int);
    assert(path.skip(dir.len() as int + 1) =~= name);
    let above = path.take(dir.len() as int + 1);
    assert(above =~= dir.push('/'));
    assert(above.drop_last() =~= dir);
    assert(path != seq!['/']) by {
        assert(path.len() > 1);
    }
}

proof fn lemma_parts_push(text: Seq<char>, part: Seq<char>)
    requires
        !part.contains('/'),
    ensures
        parts_of(text + seq!['/'] + part, '/') == parts_of(text, '/').push(part),
        parts_of(part, '/') == seq![part],
    decreases part.len(),
{
    lemma_no_slash(part);
    let all = text + seq!['/'] + part;
    if part.len() == 0 {
        assert(all.drop_last() =~= text);
        assert(part =~= Seq::empty());
    } else {
        let short = part.drop_last();
        assert forall|i: int| 0 <= i < short.len() implies short[i] != '/' by {}
        lemma_parts_push(text, short);
        assert(all.drop_last() =~= text + seq!['/'] + short);
        assert(short.push(part.last()) =~= part);
        let before = parts_of(text, '/').push(short);
        assert(before.drop_last() =~= parts_of(text, '/'));
        assert(seq![short].drop_last().push(part) =~= seq![part]);
    }
}

proof fn lemma_parts_joined(parts: Seq<Seq<char>>)
    requires
        parts.len() > 0,
        forall|i: int| 0 <= i < parts.len() ==> !(#[trigger] parts[i]).contains('/'),
    ensures
        parts_of(joined(parts, "/"@), '/') == parts,
    decreases parts.len(),
{
    reveal_strlit("/");
    assert("/"@ =~= seq!['/']);
    let n = parts.len() - 1;
    assert(!parts[n].contains('/'));
    if n == 0 {
        lemma_parts_push(Seq::empty(), parts[0]);
        assert(parts =~= seq![parts[0]]);
    } else {
        let short = parts.drop_last();
        assert forall|i: int| 0 <= i < short.len() implies !(#[trigger] short[i]).contains('/') by {
            assert(short[i] == parts[i]);
        }
        lemma_parts_joined(short);
        lemma_parts_push(joined(short, "/"@), parts[n]);
        assert(short.push(parts[n]) =~= parts);
    }
}

proof fn lemma_all_count(parts: Seq<Seq<char>>, n: nat)
    requires
        n <= parts.len(),
        forall|i: int| 0 <= i < parts.len() ==> is_component(#[trigger] parts[i]),
    ensures
        counted(parts, n) == parts.take(n as int),
    decreases n,
{
    if n > 0 {
        lemma_all_count(parts, (n - 1) as nat);
        assert(is_component(parts[n - 1]));
        assert(parts.take(n as int) =~= parts.take(n - 1).push(parts[n - 1]));
    } else {
        assert(parts.take(0) =~= Seq::empty());
    }
}

/// A path of components is taken apart into these.
pub proof fn paths_are_taken_apart(parts: Seq<Seq<char>>)
    requires
        parts.len() > 0,
        forall|i: int| 0 <= i < parts.len() ==> is_component(#[trigger] parts[i]),
    ensures
        path_parts(joined(parts, "/"@)) == parts,
{
    assert forall|i: int| 0 <= i < parts.len() implies !(#[trigger] parts[i]).contains('/') by {
        assert(is_component(parts[i]));
    }
    lemma_parts_joined(parts);
    lemma_all_count(parts, parts.len());
    assert(parts.take(parts.len() as int) =~= parts);
}

proof fn lemma_no_wrong_part(parts: Seq<Seq<char>>)
    requires
        forall|i: int| 0 <= i < parts.len() ==> is_component(#[trigger] parts[i]),
    ensures
        wrong_part(parts) is None,
    decreases parts.len(),
{
    if parts.len() > 0 {
        assert(is_component(parts[0]));
        let rest = parts.drop_first();
        assert forall|i: int| 0 <= i < rest.len() implies is_component(#[trigger] rest[i]) by {
            assert(rest[i] == parts[i + 1]);
        }
        lemma_no_wrong_part(rest);
    }
}

proof fn lemma_joined_start(parts: Seq<Seq<char>>)
    requires
        parts.len() > 0,
        parts[0].len() > 0,
    ensures
        joined(parts, "/"@).len() > 0,
        joined(parts, "/"@)[0] == parts[0][0],
    decreases parts.len(),
{
    if parts.len() > 1 {
        lemma_joined_start(parts.drop_last());
    }
}

/// A path of components is accepted as it is.
pub proof fn plain_paths_are_accepted(parts: Seq<Seq<char>>, allow_empty: bool)
    requires
        parts.len() > 0,
        forall|i: int| 0 <= i < parts.len() ==> is_component(#[trigger] parts[i]),
    ensures
        clean_path(joined(parts, "/"@), allow_empty) == Ok::<Seq<char>, DataTrouble>(joined(parts, "/"@)),
{
    let path = joined(parts, "/"@);
    paths_are_taken_apart(parts);
    lemma_no_wrong_part(parts);
    assert(is_component(parts[0]));
    lemma_no_slash(parts[0]);
    lemma_joined_start(parts);
}

/// A path that is empty, absolute or leads upwards is refused as a path.
pub proof fn other_paths_are_refused(path: Seq<char>, i: int)
    requires
        path.len() == 0 || is_absolute(path) || (0 <= i < path_parts(path).len() && path_parts(path)[i] == ".."@),
    ensures
        clean_path(path, false) matches Err(trouble) && trouble.kind == ExtensionDataErrorKind::InvalidPath,
        path.len() > 0 ==> (clean_path(path, true) matches Err(trouble) && trouble.kind
            == ExtensionDataErrorKind::InvalidPath),
{
    if path.len() > 0 && !is_absolute(path) {
        lemma_wrong_part(path_parts(path), i);
    }
}

proof fn lemma_wrong_part(parts: Seq<Seq<char>>, i: int)
    requires
        0 <= i < parts.len(),
        parts[i] == ".."@,
    ensures
        wrong_part(parts) matches Some(trouble) && trouble.kind == ExtensionDataErrorKind::InvalidPath,
    decreases parts.len(),
{
    if i > 0 && parts[0] != "."@ && parts[0] != ".."@ {
        assert(parts.drop_first()[i - 1] == parts[i]);
        lemma_wrong_part(parts.drop_first(), i - 1);
    }
}

proof fn lemma_all_directories(rel: Seq<char>, paths: Seq<Seq<char>>, found: Seq<Found>)
    requires
        forall|i: int| 0 <= i < found.len() ==> (#[trigger] found[i]) is Dir,
    ensures
        wrong_ancestor(rel, paths, found) is None,
    decreases found.len(),
{
    if paths.len() > 0 && found.len() > 0 {
        assert(found[0] is Dir);
        let rest = found.drop_first();
        assert forall|i: int| 0 <= i < rest.len() implies (#[trigger] rest[i]) is Dir by {
            assert(rest[i] == found[i + 1]);
        }
        lemma_all_directories(rel, paths.drop_first(), rest);
    }
}

/// A file or directory below real directories is accepted, at its place under the root;
/// one that is missing is accepted where that is allowed.
pub proof fn real_files_are_accepted(
    root: Seq<char>,
    rel: Seq<char>,
    above: Seq<Found>,
    leaf: Found,
    allow_missing: bool,
)
    requires
        forall|i: int| 0 <= i < above.len() ==> (#[trigger] above[i]) is Dir,
    ensures
        leaf is File || leaf is Dir ==> checked_path(root, rel, Found::Dir, above, leaf, allow_missing) == Ok::<
            Seq<char>,
            DataTrouble,
        >(path_join(root, rel)),
        is_missing(leaf) && allow_missing ==> checked_path(root, rel, Found::Dir, above, leaf, allow_missing) == Ok::<
            Seq<char>,
            DataTrouble,
        >(path_join(root, rel)),
        is_missing(leaf) && !allow_missing ==> (checked_path(root, rel, Found::Dir, above, leaf, allow_missing) matches Err(
            trouble,
        ) && trouble.kind == ExtensionDataErrorKind::NotFound),
        leaf is Symlink ==> checked_path(root, rel, Found::Dir, above, leaf, allow_missing) is Err,
{
    lemma_all_directories(rel, ancestors(root, path_parts(rel)), above);
}

/// A failure is told by its kind.
pub proof fn failures_keep_their_kind()
    ensures
        kind_of_failure(IoFailure::NotFound) == ExtensionDataErrorKind::NotFound,
        kind_of_failure(IoFailure::AlreadyExists) == ExtensionDataErrorKind::AlreadyExists,
        kind_of_failure(IoFailure::PermissionDenied) == ExtensionDataErrorKind::Permission,
        kind_of_failure(IoFailure::Other) == ExtensionDataErrorKind::Io,
{
}

/// What is too large is refused as over the limit, whatever its path; what is not goes to
/// its path.
pub proof fn large_writes_are_refused(path: Seq<char>, len: int)
    requires
        len >= 0,
    ensures
        len > MAX_EXTENSION_DATA_FILE_BYTES ==> (write_plan(path, len) matches Err(trouble) && trouble.kind
            == ExtensionDataErrorKind::QuotaExceeded),
        len <= MAX_EXTENSION_DATA_FILE_BYTES ==> write_plan(path, len) == clean_path(path, false),
        wrong_file_size(path, len) is Some <==> len > MAX_EXTENSION_DATA_FILE_BYTES,
{
}

/// What is appended is added to what is there.
pub proof fn appended_bytes_add_up(existing: u64, more: u64)
    ensures
        existing + more <= u64::MAX ==> appended_len(existing, more) == existing + more,
        appended_len(existing, more) >= existing,
        appended_len(existing, more) >= more,
{
}

/// Only a file is renamed, and only to where nothing is.
pub proof fn files_are_renamed_to_free_names(from: Seq<char>, from_found: Found, to: Seq<char>, to_found: Found)
    ensures
        wrong_rename(from, from_found, to, to_found) is None <==> from_found is File && is_missing(to_found),
        from_found is File && !is_missing(to_found) ==> (wrong_rename(from, from_found, to, to_found) matches Some(trouble)
            && trouble.kind == ExtensionDataErrorKind::AlreadyExists),
        wrong_file(from, from_found, false) is None <==> from_found is File,
        wrong_file(from, from_found, true) is None <==> from_found is File || is_missing(from_found),
        listable(from, from_found) == Ok::<bool, DataTrouble>(true) <==> from_found is Dir,
        listable(from, from_found) == Ok::<bool, DataTrouble>(false) <==> is_missing(from_found),
{
}

proof fn lemma_shown(entries: Seq<ListedEntry>, i: int)
    requires
        0 <= i < entries.len(),
    ensures
        entries[i].found is File ==> shown_entries(entries).contains(
            (EntryView { path: entries[i].path@, is_dir: false, len: Some(entries[i].len) }),
        ),
        entries[i].found is Dir ==> shown_entries(entries).contains(
            (EntryView { path: entries[i].path@, is_dir: true, len: None }),
        ),
    decreases entries.len(),
{
    let n = entries.len() - 1;
    let before = shown_entries(entries.drop_last());
    let view = if entries[i].found is File {
        EntryView { path: entries[i].path@, is_dir: false, len: Some(entries[i].len) }
    } else {
        EntryView { path: entries[i].path@, is_dir: true, len: None }
    };
    if entries[i].found is File || entries[i].found is Dir {
        if i == n {
            assert(shown_entries(entries)[before.len() as int] == view);
        } else {
            lemma_shown(entries.drop_last(), i);
            let k = choose|k: int| 0 <= k < before.len() && before[k] == view;
            assert(shown_entries(entries)[k] == view);
        }
    }
}

/// A directory is listed by path, with every file and its size and every directory in it.
pub proof fn directories_are_listed(dir: Seq<char>, entries: Seq<ListedEntry>, i: int, j: int)
    requires
        entries.len() <= MAX_EXTENSION_DATA_LIST_ENTRIES,
    ensures
        listing(dir, entries) matches Ok(list) && {
            &&& 0 <= i < entries.len() && entries[i].found is File ==> list.contains(
                (EntryView { path: entries[i].path@, is_dir: false, len: Some(entries[i].len) }),
            )
            &&& 0 <= i < entries.len() && entries[i].found is Dir ==> list.contains(
                (EntryView { path: entries[i].path@, is_dir: true, len: None }),
            )
            &&& 0 <= i < j < list.len() ==> !text_less(list[j].path, list[i].path)
            &&& list.len() <= entries.len()
        },
{
    let shown = shown_entries(entries);
    let keys = entry_paths(shown);
    let at = sorted_positions(keys);
    let list = entries_by_path(shown);
    sorted_positions_in_order(keys);
    lemma_shown_len(entries);
    if 0 <= i < entries.len() && (entries[i].found is File || entries[i].found is Dir) {
        lemma_shown(entries, i);
        let view = if entries[i].found is File {
            EntryView { path: entries[i].path@, is_dir: false, len: Some(entries[i].len) }
        } else {
            EntryView { path: entries[i].path@, is_dir: true, len: None }
        };
        let k = choose|k: int| 0 <= k < shown.len() && shown[k] == view;
        assert(at.contains(k));
        let p = choose|p: int| 0 <= p < at.len() && at[p] == k;
        assert(list[p] == view);
    }
    if 0 <= i < j < list.len() {
        assert(keys[at[i]] == list[i].path);
        assert(keys[at[j]] == list[j].path);
        if text_less(list[j].path, list[i].path) {
            if text_less(keys[at[i]], keys[at[j]]) {
                crate::order::text_less_transitive(keys[at[i]], keys[at[j]], keys[at[i]]);
            }
            crate::order::text_less_irreflexive(keys[at[i]]);
        }
    }
}

proof fn lemma_shown_len(entries: Seq<ListedEntry>)
    ensures
        shown_entries(entries).len() <= entries.len(),
    decreases entries.len(),
{
    if entries.len() > 0 {
        lemma_shown_len(entries.drop_last());
    }
}

/// A file is written beside its place first: under another name in the same directory.
pub proof fn files_are_written_beside_their_place(dir: Seq<char>, name: Seq<char>, pid: nat, nonce: nat)
    requires
        is_component(name),
        dir.len() > 0,
        dir.last() != '/',
    ensures
        ends_in(temp_name(path_join(dir, name), pid, nonce), "."@ + name + ".tmp-"@ + decimal(pid) + "-"@ + decimal(nonce)),
        begins(temp_name(path_join(dir, name), pid, nonce), settled(dir)),
        temp_name(path_join(dir, name), pid, nonce) == path_join(
            settled(dir),
            "."@ + name + ".tmp-"@ + decimal(pid) + "-"@ + decimal(nonce),
        ),
{
    files_are_named_by_their_last_component(dir, name);
    reveal_strlit(".");
    let temp = "."@ + name + ".tmp-"@ + decimal(pid) + "-"@ + decimal(nonce);
    assert(temp[0] == '.');
    paths_lie_in_their_directory(settled(dir), temp);
}

/// Every fourth year is a leap year, but of the full centuries only every fourth.
pub proof fn leap_years_come_every_fourth_year(year: int)
    ensures
        is_leap(year) ==> year % 4 == 0,
        year % 4 == 0 && year % 100 != 0 ==> is_leap(year),
        is_leap(400 * year),
        !is_leap(400 * year + 100),
        !is_leap(400 * year + 200),
        !is_leap(400 * year + 300),
        year_days(year) == (if is_leap(year) { 366int } else { 365int }),
        days_before_month(year, 12) == year_days(year),
        month_days(year, 1) == (if is_leap(year) { 29int } else { 28int }),
{
    reveal_with_fuel(days_before_month, 13);
}

/// The next day has the next number.
pub proof fn days_are_counted(d: Date)
    requires
        is_date(d),
    ensures
        d.day + 1 < month_days(d.year, d.month) ==> day_number(Date { day: (d.day + 1) as int, ..d }) == day_number(d) + 1,
        d.day + 1 == month_days(d.year, d.month) && d.month < 11 ==> day_number(
            Date { month: (d.month + 1) as int, day: 0, ..d },
        ) == day_number(d) + 1,
        d.day == 30 && d.month == 11 ==> day_number(Date { year: (d.year + 1) as int, month: 0, day: 0 }) == day_number(d)
            + 1,
        day_number(Date { year: 1970, month: 0, day: 0 }) == 0,
{
    reveal_with_fuel(days_before_month, 13);
}

/// A date is written with its year, and its month and day from one on, in two digits each.
pub proof fn dates_are_written_in_digits(n: int)
    requires
        0 <= n < 100,
    ensures
        two_digits(n).len() == 2,
        crate::text_laws::number_of(two_digits(n), 10) == n,
{
    reveal_with_fuel(crate::text::numeral, 3);
    reveal_with_fuel(crate::text_laws::number_of, 3);
    numerals_stand_for_their_numbers(n as nat, 10);
    if n < 10 {
        let s = two_digits(n);
        assert(s.drop_last() =~= seq!['0']);
        assert(s.drop_last().drop_last() =~= Seq::empty());
    } else {
        assert(n / 10 < 10);
    }
}

} // verus!
