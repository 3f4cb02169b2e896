//! The files that extensions keep: which paths they may name, how large a file may
//! grow, and what is said where something is not as it should be.
use vstd::prelude::*;
use vstd::string::*;
use crate::messages::ExtensionDataEntry;
use crate::order::{sort_positions, sorted_positions};
use crate::paths::{
    absolute, components, file_name, is_absolute, join_path, name_of, parent_of, parent_path, path_join, path_parts,
};
use crate::text::{decimal, decimal_text, join, joined, same, texts};

verus! {

/// How many bytes one file may have.
pub const MAX_EXTENSION_DATA_FILE_BYTES: u64 = 16777216;

/// How many entries a listed directory may have.
pub const MAX_EXTENSION_DATA_LIST_ENTRIES: usize = 4096;

// ---------------------------------------------------------------------------
// Errors
// ---------------------------------------------------------------------------

/// What kind of error an extension is told.
#[derive(Clone, Copy, Debug, PartialEq, Eq, Structural)]
pub enum ExtensionDataErrorKind {
    InvalidPath,
    NotFound,
    AlreadyExists,
    NotFile,
    NotDir,
    Permission,
    QuotaExceeded,
    Io,
}

/// What an extension is told.
#[derive(Debug, PartialEq, Eq)]
pub struct ExtensionDataError {
    pub kind: ExtensionDataErrorKind,
    pub message: String,
}

/// What an `ExtensionDataError` holds.
pub struct DataTrouble {
    pub kind: ExtensionDataErrorKind,
    pub message: Seq<char>,
}

impl ExtensionDataError {
    pub open spec fn view(&self) -> DataTrouble {
        DataTrouble { kind: self.kind, message: self.message@ }
    }

    /// An error.
    pub fn new(kind: ExtensionDataErrorKind, message: String) -> (r: ExtensionDataError)
        ensures
            r@ == (DataTrouble { kind, message: message@ }),
    {
        ExtensionDataError { kind, message }
    }
}

/// How an operation on a file failed.
#[derive(Clone, Copy, Debug, PartialEq, Eq, Structural)]
pub enum IoFailure {
    NotFound,
    AlreadyExists,
    PermissionDenied,
    Other,
}

/// The kind of error for a failed operation.
pub open spec fn kind_of_failure(failure: IoFailure) -> ExtensionDataErrorKind {
    match failure {
        IoFailure::NotFound => ExtensionDataErrorKind::NotFound,
        IoFailure::AlreadyExists => ExtensionDataErrorKind::AlreadyExists,
        IoFailure::PermissionDenied => ExtensionDataErrorKind::Permission,
        IoFailure::Other => ExtensionDataErrorKind::Io,
    }
}

/// The error for a failed operation.
pub open spec fn io_trouble(what: Seq<char>, failure: IoFailure, error: Seq<char>) -> DataTrouble {
    DataTrouble { kind: kind_of_failure(failure), message: what + ": "@ + error }
}

impl ExtensionDataError {
    /// The error for a failed operation.
    pub fn io(what: String, failure: IoFailure, error: &str) -> (r: ExtensionDataError)
        ensures
            r@ == io_trouble(what@, failure, error@),
    {
        let kind = match failure {
            IoFailure::NotFound => ExtensionDataErrorKind::NotFound,
            IoFailure::AlreadyExists => ExtensionDataErrorKind::AlreadyExists,
            IoFailure::PermissionDenied => ExtensionDataErrorKind::Permission,
            IoFailure::Other => ExtensionDataErrorKind::Io,
        };
        let mut message = what;
        message.append(": ");
        message.append(error);
        ExtensionDataError { kind, message }
    }
}

/// A text between two others.
pub open spec fn around(before: Seq<char>, what: Seq<char>, after: Seq<char>) -> Seq<char> {
    before + what + after
}

fn told(before: &str, what: &str, after: &str) -> (r: String)
    ensures
        r@ == around(before@, what@, after@),
{
    let mut r = before.to_owned();
    r.append(what);
    r.append(after);
    r
}

/// A result over its view.
pub open spec fn unit_view(r: Result<(), ExtensionDataError>) -> Result<(), DataTrouble> {
    match r {
        Ok(_) => Ok(()),
        Err(error) => Err(error@),
    }
}

/// A text or an error over its view.
pub open spec fn text_view(r: Result<String, ExtensionDataError>) -> Result<Seq<char>, DataTrouble> {
    match r {
        Ok(s) => Ok(s@),
        Err(error) => Err(error@),
    }
}

// ---------------------------------------------------------------------------
// Paths
// ---------------------------------------------------------------------------

/// A refused path.
pub open spec fn bad_path(message: Seq<char>) -> DataTrouble {
    DataTrouble { kind: ExtensionDataErrorKind::InvalidPath, message }
}

/// What is wrong with the first of the parts that is not a plain name.
pub open spec fn wrong_part(parts: Seq<Seq<char>>) -> Option<DataTrouble>
    decreases parts.len(),
{
    if parts.len() == 0 {
        None
    } else if parts[0] == "."@ {
        Some(bad_path("path must not contain `.`"@))
    } else if parts[0] == ".."@ {
        Some(bad_path("path must not contain `..`"@))
    } else {
        wrong_part(parts.drop_first())
    }
}

/// A path as an extension may name it: relative, without `.` and `..`, and empty
/// only where that is allowed.
pub open spec fn clean_path(path: Seq<char>, allow_empty: bool) -> Result<Seq<char>, DataTrouble> {
    if path.len() == 0 {
        if allow_empty {
            Ok(Seq::empty())
        } else {
            Err(bad_path("path must not be empty"@))
        }
    } else if is_absolute(path) {
        Err(bad_path("path must be relative"@))
    } else {
        match wrong_part(path_parts(path)) {
            Some(trouble) => Err(trouble),
            None => if path_parts(path).len() == 0 && !allow_empty {
                Err(bad_path("path must not be empty"@))
            } else {
                Ok(joined(path_parts(path), "/"@))
            },
        }
    }
}

fn refuse<T>(message: &str) -> (r: Result<T, ExtensionDataError>)
    ensures
        r matches Err(error) && error@ == bad_path(message@),
{
    Err(ExtensionDataError { kind: ExtensionDataErrorKind::InvalidPath, message: message.to_owned() })
}

/// Checks a path that an extension names.
pub fn sanitize_extension_data_path(path: &str, allow_empty: bool) -> (r: Result<String, ExtensionDataError>)
    ensures
        text_view(r) == clean_path(path@, allow_empty),
{
    if path.is_empty() {
        if allow_empty {
            let empty = String::new();
            assert(empty@ =~= Seq::empty());
            return Ok(empty);
        }
        return refuse("path must not be empty");
    }
    if absolute(path) {
        return refuse("path must be relative");
    }
    let parts = components(path);
    let ghost all = texts(parts@);
    let mut i: usize = 0;
    assert(all.skip(0) =~= all);
    while i < parts.len()
        invariant
            i <= parts.len(),
            all == texts(parts@),
            all == path_parts(path@),
            path@.len() > 0,
            !is_absolute(path@),
            wrong_part(all) == wrong_part(all.skip(i as int)),
        decreases parts.len() - i,
    {
        assert(all.skip(i as int)[0] == parts@[i as int]@);
        assert(all.skip(i as int).drop_first() =~= all.skip(i + 1));
        if same(parts[i].as_str(), ".") {
            return refuse("path must not contain `.`");
        }
        if same(parts[i].as_str(), "..") {
            return refuse("path must not contain `..`");
        }
        i += 1;
    }
    assert(all.skip(all.len() as int) =~= Seq::empty());
    assert(all.len() == parts@.len());
    if parts.len() == 0 && !allow_empty {
        return refuse("path must not be empty");
    }
    Ok(join(&parts, "/"))
}

// ---------------------------------------------------------------------------
// What stands at a path
// ---------------------------------------------------------------------------

/// What stands at a path, links not followed.
#[derive(Debug, PartialEq, Eq)]
pub enum Found {
    Dir,
    File,
    Symlink,
    /// Neither a file nor a directory.
    Other,
    /// Looking failed.
    Failed { failure: IoFailure, error: String },
}

/// Whether nothing stands at a path.
pub open spec fn is_missing(found: Found) -> bool {
    found matches Found::Failed { failure, error } && failure == IoFailure::NotFound
}

/// The directories between the root and a path, from above, without the path
/// itself.
pub open spec fn ancestors(root: Seq<char>, parts: Seq<Seq<char>>) -> Seq<Seq<char>>
    decreases parts.len(),
{
    if parts.len() <= 1 {
        Seq::empty()
    } else {
        let above = path_join(root, parts[0]);
        seq![above] + ancestors(above, parts.drop_first())
    }
}

/// The directories between the root and a path, from above, without the path
/// itself.
pub fn ancestor_paths(root: &str, rel: &str) -> (r: Vec<String>)
    ensures
        texts(r@) == ancestors(root@, path_parts(rel@)),
{
    let parts = components(rel);
    let ghost all = texts(parts@);
    let mut r: Vec<String> = Vec::new();
    let mut current = root.to_owned();
    let mut i: usize = 0;
    assert(all.skip(0) =~= all);
    assert(texts(r@) + ancestors(current@, all) =~= ancestors(root@, all));
    while i < parts.len() && parts.len() - i > 1
        invariant
            i <= parts.len(),
            all == texts(parts@),
            texts(r@) + ancestors(current@, all.skip(i as int)) == ancestors(root@, all),
        decreases parts.len() - i,
    {
        let ghost before = texts(r@);
        let ghost from = current@;
        assert(all.skip(i as int)[0] == parts@[i as int]@);
        assert(all.skip(i as int).drop_first() =~= all.skip(i + 1));
        current = join_path(current.as_str(), parts[i].as_str());
        r.push(current.clone());
        assert(texts(r@) =~= before.push(current@));
        assert(before + (seq![current@] + ancestors(current@, all.skip(i + 1))) =~= texts(r@) + ancestors(
            current@,
            all.skip(i + 1),
        ));
        i += 1;
    }
    assert(all.skip(i as int).len() <= 1);
    assert(texts(r@) + Seq::<Seq<char>>::empty() =~= texts(r@));
    r
}

/// What is wrong with the first of the directories above a path that is not a real
/// directory. Below one that is missing nothing is looked at.
pub open spec fn wrong_ancestor(rel: Seq<char>, paths: Seq<Seq<char>>, found: Seq<Found>) -> Option<DataTrouble>
    decreases found.len(),
{
    if paths.len() == 0 || found.len() == 0 {
        None
    } else {
        match found[0] {
            Found::Symlink => Some(bad_path(around("path `"@, rel, "` crosses a symlink"@))),
            Found::Dir => wrong_ancestor(rel, paths.drop_first(), found.drop_first()),
            Found::File => Some(not_a_directory(paths[0])),
            Found::Other => Some(not_a_directory(paths[0])),
            Found::Failed { failure, error } => if failure == IoFailure::NotFound {
                None
            } else {
                Some(io_trouble(around("failed to stat `"@, paths[0], "`"@), failure, error@))
            },
        }
    }
}

/// The error for a directory above a path that is none.
pub open spec fn not_a_directory(path: Seq<char>) -> DataTrouble {
    DataTrouble {
        kind: ExtensionDataErrorKind::NotDir,
        message: around("path ancestor `"@, path, "` is not a directory"@),
    }
}

/// Refuses a path that leads through a link, or through something that is not a
/// directory.
pub fn reject_symlink_ancestors(rel: &str, paths: &Vec<String>, found: &Vec<Found>) -> (r: Result<
    (),
    ExtensionDataError,
>)
    ensures
        unit_view(r) == (match wrong_ancestor(rel@, texts(paths@), found@) {
            Some(trouble) => Err::<(), DataTrouble>(trouble),
            None => Ok(()),
        }),
{
    let ghost all = texts(paths@);
    let mut i: usize = 0;
    assert(all.skip(0) =~= all);
    assert(found@.skip(0) =~= found@);
    while i < paths.len() && i < found.len()
        invariant
            i <= paths.len(),
            i <= found.len(),
            all == texts(paths@),
            wrong_ancestor(rel@, all, found@) == wrong_ancestor(
                rel@,
                all.skip(i as int),
                found@.skip(i as int),
            ),
        decreases found.len() - i,
    {
        assert(all.skip(i as int)[0] == paths@[i as int]@);
        assert(found@.skip(i as int)[0] == found@[i as int]);
        assert(all.skip(i as int).drop_first() =~= all.skip(i + 1));
        assert(found@.skip(i as int).drop_first() =~= found@.skip(i + 1));
        match &found[i] {
            Found::Symlink => {
                return Err(
                    ExtensionDataError {
                        kind: ExtensionDataErrorKind::InvalidPath,
                        message: told("path `", rel, "` crosses a symlink"),
                    },
                );
            },
            Found::Dir => {},
            Found::File | Found::Other => {
                return Err(
                    ExtensionDataError {
                        kind: ExtensionDataErrorKind::NotDir,
                        message: told("path ancestor `", paths[i].as_str(), "` is not a directory"),
                    },
                );
            },
            Found::Failed { failure, error } => {
                if *failure == IoFailure::NotFound {
                    return Ok(());
                }
                return Err(
                    ExtensionDataError::io(
                        told("failed to stat `", paths[i].as_str(), "`"),
                        *failure,
                        error.as_str(),
                    ),
                );
            },
        }
        i += 1;
    }
    Ok(())
}

/// What is wrong with what stands at the path itself.
pub open spec fn wrong_leaf(rel: Seq<char>, found: Found, allow_missing: bool) -> Option<DataTrouble> {
    match found {
        Found::Symlink => Some(bad_path(around("path `"@, rel, "` is a symlink"@))),
        Found::Dir => None,
        Found::File => None,
        Found::Other => Some(
            DataTrouble {
                kind: ExtensionDataErrorKind::NotFile,
                message: around("path `"@, rel, "` is not a file or directory"@),
            },
        ),
        Found::Failed { failure, error } => if allow_missing && failure == IoFailure::NotFound {
            None
        } else {
            Some(io_trouble(around("failed to stat `"@, rel, "`"@), failure, error@))
        },
    }
}

/// What is wrong with the root of an extension's data.
pub open spec fn wrong_root(found: Found) -> Option<DataTrouble> {
    match found {
        Found::Dir => None,
        Found::Failed { failure, error } => Some(
            io_trouble("failed to stat extension data root"@, failure, error@),
        ),
        _ => Some(
            DataTrouble {
                kind: ExtensionDataErrorKind::NotDir,
                message: "extension data root is not a real directory"@,
            },
        ),
    }
}

/// The full path of a file of an extension, where no link leads there.
pub open spec fn checked_path(
    root: Seq<char>,
    rel: Seq<char>,
    root_found: Found,
    above: Seq<Found>,
    leaf: Found,
    allow_missing: bool,
) -> Result<Seq<char>, DataTrouble> {
    match wrong_root(root_found) {
        Some(trouble) => Err(trouble),
        None => match wrong_ancestor(rel, ancestors(root, path_parts(rel)), above) {
            Some(trouble) => Err(trouble),
            None => match wrong_leaf(rel, leaf, allow_missing) {
                Some(trouble) => Err(trouble),
                None => Ok(path_join(root, rel)),
            },
        },
    }
}

fn check_root(found: &Found) -> (r: Result<(), ExtensionDataError>)
    ensures
        unit_view(r) == (match wrong_root(*found) {
            Some(trouble) => Err::<(), DataTrouble>(trouble),
            None => Ok(()),
        }),
{
    match found {
        Found::Dir => Ok(()),
        Found::Failed { failure, error } => Err(
            ExtensionDataError::io("failed to stat extension data root".to_owned(), *failure, error.as_str()),
        ),
        _ => Err(
            ExtensionDataError {
                kind: ExtensionDataErrorKind::NotDir,
                message: "extension data root is not a real directory".to_owned(),
            },
        ),
    }
}

fn check_leaf(rel: &str, found: &Found, allow_missing: bool) -> (r: Result<(), ExtensionDataError>)
    ensures
        unit_view(r) == (match wrong_leaf(rel@, *found, allow_missing) {
            Some(trouble) => Err::<(), DataTrouble>(trouble),
            None => Ok(()),
        }),
{
    match found {
        Found::Symlink => Err(
            ExtensionDataError {
                kind: ExtensionDataErrorKind::InvalidPath,
                message: told("path `", rel, "` is a symlink"),
            },
        ),
        Found::Dir => Ok(()),
        Found::File => Ok(()),
        Found::Other => Err(
            ExtensionDataError {
                kind: ExtensionDataErrorKind::NotFile,
                message: told("path `", rel, "` is not a file or directory"),
            },
        ),
        Found::Failed { failure, error } => {
            if allow_missing && *failure == IoFailure::NotFound {
                Ok(())
            } else {
                Err(ExtensionDataError::io(told("failed to stat `", rel, "`"), *failure, error.as_str()))
            }
        },
    }
}

/// Checks where a path leads, given what stands at the root, at the directories
/// above the path, and at the path.
pub fn checked_extension_data_path(
    root: &str,
    rel: &str,
    root_found: &Found,
    above: &Vec<Found>,
    leaf: &Found,
    allow_missing: bool,
) -> (r: Result<String, ExtensionDataError>)
    ensures
        text_view(r) == checked_path(root@, rel@, *root_found, above@, *leaf, allow_missing),
{
    match check_root(root_found) {
        Ok(_) => {},
        Err(error) => {
            return Err(error);
        },
    }
    let paths = ancestor_paths(root, rel);
    match reject_symlink_ancestors(rel, &paths, above) {
        Ok(_) => {},
        Err(error) => {
            return Err(error);
        },
    }
    match check_leaf(rel, leaf, allow_missing) {
        Ok(_) => Ok(join_path(root, rel)),
        Err(error) => Err(error),
    }
}

// ---------------------------------------------------------------------------
// Limits
// ---------------------------------------------------------------------------

/// An error about a limit.
pub open spec fn over_limit(message: Seq<char>) -> DataTrouble {
    DataTrouble { kind: ExtensionDataErrorKind::QuotaExceeded, message }
}

/// What is wrong with the size of what an extension writes.
pub open spec fn wrong_size(len: int) -> Option<DataTrouble> {
    if len > MAX_EXTENSION_DATA_FILE_BYTES {
        Some(
            over_limit(
                "extension data write is "@ + decimal(len as nat) + " bytes; limit is "@ + decimal(
                    MAX_EXTENSION_DATA_FILE_BYTES as nat,
                ) + " bytes"@,
            ),
        )
    } else {
        None
    }
}

/// What is wrong with the size of a file.
pub open spec fn wrong_file_size(rel: Seq<char>, len: int) -> Option<DataTrouble> {
    if len > MAX_EXTENSION_DATA_FILE_BYTES {
        Some(
            over_limit(
                "`"@ + rel + "` is "@ + decimal(len as nat) + " bytes; limit is "@ + decimal(
                    MAX_EXTENSION_DATA_FILE_BYTES as nat,
                ) + " bytes"@,
            ),
        )
    } else {
        None
    }
}

/// The outcome of a check.
pub open spec fn outcome(wrong: Option<DataTrouble>) -> Result<(), DataTrouble> {
    match wrong {
        Some(trouble) => Err(trouble),
        None => Ok(()),
    }
}

/// Refuses to write more than a file may hold.
pub fn ensure_request_contents_within_limit(len: u64) -> (r: Result<(), ExtensionDataError>)
    ensures
        unit_view(r) == outcome(wrong_size(len as int)),
{
    if len > MAX_EXTENSION_DATA_FILE_BYTES {
        let mut message = "extension data write is ".to_owned();
        message.append(decimal_text(len as u128).as_str());
        message.append(" bytes; limit is ");
        message.append(decimal_text(MAX_EXTENSION_DATA_FILE_BYTES as u128).as_str());
        message.append(" bytes");
        return Err(ExtensionDataError { kind: ExtensionDataErrorKind::QuotaExceeded, message });
    }
    Ok(())
}

/// Refuses a file that is larger than it may be.
pub fn ensure_file_len_within_limit(rel: &str, len: u64) -> (r: Result<(), ExtensionDataError>)
    ensures
        unit_view(r) == outcome(wrong_file_size(rel@, len as int)),
{
    if len > MAX_EXTENSION_DATA_FILE_BYTES {
        let mut message = "`".to_owned();
        message.append(rel);
        message.append("` is ");
        message.append(decimal_text(len as u128).as_str());
        message.append(" bytes; limit is ");
        message.append(decimal_text(MAX_EXTENSION_DATA_FILE_BYTES as u128).as_str());
        message.append(" bytes");
        return Err(ExtensionDataError { kind: ExtensionDataErrorKind::QuotaExceeded, message });
    }
    Ok(())
}

// ---------------------------------------------------------------------------
// Operations
// ---------------------------------------------------------------------------

/// What is to be written, before any file is touched: not too much, and at a path
/// that is acceptable.
pub open spec fn write_plan(path: Seq<char>, len: int) -> Result<Seq<char>, DataTrouble> {
    match wrong_size(len) {
        Some(trouble) => Err(trouble),
        None => clean_path(path, false),
    }
}

/// Checks a request to write, to create or to append, and returns the path.
pub fn plan_write(path: &str, len: u64) -> (r: Result<String, ExtensionDataError>)
    ensures
        text_view(r) == write_plan(path@, len as int),
{
    match ensure_request_contents_within_limit(len) {
        Ok(_) => sanitize_extension_data_path(path, false),
        Err(error) => Err(error),
    }
}

/// The error where a file is expected.
pub open spec fn not_a_file(rel: Seq<char>) -> DataTrouble {
    DataTrouble { kind: ExtensionDataErrorKind::NotFile, message: around("`"@, rel, "` is not a file"@) }
}

/// What is wrong with what stands where a file is to be; nothing may stand there
/// where `allow_missing`.
pub open spec fn wrong_file(rel: Seq<char>, found: Found, allow_missing: bool) -> Option<DataTrouble> {
    if found is File || (allow_missing && is_missing(found)) {
        None
    } else {
        Some(not_a_file(rel))
    }
}

/// Refuses anything but a file.
pub fn ensure_file(rel: &str, found: &Found, allow_missing: bool) -> (r: Result<(), ExtensionDataError>)
    ensures
        unit_view(r) == outcome(wrong_file(rel@, *found, allow_missing)),
{
    let fine = match found {
        Found::File => true,
        Found::Failed { failure, error: _ } => allow_missing && *failure == IoFailure::NotFound,
        _ => false,
    };
    if fine {
        Ok(())
    } else {
        Err(
            ExtensionDataError {
                kind: ExtensionDataErrorKind::NotFile,
                message: told("`", rel, "` is not a file"),
            },
        )
    }
}

/// The size of a file after something is appended, at most what can be counted.
pub open spec fn appended_len(existing: u64, more: u64) -> int {
    if existing + more > u64::MAX {
        u64::MAX as int
    } else {
        existing + more
    }
}

/// Refuses to append to a file beyond what it may hold; a file that does not exist
/// yet has no size to check.
pub fn ensure_append_within_limit(rel: &str, existing: Option<u64>, more: u64) -> (r: Result<(), ExtensionDataError>)
    ensures
        unit_view(r) == (match existing {
            Some(len) => outcome(wrong_file_size(rel@, appended_len(len, more))),
            None => Ok(()),
        }),
{
    match existing {
        Some(len) => {
            let total: u64 = if len > u64::MAX - more {
                u64::MAX
            } else {
                len + more
            };
            ensure_file_len_within_limit(rel, total)
        },
        None => Ok(()),
    }
}

/// What is wrong with moving a file: it must be there, and nothing may stand at its
/// new place.
pub open spec fn wrong_rename(from: Seq<char>, from_found: Found, to: Seq<char>, to_found: Found) -> Option<DataTrouble> {
    if !(from_found is File) {
        Some(not_a_file(from))
    } else if !is_missing(to_found) {
        Some(
            DataTrouble {
                kind: ExtensionDataErrorKind::AlreadyExists,
                message: around("`"@, to, "` already exists"@),
            },
        )
    } else {
        None
    }
}

/// Checks whether a file may be moved.
pub fn ensure_rename(from: &str, from_found: &Found, to: &str, to_found: &Found) -> (r: Result<(), ExtensionDataError>)
    ensures
        unit_view(r) == outcome(wrong_rename(from@, *from_found, to@, *to_found)),
{
    match ensure_file(from, from_found, false) {
        Ok(_) => {},
        Err(error) => {
            return Err(error);
        },
    }
    let free = match to_found {
        Found::Failed { failure, error: _ } => *failure == IoFailure::NotFound,
        _ => false,
    };
    if free {
        Ok(())
    } else {
        Err(
            ExtensionDataError {
                kind: ExtensionDataErrorKind::AlreadyExists,
                message: told("`", to, "` already exists"),
            },
        )
    }
}

/// Whether a failed deletion counts as done: what is not there need not be
/// deleted.
pub fn deletion_done(failure: IoFailure) -> (r: bool)
    ensures
        r == (failure == IoFailure::NotFound),
{
    failure == IoFailure::NotFound
}

/// What a directory may be listed as: where it is missing, it is empty.
pub open spec fn listable(rel: Seq<char>, found: Found) -> Result<bool, DataTrouble> {
    if is_missing(found) {
        Ok(false)
    } else if found is Dir {
        Ok(true)
    } else {
        Err(
            DataTrouble {
                kind: ExtensionDataErrorKind::NotDir,
                message: around("`"@, rel, "` is not a directory"@),
            },
        )
    }
}

/// Whether there is a directory to list.
pub fn ensure_listable(rel: &str, found: &Found) -> (r: Result<bool, ExtensionDataError>)
    ensures
        match r {
            Ok(there) => listable(rel@, *found) == Ok::<bool, DataTrouble>(there),
            Err(error) => listable(rel@, *found) == Err::<bool, DataTrouble>(error@),
        },
{
    match found {
        Found::Dir => {
            return Ok(true);
        },
        Found::Failed { failure, error: _ } => {
            if *failure == IoFailure::NotFound {
                return Ok(false);
            }
        },
        _ => {},
    }
    Err(
        ExtensionDataError {
            kind: ExtensionDataErrorKind::NotDir,
            message: told("`", rel, "` is not a directory"),
        },
    )
}

/// An entry of a directory.
#[derive(Debug, PartialEq, Eq)]
pub struct ListedEntry {
    /// The path relative to the root of the extension's data.
    pub path: String,
    pub found: Found,
    pub len: u64,
}

/// What an entry of a listing holds.
pub struct EntryView {
    pub path: Seq<char>,
    pub is_dir: bool,
    pub len: Option<u64>,
}

/// An entry of a listing over its view.
pub open spec fn entry_view(e: ExtensionDataEntry) -> EntryView {
    EntryView { path: e.path@, is_dir: e.is_dir, len: e.len }
}

/// The entries of a listing over their views.
pub open spec fn listing_view(v: Seq<ExtensionDataEntry>) -> Seq<EntryView> {
    v.map_values(|e: ExtensionDataEntry| entry_view(e))
}

/// How an entry is shown: files with their sizes, and directories; nothing else.
pub open spec fn shown_entries(entries: Seq<ListedEntry>) -> Seq<EntryView>
    decreases entries.len(),
{
    if entries.len() == 0 {
        Seq::empty()
    } else {
        let before = shown_entries(entries.drop_last());
        let e = entries.last();
        if e.found is File {
            before.push(EntryView { path: e.path@, is_dir: false, len: Some(e.len) })
        } else if e.found is Dir {
            before.push(EntryView { path: e.path@, is_dir: true, len: None })
        } else {
            before
        }
    }
}

/// The paths of entries.
pub open spec fn entry_paths(v: Seq<EntryView>) -> Seq<Seq<char>> {
    v.map_values(|e: EntryView| e.path)
}

/// Entries by ascending path.
pub open spec fn entries_by_path(v: Seq<EntryView>) -> Seq<EntryView> {
    sorted_positions(entry_paths(v)).map_values(|i: int| v[i])
}

/// The listing of a directory; one with too many entries is refused.
pub open spec fn listing(dir: Seq<char>, entries: Seq<ListedEntry>) -> Result<Seq<EntryView>, DataTrouble> {
    if entries.len() > MAX_EXTENSION_DATA_LIST_ENTRIES {
        Err(
            over_limit(
                "directory `"@ + dir + "` has more than "@ + decimal(MAX_EXTENSION_DATA_LIST_ENTRIES as nat)
                    + " entries"@,
            ),
        )
    } else {
        Ok(entries_by_path(shown_entries(entries)))
    }
}

/// Lists a directory, given its entries.
pub fn list_extension_data_entries(dir: &str, entries: &Vec<ListedEntry>) -> (r: Result<
    Vec<ExtensionDataEntry>,
    ExtensionDataError,
>)
    ensures
        match r {
            Ok(list) => listing(dir@, entries@) == Ok::<Seq<EntryView>, DataTrouble>(listing_view(list@)),
            Err(error) => listing(dir@, entries@) == Err::<Seq<EntryView>, DataTrouble>(error@),
        },
{
    if entries.len() > MAX_EXTENSION_DATA_LIST_ENTRIES {
        let mut message = "directory `".to_owned();
        message.append(dir);
        message.append("` has more than ");
        message.append(decimal_text(MAX_EXTENSION_DATA_LIST_ENTRIES as u128).as_str());
        message.append(" entries");
        return Err(ExtensionDataError { kind: ExtensionDataErrorKind::QuotaExceeded, message });
    }
    let mut shown: Vec<ExtensionDataEntry> = Vec::new();
    let mut names: Vec<String> = Vec::new();
    let mut i: usize = 0;
    assert(listing_view(shown@) =~= shown_entries(entries@.take(0)));
    while i < entries.len()
        invariant
            i <= entries.len(),
            names.len() == shown.len(),
            forall|k: int| 0 <= k < names.len() ==> (#[trigger] names@[k])@ == shown@[k].path@,
            listing_view(shown@) == shown_entries(entries@.take(i as int)),
        decreases entries.len() - i,
    {
        let ghost before = listing_view(shown@);
        let e = &entries[i];
        assert(entries@.take(i + 1).drop_last() =~= entries@.take(i as int));
        assert(entries@.take(i + 1).last() == *e);
        match &e.found {
            Found::File => {
                names.push(e.path.clone());
                shown.push(ExtensionDataEntry { path: e.path.clone(), is_dir: false, len: Some(e.len) });
                assert(listing_view(shown@) =~= before.push(
                    EntryView { path: e.path@, is_dir: false, len: Some(e.len) },
                ));
            },
            Found::Dir => {
                names.push(e.path.clone());
                shown.push(ExtensionDataEntry { path: e.path.clone(), is_dir: true, len: None });
                assert(listing_view(shown@) =~= before.push(
                    EntryView { path: e.path@, is_dir: true, len: None },
                ));
            },
            _ => {},
        }
        i += 1;
    }
    assert(entries@.take(entries.len() as int) =~= entries@);
    let ghost all = listing_view(shown@);
    assert(texts(names@) =~= entry_paths(all));
    let order = sort_positions(&names);
    let mut r: Vec<ExtensionDataEntry> = Vec::new();
    let mut n: usize = 0;
    while n < order.len()
        invariant
            n <= order.len(),
            all == listing_view(shown@),
            forall|k: int| 0 <= k < order.len() ==> (#[trigger] order@[k]) < shown.len(),
            r.len() == n,
            forall|k: int| 0 <= k < n ==> entry_view(#[trigger] r@[k]) == all[order@[k] as int],
        decreases order.len() - n,
    {
        let e = &shown[order[n]];
        r.push(ExtensionDataEntry { path: e.path.clone(), is_dir: e.is_dir, len: e.len });
        n += 1;
    }
    assert(listing_view(r@) =~= entries_by_path(all));
    Ok(r)
}

/// The name of a file that stands in for another while it is written.
pub open spec fn temp_name(path: Seq<char>, pid: nat, nonce: nat) -> Seq<char> {
    let parent = match parent_path(path) {
        Some(parent) => parent,
        None => "."@,
    };
    let name = match file_name(path) {
        Some(name) => name,
        None => "file"@,
    };
    path_join(parent, "."@ + name + ".tmp-"@ + decimal(pid) + "-"@ + decimal(nonce))
}

/// The path of a file that stands in for another while it is written.
pub fn extension_data_temp_path(path: &str, pid: u32, nonce: u128) -> (r: String)
    ensures
        r@ == temp_name(path@, pid as nat, nonce as nat),
{
    let parent = match parent_of(path) {
        Some(parent) => parent,
        None => ".".to_owned(),
    };
    let name = match name_of(path) {
        Some(name) => name,
        None => "file".to_owned(),
    };
    let mut file = ".".to_owned();
    file.append(name.as_str());
    file.append(".tmp-");
    file.append(decimal_text(pid as u128).as_str());
    file.append("-");
    file.append(decimal_text(nonce).as_str());
    join_path(parent.as_str(), file.as_str())
}

// ---------------------------------------------------------------------------
// Laws
// ---------------------------------------------------------------------------

proof fn lemma_plain_parts(parts: Seq<Seq<char>>)
    requires
        wrong_part(parts) is None,
    ensures
        forall|i: int| 0 <= i < parts.len() ==> (#[trigger] parts[i]) != "."@ && parts[i] != ".."@,
    decreases parts.len(),
{
    if parts.len() > 0 {
        lemma_plain_parts(parts.drop_first());
        assert forall|i: int| 0 <= i < parts.len() implies (#[trigger] parts[i]) != "."@ && parts[i] != ".."@ by {
            if i > 0 {
                assert(parts[i] == parts.drop_first()[i - 1]);
            }
        }
    }
}

/// A path that is accepted is relative and has only plain components: it cannot
/// lead out of the extension's data.
pub proof fn accepted_paths_stay_inside(path: Seq<char>, allow_empty: bool)
    requires
        clean_path(path, allow_empty) is Ok,
        path.len() > 0,
    ensures
        !is_absolute(path),
        forall|i: int|
            0 <= i < path_parts(path).len() ==> (#[trigger] path_parts(path)[i]) != "."@ && path_parts(path)[i] != ".."@,
        clean_path(path, allow_empty) == Ok::<Seq<char>, DataTrouble>(joined(path_parts(path), "/"@)),
{
    lemma_plain_parts(path_parts(path));
}

/// No write that is accepted lets a file grow beyond what it may hold.
pub proof fn accepted_appends_fit(rel: Seq<char>, existing: u64, more: u64)
    requires
        wrong_file_size(rel, appended_len(existing, more)) is None,
    ensures
        existing + more <= MAX_EXTENSION_DATA_FILE_BYTES,
{
}

/// Whether real directories stand at the first `n` paths.
pub open spec fn directories(found: Seq<Found>, n: int) -> bool {
    forall|i: int| 0 <= i < n ==> (#[trigger] found[i]) is Dir
}

/// Whether nothing stands at a path.
pub open spec fn missing(found: Found) -> bool {
    found matches Found::Failed { failure, error: _ } && failure == IoFailure::NotFound
}

proof fn lemma_ancestors(rel: Seq<char>, paths: Seq<Seq<char>>, found: Seq<Found>)
    requires
        wrong_ancestor(rel, paths, found) is None,
        found.len() == paths.len(),
    ensures
        forall|i: int|
            0 <= i < found.len() && directories(found, i) ==> (#[trigger] found[i]) is Dir || missing(found[i]),
    decreases found.len(),
{
    if found.len() > 0 {
        let rest = found.drop_first();
        if found[0] is Dir {
            lemma_ancestors(rel, paths.drop_first(), rest);
        }
        assert forall|i: int| 0 <= i < found.len() && directories(found, i) implies (#[trigger] found[i]) is Dir
            || missing(found[i]) by {
            if i > 0 {
                assert(found[0] is Dir);
                assert(found[i] == rest[i - 1]);
                assert(directories(rest, i - 1)) by {
                    assert forall|k: int| 0 <= k < i - 1 implies (#[trigger] rest[k]) is Dir by {
                        assert(rest[k] == found[k + 1]);
                    }
                }
            }
        }
    }
}

/// No link leads along an accepted path: the root is a real directory, so is every
/// directory below it down to the first that is missing, and what stands at the end is
/// no link. Each directory between the root and the end was looked at.
pub proof fn accepted_paths_are_no_links(
    root: Seq<char>,
    rel: Seq<char>,
    root_found: Found,
    above: Seq<Found>,
    leaf: Found,
    allow_missing: bool,
)
    requires
        checked_path(root, rel, root_found, above, leaf, allow_missing) is Ok,
        above.len() == ancestors(root, path_parts(rel)).len(),
    ensures
        root_found is Dir,
        forall|i: int|
            0 <= i < above.len() && directories(above, i) ==> (#[trigger] above[i]) is Dir || missing(above[i]),
        forall|i: int| 0 <= i < above.len() && directories(above, i) ==> !((#[trigger] above[i]) is Symlink),
        !(leaf is Symlink),
        checked_path(root, rel, root_found, above, leaf, allow_missing) == Ok::<Seq<char>, DataTrouble>(
            path_join(root, rel),
        ),
{
    lemma_ancestors(rel, ancestors(root, path_parts(rel)), above);
}

} // verus!
