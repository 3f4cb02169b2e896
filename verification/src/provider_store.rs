//! Where the credentials of providers lie: one file for each, with a lock beside it.
use vstd::prelude::*;
use vstd::string::*;
use crate::paths::{join_path, path_join};
use crate::text::chars_of;

verus! {

/// The directory of the store, below that for the state of programs; below that
/// for local data where there is none.
pub open spec fn store_dir(state: Option<Seq<char>>, data_local: Option<Seq<char>>) -> Option<Seq<char>> {
    match (state, data_local) {
        (Some(dir), _) => Some(path_join(dir, "tau"@)),
        (None, Some(dir)) => Some(path_join(dir, "tau"@)),
        (None, None) => None,
    }
}

/// A reference to a string over its view.
pub open spec fn str_view(o: Option<&str>) -> Option<Seq<char>> {
    match o {
        Some(s) => Some(s@),
        None => None,
    }
}

/// Why a store cannot be used.
#[derive(Debug, PartialEq, Eq)]
pub enum StoreError {
    /// There is no directory for the state of programs.
    NoDataDirectory,
    /// The name of the file is empty.
    EmptyName,
    /// The name of the file begins with a character it may not begin with.
    BadStart(String),
    /// The name of the file holds a character it may not hold.
    BadCharacter(String),
}

/// What is said of an error.
pub open spec fn store_error_text(e: StoreError) -> Seq<char> {
    match e {
        StoreError::NoDataDirectory => "cannot determine data directory"@,
        StoreError::EmptyName => "auth file name must be non-empty"@,
        StoreError::BadStart(name) => "auth file name '"@ + name@ + "' may not start with '.' or '-'"@,
        StoreError::BadCharacter(name) => "auth file name '"@ + name@
            + "' may only contain ASCII letters, digits, '_', '-', '.'"@,
    }
}

impl StoreError {
    /// What is said of the error.
    pub fn text(&self) -> (r: String)
        ensures
            r@ == store_error_text(*self),
    {
        match self {
            StoreError::NoDataDirectory => "cannot determine data directory".to_owned(),
            StoreError::EmptyName => "auth file name must be non-empty".to_owned(),
            StoreError::BadStart(name) => {
                let mut r = "auth file name '".to_owned();
                r.append(name.as_str());
                r.append("' may not start with '.' or '-'");
                r
            },
            StoreError::BadCharacter(name) => {
                let mut r = "auth file name '".to_owned();
                r.append(name.as_str());
                r.append("' may only contain ASCII letters, digits, '_', '-', '.'");
                r
            },
        }
    }
}

/// Whether a character may stand in the name of a file.
pub open spec fn auth_name_char(c: char) -> bool {
    ('a' <= c && c <= 'z') || ('A' <= c && c <= 'Z') || ('0' <= c && c <= '9') || c == '_' || c == '-' || c == '.'
}

/// What is wrong with the name of a file.
pub open spec fn name_fault(name: Seq<char>) -> NameFault {
    if name.len() == 0 {
        NameFault::Empty
    } else if name[0] == '.' || name[0] == '-' {
        NameFault::Start
    } else if exists|i: int| 0 <= i < name.len() && !auth_name_char(#[trigger] name[i]) {
        NameFault::Character
    } else {
        NameFault::Fine
    }
}

/// What can be wrong with the name of a file.
pub enum NameFault {
    Fine,
    Empty,
    Start,
    Character,
}

/// Refuses names that are no plain file names.
pub fn validate_auth_file_name(name: &str) -> (r: Result<(), StoreError>)
    ensures
        match name_fault(name@) {
            NameFault::Fine => r is Ok,
            NameFault::Empty => r == Err::<(), StoreError>(StoreError::EmptyName),
            NameFault::Start => r matches Err(StoreError::BadStart(n)) && n@ == name@,
            NameFault::Character => r matches Err(StoreError::BadCharacter(n)) && n@ == name@,
        },
{
    let v = chars_of(name);
    if v.len() == 0 {
        return Err(StoreError::EmptyName);
    }
    if v[0] == '.' || v[0] == '-' {
        return Err(StoreError::BadStart(name.to_owned()));
    }
    let mut i: usize = 0;
    while i < v.len()
        invariant
            i <= v.len(),
            v@ == name@,
            v@.len() > 0,
            v@[0] != '.' && v@[0] != '-',
            forall|k: int| 0 <= k < i ==> auth_name_char(#[trigger] v@[k]),
        decreases v.len() - i,
    {
        let c = v[i];
        let fine = ('a' <= c && c <= 'z') || ('A' <= c && c <= 'Z') || ('0' <= c && c <= '9') || c == '_' || c == '-'
            || c == '.';
        if !fine {
            assert(!auth_name_char(name@[i as int]));
            return Err(StoreError::BadCharacter(name.to_owned()));
        }
        i += 1;
    }
    Ok(())
}

/// A store of credentials.
#[derive(Debug, PartialEq, Eq)]
pub struct ProviderStore {
    state_dir: String,
}

impl ProviderStore {
    /// The directory that the store lies in.
    pub closed spec fn view(&self) -> Seq<char> {
        self.state_dir@
    }

    /// The store of the user, given the directories for state and for local data.
    pub fn open_default(state: Option<&str>, data_local: Option<&str>) -> (r: Result<ProviderStore, StoreError>)
        ensures
            match store_dir(str_view(state), str_view(data_local)) {
                Some(dir) => r matches Ok(store) && store@ == dir,
                None => r == Err::<ProviderStore, StoreError>(StoreError::NoDataDirectory),
            },
    {
        match (state, data_local) {
            (Some(dir), _) => Ok(ProviderStore { state_dir: join_path(dir, "tau") }),
            (None, Some(dir)) => Ok(ProviderStore { state_dir: join_path(dir, "tau") }),
            (None, None) => Err(StoreError::NoDataDirectory),
        }
    }

    /// The store in a directory.
    pub fn open_in(state_dir: String) -> (r: ProviderStore)
        ensures
            r@ == state_dir@,
    {
        ProviderStore { state_dir }
    }

    /// The directory that the files lie in.
    pub fn auth_dir(&self) -> (r: String)
        ensures
            r@ == path_join(self@, "auth.d"@),
    {
        join_path(self.state_dir.as_str(), "auth.d")
    }

    /// One file of the store.
    pub fn auth_file(&self, name: String) -> (r: Result<AuthFile, StoreError>)
        ensures
            match name_fault(name@) {
                NameFault::Fine => r matches Ok(file) && file@ == (Auth { dir: self@, name: name@ }),
                NameFault::Empty => r == Err::<AuthFile, StoreError>(StoreError::EmptyName),
                NameFault::Start => r matches Err(StoreError::BadStart(n)) && n@ == name@,
                NameFault::Character => r matches Err(StoreError::BadCharacter(n)) && n@ == name@,
            },
    {
        AuthFile::new(ProviderStore { state_dir: self.state_dir.clone() }, name)
    }
}

/// A file with the credentials of one provider.
#[derive(Debug, PartialEq, Eq)]
pub struct AuthFile {
    store: ProviderStore,
    name: String,
}

/// What an `AuthFile` holds.
pub struct Auth {
    /// The directory of the store.
    pub dir: Seq<char>,
    pub name: Seq<char>,
}

impl Auth {
    /// Where the file lies.
    pub open spec fn path(self) -> Seq<char> {
        path_join(path_join(self.dir, "auth.d"@), self.name + ".json"@)
    }

    /// Where its lock lies.
    pub open spec fn lock_path(self) -> Seq<char> {
        path_join(path_join(self.dir, "auth.d"@), self.name + ".lock"@)
    }
}

impl AuthFile {
    pub closed spec fn view(&self) -> Auth {
        Auth { dir: self.store@, name: self.name@ }
    }

    /// One file of a store.
    pub fn new(store: ProviderStore, name: String) -> (r: Result<AuthFile, StoreError>)
        ensures
            match name_fault(name@) {
                NameFault::Fine => r matches Ok(file) && file@ == (Auth { dir: store@, name: name@ }),
                NameFault::Empty => r == Err::<AuthFile, StoreError>(StoreError::EmptyName),
                NameFault::Start => r matches Err(StoreError::BadStart(n)) && n@ == name@,
                NameFault::Character => r matches Err(StoreError::BadCharacter(n)) && n@ == name@,
            },
    {
        match validate_auth_file_name(name.as_str()) {
            Ok(_) => Ok(AuthFile { store, name }),
            Err(e) => Err(e),
        }
    }

    /// The name of the file, without its ending.
    pub fn name(&self) -> (r: &str)
        ensures
            r@ == self@.name,
    {
        self.name.as_str()
    }

    /// Where the file lies.
    pub fn path(&self) -> (r: String)
        ensures
            r@ == self@.path(),
    {
        let dir = self.store.auth_dir();
        let mut file = self.name.clone();
        file.append(".json");
        join_path(dir.as_str(), file.as_str())
    }

    /// Where its lock lies.
    pub fn lock_path(&self) -> (r: String)
        ensures
            r@ == self@.lock_path(),
    {
        let dir = self.store.auth_dir();
        let mut file = self.name.clone();
        file.append(".lock");
        join_path(dir.as_str(), file.as_str())
    }
}

/// What comes of work under a lock: an error of the work, else one of giving the
/// lock back, else what the work returned.
pub fn under_lock<R, E>(result: Result<R, E>, unlocked: Result<(), E>) -> (r: Result<R, E>)
    ensures
        match (result, unlocked) {
            (Ok(value), Ok(_)) => r == Ok::<R, E>(value),
            (Err(error), _) => r == Err::<R, E>(error),
            (Ok(_), Err(error)) => r == Err::<R, E>(error),
        },
{
    match (result, unlocked) {
        (Ok(value), Ok(_)) => Ok(value),
        (Err(error), _) => Err(error),
        (Ok(_), Err(error)) => Err(error),
    }
}

/// The names of files are plain: none is a path, none is hidden, and none reads as
/// an option.
pub proof fn auth_names_are_plain(name: Seq<char>)
    requires
        name_fault(name) == NameFault::Fine,
    ensures
        !name.contains('/'),
        name.len() > 0,
        name[0] != '.',
        name[0] != '-',
{
    if name.contains('/') {
        let i = choose|i: int| 0 <= i < name.len() && name[i] == '/';
        assert(!auth_name_char(name[i]));
    }
}

/// Two files of a store lie in different places, and so do their locks.
pub proof fn auth_files_lie_apart(a: Auth, b: Auth)
    requires
        a.dir == b.dir,
        name_fault(a.name) == NameFault::Fine,
        name_fault(b.name) == NameFault::Fine,
        a.path() == b.path() || a.lock_path() == b.lock_path(),
    ensures
        a.name == b.name,
{
    auth_names_are_plain(a.name);
    auth_names_are_plain(b.name);
    let dir = path_join(a.dir, "auth.d"@);
    if a.path() == b.path() {
        lemma_ends_alike(dir, a.name, b.name, ".json"@);
    } else {
        lemma_ends_alike(dir, a.name, b.name, ".lock"@);
    }
}

proof fn lemma_ends_alike(dir: Seq<char>, a: Seq<char>, b: Seq<char>, end: Seq<char>)
    requires
        path_join(dir, a + end) == path_join(dir, b + end),
        a.len() > 0,
        b.len() > 0,
        a[0] != '/',
        b[0] != '/',
    ensures
        a == b,
{
    let x = path_join(dir, a + end);
    let y = path_join(dir, b + end);
    assert((a + end)[0] == a[0]);
    assert((b + end)[0] == b[0]);
    let start = x.len() - a.len() - end.len();
    assert(x.len() == y.len());
    assert(a.len() == b.len());
    assert(a =~= x.subrange(start, start + a.len()));
    assert(b =~= y.subrange(start, start + b.len()));
}

} // verus!
