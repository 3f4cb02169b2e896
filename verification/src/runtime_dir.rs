//! The directory in which a running harness can be found.
//!
//! It holds the socket, the root of the project, the process id and the session.
//! The root is written after the socket is bound, so whoever finds it can connect.
use vstd::prelude::*;
use vstd::string::*;
use crate::paths::{equal_paths, join_path, path_join, same_path};
use crate::session::option_text;
use crate::text::{decimal, decimal_text, texts, trim, trimmed};

verus! {

/// The directory below which every running harness has its own.
pub open spec fn runtime_root(user_dir: Option<Seq<char>>, user: Option<Seq<char>>) -> Seq<char> {
    match user_dir {
        Some(dir) => path_join(dir, "tau"@),
        None => "/tmp/tau-"@ + (match user {
            Some(name) => name,
            None => "unknown"@,
        }),
    }
}

/// The directory below which every running harness has its own, given the user's
/// runtime directory and name.
pub fn root_runtime_dir(user_dir: Option<String>, user: Option<String>) -> (r: String)
    ensures
        r@ == runtime_root(option_text(user_dir), option_text(user)),
{
    match user_dir {
        Some(dir) => join_path(dir.as_str(), "tau"),
        None => {
            let mut r = "/tmp/tau-".to_owned();
            match user {
                Some(name) => r.append(name.as_str()),
                None => r.append("unknown"),
            }
            r
        },
    }
}

/// The socket in the directory of a harness.
#[must_use]
pub fn socket_path(daemon_dir: &str) -> (r: String)
    ensures
        r@ == path_join(daemon_dir@, "tau.sock"@),
{
    join_path(daemon_dir, "tau.sock")
}

/// The file with the session of a harness.
pub fn session_id_path(daemon_dir: &str) -> (r: String)
    ensures
        r@ == path_join(daemon_dir@, "tau.session_id"@),
{
    join_path(daemon_dir, "tau.session_id")
}

/// The file with the root of the project.
pub fn marker_path(daemon_dir: &str) -> (r: String)
    ensures
        r@ == path_join(daemon_dir@, "tau.dir"@),
{
    join_path(daemon_dir, "tau.dir")
}

/// The directory of one harness.
#[derive(Debug, PartialEq, Eq)]
pub struct DaemonDir {
    path: String,
    project_root: String,
}

impl DaemonDir {
    /// Where the directory lies.
    pub closed spec fn dir(&self) -> Seq<char> {
        self.path@
    }

    /// The root of the project.
    pub closed spec fn root(&self) -> Seq<char> {
        self.project_root@
    }

    /// Where the directory lies.
    #[must_use]
    pub fn path(&self) -> (r: &str)
        ensures
            r@ == self.dir(),
    {
        self.path.as_str()
    }

    /// The socket.
    #[must_use]
    pub fn socket_path(&self) -> (r: String)
        ensures
            r@ == path_join(self.dir(), "tau.sock"@),
    {
        socket_path(self.path.as_str())
    }

    /// The file that marks the project, and what it says.
    pub fn marker(&self) -> (r: (String, String))
        ensures
            r.0@ == path_join(self.dir(), "tau.dir"@),
            r.1@ == self.root(),
    {
        (marker_path(self.path.as_str()), self.project_root.clone())
    }

    /// The file with the process id, and what it says.
    pub fn pid_file(&self, pid: u32) -> (r: (String, String))
        ensures
            r.0@ == path_join(self.dir(), "tau.pid"@),
            r.1@ == decimal(pid as nat),
    {
        (join_path(self.path.as_str(), "tau.pid"), decimal_text(pid as u128))
    }

    /// The file with the session, and what it says.
    pub fn session_id_file(&self, session_id: &str) -> (r: (String, String))
        ensures
            r.0@ == path_join(self.dir(), "tau.session_id"@),
            r.1@ == session_id@,
    {
        (session_id_path(self.path.as_str()), session_id.to_owned())
    }
}

/// The directory of the harness that runs as process `pid`.
pub fn prepare_daemon_dir(runtime_root: &str, pid: u32, project_root: &str) -> (r: DaemonDir)
    ensures
        r.dir() == path_join(runtime_root@, decimal(pid as nat)),
        r.root() == project_root@,
{
    DaemonDir {
        path: join_path(runtime_root, decimal_text(pid as u128).as_str()),
        project_root: project_root.to_owned(),
    }
}

/// The session that a file names: its text without the whitespace around it.
pub open spec fn stored_session(text: Option<Seq<char>>) -> Option<Seq<char>> {
    match text {
        Some(t) => if trimmed(t).len() > 0 {
            Some(trimmed(t))
        } else {
            None
        },
        None => None,
    }
}

/// The session of a running harness, given the text of its file where that could
/// be read.
#[must_use]
pub fn read_session_id(text: Option<String>) -> (r: Option<String>)
    ensures
        option_text(r) == stored_session(option_text(text)),
{
    match text {
        Some(t) => {
            let id = trim(t.as_str());
            if id.as_str().is_empty() {
                None
            } else {
                Some(id)
            }
        },
        None => None,
    }
}

/// Whether two paths name the same place: by their canonical forms where both
/// have one, else as they stand.
pub open spec fn same_place(
    a: Seq<char>,
    b: Seq<char>,
    a_canonical: Option<Seq<char>>,
    b_canonical: Option<Seq<char>>,
) -> bool {
    match (a_canonical, b_canonical) {
        (Some(x), Some(y)) => same_path(x, y),
        _ => same_path(a, b),
    }
}

/// Whether two paths name the same place.
pub fn paths_equal(a: &str, b: &str, a_canonical: &Option<String>, b_canonical: &Option<String>) -> (r: bool)
    ensures
        r == same_place(a@, b@, option_text(*a_canonical), option_text(*b_canonical)),
{
    match (a_canonical, b_canonical) {
        (Some(x), Some(y)) => equal_paths(x.as_str(), y.as_str()),
        _ => equal_paths(a, b),
    }
}

/// The root that a marker names.
pub fn stored_root(marker: &str) -> (r: String)
    ensures
        r@ == trimmed(marker@),
{
    trim(marker)
}

/// What was found out about the directory of a harness.
#[derive(Debug, PartialEq, Eq)]
pub struct DaemonCandidate {
    pub dir: String,
    /// The text of its marker, where that could be read.
    pub marker: Option<String>,
    /// The canonical form of the root that the marker names.
    pub canonical: Option<String>,
    /// Whether its socket answers.
    pub running: bool,
}

/// Whether a directory belongs to a project.
pub open spec fn belongs(c: DaemonCandidate, root: Seq<char>, canonical: Option<Seq<char>>) -> bool {
    c.marker matches Some(text) && same_place(trimmed(text@), root, option_text(c.canonical), canonical)
}

/// The first of the candidates from `from` on that serves the project, and the
/// directories before it that are left over from harnesses that no longer run.
pub open spec fn found_harness(
    candidates: Seq<DaemonCandidate>,
    root: Seq<char>,
    canonical: Option<Seq<char>>,
    n: nat,
) -> (Option<Seq<char>>, Seq<Seq<char>>)
    decreases n,
{
    if n == 0 || n > candidates.len() {
        (None, Seq::empty())
    } else {
        let (found, stale) = found_harness(candidates, root, canonical, (n - 1) as nat);
        let c = candidates[n - 1];
        if found is Some || !belongs(c, root, canonical) {
            (found, stale)
        } else if c.running {
            (Some(c.dir@), stale)
        } else {
            (None, stale.push(c.dir@))
        }
    }
}

/// Finds the running harness of a project, and the directories to clear away. A
/// directory whose socket does not answer is left over.
#[must_use]
pub fn find_harness_for_dir(project_root: &str, canonical: &Option<String>, candidates: &Vec<DaemonCandidate>) -> (r: (
    Option<String>,
    Vec<String>,
))
    ensures
        (option_text(r.0), texts(r.1@)) == found_harness(
            candidates@,
            project_root@,
            option_text(*canonical),
            candidates@.len(),
        ),
{
    let mut found: Option<String> = None;
    let mut stale: Vec<String> = Vec::new();
    let mut i: usize = 0;
    assert(texts(stale@) =~= Seq::empty());
    while i < candidates.len()
        invariant
            i <= candidates.len(),
            (option_text(found), texts(stale@)) == found_harness(
                candidates@,
                project_root@,
                option_text(*canonical),
                i as nat,
            ),
        decreases candidates.len() - i,
    {
        let c = &candidates[i];
        let ghost before = texts(stale@);
        let ours = match &c.marker {
            Some(text) => {
                let root = stored_root(text.as_str());
                paths_equal(root.as_str(), project_root, &c.canonical, canonical)
            },
            None => false,
        };
        if found.is_none() && ours {
            if c.running {
                found = Some(c.dir.clone());
            } else {
                stale.push(c.dir.clone());
                assert(texts(stale@) =~= before.push(c.dir@));
            }
        }
        i += 1;
    }
    (found, stale)
}

/// The harness that is found runs and serves the project, and whatever is cleared
/// away does not run.
pub proof fn found_harness_runs(candidates: Seq<DaemonCandidate>, root: Seq<char>, canonical: Option<Seq<char>>, n: nat)
    requires
        n <= candidates.len(),
    ensures
        ({
            let (found, stale) = found_harness(candidates, root, canonical, n);
            &&& found matches Some(dir) ==> exists|i: int|
                0 <= i < n && (#[trigger] candidates[i]).dir@ == dir && candidates[i].running && belongs(
                    candidates[i],
                    root,
                    canonical,
                )
            &&& forall|k: int|
                0 <= k < stale.len() ==> exists|i: int|
                    0 <= i < n && (#[trigger] candidates[i]).dir@ == #[trigger] stale[k] && !candidates[i].running
                        && belongs(candidates[i], root, canonical)
        }),
    decreases n,
{
    if n > 0 {
        found_harness_runs(candidates, root, canonical, (n - 1) as nat);
        let (found, stale) = found_harness(candidates, root, canonical, (n - 1) as nat);
        let (found_now, stale_now) = found_harness(candidates, root, canonical, n);
        assert forall|k: int| 0 <= k < stale_now.len() implies exists|i: int|
            0 <= i < n && (#[trigger] candidates[i]).dir@ == #[trigger] stale_now[k] && !candidates[i].running && belongs(
                candidates[i],
                root,
                canonical,
            ) by {
            if k < stale.len() {
                assert(stale_now[k] == stale[k]);
            } else {
                assert(candidates[n - 1].dir@ == stale_now[k]);
            }
        }
    }
}

} // verus!
