//! Finding a harness that is already running.
use tau::runtime_dir::{
    find_harness_for_dir, marker_path, paths_equal, prepare_daemon_dir, read_session_id, root_runtime_dir,
    session_id_path, socket_path, stored_root, DaemonCandidate,
};

fn candidate(dir: &str, root: &str, running: bool) -> DaemonCandidate {
    DaemonCandidate { dir: dir.to_owned(), marker: Some(format!("{root}\n")), canonical: None, running }
}

#[test]
fn the_running_harness_of_the_project_is_found() {
    let candidates =
        vec![candidate("/run/tau/1", "/other", true), candidate("/run/tau/2", "/work", false), candidate("/run/tau/3", "/work", true)];
    let (found, stale) = find_harness_for_dir("/work", &None, &candidates);
    assert_eq!(found.as_deref(), Some("/run/tau/3"));
    assert!(stale.contains(&"/run/tau/2".to_owned()));
    assert!(!stale.contains(&"/run/tau/1".to_owned()));
    assert_eq!(find_harness_for_dir("/nowhere", &None, &candidates).0, None);
}

#[test]
fn directories_hold_their_files() {
    let dir = prepare_daemon_dir("/run/tau", 12, "/work");
    assert!(dir.path().starts_with("/run/tau/"));
    assert_eq!(dir.socket_path(), socket_path(dir.path()));
    let (marker, text) = dir.marker();
    assert_eq!(marker, marker_path(dir.path()));
    assert_eq!(stored_root(&text), "/work");
    assert!(dir.pid_file(12).1.contains("12"));
    let (path, text) = dir.session_id_file("s-1");
    assert_eq!(path, session_id_path(dir.path()));
    assert_eq!(read_session_id(Some(text)).as_deref(), Some("s-1"));
    assert_eq!(read_session_id(None), None);
}

#[test]
fn roots_are_compared_as_paths() {
    assert!(paths_equal("/work/./a", "/work/a", &None, &None));
    assert!(!paths_equal("/work/a", "/work/b", &None, &None));
    let real = Some("/real".to_owned());
    assert!(paths_equal("/link", "/real", &real, &real));
    assert_eq!(root_runtime_dir(Some("/run/user/1".to_owned()), None), "/run/user/1/tau");
    assert!(root_runtime_dir(None, Some("ann".to_owned())).contains("ann"));
}
