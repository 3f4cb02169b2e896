//! What extensions may keep.
use tau::extension_data::{
    ancestor_paths, checked_extension_data_path, deletion_done, ensure_append_within_limit, ensure_file,
    ensure_file_len_within_limit, ensure_listable, ensure_rename, ensure_request_contents_within_limit,
    extension_data_temp_path, list_extension_data_entries, plan_write, reject_symlink_ancestors,
    sanitize_extension_data_path, ExtensionDataError, ExtensionDataErrorKind, Found, IoFailure, ListedEntry,
    MAX_EXTENSION_DATA_FILE_BYTES, MAX_EXTENSION_DATA_LIST_ENTRIES,
};

#[test]
fn read_file_rejects_files_larger_than_extension_data_limit() {
    let err = ensure_file_len_within_limit("too-large.bin", MAX_EXTENSION_DATA_FILE_BYTES + 1)
        .expect_err("oversized read must fail");

    assert_eq!(err.kind, ExtensionDataErrorKind::QuotaExceeded);
    assert!(ensure_file_len_within_limit("full.bin", MAX_EXTENSION_DATA_FILE_BYTES).is_ok());
}

#[test]
fn write_file_rejects_payloads_larger_than_extension_data_limit() {
    let err = plan_write("too-large.bin", MAX_EXTENSION_DATA_FILE_BYTES + 1).expect_err("oversized write must fail");

    assert_eq!(err.kind, ExtensionDataErrorKind::QuotaExceeded);
    assert_eq!(plan_write("a/./fits.bin", MAX_EXTENSION_DATA_FILE_BYTES), Ok("a/fits.bin".to_owned()));
}

#[test]
fn create_file_rejects_payloads_larger_than_extension_data_limit() {
    let err = ensure_request_contents_within_limit(MAX_EXTENSION_DATA_FILE_BYTES + 1)
        .expect_err("oversized create must fail");

    assert_eq!(err.kind, ExtensionDataErrorKind::QuotaExceeded);
}

#[test]
fn append_file_rejects_growth_beyond_extension_data_limit() {
    let err = ensure_append_within_limit("nearly-full.bin", Some(MAX_EXTENSION_DATA_FILE_BYTES), 1)
        .expect_err("append beyond quota must fail");

    assert_eq!(err.kind, ExtensionDataErrorKind::QuotaExceeded);
    assert!(ensure_append_within_limit("new.bin", None, 1).is_ok());
}

#[test]
fn list_files_rejects_directories_larger_than_extension_data_limit() {
    let entries: Vec<ListedEntry> = (0..=MAX_EXTENSION_DATA_LIST_ENTRIES)
        .map(|index| ListedEntry { path: format!("entry-{index}"), found: Found::File, len: 0 })
        .collect();

    let err = list_extension_data_entries("", &entries).err().expect("oversized list must fail");

    assert_eq!(err.kind, ExtensionDataErrorKind::QuotaExceeded);
}

#[test]
fn paths_stay_below_the_root() {
    assert_eq!(sanitize_extension_data_path("a/b.txt", false), Ok("a/b.txt".to_owned()));
    for path in ["/etc/passwd", "../x", "a/../../x", ""] {
        let err = sanitize_extension_data_path(path, false).expect_err("must fail");
        assert_eq!(err.kind, ExtensionDataErrorKind::InvalidPath);
    }
    assert_eq!(sanitize_extension_data_path("", true), Ok(String::new()));
}

#[test]
fn links_lead_nowhere() {
    let paths = ancestor_paths("/data", "a/b/c.txt");
    assert_eq!(paths, vec!["/data/a".to_owned(), "/data/a/b".to_owned()]);
    assert!(reject_symlink_ancestors("a/b/c.txt", &paths, &vec![Found::Dir, Found::Dir]).is_ok());
    let err = reject_symlink_ancestors("a/b/c.txt", &paths, &vec![Found::Dir, Found::Symlink]).expect_err("link");
    assert_eq!(err.kind, ExtensionDataErrorKind::InvalidPath);
    let checked =
        checked_extension_data_path("/data", "a/b/c.txt", &Found::Dir, &vec![Found::Dir, Found::Dir], &Found::File, false);
    assert_eq!(checked, Ok("/data/a/b/c.txt".to_owned()));
    let gone = Found::Failed { failure: IoFailure::NotFound, error: "gone".to_owned() };
    let below =
        checked_extension_data_path("/data", "a/b/c.txt", &Found::Dir, &vec![gone, Found::Symlink], &Found::File, false);
    assert_eq!(below, Ok("/data/a/b/c.txt".to_owned()));
}

#[test]
fn files_are_files_and_directories_are_listed() {
    assert!(ensure_file("a", &Found::File, false).is_ok());
    assert_eq!(ensure_file("a", &Found::Dir, false).expect_err("dir").kind, ExtensionDataErrorKind::NotFile);
    assert!(ensure_listable("a", &Found::Dir).is_ok());
    assert_eq!(ensure_listable("a", &Found::File).expect_err("file").kind, ExtensionDataErrorKind::NotDir);
    let missing = Found::Failed { failure: IoFailure::NotFound, error: "gone".to_owned() };
    assert!(ensure_rename("a", &Found::File, "b", &missing).is_ok());
    assert_eq!(
        ensure_rename("a", &Found::File, "b", &Found::Dir).expect_err("dir").kind,
        ExtensionDataErrorKind::AlreadyExists
    );
    assert!(deletion_done(IoFailure::NotFound));
    assert!(!deletion_done(IoFailure::Other));
}

#[test]
fn failures_have_kinds() {
    for (failure, kind) in [
        (IoFailure::NotFound, ExtensionDataErrorKind::NotFound),
        (IoFailure::AlreadyExists, ExtensionDataErrorKind::AlreadyExists),
        (IoFailure::PermissionDenied, ExtensionDataErrorKind::Permission),
        (IoFailure::Other, ExtensionDataErrorKind::Io),
    ] {
        let error = ExtensionDataError::io("read a".to_owned(), failure, "because");
        assert_eq!(error.kind, kind);
        assert!(error.message.contains("because"));
    }
    assert_eq!(extension_data_temp_path("/data/a.txt", 12, 7), "/data/.a.txt.tmp-12-7");
    assert_eq!(extension_data_temp_path("/", 12, 7), "./.file.tmp-12-7");
    assert_eq!(extension_data_temp_path("/data/..", 12, 7), "/data/.file.tmp-12-7");
}
