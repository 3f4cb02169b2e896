//! Where credentials lie.
use tau::provider_store::{under_lock, validate_auth_file_name, AuthFile, ProviderStore, StoreError};

#[test]
fn names_of_credentials_are_plain() {
    assert_eq!(validate_auth_file_name("openai-work_2"), Ok(()));
    assert_eq!(validate_auth_file_name(""), Err(StoreError::EmptyName));
    assert!(matches!(validate_auth_file_name("-x"), Err(StoreError::BadStart(_))));
    assert!(matches!(validate_auth_file_name("a/b"), Err(StoreError::BadCharacter(_))));
    assert!(matches!(validate_auth_file_name("../a"), Err(StoreError::BadStart(_))));
}

#[test]
fn credentials_lie_in_their_own_directory() {
    let store = ProviderStore::open_in("/state".to_owned());
    let dir = store.auth_dir();
    let file = store.auth_file("openai".to_owned()).expect("name");
    assert_eq!(file.name(), "openai");
    assert!(file.path().starts_with(&dir));
    assert!(file.lock_path().starts_with(&dir));
    assert_ne!(file.path(), file.lock_path());
    assert!(AuthFile::new(ProviderStore::open_in("/state".to_owned()), String::new()).is_err());
}

#[test]
fn the_state_directory_comes_first() {
    let both = ProviderStore::open_default(Some("/state"), Some("/data")).expect("state");
    let data = ProviderStore::open_default(None, Some("/data")).expect("data");
    assert!(both.auth_dir().starts_with("/state/"));
    assert!(data.auth_dir().starts_with("/data/"));
    let error = ProviderStore::open_default(None, None).expect_err("neither");
    assert_eq!(error, StoreError::NoDataDirectory);
    assert!(!error.text().is_empty());
}

#[test]
fn the_first_failure_counts() {
    assert_eq!(under_lock::<u8, u8>(Ok(1), Ok(())), Ok(1));
    assert_eq!(under_lock::<u8, u8>(Ok(1), Err(2)), Err(2));
    assert_eq!(under_lock::<u8, u8>(Err(3), Err(2)), Err(3));
}
