//! Secrets for extensions.
use tau::assoc::TextMap;
use tau::json::JsonValue;
use tau::messages::SecretValue;
use tau::secrets::{
    is_valid_secret_name, load_secret_sources, resolve_extension_secrets, resolve_one_secret, secret_file_path,
    SecretFile, SecretFiles, SecretSources, SecretsError,
};
use tau::settings::{Config, CoreConfig, ExtensionConfig, ExtensionSecretEntry};

fn sources(vars: &[(&str, &str)]) -> (Vec<String>, Result<SecretSources, SecretsError>) {
    load_secret_sources(&vars.iter().map(|(name, value)| ((*name).to_owned(), (*value).to_owned())).collect())
}

fn loaded(vars: &[(&str, &str)]) -> SecretSources {
    match sources(vars).1 {
        Ok(sources) => sources,
        Err(_) => panic!("load"),
    }
}

fn extension(require: bool) -> ExtensionConfig {
    let mut secrets = TextMap::new();
    secrets.insert("api_key".to_owned(), ExtensionSecretEntry { optional: false });
    ExtensionConfig {
        name: "mail".to_owned(),
        command: "mail".to_owned(),
        args: vec![],
        role: None,
        require,
        cwd: None,
        config: JsonValue::Null,
        secrets,
    }
}

fn config(extensions: Vec<ExtensionConfig>) -> Config {
    Config { core: CoreConfig::default(), extensions, extension_startup_diagnostics: vec![] }
}

#[test]
fn secrets_come_from_the_environment_first() {
    let (taken, _) = sources(&[("TAU_SECRET_API_KEY", "v"), ("HOME", "/home/u")]);
    assert_eq!(taken, vec!["TAU_SECRET_API_KEY".to_owned()]);
    let entry = ExtensionSecretEntry { optional: false };
    let file = SecretFile::Text("from file\n".to_owned());
    let env = loaded(&[("TAU_SECRET_API_KEY", "from env")]);
    let from_env = resolve_one_secret("/state", &env, "mail", "api_key", &entry, &file);
    assert!(matches!(from_env, Ok(Some(value)) if value.expose_secret() == "from env"));
    let from_file = resolve_one_secret("/state", &loaded(&[]), "mail", "api_key", &entry, &file);
    assert!(matches!(from_file, Ok(Some(value)) if value.expose_secret() == "from file"));
    assert!(secret_file_path("/state", "api_key").starts_with("/state/"));
}

#[test]
fn what_is_missing_is_an_error_unless_optional() {
    let env = loaded(&[]);
    let needed = ExtensionSecretEntry { optional: false };
    let optional = ExtensionSecretEntry { optional: true };
    let missing = resolve_one_secret("/state", &env, "mail", "api_key", &needed, &SecretFile::Missing);
    assert!(matches!(missing, Err(SecretsError::MissingRequired { .. })));
    let left_out = resolve_one_secret("/state", &env, "mail", "api_key", &optional, &SecretFile::Missing);
    assert!(matches!(left_out, Ok(None)));
    let binary = resolve_one_secret("/state", &env, "mail", "api_key", &needed, &SecretFile::NotText);
    assert!(matches!(binary, Err(SecretsError::InvalidUtf8 { .. })));
    let failed = resolve_one_secret("/state", &env, "mail", "api_key", &needed, &SecretFile::Failed("denied".to_owned()));
    assert!(matches!(&failed, Err(SecretsError::Io { error, .. }) if error == "denied"));
    let bad = resolve_one_secret("/state", &env, "mail", "Bad Name", &needed, &SecretFile::Missing);
    assert!(matches!(bad, Err(SecretsError::InvalidName { .. })));
    for error in [missing.err(), binary.err(), failed.err(), bad.err()] {
        assert!(!error.expect("an error").text().is_empty());
    }
}

#[test]
fn one_secret_has_one_variable() {
    let clash = sources(&[("TAU_SECRET_API_KEY", "a"), ("TAU_SECRET_api_key", "b")]).1;
    assert!(matches!(clash, Err(SecretsError::EnvCollision { .. })));
    assert!(is_valid_secret_name("api_key"));
    assert!(!is_valid_secret_name("API KEY"));
    assert!(!is_valid_secret_name(""));
}

#[test]
fn optional_extensions_are_passed_over() {
    let files = SecretFiles { files: vec![] };
    match resolve_extension_secrets(&config(vec![extension(false)]), "/state", &loaded(&[]), &files) {
        Ok(resolved) => {
            assert_eq!(resolved.skipped_extensions, vec!["mail".to_owned()]);
            assert_eq!(resolved.diagnostics.len(), 1);
        },
        Err(_) => panic!("resolve"),
    }
    assert!(resolve_extension_secrets(&config(vec![extension(true)]), "/state", &loaded(&[]), &files).is_err());
    let env = loaded(&[("TAU_SECRET_API_KEY", "v")]);
    match resolve_extension_secrets(&config(vec![extension(true)]), "/state", &env, &files) {
        Ok(resolved) => assert_eq!(resolved.secrets[0].1[0].1.expose_secret(), "v"),
        Err(_) => panic!("resolve"),
    }
}

#[test]
fn secrets_do_not_show() {
    let value = SecretValue::new("hunter2".to_owned());
    assert!(!value.redacted().contains("hunter2"));
    assert_eq!(value.expose_secret(), "hunter2");
}
