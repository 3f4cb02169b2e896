//! Which extensions run, and how.
use tau::assoc::TextMap;
use tau::json::JsonValue;
use tau::settings::{
    apply_startup_role_override, builtin_extensions, default_config, merge_json, resolve_config, resolve_extensions,
    resolve_extensions_with_cli_overrides, resolve_extensions_with_cli_overrides_and_diagnostics, settings_fallback,
    BuiltinExtension, CoreMode, ExtensionCliOverride, ExtensionConfig, ExtensionEntry, HarnessSettings,
    ResolveExtensionsError, SettingsFailure, SettingsFallback,
};

fn object(entries: Vec<(&str, JsonValue)>) -> JsonValue {
    JsonValue::Object(entries.into_iter().map(|(key, value)| (key.to_owned(), value)).collect())
}

fn builtin(name: &str, suffix_arg: &str, role: &str, enable: bool, config: JsonValue) -> BuiltinExtension {
    BuiltinExtension {
        name: name.to_owned(),
        prefix: Vec::new(),
        command: vec!["tau".to_owned()],
        suffix: vec!["ext".to_owned(), suffix_arg.to_owned()],
        role: Some(role.to_owned()),
        cwd: None,
        enable,
        require: false,
        config,
        secrets: TextMap::new(),
    }
}

fn builtins() -> Vec<BuiltinExtension> {
    vec![
        builtin("provider-builtin", "ext-provider-builtin", "provider", true, object(vec![])),
        builtin("core-shell", "ext-shell", "tool", true, object(vec![])),
        builtin("test-dummy", "ext-test-dummy", "tool", false, object(vec![])),
        builtin(
            "std-notifications",
            "ext-std-notifications",
            "tool",
            true,
            object(vec![
                ("idle_seconds", JsonValue::Integer(60)),
                ("idle_agent_summary", JsonValue::Bool(false)),
            ]),
        ),
    ]
}

fn resolved(settings: &HarnessSettings) -> Vec<ExtensionConfig> {
    match resolve_extensions(settings, builtins()) {
        Ok(extensions) => extensions,
        Err(_) => panic!("resolve"),
    }
}

#[test]
fn resolve_extensions_returns_builtins_when_user_config_empty() {
    let s = HarnessSettings::built_in();
    let resolved = resolved(&s);
    assert_eq!(resolved.len(), 3);
    assert_eq!(resolved[0].name, "provider-builtin");
    assert_eq!(resolved[0].command, "tau");
    assert_eq!(resolved[0].args, vec!["ext", "ext-provider-builtin"]);
    assert_eq!(resolved[0].role.as_deref(), Some("provider"));
    assert_eq!(resolved[1].name, "core-shell");
    assert_eq!(resolved[2].name, "std-notifications");
}

#[test]
fn resolve_extensions_builtin_can_start_disabled() {
    let s = HarnessSettings::built_in();
    let resolved = resolved(&s);
    assert!(resolved.iter().all(|e| e.name != "test-dummy"));
}

#[test]
fn resolve_extensions_disable_drops_entry() {
    let mut s = HarnessSettings::built_in();
    s.extensions.insert(
        "core-shell".to_owned(),
        ExtensionEntry {
            enable: Some(false),
            ..ExtensionEntry::new()
        },
    );
    let resolved = resolved(&s);
    assert_eq!(resolved.len(), 2);
    assert_eq!(resolved[0].name, "provider-builtin");
    assert_eq!(resolved[1].name, "std-notifications");
}

#[test]
fn resolve_extensions_prefix_wraps_builtin_command() {
    let mut s = HarnessSettings::built_in();
    s.extensions.insert(
        "provider-builtin".to_owned(),
        ExtensionEntry {
            prefix: Some(vec!["ssh".to_owned(), "user@host".to_owned()]),
            ..ExtensionEntry::new()
        },
    );
    let resolved = resolved(&s);
    let provider = resolved
        .iter()
        .find(|e| e.name == "provider-builtin")
        .expect("provider");
    // argv[0] is the wrapper; original command moves into args.
    assert_eq!(provider.command, "ssh");
    assert_eq!(
        provider.args,
        vec!["user@host", "tau", "ext", "ext-provider-builtin"]
    );
}

#[test]
fn resolve_extensions_user_command_replaces_builtin_command() {
    let mut s = HarnessSettings::built_in();
    s.extensions.insert(
        "provider-builtin".to_owned(),
        ExtensionEntry {
            command: Some(vec!["/usr/local/bin/my-provider".to_owned(), "--flag".to_owned()]),
            ..ExtensionEntry::new()
        },
    );
    let resolved = resolved(&s);
    let provider = resolved
        .iter()
        .find(|e| e.name == "provider-builtin")
        .expect("provider");
    assert_eq!(provider.command, "/usr/local/bin/my-provider");
    assert_eq!(provider.args, vec!["--flag"]);
    // Role is preserved from the built-in default.
    assert_eq!(provider.role.as_deref(), Some("provider"));
}

#[test]
fn resolve_extensions_adds_user_extension_keys() {
    let mut s = HarnessSettings::built_in();
    s.extensions.insert(
        "mything".to_owned(),
        ExtensionEntry {
            command: Some(vec!["/usr/local/bin/mything".to_owned()]),
            ..ExtensionEntry::new()
        },
    );
    let resolved = resolved(&s);
    assert_eq!(resolved.len(), 4);
    let mything = resolved
        .iter()
        .find(|e| e.name == "mything")
        .expect("mything");
    assert_eq!(mything.command, "/usr/local/bin/mything");
    assert!(mything.role.is_none());
}

#[test]
fn resolve_extensions_empty_entry_does_not_re_enable_disabled_builtin() {
    // Absent fields mean "no override".
    let mut s = HarnessSettings::built_in();
    s.extensions
        .insert("test-dummy".to_owned(), ExtensionEntry::new());
    let resolved = resolved(&s);
    assert!(resolved.iter().all(|e| e.name != "test-dummy"));
}

#[test]
fn resolve_extensions_user_extension_without_command_errors() {
    let mut s = HarnessSettings::built_in();
    s.extensions.insert(
        "broken".to_owned(),
        ExtensionEntry::new(),
    );
    match resolve_extensions(&s, builtins()) {
        Err(ResolveExtensionsError::EmptyCommand(name)) => assert_eq!(name, "broken"),
        _ => panic!("must err"),
    }
}

#[test]
fn resolve_extensions_loads_from_yaml() {
    let mut s = HarnessSettings::built_in();
    let entries = vec![
        ("core-shell", ExtensionEntry { enable: Some(false), ..ExtensionEntry::new() }),
        ("test-dummy", ExtensionEntry { enable: Some(true), ..ExtensionEntry::new() }),
        (
            "provider-builtin",
            ExtensionEntry { prefix: Some(vec!["ssh".to_owned(), "host".to_owned()]), ..ExtensionEntry::new() },
        ),
        ("mything", ExtensionEntry { command: Some(vec!["/bin/foo".to_owned()]), ..ExtensionEntry::new() }),
    ];
    for (name, entry) in entries {
        s.extensions.insert(name.to_owned(), entry);
    }
    let resolved = resolved(&s);
    let names: Vec<&str> = resolved.iter().map(|e| e.name.as_str()).collect();
    assert_eq!(names, vec!["provider-builtin", "test-dummy", "std-notifications", "mything"]);
    let provider = &resolved[0];
    assert_eq!(provider.command, "ssh");
    assert_eq!(provider.args, vec!["host", "tau", "ext", "ext-provider-builtin"]);
}

#[test]
fn the_command_line_has_the_last_word() {
    let s = HarnessSettings::built_in();
    let overrides = vec![ExtensionCliOverride::DisableAll, ExtensionCliOverride::Enable("test-dummy".to_owned())];
    match resolve_extensions_with_cli_overrides(&s, builtins(), &overrides) {
        Ok(extensions) => {
            let names: Vec<&str> = extensions.iter().map(|e| e.name.as_str()).collect();
            assert_eq!(names, vec!["test-dummy"]);
        },
        Err(_) => panic!("resolve"),
    }
    let overrides = vec![ExtensionCliOverride::Disable("nobody".to_owned())];
    match resolve_extensions_with_cli_overrides_and_diagnostics(&s, builtins(), &overrides) {
        Err(error) => {
            assert_eq!(error, ResolveExtensionsError::UnknownCliOverride("nobody".to_owned()));
            assert!(error.text().contains("nobody"));
        },
        Ok(_) => panic!("must err"),
    }
}

#[test]
fn configuration_is_laid_over_the_built_in_one() {
    let base = object(vec![("a", JsonValue::Integer(1)), ("b", object(vec![("c", JsonValue::Integer(2))]))]);
    let over = object(vec![("b", object(vec![("d", JsonValue::Integer(3))])), ("a", JsonValue::Integer(9))]);
    assert_eq!(
        merge_json(&base, &over),
        object(vec![
            ("a", JsonValue::Integer(9)),
            ("b", object(vec![("d", JsonValue::Integer(3))])),
        ])
    );
    assert_eq!(merge_json(&base, &JsonValue::Null), base);

    let mut s = HarnessSettings::built_in();
    s.extensions.insert(
        "std-notifications".to_owned(),
        ExtensionEntry { config: Some(object(vec![("idle_seconds", JsonValue::Integer(5))])), ..ExtensionEntry::new() },
    );
    let resolved = resolved(&s);
    assert_eq!(
        resolved[2].config,
        object(vec![("idle_seconds", JsonValue::Integer(5)), ("idle_agent_summary", JsonValue::Bool(false))])
    );
}

#[test]
fn without_settings_the_built_in_extensions_run() {
    let config = default_config("/usr/bin/tau");
    assert!(config.core.mode == CoreMode::Embedded);
    assert!(!config.extensions.is_empty());
    assert!(config.extensions.iter().all(|e| e.command == "/usr/bin/tau"));
    assert!(builtin_extensions("/usr/bin/tau").len() >= config.extensions.len());
    match resolve_config(&HarnessSettings::built_in(), builtins(), &vec![]) {
        Ok(config) => assert_eq!(config.extensions.len(), 3),
        Err(_) => panic!("resolve"),
    }
}

#[test]
fn startup_roles_and_fallbacks() {
    let s = apply_startup_role_override(HarnessSettings::built_in(), Some("writer".to_owned()));
    assert_eq!(s.default_role.as_deref(), Some("writer"));
    let kept = apply_startup_role_override(s, None);
    assert_eq!(kept.default_role.as_deref(), Some("writer"));

    assert_eq!(settings_fallback(SettingsFailure::UnknownRole, false), SettingsFallback::Fail);
    assert_eq!(settings_fallback(SettingsFailure::Unreadable, true), SettingsFallback::RetryWithoutFile);
    assert_eq!(settings_fallback(SettingsFailure::Unreadable, false), SettingsFallback::UseBuiltIn);
}

#[test]
fn an_empty_entry_resolves_like_none() {
    let plain = HarnessSettings::built_in();
    for builtin in builtins() {
        let mut with_entry = HarnessSettings::built_in();
        with_entry.extensions.insert(builtin.name.clone(), ExtensionEntry::new());
        let without = resolve_extensions(&plain, builtins()).expect("resolved");
        let with = resolve_extensions(&with_entry, builtins()).expect("resolved");
        assert_eq!(with.len(), without.len());
        for (a, b) in with.iter().zip(without.iter()) {
            assert_eq!((&a.name, &a.command, &a.args), (&b.name, &b.command, &b.args));
        }
    }
}
