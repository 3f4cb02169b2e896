//! Setting providers up.
use tau::assoc::TextMap;
use tau::json::{as_array, as_str, at, field, JsonValue};
use tau::provider_cli::{
    auth_to_provider_kind, build_provider_entry, check_login_state, credentials_of, delete_provider, insert_provider, is_oauth_auth,
    list_models, list_providers, oauth_names, parse_subcommand, plan_login, provider_entry_text, provider_names,
    pruned_models_text, removal_lines, symlink_target_or_path, temporary_sibling, unknown_subcommand, updated_models_text,
    Credentials, LoginPlan, ProviderKind, ProviderSettings, ProviderSetup, SetupAnswer, Subcommand,
};

fn words(words: &[&str]) -> Vec<String> {
    words.iter().map(|word| (*word).to_owned()).collect()
}

fn object(entries: Vec<(&str, JsonValue)>) -> JsonValue {
    JsonValue::Object(entries.into_iter().map(|(key, value)| (key.to_owned(), value)).collect())
}

fn text(s: &str) -> JsonValue {
    JsonValue::Text(s.to_owned())
}

fn openai_entry() -> JsonValue {
    object(vec![
        ("auth", text("api-key")),
        ("api", text("openai-chat")),
        ("models", JsonValue::Array(vec![])),
    ])
}

fn settings(auth: &str, models: &[&str]) -> ProviderSettings {
    ProviderSettings {
        auth: Some(auth.to_owned()),
        api_key: None,
        api: Some("openai-chat".to_owned()),
        models: words(models),
    }
}

#[test]
fn ollama_provider_entry_enables_llama_cpp_cache_compat() {
    let entry = build_provider_entry(ProviderKind::Ollama, &vec![]);

    assert_eq!(at(field(&entry, "compat"), "supportsLlamaCppCache"), Some(&JsonValue::Bool(true)));
}

#[test]
fn tests_write_provider_to_models_json5_preserves_symlink() {
    let destination = symlink_target_or_path("/config/models.json5", Some("/store/target.json5"));
    assert_eq!(destination, "/store/target.json5");
    assert_eq!(symlink_target_or_path("/config/models.json5", Some("target.json5")), "/config/target.json5");
    assert_eq!(symlink_target_or_path("/config/models.json5", None), "/config/models.json5");
    let temporary = temporary_sibling(&destination, 7);
    assert!(temporary.starts_with("/store/"));
    assert_ne!(temporary, destination);
    assert_eq!(temporary, "/store/.target.json5.0000000000000007.tmp");
    assert_eq!(temporary_sibling("/store/..", 7), "/store/../.models.json5.0000000000000007.tmp");

    let updated = updated_models_text(Some("{ providers: {} }"), "openai", openai_entry()).expect("write provider");
    assert!(updated.contains("openai"));
}

#[test]
fn models_are_added_to_what_is_there() {
    let first = updated_models_text(None, "one", openai_entry()).expect("first");
    let second = updated_models_text(Some(&first), "two", openai_entry()).expect("second");
    assert!(second.contains("\"one\"") && second.contains("\"two\""));
    let pruned = pruned_models_text(&second, "one").expect("readable").expect("found");
    assert!(!pruned.contains("\"one\"") && pruned.contains("\"two\""));
    assert_eq!(pruned_models_text(&second, "three"), Ok(None));
    assert!(updated_models_text(Some("{ oops"), "one", openai_entry()).is_err());
    assert!(pruned_models_text("{ oops", "one").is_err());
}

#[test]
fn added_providers_are_found_and_removed_ones_gone() {
    let root = insert_provider(object(vec![]), "openai", openai_entry()).expect("insert");
    assert_eq!(as_str(at(at(field(&root, "providers"), "openai"), "auth")), Some("api-key"));
    let left = delete_provider(root, "openai").expect("delete");
    assert!(at(field(&left, "providers"), "openai").is_none());
    assert!(delete_provider(left, "openai").is_none());
    assert!(insert_provider(JsonValue::Integer(1), "openai", openai_entry()).is_err());
}

#[test]
fn words_are_commands() {
    assert_eq!(parse_subcommand(&words(&["add"])), Subcommand::Add);
    assert_eq!(parse_subcommand(&words(&["remove", "x"])), Subcommand::Remove(Some("x".to_owned())));
    assert_eq!(parse_subcommand(&words(&["login"])), Subcommand::Login(None));
    assert_eq!(parse_subcommand(&words(&["list"])), Subcommand::List);
    assert_eq!(parse_subcommand(&words(&["list-models", "x"])), Subcommand::ListModels(Some("x".to_owned())));
    assert_eq!(parse_subcommand(&words(&["dance"])), Subcommand::Unknown("dance".to_owned()));
    assert!(unknown_subcommand("dance").contains("dance"));
}

#[test]
fn kinds_have_names_and_setups() {
    assert_eq!(ProviderKind::all().len(), 5);
    assert_eq!(ProviderKind::Ollama.default_name(), "local");
    assert_eq!(ProviderKind::Openai.setup(), ProviderSetup::ApiKey);
    assert_eq!(ProviderKind::GithubCopilot.setup(), ProviderSetup::GithubLogin);
    assert_eq!(auth_to_provider_kind("openai-codex"), Ok(ProviderKind::OpenaiCodex));
    assert_eq!(auth_to_provider_kind("magic"), Err("unknown auth type: magic".to_owned()));
    assert!(is_oauth_auth(Some("github-copilot")));
    assert!(!is_oauth_auth(Some("api-key")));
    assert!(!is_oauth_auth(None));
}

#[test]
fn entries_name_their_models() {
    let known = words(&["large", "small"]);
    let entry = build_provider_entry(ProviderKind::GithubCopilot, &known);
    let ids: Vec<Option<&str>> =
        as_array(field(&entry, "models")).expect("models").iter().map(|m| as_str(field(m, "id"))).collect();
    assert_eq!(ids, vec![Some("large"), Some("small"), Some("gpt-5.5"), Some("gemini-3-pro")]);
    let pasted = provider_entry_text("p", &object(vec![("a", JsonValue::Integer(1))]));
    assert_eq!(pasted, "\"p\": {\n  \"a\": 1\n}");
}

#[test]
fn providers_are_listed_by_name() {
    let mut models = TextMap::new();
    models.insert("zeta".to_owned(), settings("openai-codex", &["m1", "m2"]));
    models.insert("alpha".to_owned(), settings("none", &[]));
    let mut store = TextMap::new();
    store.insert(
        "zeta".to_owned(),
        Credentials::Oauth {
            provider_kind: ProviderKind::OpenaiCodex,
            access_token: "a".to_owned(),
            refresh_token: "r".to_owned(),
            expires_at_ms: 5,
            account_id: None,
        },
    );
    store.insert(
        "middle".to_owned(),
        Credentials::ApiKey { provider_kind: ProviderKind::Openai, api_key: "k".to_owned() },
    );
    assert_eq!(provider_names(&models, &store), words(&["alpha", "middle", "zeta"]));
    let early = list_providers(&models, &store, 4).expect("rows");
    let late = list_providers(&models, &store, 6).expect("rows");
    assert_eq!(early[2].name, "zeta");
    assert_eq!(early[2].model_count, 2);
    assert_ne!(early[2].auth_status, late[2].auth_status);
    assert!(list_providers(&TextMap::new(), &TextMap::new(), 0).is_none());
}

#[test]
fn logins_are_for_providers_that_log_in() {
    let mut models = TextMap::new();
    models.insert("codex".to_owned(), settings("openai-codex", &["m1"]));
    models.insert("plain".to_owned(), settings("api-key", &[]));
    assert_eq!(oauth_names(&models), words(&["codex"]));
    assert_eq!(plan_login(&models, "codex"), Ok(LoginPlan::Login(ProviderKind::OpenaiCodex)));
    assert!(matches!(plan_login(&models, "plain"), Ok(LoginPlan::NotOauth(_))));
    assert!(plan_login(&models, "nobody").is_err());
    assert_eq!(list_models(&models, "codex"), Ok(words(&["m1"])));
    assert!(list_models(&models, "nobody").is_err());
    assert!(check_login_state("abc", "abc").is_ok());
    assert!(check_login_state("abc", "abd").is_err());
}

#[test]
fn answers_become_credentials() {
    let url = credentials_of(ProviderKind::Ollama, SetupAnswer::BaseUrl("http://localhost:11434".to_owned()));
    assert!(matches!(url, Credentials::Unkeyed { base_url: Some(url), .. } if url == "http://localhost:11434"));
    let key = credentials_of(ProviderKind::Anthropic, SetupAnswer::ApiKey("k".to_owned()));
    assert_eq!(
        key,
        Credentials::ApiKey { provider_kind: ProviderKind::Anthropic, api_key: "k".to_owned() }
    );
}

#[test]
fn removals_are_reported() {
    assert_eq!(
        removal_lines("x", true, true),
        words(&["Removed credentials for 'x' from auth.json.", "Removed 'x' from models.json5."])
    );
    assert_eq!(removal_lines("x", false, false), words(&["Provider 'x' not found."]));
}
