//! Models, their efforts, and what is remembered of them.
use tau::assoc::TextMap;
use tau::event::Effort;
use tau::models::{
    available_models, clamp_effort, context_percent_used, efforts_for_model, efforts_in_state, load_last_efforts,
    load_last_selected_model, middle_effort, model_context_window, parse_effort, save_harness_state,
    select_initial_model, selected_effort_for_model, ModelEntry, ModelRegistry, ProviderConfig,
};

fn registry() -> ModelRegistry {
    let mut providers = TextMap::new();
    for (name, supports_reasoning_effort, id, context_window) in
        [("local", false, "llama", None), ("openai", true, "gpt-4.1", Some(1000))]
    {
        providers.insert(
            name.to_owned(),
            ProviderConfig {
                supports_reasoning_effort,
                models: vec![ModelEntry { id: id.to_owned(), context_window }],
            },
        );
    }
    ModelRegistry { providers }
}

fn efforts(entries: &[(&str, Effort)]) -> TextMap<Effort> {
    let mut map = TextMap::new();
    for (model, effort) in entries {
        map.insert((*model).to_owned(), *effort);
    }
    map
}

#[test]
fn selected_effort_is_model_specific_and_clamped() {
    let defaults = efforts(&[("openai/gpt-4.1", Effort::High), ("local/llama", Effort::High)]);
    let last = load_last_efforts(
        r#"{
            "last_selected_model": "openai/gpt-4.1",
            "last_efforts": {
                "openai/gpt-4.1": "minimal",
                "local/llama": "high"
            }
        }"#,
    );
    let registry = registry();

    assert_eq!(selected_effort_for_model(&defaults, &last, &registry, "openai/gpt-4.1"), Effort::High);
    assert_eq!(selected_effort_for_model(&defaults, &last, &registry, "local/llama"), Effort::Off);
}

#[test]
fn fresh_install_picks_middle_effort_when_no_history() {
    let none = efforts(&[]);
    let registry = registry();

    assert_eq!(selected_effort_for_model(&none, &none, &registry, "openai/gpt-4.1"), Effort::Low);
    assert_eq!(selected_effort_for_model(&none, &none, &registry, "local/llama"), Effort::Off);
}

#[test]
fn the_last_effort_counts_without_a_default() {
    let last = load_last_efforts(r#"{ "last_efforts": { "openai/gpt-4.1": "minimal" } }"#);
    assert_eq!(selected_effort_for_model(&efforts(&[]), &last, &registry(), "openai/gpt-4.1"), Effort::Minimal);
    assert!(load_last_efforts("not json").entries.is_empty());
    assert!(efforts_in_state(None).entries.is_empty());
}

#[test]
fn what_is_remembered_is_read_again() {
    let mut last = efforts(&[("local/llama", Effort::Off)]);
    let text = save_harness_state(&mut last, "openai/gpt-4.1", Effort::High);
    assert_eq!(load_last_selected_model(&text).as_deref(), Some("openai/gpt-4.1"));
    let read = load_last_efforts(&text);
    assert_eq!(read.get("openai/gpt-4.1"), Some(&Effort::High));
    assert_eq!(read.get("local/llama"), Some(&Effort::Off));
    assert_eq!(load_last_selected_model("{}"), None);
}

#[test]
fn models_are_listed_and_chosen() {
    let registry = registry();
    let mut available = available_models(&registry);
    available.sort();
    assert_eq!(available, vec!["local/llama".to_owned(), "openai/gpt-4.1".to_owned()]);
    let local = Some("local/llama".to_owned());
    let gone = Some("openai/gone".to_owned());
    assert_eq!(select_initial_model(&available, &local, &None), "local/llama");
    assert_eq!(select_initial_model(&available, &gone, &local), "local/llama");
    assert_eq!(select_initial_model(&vec![], &local, &None), "");
    assert_eq!(model_context_window(&registry, "openai/gpt-4.1"), Some(1000));
    assert_eq!(model_context_window(&registry, "openai/gone"), None);
}

#[test]
fn efforts_are_clamped_to_what_is_offered() {
    let registry = registry();
    let offered = efforts_for_model(&registry, "openai/gpt-4.1");
    assert_eq!(clamp_effort(Effort::Medium, &offered), Effort::Medium);
    assert_eq!(clamp_effort(Effort::High, &vec![Effort::Off, Effort::Low]), Effort::Off);
    assert_eq!(clamp_effort(Effort::High, &vec![Effort::Minimal, Effort::Low]), Effort::Minimal);
    assert_eq!(middle_effort(&offered), Effort::Low);
    assert_eq!(parse_effort("xhigh"), Some(Effort::XHigh));
    assert_eq!(parse_effort("enormous"), None);
    assert_eq!(Effort::Minimal.as_str(), "minimal");
}

#[test]
fn usage_is_a_percentage() {
    assert_eq!(context_percent_used(250, 1000), 25);
    assert_eq!(context_percent_used(5000, 1000), 100);
    assert_eq!(context_percent_used(1, 0), 0);
}
