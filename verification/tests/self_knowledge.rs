//! What the assistant can read about itself.
use tau::self_knowledge::{
    fill_config_template, render_self_knowledge_config_content, render_self_knowledge_pim_content,
};

#[test]
fn render_self_knowledge_config_content_inserts_config_defaults() {
    let rendered = render_self_knowledge_config_content();

    assert!(!rendered.contains("{harness_config}"));
    assert!(!rendered.contains("{ui_config}"));
    assert!(rendered.contains("${XDG_RUNTIME_DIR}/tau/<pid>/"));
    assert!(rendered.contains("session_retention_days: 60"));
    assert!(rendered.contains("show_thinking: true"));
}

#[test]
fn render_self_knowledge_pim_content_inserts_config_defaults() {
    let rendered = render_self_knowledge_pim_content();

    assert!(!rendered.contains("{pim_config}"));
    assert!(rendered.contains("std-pim:"));
    assert!(rendered.contains("calendar:"));
}

#[test]
fn templates_are_filled_everywhere() {
    let filled = fill_config_template("a {harness_config} b {ui_config} c {harness_config}", "H", "U");
    assert_eq!(filled, "a H b U c H");
}
