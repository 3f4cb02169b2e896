//! What the program tells an agent about its own configuration.
use vstd::prelude::*;
use vstd::string::*;
use crate::text::{replace, replaced};

verus! {

/// The settings of the harness as they are where nothing is configured.
pub const HARNESS_CONFIG_DEFAULTS: &'static str = "# harness.yaml\nsession_retention_days: 60\nextensions: {}\n";

/// The settings of the user interface as they are where nothing is configured.
pub const UI_CONFIG_DEFAULTS: &'static str = "# ui.yaml\nshow_thinking: true\n";

/// The settings of the calendar extension as they are where nothing is configured.
pub const PIM_CONFIG_DEFAULTS: &'static str = "extensions:\n  std-pim:\n    config:\n      calendar:\n        sources: []\n";

/// What is told about the configuration, with room for the defaults.
pub const CONFIG_TEMPLATE: &'static str =
    "# Configuration\n\nRuntime files of a running harness lie in `${XDG_RUNTIME_DIR}/tau/<pid>/`.\n\nDefaults of the harness:\n\n{harness_config}\nDefaults of the user interface:\n\n{ui_config}";

/// What is told about the calendar extension, with room for the defaults.
pub const PIM_TEMPLATE: &'static str = "# Calendar\n\nDefaults of the extension:\n\n{pim_config}";

/// The description of the configuration with the defaults in their places.
pub open spec fn config_content(template: Seq<char>, harness: Seq<char>, ui: Seq<char>) -> Seq<char> {
    replaced(replaced(template, "{harness_config}"@, harness), "{ui_config}"@, ui)
}

/// Puts the defaults into a description of the configuration.
pub fn fill_config_template(template: &str, harness: &str, ui: &str) -> (r: String)
    ensures
        r@ == config_content(template@, harness@, ui@),
{
    let half = replace(template, "{harness_config}", harness);
    replace(half.as_str(), "{ui_config}", ui)
}

/// Describes the configuration.
pub fn render_self_knowledge_config_content() -> (r: String)
    ensures
        r@ == config_content(CONFIG_TEMPLATE@, HARNESS_CONFIG_DEFAULTS@, UI_CONFIG_DEFAULTS@),
{
    fill_config_template(CONFIG_TEMPLATE, HARNESS_CONFIG_DEFAULTS, UI_CONFIG_DEFAULTS)
}

/// Describes the calendar extension.
pub fn render_self_knowledge_pim_content() -> (r: String)
    ensures
        r@ == replaced(PIM_TEMPLATE@, "{pim_config}"@, PIM_CONFIG_DEFAULTS@),
{
    replace(PIM_TEMPLATE, "{pim_config}", PIM_CONFIG_DEFAULTS)
}

} // verus!
