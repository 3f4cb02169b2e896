//! The system prompt.
use tau::assoc::TextMap;
use tau::discovery::{DiscoveredAgentsFile, DiscoveredSkill, DiscoveredSkillSource};
use tau::prompt::{build_system_prompt, render_agents_context_message};

fn skill(name: &str, description: &str, add_to_prompt: bool) -> TextMap<DiscoveredSkill> {
    let mut skills = TextMap::new();
    skills.insert(
        name.to_owned(),
        DiscoveredSkill {
            source_id: "skills".to_owned(),
            description: description.to_owned(),
            source: DiscoveredSkillSource::File(format!("/skills/{name}/SKILL.md")),
            add_to_prompt,
        },
    );
    skills
}

#[test]
fn build_system_prompt_includes_skills() {
    let skills = skill("brave-search", "Web search via Brave API", true);
    let prompt = build_system_prompt(&vec![], &skills, "/tmp/work");
    assert!(prompt.contains("<available_skills>"));
    assert!(prompt.contains("<name>brave-search</name>"));
    assert!(prompt.contains("Web search via Brave API"));
    assert!(!prompt.contains("Current date:"));
    assert!(prompt.contains("Current working directory: /tmp/work"));
}

#[test]
fn build_system_prompt_excludes_hidden_skills() {
    let skills = skill("hidden", "Should not appear", false);
    let prompt = build_system_prompt(&vec![], &skills, "/tmp/work");
    assert!(!prompt.contains("<available_skills>"));
    assert!(!prompt.contains("hidden"));
}

#[test]
fn instructions_are_quoted_with_their_files() {
    let message = render_agents_context_message(&vec![DiscoveredAgentsFile {
        source_id: "shell".to_owned(),
        file_path: "/repo/AGENTS.md".to_owned(),
        content: "- rule\n".to_owned(),
    }]);
    assert!(message.starts_with("# AGENTS.md instructions"));
    assert!(message.contains("<AGENTS_FILE path=\"/repo/AGENTS.md\">"));
    assert!(message.contains("- rule"));
}

#[test]
fn sources_are_named() {
    let file = DiscoveredSkillSource::File("/skills/a/SKILL.md".to_owned());
    assert_eq!(file.file_path(), Some("/skills/a/SKILL.md"));
    let built_in = DiscoveredSkillSource::BuiltIn { content: "# A".to_owned() };
    assert_eq!(built_in.file_path(), None);
    assert_ne!(file.label(), built_in.label());
}
