//! Skills: their front matter, their files, and which of them are loaded.
use tau::skills::{
    discover_skill_paths, load_skill_from_content, load_skills_from_dirs, parse_frontmatter, strip_frontmatter,
    DiagnosticKind, SkillDirectory,
};

fn files(paths: &[&str]) -> Vec<String> {
    paths.iter().map(|path| (*path).to_owned()).collect()
}

fn directory(root: &str, files: &[(&str, &str)]) -> SkillDirectory {
    SkillDirectory {
        root: root.to_owned(),
        files: files.iter().map(|(path, text)| ((*path).to_owned(), (*text).to_owned())).collect(),
    }
}

#[test]
fn parse_frontmatter_basic() {
    let content = "---\nname: my-skill\ndescription: Does things\n---\n# Body\n";
    let (fm, body) = parse_frontmatter(content);
    assert_eq!(fm.get("name").map(String::as_str), Some("my-skill"));
    assert_eq!(
        fm.get("description").map(String::as_str),
        Some("Does things")
    );
    assert_eq!(body, "# Body\n");
}

#[test]
fn parse_frontmatter_quoted_values() {
    let content = "---\nname: \"my-skill\"\ndescription: 'A quoted description'\n---\nBody";
    let (fm, body) = parse_frontmatter(content);
    assert_eq!(fm.get("name").map(String::as_str), Some("my-skill"));
    assert_eq!(
        fm.get("description").map(String::as_str),
        Some("A quoted description")
    );
    assert_eq!(body, "Body");
}

#[test]
fn parse_frontmatter_boolean_field() {
    let content =
        "---\nname: hidden\ndescription: A hidden skill\ndisable-model-invocation: true\n---\n";
    let (fm, _body) = parse_frontmatter(content);
    assert_eq!(
        fm.get("disable-model-invocation").map(String::as_str),
        Some("true")
    );
}

#[test]
fn parse_frontmatter_none_when_missing() {
    let content = "# No frontmatter\nJust body content.";
    let (fm, body) = parse_frontmatter(content);
    assert!(fm.entries.is_empty());
    assert_eq!(body, content);
}

#[test]
fn parse_frontmatter_unclosed() {
    let content = "---\nname: broken\nno closing fence";
    let (fm, body) = parse_frontmatter(content);
    assert!(fm.entries.is_empty());
    assert_eq!(body, content);
}

#[test]
fn parse_frontmatter_bom() {
    let content = "\u{feff}---\nname: bom-skill\ndescription: Has BOM\n---\nBody";
    let (fm, body) = parse_frontmatter(content);
    assert_eq!(fm.get("name").map(String::as_str), Some("bom-skill"));
    assert_eq!(body, "Body");
}

#[test]
fn parse_frontmatter_comments_and_blanks() {
    let content = "---\n# comment\n\nname: foo\ndescription: bar\n---\n";
    let (fm, _body) = parse_frontmatter(content);
    assert_eq!(fm.get("name").map(String::as_str), Some("foo"));
    assert_eq!(fm.get("description").map(String::as_str), Some("bar"));
}

#[test]
fn load_skill_valid() {
    let content = "---\nname: my-skill\ndescription: Does useful things\n---\n# Instructions";
    let path = "/skills/my-skill/SKILL.md";
    let (skill, diags) = load_skill_from_content(content, path);
    let skill = skill.expect("should load");
    assert_eq!(skill.name, "my-skill");
    assert_eq!(skill.description, "Does useful things");
    assert!(skill.add_to_prompt);
    assert!(diags.is_empty());
}

#[test]
fn load_skill_missing_description() {
    let content = "---\nname: no-desc\n---\n# Body";
    let path = "/skills/no-desc/SKILL.md";
    let (skill, diags) = load_skill_from_content(content, path);
    assert!(skill.is_none());
    assert!(diags.iter().any(|d| d.kind == DiagnosticKind::Skipped));
}

#[test]
fn load_skill_empty_description() {
    let content = "---\nname: empty\ndescription:\n---\nBody";
    let path = "/skills/empty/SKILL.md";
    let (skill, diags) = load_skill_from_content(content, path);
    assert!(skill.is_none());
    assert!(diags.iter().any(|d| d.kind == DiagnosticKind::Skipped));
}

#[test]
fn load_skill_disable_model_invocation() {
    let content =
        "---\nname: hidden\ndescription: A hidden skill\ndisable-model-invocation: true\n---\n";
    let path = "/skills/hidden/SKILL.md";
    let (skill, _diags) = load_skill_from_content(content, path);
    let skill = skill.expect("should load");
    assert!(!skill.add_to_prompt);
}

#[test]
fn load_skill_name_fallback_to_parent_dir() {
    let content = "---\ndescription: Inferred name\n---\n";
    let path = "/skills/inferred-name/SKILL.md";
    let (skill, _diags) = load_skill_from_content(content, path);
    let skill = skill.expect("should load");
    assert_eq!(skill.name, "inferred-name");
}

#[test]
fn load_skill_name_mismatch_warning() {
    let content = "---\nname: wrong-name\ndescription: Mismatch test\n---\n";
    let path = "/skills/actual-dir/SKILL.md";
    let (_skill, diags) = load_skill_from_content(content, path);
    assert!(diags.iter().any(|d| d.message.contains("does not match")));
}

#[test]
fn load_skill_invalid_name_chars() {
    let content = "---\nname: Bad_Name\ndescription: Invalid chars\n---\n";
    let path = "/skills/Bad_Name/SKILL.md";
    let (_skill, diags) = load_skill_from_content(content, path);
    assert!(
        diags
            .iter()
            .any(|d| d.message.contains("invalid characters"))
    );
}

#[test]
fn discover_skill_md_in_subdir() {
    let paths = discover_skill_paths("/skills", &files(&["my-skill/SKILL.md"]));
    assert_eq!(paths.len(), 1);
    assert!(paths[0].ends_with("my-skill/SKILL.md"));
    assert_eq!(paths[0], "/skills/my-skill/SKILL.md");
}

#[test]
fn discover_root_md_files() {
    let paths = discover_skill_paths("/skills", &files(&["standalone.md"]));
    assert_eq!(paths.len(), 1);
    assert!(paths[0].ends_with("standalone.md"));
}

#[test]
fn discover_skips_dot_dirs() {
    let paths = discover_skill_paths("/skills", &files(&[".hidden/SKILL.md"]));
    assert!(paths.is_empty());
}

#[test]
fn discover_skips_node_modules() {
    let paths = discover_skill_paths("/skills", &files(&["node_modules/some-skill/SKILL.md"]));
    assert!(paths.is_empty());
}

#[test]
fn discover_does_not_recurse_past_skill_md() {
    let paths = discover_skill_paths("/skills", &files(&["parent/SKILL.md", "parent/child/SKILL.md"]));
    assert_eq!(paths.len(), 1);
    assert!(paths[0].ends_with("parent/SKILL.md"));
}

#[test]
fn discover_nonexistent_dir() {
    let paths = discover_skill_paths("/nonexistent/path", &files(&[]));
    assert!(paths.is_empty());
}

#[test]
fn only_markdown_at_the_root_is_a_skill() {
    let paths = discover_skill_paths("/skills", &files(&["notes.txt", "deep/other.md", "deep/SKILL.md"]));
    assert_eq!(paths, vec!["/skills/deep/SKILL.md".to_owned()]);
}

#[test]
fn load_from_dirs_dedup() {
    let result = load_skills_from_dirs(&vec![
        directory("/one", &[("my-skill/SKILL.md", "---\nname: my-skill\ndescription: First\n---\n")]),
        directory("/two", &[("my-skill/SKILL.md", "---\nname: my-skill\ndescription: Second\n---\n")]),
    ]);
    assert_eq!(result.skills.len(), 1);
    assert_eq!(result.skills[0].description, "First");
    assert!(result.diagnostics.iter().any(|d| d.kind == DiagnosticKind::Collision));
}

#[test]
fn load_from_empty_dirs() {
    let result = load_skills_from_dirs(&vec![]);
    assert!(result.skills.is_empty());
    assert!(result.diagnostics.is_empty());
}

#[test]
fn strip_frontmatter_returns_body() {
    let content = "---\nname: x\n---\nThe body.";
    assert_eq!(strip_frontmatter(content), "The body.");
}

#[test]
fn strip_frontmatter_no_frontmatter() {
    let content = "Just content.";
    assert_eq!(strip_frontmatter(content), "Just content.");
}
