//! Searching and reading skills.
use tau::assoc::TextMap;
use tau::cbor::{cbor_map_text, CborValue};
use tau::discovery::{DiscoveredSkill, DiscoveredSkillSource};
use tau::display::ToolDisplayStatus;
use tau::skill_tool::{
    answer_search, extract_skill_search_queries, handle_skill_query, rank_skills, read_skill_by_name,
    search_discovered_skills, searches_content, skill_name_to_auto_load, skill_search_result, without_repeats,
    SearchedSkill, SkillAnswer,
};

fn words(words: &[&str]) -> Vec<String> {
    words.iter().map(|word| (*word).to_owned()).collect()
}

fn skills() -> TextMap<DiscoveredSkill> {
    let mut skills = TextMap::new();
    for (name, description) in [("Jujutsu", "Version control"), ("search", "Find things on the WEB")] {
        skills.insert(
            name.to_owned(),
            DiscoveredSkill {
                source_id: "skills".to_owned(),
                description: description.to_owned(),
                source: DiscoveredSkillSource::File(format!("/skills/{name}/SKILL.md")),
                add_to_prompt: true,
            },
        );
    }
    skills
}

fn arguments(entries: Vec<(&str, CborValue)>) -> CborValue {
    CborValue::Dict(entries.into_iter().map(|(key, value)| (CborValue::Text(key.to_owned()), value)).collect())
}

fn text(s: &str) -> CborValue {
    CborValue::Text(s.to_owned())
}

#[test]
fn terms_are_told_apart() {
    assert_eq!(without_repeats(&words(&["a", "b", "a"])), words(&["a", "b"]));
    let one = extract_skill_search_queries(&arguments(vec![("query", text("Web"))])).expect("one");
    assert_eq!(one, words(&["web"]));
    assert!(extract_skill_search_queries(&arguments(vec![])).is_err());
}

#[test]
fn skills_are_found_whatever_the_case() {
    let hits = search_discovered_skills(&skills(), &TextMap::new(), &words(&["web"]), false);
    assert_eq!(hits.len(), 1);
    assert_eq!(hits[0].name, "search");
    assert_eq!(hits[0].hit_count, 1);
    let hits = search_discovered_skills(&skills(), &TextMap::new(), &words(&["jujutsu"]), false);
    assert_eq!(hits[0].name, "Jujutsu");
}

#[test]
fn bodies_are_searched_where_asked() {
    let mut bodies = TextMap::new();
    bodies.insert("Jujutsu".to_owned(), "Use jj SQUASH".to_owned());
    assert!(search_discovered_skills(&skills(), &bodies, &words(&["squash"]), false).is_empty());
    assert_eq!(search_discovered_skills(&skills(), &bodies, &words(&["squash"]), true).len(), 1);
    assert!(searches_content(&arguments(vec![("search_content", CborValue::Bool(true))])));
    assert!(!searches_content(&arguments(vec![])));
}

#[test]
fn more_matches_come_first() {
    let skill = |name: &str, body: &str| SearchedSkill {
        name: name.to_owned(),
        description: String::new(),
        lower_name: name.to_owned(),
        lower_description: String::new(),
        lower_body: body.to_owned(),
    };
    let skills = vec![skill("b", "x"), skill("c", "x y"), skill("a", "x"), skill("d", "z")];
    let hits = rank_skills(&skills, &words(&["x", "y"]), true);
    let names: Vec<&str> = hits.iter().map(|hit| hit.name.as_str()).collect();
    assert_eq!(names, vec!["c", "a", "b"]);
    assert_eq!(hits[0].hit_count, 2);
}

#[test]
fn an_exact_name_is_read_at_once() {
    let hits = search_discovered_skills(&skills(), &TextMap::new(), &words(&["search"]), false);
    assert_eq!(skill_name_to_auto_load(&words(&["search"]), &hits).as_deref(), Some("search"));
    match handle_skill_query(&arguments(vec![("query", text("search"))]), &skills(), &TextMap::new()) {
        SkillAnswer::Load(name) => assert_eq!(name, "search"),
        SkillAnswer::Reply(_) => panic!("expected a skill to be read"),
    }
    assert!(matches!(answer_search(&words(&["search"]), false, &hits), SkillAnswer::Load(_)));
}

#[test]
fn skills_are_read_without_their_front_matter() {
    let file = "---\nname: search\n---\nDo it.".to_owned();
    let reply = read_skill_by_name(&skills(), "search", Ok(file));
    assert_eq!(reply.display.status, ToolDisplayStatus::Success);
    let result = reply.outcome.expect("result");
    assert_eq!(cbor_map_text(&result, "content"), Some("Do it."));

    let unknown = read_skill_by_name(&skills(), "nobody", Ok(String::new()));
    assert!(unknown.outcome.expect_err("unknown").contains("nobody"));
    let failed = read_skill_by_name(&skills(), "search", Err("denied".to_owned()));
    assert!(failed.outcome.expect_err("failed").contains("denied"));
    assert_eq!(failed.display.status, ToolDisplayStatus::Error);
}

#[test]
fn results_of_searches_list_the_hits() {
    let hits = search_discovered_skills(&skills(), &TextMap::new(), &words(&["version", "web"]), false);
    let reply = skill_search_result(&words(&["version", "web"]), false, &hits);
    let shown = format!("{:?}", reply.outcome.expect("result"));
    assert!(shown.contains("Jujutsu") && shown.contains("search"));
    assert_eq!(reply.display.stats.matches, Some(2));
}
