//! The names of new agents.
use tau::minting::{
    hex_suffix, mint_agent_id_for_role, mint_available_agent_id_for_role, mint_available_agent_id_for_role_with,
    AGENT_ID_MAX_SUFFIX_NIBBLES, AGENT_ID_MIN_SUFFIX_NIBBLES,
};

fn agent_id_suffix<'a>(agent_id: &'a str, role: &str) -> &'a str {
    agent_id
        .strip_prefix(role)
        .and_then(|rest| rest.strip_prefix('_'))
        .expect("role prefix")
}

fn assert_role_hex_agent_id(agent_id: &str, role: &str) {
    let suffix = agent_id_suffix(agent_id, role);

    assert!((AGENT_ID_MIN_SUFFIX_NIBBLES..=AGENT_ID_MAX_SUFFIX_NIBBLES).contains(&suffix.len()));
    assert!(suffix.chars().all(|ch| matches!(ch, '0'..='9' | 'a'..='f')));
}

fn one_digit_names(role: &str) -> Vec<String> {
    (0..16).map(|n| format!("{role}_{n:x}")).collect()
}

#[test]
fn minted_agent_ids_use_minimal_role_prefixed_hex_suffixes() {
    let agent_id = mint_agent_id_for_role("engineer");

    assert_role_hex_agent_id(&agent_id, "engineer");
    assert_eq!(agent_id_suffix(&agent_id, "engineer").len(), AGENT_ID_MIN_SUFFIX_NIBBLES);
}

#[test]
fn minting_agent_ids_retries_same_size_hex_collisions() {
    let taken = vec!["engineer_a".to_owned()];
    let agent_id = mint_available_agent_id_for_role_with("engineer", &taken, &vec![0xa]);

    assert_eq!(agent_id.as_deref(), Some("engineer_b"));
}

#[test]
fn minting_agent_ids_grows_only_after_shorter_suffixes_are_taken() {
    let taken = one_digit_names("engineer");
    let agent_id = mint_available_agent_id_for_role_with("engineer", &taken, &vec![0, 0]);
    assert_eq!(agent_id.as_deref(), Some("engineer_00"));

    let later = mint_available_agent_id_for_role_with("engineer", &taken, &vec![3, 0xff]);
    assert_eq!(later.as_deref(), Some("engineer_ff"));
}

#[test]
fn minting_agent_ids_skips_persisted_agent_dirs() {
    let taken = vec!["engineer_0".to_owned()];
    let agent_id = mint_available_agent_id_for_role_with("engineer", &taken, &vec![0]);

    assert_eq!(agent_id.as_deref(), Some("engineer_1"));
}

#[test]
fn the_search_goes_in_a_circle() {
    let taken = vec!["engineer_f".to_owned()];
    let agent_id = mint_available_agent_id_for_role_with("engineer", &taken, &vec![0xf]);
    assert_eq!(agent_id.as_deref(), Some("engineer_0"));
}

#[test]
fn random_names_are_free() {
    let mut taken = one_digit_names("engineer");
    taken.retain(|name| name != "engineer_7");
    assert_eq!(mint_available_agent_id_for_role("engineer", &taken).as_deref(), Some("engineer_7"));
    taken.push("engineer_7".to_owned());
    let agent_id = mint_available_agent_id_for_role("engineer", &taken).expect("free");
    assert_role_hex_agent_id(&agent_id, "engineer");
    assert_eq!(agent_id_suffix(&agent_id, "engineer").len(), 2);
}

#[test]
fn suffixes_are_padded_hex() {
    assert_eq!(hex_suffix(0x2a, 4), "002a");
    assert_eq!(hex_suffix(0x1234, 2), "34");
}
