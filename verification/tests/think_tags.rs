//! Reasoning inside an answer.
use tau::think_tags::{feed_content, flush_content, partial_tag_suffix_len};

fn parted(pieces: &[&str]) -> (String, String) {
    let (mut text, mut thinking, mut pending) = (String::new(), String::new(), String::new());
    let mut inside = false;
    for piece in pieces {
        feed_content(&mut text, &mut thinking, &mut pending, &mut inside, piece);
    }
    flush_content(&mut text, &mut thinking, &mut pending, inside);
    (text, thinking)
}

#[test]
fn plain_answers_stay_whole() {
    assert_eq!(parted(&["a < b ", "and c"]), ("a < b and c".to_owned(), String::new()));
}

#[test]
fn pieces_do_not_matter() {
    let whole = "<think>first\nsecond</think>answer";
    let expected = parted(&[whole]);
    for cut in 0..whole.len() {
        assert_eq!(parted(&[&whole[..cut], &whole[cut..]]), expected);
    }
    assert_eq!(expected.0, "answer");
    assert_eq!(expected.1, "first\nsecond");
}

#[test]
fn unfinished_reasoning_is_reasoning() {
    assert_eq!(parted(&["<think>on and on </thi"]), (String::new(), "on and on </thi".to_owned()));
}

#[test]
fn partial_marks_are_measured() {
    assert_eq!(partial_tag_suffix_len("abc<th", "<think>"), 3);
    assert_eq!(partial_tag_suffix_len("abc", "<think>"), 0);
}
