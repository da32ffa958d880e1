use voicepeak_cli::{check_text_length, split_text, split_text_with_limit, MAX_CHARS};

fn non_white(s: &str) -> String {
    s.chars().filter(|c| !c.is_whitespace()).collect()
}

fn long_mixed_text() -> String {
    let mut t = String::new();
    for i in 0..12 {
        t.push_str(&format!("第{}文は、少し長めの文章です, with some words in it. ", i));
        t.push_str(&"あ".repeat(30 + i * 7));
        t.push_str("、");
        t.push_str(&"い".repeat(20 + i * 11));
        t.push_str("！ ");
    }
    t.push_str(&"x".repeat(400));
    t.push_str("  trailing words without an end");
    t
}

#[test]
fn short_text_is_single_chunk() {
    assert_eq!(split_text("こんにちは。"), vec!["こんにちは。".to_string()]);
    let padded = "  spaced out text.  ";
    assert_eq!(split_text(padded), vec![padded.to_string()]);
}

#[test]
fn empty_text_gives_one_empty_chunk() {
    assert_eq!(split_text(""), vec![String::new()]);
}

#[test]
fn text_of_exactly_max_chars_is_one_chunk() {
    let t = "a".repeat(MAX_CHARS);
    assert_eq!(split_text(&t), vec![t.clone()]);
}

#[test]
fn check_text_length_counts_characters() {
    assert!(check_text_length(&"あ".repeat(140)));
    assert!(!check_text_length(&"あ".repeat(141)));
    assert!(check_text_length(""));
    assert_eq!(MAX_CHARS, 140);
}

#[test]
fn hello_world_with_limit_five() {
    let chunks = split_text_with_limit("Hello. World.", 5);
    assert_eq!(chunks, vec!["Hello", ".", "", "World", "."]);
}

#[test]
fn sentences_are_packed_greedily() {
    let s = format!("{}。", "あ".repeat(69));
    let text = format!("{}{}{}", s, s, s);
    assert_eq!(split_text(&text), vec![format!("{}{}", s, s), s.clone()]);
}

#[test]
fn long_sentence_is_cut_after_its_last_break() {
    let text = format!("{}、{}。", "あ".repeat(100), "い".repeat(100));
    assert_eq!(
        split_text(&text),
        vec![format!("{}、", "あ".repeat(100)), format!("{}。", "い".repeat(100))]
    );
}

#[test]
fn long_run_without_breaks_is_cut_hard() {
    let text = "a".repeat(300);
    assert_eq!(split_text(&text), vec!["a".repeat(140), "a".repeat(140), "a".repeat(20)]);
}

#[test]
fn chunk_boundaries_are_trimmed() {
    let text = format!("{}. {}.", "A".repeat(100), "B".repeat(100));
    assert_eq!(split_text(&text), vec![format!("{}.", "A".repeat(100)), format!("{}.", "B".repeat(100))]);
}

#[test]
fn trailing_white_space_after_last_sentence_is_dropped() {
    let text = format!("{}.   ", "A".repeat(150));
    assert_eq!(split_text(&text), vec!["A".repeat(140), format!("{}.", "A".repeat(10))]);
}

#[test]
fn every_chunk_fits_the_budget() {
    let text = long_mixed_text();
    let chunks = split_text(&text);
    assert!(chunks.len() > 1);
    for c in &chunks {
        assert!(c.chars().count() <= MAX_CHARS, "chunk too long: {}", c.chars().count());
    }
    for c in split_text_with_limit(&text, 7) {
        assert!(c.chars().count() <= 7);
    }
}

#[test]
fn chunks_keep_all_non_white_text_in_order() {
    let text = long_mixed_text();
    let joined: String = split_text(&text).concat();
    assert_eq!(non_white(&joined), non_white(&text));
    let joined_small: String = split_text_with_limit(&text, 9).concat();
    assert_eq!(non_white(&joined_small), non_white(&text));
}

#[test]
fn text_without_white_space_rejoins_exactly() {
    let text = "あいう。えお！かきく？".repeat(30);
    let chunks = split_text(&text);
    assert!(chunks.len() > 1);
    assert_eq!(chunks.concat(), text);
    let comma_text = format!("{},{}.", "b".repeat(200), "c".repeat(90));
    assert_eq!(split_text(&comma_text).concat(), comma_text);
}

#[test]
fn splitting_is_idempotent_and_deterministic() {
    let text = long_mixed_text();
    let first = split_text(&text);
    let second = split_text(&text);
    assert_eq!(first, second);
    for c in &first {
        assert_eq!(split_text(c), vec![c.clone()]);
    }
    let short = "短い文。";
    let once = split_text(short);
    assert_eq!(split_text(&once[0]), once);
}
