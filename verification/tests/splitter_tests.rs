use ragcore::split::{split_text, TextSplitter};

fn chars(s: &str) -> Vec<char> {
    s.chars().collect()
}

fn sep(s: &str) -> Option<Vec<char>> {
    Some(s.chars().collect())
}

#[test]
fn splits_at_blank_lines() {
    let out = split_text(chars("Para one.\n\nPara two."), 2048, sep("\n\n"));
    assert_eq!(out, vec!["Para one.".to_string(), "Para two.".to_string()]);
}

#[test]
fn keeps_single_newlines() {
    let out = split_text(chars("a\nb\n\nc"), 2048, sep("\n\n"));
    assert_eq!(out, vec!["a\nb".to_string(), "c".to_string()]);
}

#[test]
fn no_separator_only_places_cuts() {
    let input = "abcdefgh";
    let out = split_text(chars(input), 3, None);
    let joined: String = out.concat();
    assert_eq!(joined, input);
    assert_eq!(out, vec!["abcd".to_string(), "abcdefgh"[4..8].to_string()]);
}

#[test]
fn whitespace_only_buffer_keeps_accumulating() {
    let out = split_text(chars("   "), 1, None);
    assert_eq!(out, vec!["   ".to_string()]);
}

#[test]
fn splitter_next_is_single_pass() {
    let mut sp = TextSplitter::new(chars("x\n\ny"), 2048, sep("\n\n"));
    assert_eq!(sp.next(), Some("x".to_string()));
    assert_eq!(sp.next(), Some("y".to_string()));
    assert_eq!(sp.next(), None);
}
