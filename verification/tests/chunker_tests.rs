use ragcore::chunk::{chunk_text, Lexer};

fn chars(s: &str) -> Vec<char> {
    s.chars().collect()
}

#[test]
fn empty_input_yields_no_segments() {
    let out = chunk_text(chars(""), 100);
    assert_eq!(out.len(), 0);
}

#[test]
fn short_plain_input_is_one_segment() {
    let out = chunk_text(chars("Hello world"), 100);
    assert_eq!(out, vec!["Hello world".to_string()]);
}

#[test]
fn sentence_terminated_input_is_one_segment() {
    let out = chunk_text(chars("ab."), 100);
    assert_eq!(out, vec!["ab.".to_string()]);
}

#[test]
fn paragraph_break_splits_and_strips() {
    let out = chunk_text(chars("Para one.\n\nPara two."), 100);
    assert_eq!(out, vec!["Para one.".to_string(), "Para two.".to_string()]);
}

#[test]
fn bare_newline_becomes_space() {
    let out = chunk_text(chars("a\nb"), 100);
    assert_eq!(out, vec!["a b".to_string()]);
}

#[test]
fn unbroken_run_is_force_split() {
    let out = chunk_text(chars("aaaaa"), 2);
    assert_eq!(out, vec!["aaa".to_string(), "aa".to_string()]);
    for (i, seg) in out.iter().enumerate() {
        assert!(!seg.is_empty());
        if i + 1 < out.len() {
            assert!(seg.len() <= 3);
        }
    }
}

#[test]
fn concatenation_reproduces_plain_input() {
    let input = "One sentence. Another sentence. And a third one to round it out.";
    let out = chunk_text(chars(input), 16);
    let joined: String = out.concat();
    assert_eq!(joined, input);
}

#[test]
fn concatenation_normalizes_newlines() {
    let input = "line one\nline two\n\nline three";
    let out = chunk_text(chars(input), 100);
    let joined: String = out.concat();
    assert_eq!(joined, "line one line twoline three");
}

#[test]
fn lexer_next_walks_segments_in_order() {
    let mut lx = Lexer::new(chars("Para one.\n\nPara two."), 100);
    assert_eq!(lx.next(), Some("Para one.".to_string()));
    assert_eq!(lx.next(), Some("Para two.".to_string()));
    assert_eq!(lx.next(), None);
}

#[test]
fn blank_input_dissolves() {
    let out = chunk_text(chars("\n\n"), 100);
    assert_eq!(out.len(), 0);
}
