use ragcore::dispatch::Dispatcher;
use ragcore::ingest::{assemble_segments, concat_pages, kind_from_extension, SourceKind};
use ragcore::split::split_text;

fn chars(s: &str) -> Vec<char> {
    s.chars().collect()
}

#[test]
fn extensions_name_their_kind() {
    assert!(matches!(kind_from_extension("pdf"), SourceKind::Pdf));
    assert!(matches!(kind_from_extension("txt"), SourceKind::Text));
    assert!(matches!(kind_from_extension("md"), SourceKind::Text));
    assert!(matches!(kind_from_extension("wav"), SourceKind::Audio));
    assert!(matches!(kind_from_extension("mp3"), SourceKind::Audio));
    assert!(matches!(kind_from_extension("mp4"), SourceKind::Audio));
    assert!(matches!(kind_from_extension("aac"), SourceKind::Audio));
    assert!(matches!(kind_from_extension("exe"), SourceKind::Unsupported));
    assert!(matches!(kind_from_extension(""), SourceKind::Unsupported));
}

#[test]
fn page_texts_concatenate_in_order() {
    let pages = vec!["One. ".to_string(), "Two.".to_string(), "".to_string(), "Three".to_string()];
    let flat = concat_pages(&pages);
    let text: String = flat.into_iter().collect();
    assert_eq!(text, "One. Two.Three");
    assert_eq!(concat_pages(&vec![]).len(), 0);
}

#[test]
fn segments_align_chunks_with_vectors() {
    let chunks = vec!["alpha".to_string(), "beta".to_string()];
    let vectors = vec![vec![1u32, 2, 3], vec![4u32, 5, 6]];
    let segments = assemble_segments(chunks, vectors, "/d/doc.txt");
    assert_eq!(segments.len(), 2);
    assert_eq!(segments[0].raw, "alpha");
    assert_eq!(segments[0].embedding, vec![1, 2, 3]);
    assert_eq!(segments[0].doc_ref, "/d/doc.txt");
    assert_eq!(segments[0].segment, 0);
    assert!(segments[0].relevence.is_none());
    assert_eq!(segments[1].raw, "beta");
    assert_eq!(segments[1].embedding, vec![4, 5, 6]);
    assert_eq!(segments[1].segment, 1);
}

#[test]
fn dispatcher_serves_requests_in_submission_order() {
    let mut d = Dispatcher::new();
    let t1 = d.submit(vec!["caller one, text a".to_string(), "caller one, text b".to_string()]);
    let t2 = d.submit(vec!["caller two, text a".to_string()]);
    assert_ne!(t1, t2);
    assert_eq!(d.len(), 2);
    let first = d.take().unwrap();
    assert_eq!(first.ticket, t1);
    assert_eq!(first.raw.len(), 2);
    assert_eq!(first.raw[0], "caller one, text a");
    assert_eq!(first.raw[1], "caller one, text b");
    let second = d.take().unwrap();
    assert_eq!(second.ticket, t2);
    assert_eq!(second.raw, vec!["caller two, text a".to_string()]);
    assert!(d.take().is_none());
}

#[test]
fn each_caller_gets_as_many_vectors_as_it_submitted() {
    // Two interleaved callers; the response for each request is built
    // positionally, so each caller's segments carry its own inputs.
    let mut d = Dispatcher::new();
    d.submit(vec!["one".to_string(), "two".to_string()]);
    d.submit(vec!["ein".to_string()]);
    let req_a = d.take().unwrap();
    let vectors_a = vec![vec![10u32], vec![20u32]];
    let segs_a = assemble_segments(req_a.raw, vectors_a, "/a");
    assert_eq!(segs_a.len(), 2);
    assert_eq!(segs_a[0].raw, "one");
    assert_eq!(segs_a[0].embedding, vec![10]);
    assert_eq!(segs_a[1].raw, "two");
    assert_eq!(segs_a[1].embedding, vec![20]);
    let req_b = d.take().unwrap();
    let vectors_b = vec![vec![30u32]];
    let segs_b = assemble_segments(req_b.raw, vectors_b, "/b");
    assert_eq!(segs_b.len(), 1);
    assert_eq!(segs_b[0].raw, "ein");
    assert_eq!(segs_b[0].embedding, vec![30]);
}

#[test]
fn text_file_with_two_paragraphs_stores_two_segments() {
    // Ingesting one text file whose content holds two paragraphs, with a
    // budget large enough for each: two segments, indexed 0 and 1, the
    // blank-line artifacts stripped, the path carried on each.
    let content = "Para one.\n\nPara two.";
    let path = "/data/doc.txt";
    let chunks = split_text(chars(content), 2048, Some(chars("\n\n")));
    assert_eq!(chunks, vec!["Para one.".to_string(), "Para two.".to_string()]);
    let vectors = vec![vec![1u32], vec![2u32]];
    let segments = assemble_segments(chunks, vectors, path);
    assert_eq!(segments.len(), 2);
    assert_eq!(segments[0].segment, 0);
    assert_eq!(segments[1].segment, 1);
    assert_eq!(segments[0].doc_ref, path);
    assert_eq!(segments[1].doc_ref, path);
    assert_eq!(segments[0].raw, "Para one.");
    assert_eq!(segments[1].raw, "Para two.");
}
