use ragcore::rank::sort_embeddings;
use ragcore::schemas::DocumentRef;

fn candidate(raw: &str, relevance: f32, segment: u64) -> DocumentRef {
    DocumentRef {
        embedding: vec![],
        raw: raw.to_string(),
        relevence: Some(relevance.to_bits()),
        doc_ref: "/d/doc.txt".to_string(),
        segment,
    }
}

#[test]
fn orders_by_relevance_descending() {
    let candidates = vec![
        candidate("a", 0.9, 0),
        candidate("b", 0.5, 1),
        candidate("c", 0.7, 2),
    ];
    let out = sort_embeddings(candidates);
    assert_eq!(out, vec!["a".to_string(), "c".to_string(), "b".to_string()]);
}

#[test]
fn ties_keep_retrieval_order() {
    let candidates = vec![
        candidate("first", 0.7, 0),
        candidate("second", 0.7, 1),
        candidate("top", 0.9, 2),
        candidate("third", 0.7, 3),
    ];
    let out = sort_embeddings(candidates);
    assert_eq!(
        out,
        vec![
            "top".to_string(),
            "first".to_string(),
            "second".to_string(),
            "third".to_string()
        ]
    );
}

#[test]
fn empty_retrieval_sorts_to_nothing() {
    let out = sort_embeddings(vec![]);
    assert_eq!(out.len(), 0);
}
