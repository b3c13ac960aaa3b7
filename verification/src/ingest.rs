//! Ingestion decisions: what kind a source is, and how one file's chunks
//! and returned vectors become stored segments.
//!
//! Directory walking, extraction and persistence are the surrounding
//! program's; it hands this module the extracted chunks and the
//! dispatcher's response for one file.

use vstd::prelude::*;
use crate::chunk::{lemma_concat_snoc, spec_concat};
use crate::schemas::{DocumentRef, Embedding};
use crate::strutil::{chars_of, spec_views, str_eq};

verus! {

/// What a source file is, judged by its extension.
#[derive(Clone, Copy, PartialEq, Eq, Structural, Debug)]
pub enum SourceKind {
    Text,
    Pdf,
    Audio,
    Unsupported,
}

/// The kind a file extension names: `pdf` is a PDF, `txt` and `md` are
/// text, `wav`, `mp3`, `mp4` and `aac` are audio, anything else is
/// unsupported and skipped with a warning.
pub open spec fn spec_kind_from_extension(ext: Seq<char>) -> SourceKind {
    if ext == "pdf"@ {
        SourceKind::Pdf
    } else if ext == "txt"@ || ext == "md"@ {
        SourceKind::Text
    } else if ext == "wav"@ || ext == "mp3"@ || ext == "mp4"@ || ext == "aac"@ {
        SourceKind::Audio
    } else {
        SourceKind::Unsupported
    }
}

/// Judges a source by its extension (a file with none is unsupported;
/// the caller passes the empty string for it).
pub fn kind_from_extension(ext: &str) -> (k: SourceKind)
    ensures
        k == spec_kind_from_extension(ext@),
{
    if str_eq(ext, "pdf") {
        SourceKind::Pdf
    } else if str_eq(ext, "txt") || str_eq(ext, "md") {
        SourceKind::Text
    } else if str_eq(ext, "wav") || str_eq(ext, "mp3") || str_eq(ext, "mp4") || str_eq(
        ext,
        "aac",
    ) {
        SourceKind::Audio
    } else {
        SourceKind::Unsupported
    }
}

/// One flat character stream from a document's per-page texts: exactly
/// their concatenation, in page order. PDF extraction hands its pages
/// here.
pub fn concat_pages(pages: &Vec<String>) -> (r: Vec<char>)
    ensures
        r@ == spec_concat(spec_views(pages@)),
{
    let mut r: Vec<char> = Vec::new();
    let n = pages.len();
    let mut i: usize = 0;
    proof {
        assert(spec_views(pages@).take(0) =~= Seq::<Seq<char>>::empty());
        assert(r@ =~= spec_concat(spec_views(pages@).take(0)));
    }
    while i < n
        invariant
            i <= n,
            n == pages@.len(),
            r@ == spec_concat(spec_views(pages@).take(i as int)),
        decreases n - i,
    {
        let mut cs = chars_of(pages[i].as_str());
        r.append(&mut cs);
        i = i + 1;
        proof {
            assert(spec_views(pages@).take(i as int) =~= spec_views(pages@).take(
                i as int - 1,
            ).push(pages@[i - 1]@));
            lemma_concat_snoc(spec_views(pages@).take(i as int - 1), pages@[i - 1]@);
        }
    }
    proof {
        assert(spec_views(pages@).take(n as int) =~= spec_views(pages@));
    }
    r
}

/// Zips one file's chunks with the vectors the dispatcher returned for
/// them. The response is positionally aligned with the request, so the
/// segment at position `i` carries exactly chunk `i`, vector `i`, the
/// file's path, and `i` as its index; a relevance is never assigned at
/// ingestion.
pub fn assemble_segments(chunks: Vec<String>, embeddings: Vec<Embedding>, doc_ref: &str) -> (r:
    Vec<DocumentRef>)
    requires
        chunks@.len() == embeddings@.len(),
    ensures
        r@.len() == chunks@.len(),
        forall|i: int|
            0 <= i < r@.len() ==> {
                &&& (#[trigger] r@[i]).raw == chunks@[i]
                &&& r@[i].embedding == embeddings@[i]
                &&& r@[i].doc_ref@ == doc_ref@
                &&& r@[i].segment == i
                &&& r@[i].relevence is None
            },
{
    let ghost cs = chunks@;
    let ghost es = embeddings@;
    let n_exec = chunks.len();
    let mut chunks = chunks;
    let mut embeddings = embeddings;
    let mut r: Vec<DocumentRef> = Vec::new();
    let mut i: usize = 0;
    proof {
        assert(chunks@ =~= cs.skip(0));
        assert(embeddings@ =~= es.skip(0));
    }
    while chunks.len() > 0
        invariant
            i <= cs.len(),
            cs.len() == n_exec,
            cs.len() == es.len(),
            chunks@ == cs.skip(i as int),
            embeddings@ == es.skip(i as int),
            r@.len() == i,
            forall|j: int|
                0 <= j < i ==> {
                    &&& (#[trigger] r@[j]).raw == cs[j]
                    &&& r@[j].embedding == es[j]
                    &&& r@[j].doc_ref@ == doc_ref@
                    &&& r@[j].segment == j
                    &&& r@[j].relevence is None
                },
        decreases chunks@.len(),
    {
        let c = chunks.remove(0);
        let e = embeddings.remove(0);
        proof {
            assert(c == cs[i as int]);
            assert(e == es[i as int]);
            assert(chunks@ =~= cs.skip(i as int + 1));
            assert(embeddings@ =~= es.skip(i as int + 1));
        }
        r.push(
            DocumentRef {
                embedding: e,
                raw: c,
                relevence: None,
                doc_ref: doc_ref.to_owned(),
                segment: i as u64,
            },
        );
        i = i + 1;
    }
    r
}

} // verus!
