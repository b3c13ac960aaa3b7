//! The generic splitter: cut text at a separator or at the budget.
//!
//! Ingestion runs this over every extracted file: the buffer is emitted
//! when it ends with the configured separator (trailing newlines
//! trimmed), or when it outgrows the budget while holding something
//! besides whitespace. The final partial buffer is emitted too; no empty
//! segment ever is. Apart from the trimming at a separator match, every
//! character reaches the output unchanged.

use vstd::prelude::*;
use crate::chunk::spec_concat;
use crate::strutil::{chars_end_with, spec_is_ws, spec_trim_trailing_newlines, spec_views,
    string_from_chars, trim_trailing_newlines};

verus! {

/// Does `s` end with `sep`?
pub open spec fn spec_ends_with(s: Seq<char>, sep: Seq<char>) -> bool {
    s.len() >= sep.len() && s.skip(s.len() as int - sep.len() as int) == sep
}

/// Only whitespace in `s`.
pub open spec fn spec_all_ws(s: Seq<char>) -> bool {
    forall|i: int| 0 <= i < s.len() ==> spec_is_ws(s[i])
}

/// Every segment the splitter emits for the unread text `rest` with the
/// buffer `buf` accumulated. One character is consumed per step: a
/// buffer ending with the separator is trimmed of trailing newlines and
/// emitted; one that outgrows the budget is emitted unless it is all
/// whitespace.
pub open spec fn spec_split_chunks(
    rest: Seq<char>,
    buf: Seq<char>,
    l: nat,
    sep: Option<Seq<char>>,
) -> Seq<Seq<char>>
    decreases rest.len(),
{
    if rest.len() == 0 {
        if buf.len() == 0 {
            Seq::empty()
        } else {
            seq![buf]
        }
    } else {
        let rest2 = rest.drop_first();
        let buf2 = buf.push(rest[0]);
        if sep is Some && spec_ends_with(buf2, sep.unwrap()) {
            let t = spec_trim_trailing_newlines(buf2);
            if t.len() == 0 {
                spec_split_chunks(rest2, Seq::empty(), l, sep)
            } else {
                seq![t] + spec_split_chunks(rest2, Seq::empty(), l, sep)
            }
        } else if buf2.len() > l && !spec_all_ws(buf2) {
            seq![buf2] + spec_split_chunks(rest2, Seq::empty(), l, sep)
        } else {
            spec_split_chunks(rest2, buf2, l, sep)
        }
    }
}

/// The splitter's scanning state.
pub struct TextSplitter {
    source: Vec<char>,
    pos: usize,
    context_length: usize,
    splitter: Option<Vec<char>>,
}

impl TextSplitter {
    /// The unread input.
    pub closed spec fn spec_rest(&self) -> Seq<char> {
        self.source@.skip(self.pos as int)
    }

    /// The configured budget.
    pub closed spec fn spec_l(&self) -> nat {
        self.context_length as nat
    }

    /// The configured separator.
    pub closed spec fn spec_sep(&self) -> Option<Seq<char>> {
        match self.splitter {
            Some(v) => Some(v@),
            None => None,
        }
    }

    /// The consumed prefix never outruns the text.
    pub closed spec fn wf(&self) -> bool {
        self.pos <= self.source@.len()
    }

    /// A splitter at the start of `source`, with budget `context_length`
    /// and the given separator.
    pub fn new(source: Vec<char>, context_length: usize, splitter: Option<Vec<char>>) -> (r:
        TextSplitter)
        ensures
            r.wf(),
            r.spec_rest() == source@,
            r.spec_l() == context_length as nat,
            r.spec_sep() == match splitter {
                Some(v) => Some(v@),
                None => None::<Seq<char>>,
            },
    {
        let r = TextSplitter { source, pos: 0, context_length, splitter };
        proof {
            assert(r.spec_rest() =~= r.source@);
        }
        r
    }

    /// Emits the next segment, or `None` when the input is exhausted.
    /// Exactly the segments of `spec_split_chunks`, in order.
    pub fn next(&mut self) -> (r: Option<String>)
        requires
            old(self).wf(),
        ensures
            final(self).wf(),
            final(self).spec_l() == old(self).spec_l(),
            final(self).spec_sep() == old(self).spec_sep(),
            match spec_split_next(
                old(self).spec_rest(),
                Seq::<char>::empty(),
                old(self).spec_l(),
                old(self).spec_sep(),
            ) {
                None => r is None && final(self).spec_rest().len() == 0,
                Some((chunk, rem)) => {
                    &&& r is Some
                    &&& r.unwrap()@ == chunk
                    &&& final(self).spec_rest() == rem
                    &&& final(self).spec_rest().len() < old(self).spec_rest().len()
                },
            },
    {
        let mut buf: Vec<char> = Vec::new();
        let l = self.context_length;
        loop
            invariant
                self.wf(),
                self.context_length == old(self).context_length,
                self.source == old(self).source,
                self.splitter == old(self).splitter,
                self.pos >= old(self).pos,
                buf@.len() > 0 ==> self.pos > old(self).pos,
                spec_split_next(
                    old(self).spec_rest(),
                    Seq::<char>::empty(),
                    old(self).spec_l(),
                    old(self).spec_sep(),
                ) == spec_split_next(self.spec_rest(), buf@, self.spec_l(), self.spec_sep()),
                l == self.context_length,
            decreases self.source@.len() - self.pos,
        {
            let ghost r0 = self.spec_rest();
            let ghost b0 = buf@;
            if self.pos == self.source.len() {
                if buf.len() == 0 {
                    return None;
                } else {
                    return Some(string_from_chars(&buf));
                }
            }
            let c = self.source[self.pos];
            self.pos = self.pos + 1;
            proof {
                assert(r0[0] == c);
                assert(self.spec_rest() =~= r0.drop_first());
            }
            buf.push(c);
            let matched = match &self.splitter {
                Some(sep) => chars_end_with(&buf, sep),
                None => false,
            };
            proof {
                assert(matched == (self.spec_sep() is Some && spec_ends_with(
                    buf@,
                    self.spec_sep().unwrap(),
                )));
            }
            if matched {
                trim_trailing_newlines(&mut buf);
                if buf.len() == 0 {
                    proof {
                        assert(buf@ =~= Seq::<char>::empty());
                        assert(spec_split_next(r0, b0, l as nat, self.spec_sep())
                            == spec_split_next(self.spec_rest(), buf@, l as nat, self.spec_sep()));
                    }
                } else {
                    return Some(string_from_chars(&buf));
                }
            } else {
                if buf.len() > l {
                    let blank = crate::strutil::all_ws(&buf);
                    if !blank {
                        return Some(string_from_chars(&buf));
                    }
                }
                proof {
                    assert(spec_all_ws(buf@) == (forall|j: int|
                        0 <= j < buf@.len() ==> spec_is_ws(buf@[j])));
                }
                proof {
                    assert(spec_split_next(r0, b0, l as nat, self.spec_sep()) == spec_split_next(
                        self.spec_rest(),
                        buf@,
                        l as nat,
                        self.spec_sep(),
                    ));
                }
            }
        }
    }
}

/// The next segment the splitter emits, with the input left after it.
pub open spec fn spec_split_next(
    rest: Seq<char>,
    buf: Seq<char>,
    l: nat,
    sep: Option<Seq<char>>,
) -> Option<(Seq<char>, Seq<char>)>
    decreases rest.len(),
{
    if rest.len() == 0 {
        if buf.len() == 0 {
            None
        } else {
            Some((buf, rest))
        }
    } else {
        let rest2 = rest.drop_first();
        let buf2 = buf.push(rest[0]);
        if sep is Some && spec_ends_with(buf2, sep.unwrap()) {
            let t = spec_trim_trailing_newlines(buf2);
            if t.len() == 0 {
                spec_split_next(rest2, Seq::empty(), l, sep)
            } else {
                Some((t, rest2))
            }
        } else if buf2.len() > l && !spec_all_ws(buf2) {
            Some((buf2, rest2))
        } else {
            spec_split_next(rest2, buf2, l, sep)
        }
    }
}

/// The full segment list is the next segment followed by the segments of
/// what remains.
proof fn lemma_split_chunks_unfold(rest: Seq<char>, buf: Seq<char>, l: nat, sep: Option<Seq<char>>)
    ensures
        spec_split_chunks(rest, buf, l, sep) == match spec_split_next(rest, buf, l, sep) {
            None => Seq::<Seq<char>>::empty(),
            Some((chunk, rem)) => seq![chunk] + spec_split_chunks(
                rem,
                Seq::<char>::empty(),
                l,
                sep,
            ),
        },
    decreases rest.len(),
{
    if rest.len() == 0 {
        if buf.len() > 0 {
            assert(spec_split_chunks(rest, Seq::<char>::empty(), l, sep) =~= Seq::<
                Seq<char>,
            >::empty());
            assert(seq![buf] =~= seq![buf] + spec_split_chunks(rest, Seq::<char>::empty(), l, sep));
        }
    } else {
        let rest2 = rest.drop_first();
        let buf2 = buf.push(rest[0]);
        if sep is Some && spec_ends_with(buf2, sep.unwrap()) {
            let t = spec_trim_trailing_newlines(buf2);
            if t.len() == 0 {
                lemma_split_chunks_unfold(rest2, Seq::<char>::empty(), l, sep);
            }
        } else if buf2.len() > l && !spec_all_ws(buf2) {
        } else {
            lemma_split_chunks_unfold(rest2, buf2, l, sep);
        }
    }
}

/// Runs the splitter over `source` and collects every emitted segment.
pub fn split_text(source: Vec<char>, context_length: usize, splitter: Option<Vec<char>>) -> (r:
    Vec<String>)
    ensures
        spec_views(r@) == spec_split_chunks(
            source@,
            Seq::<char>::empty(),
            context_length as nat,
            match splitter {
                Some(v) => Some(v@),
                None => None::<Seq<char>>,
            },
        ),
{
    let ghost src = source@;
    let ghost l = context_length as nat;
    let ghost sep = match &splitter {
        Some(v) => Some(v@),
        None => None::<Seq<char>>,
    };
    let mut sp = TextSplitter::new(source, context_length, splitter);
    let mut r: Vec<String> = Vec::new();
    proof {
        assert(spec_views(r@) =~= Seq::<Seq<char>>::empty());
        assert(Seq::<Seq<char>>::empty() + spec_split_chunks(src, Seq::<char>::empty(), l, sep)
            =~= spec_split_chunks(src, Seq::<char>::empty(), l, sep));
    }
    loop
        invariant
            sp.wf(),
            sp.spec_l() == l,
            sp.spec_sep() == sep,
            src == source@,
            l == context_length as nat,
            sep == match splitter {
                Some(v) => Some(v@),
                None => None::<Seq<char>>,
            },
            spec_split_chunks(src, Seq::<char>::empty(), l, sep) == spec_views(r@)
                + spec_split_chunks(sp.spec_rest(), Seq::<char>::empty(), l, sep),
        decreases sp.spec_rest().len() + 1,
    {
        let ghost rest0 = sp.spec_rest();
        match sp.next() {
            None => {
                proof {
                    lemma_split_chunks_unfold(rest0, Seq::<char>::empty(), l, sep);
                    assert(spec_split_chunks(src, Seq::<char>::empty(), l, sep) =~= spec_views(r@));
                }
                return r;
            },
            Some(s) => {
                proof {
                    lemma_split_chunks_unfold(rest0, Seq::<char>::empty(), l, sep);
                }
                let ghost before = r@;
                r.push(s);
                proof {
                    assert(spec_views(r@) =~= spec_views(before).push(s@));
                    assert(spec_split_chunks(src, Seq::<char>::empty(), l, sep) =~= spec_views(r@)
                        + spec_split_chunks(sp.spec_rest(), Seq::<char>::empty(), l, sep));
                }
            },
        }
    }
}

proof fn lemma_concat_all_cons(x: Seq<char>, cs: Seq<Seq<char>>)
    ensures
        spec_concat(seq![x] + cs) == x + spec_concat(cs),
{
    assert((seq![x] + cs)[0] == x);
    assert((seq![x] + cs).drop_first() =~= cs);
}

/// Does `sub` occur anywhere in `s`?
pub open spec fn spec_occurs(s: Seq<char>, sub: Seq<char>) -> bool {
    exists|i: int|
        0 <= i <= s.len() - sub.len() && (#[trigger] s.subrange(i, i + sub.len() as int)) == sub
}

/// A buffer built from a prefix of text in which the separator never
/// occurs never ends with the separator.
proof fn lemma_no_occurrence_no_suffix(s: Seq<char>, k: int, sep: Seq<char>)
    requires
        0 <= k <= s.len(),
        !spec_occurs(s, sep),
    ensures
        !spec_ends_with(s.take(k), sep),
{
    if spec_ends_with(s.take(k), sep) {
        let i = k - sep.len();
        assert(s.subrange(i, i + sep.len() as int) =~= s.take(k).skip(
            s.take(k).len() as int - sep.len() as int,
        ));
        assert(spec_occurs(s, sep));
    }
}

/// A separator absent from a text is absent from every suffix of it.
proof fn lemma_no_occurs_suffix(s: Seq<char>, k: int, sub: Seq<char>)
    requires
        0 <= k <= s.len(),
        !spec_occurs(s, sub),
    ensures
        !spec_occurs(s.skip(k), sub),
{
    if spec_occurs(s.skip(k), sub) {
        let i = choose|i: int|
            0 <= i <= s.skip(k).len() - sub.len() && (#[trigger] s.skip(k).subrange(
                i,
                i + sub.len() as int,
            )) == sub;
        assert(s.subrange(k + i, k + i + sub.len() as int) =~= s.skip(k).subrange(
            i,
            i + sub.len() as int,
        ));
        assert(spec_occurs(s, sub));
    }
}

/// From a buffer that is a prefix of the text and a separator that never
/// occurs in the text, every character reaches the output: the splitter
/// only places cuts.
proof fn lemma_split_concat_id(rest: Seq<char>, buf: Seq<char>, l: nat, sep: Option<Seq<char>>)
    requires
        sep is Some ==> !spec_occurs(buf + rest, sep.unwrap()),
    ensures
        spec_concat(spec_split_chunks(rest, buf, l, sep)) == buf + rest,
    decreases rest.len(),
{
    if rest.len() == 0 {
        if buf.len() == 0 {
            assert(buf + rest =~= Seq::<char>::empty());
        } else {
            lemma_concat_all_cons(buf, Seq::<Seq<char>>::empty());
            assert(seq![buf] =~= seq![buf] + Seq::<Seq<char>>::empty());
            assert(buf + spec_concat(Seq::<Seq<char>>::empty()) =~= buf + rest);
        }
    } else {
        let rest2 = rest.drop_first();
        let buf2 = buf.push(rest[0]);
        assert(buf2 + rest2 =~= buf + rest);
        if sep is Some {
            lemma_no_occurrence_no_suffix(buf + rest, buf2.len() as int, sep.unwrap());
            assert((buf + rest).take(buf2.len() as int) =~= buf2);
        }
        if sep is Some && spec_ends_with(buf2, sep.unwrap()) {
            assert(false);
        } else if buf2.len() > l && !spec_all_ws(buf2) {
            assert(Seq::<char>::empty() + rest2 =~= rest2);
            if sep is Some {
                lemma_no_occurs_suffix(buf + rest, buf2.len() as int, sep.unwrap());
                assert((buf + rest).skip(buf2.len() as int) =~= rest2);
            }
            lemma_split_concat_id(rest2, Seq::<char>::empty(), l, sep);
            lemma_concat_all_cons(buf2, spec_split_chunks(rest2, Seq::<char>::empty(), l, sep));
            assert(buf2 + rest2 =~= buf + rest);
        } else {
            lemma_split_concat_id(rest2, buf2, l, sep);
        }
    }
}

/// No segment in `cs` is empty.
pub open spec fn spec_all_nonempty(cs: Seq<Seq<char>>) -> bool {
    forall|i: int| 0 <= i < cs.len() ==> (#[trigger] cs[i]).len() >= 1
}

/// Law: the splitter never emits an empty segment — a separator match
/// that trims to nothing dissolves, and an empty final buffer is not
/// emitted.
pub proof fn lemma_splitter_segments_nonempty(
    rest: Seq<char>,
    buf: Seq<char>,
    l: nat,
    sep: Option<Seq<char>>,
)
    ensures
        spec_all_nonempty(spec_split_chunks(rest, buf, l, sep)),
    decreases rest.len(),
{
    if rest.len() == 0 {
    } else {
        let rest2 = rest.drop_first();
        let buf2 = buf.push(rest[0]);
        if sep is Some && spec_ends_with(buf2, sep.unwrap()) {
            let t = spec_trim_trailing_newlines(buf2);
            lemma_splitter_segments_nonempty(rest2, Seq::<char>::empty(), l, sep);
            if t.len() > 0 {
                let cs = seq![t] + spec_split_chunks(rest2, Seq::<char>::empty(), l, sep);
                assert forall|i: int| 0 <= i < cs.len() implies (#[trigger] cs[i]).len() >= 1 by {
                    if i > 0 {
                        assert(cs[i] == spec_split_chunks(rest2, Seq::<char>::empty(), l, sep)[i
                            - 1]);
                    }
                }
            }
        } else if buf2.len() > l && !spec_all_ws(buf2) {
            lemma_splitter_segments_nonempty(rest2, Seq::<char>::empty(), l, sep);
            let cs = seq![buf2] + spec_split_chunks(rest2, Seq::<char>::empty(), l, sep);
            assert forall|i: int| 0 <= i < cs.len() implies (#[trigger] cs[i]).len() >= 1 by {
                if i > 0 {
                    assert(cs[i] == spec_split_chunks(rest2, Seq::<char>::empty(), l, sep)[i - 1]);
                }
            }
        } else {
            lemma_splitter_segments_nonempty(rest2, buf2, l, sep);
        }
    }
}

/// A text that fits the budget and never shows the separator comes out
/// as exactly one segment: itself.
proof fn lemma_split_single(rest: Seq<char>, buf: Seq<char>, l: nat, sep: Option<Seq<char>>)
    requires
        sep is Some ==> !spec_occurs(buf + rest, sep.unwrap()),
        buf.len() + rest.len() <= l,
        buf.len() + rest.len() > 0,
    ensures
        spec_split_chunks(rest, buf, l, sep) == seq![buf + rest],
    decreases rest.len(),
{
    if rest.len() == 0 {
        assert(buf + rest =~= buf);
    } else {
        let rest2 = rest.drop_first();
        let buf2 = buf.push(rest[0]);
        assert(buf2 + rest2 =~= buf + rest);
        if sep is Some {
            lemma_no_occurrence_no_suffix(buf + rest, buf2.len() as int, sep.unwrap());
            assert((buf + rest).take(buf2.len() as int) =~= buf2);
        }
        lemma_split_single(rest2, buf2, l, sep);
    }
}

/// The blank-line separator ingestion splits at.
pub open spec fn spec_blank_line() -> Seq<char> {
    seq!['\n', '\n']
}

/// Scanning the first paragraph: with the separator nowhere in it, its
/// last character no newline, and room in the budget, the scan reaches
/// the blank line without emitting, emits the paragraph there, and the
/// second paragraph follows whole.
proof fn lemma_split_para_walk(a: Seq<char>, b: Seq<char>, k: int, l: nat)
    requires
        0 <= k <= a.len(),
        0 < a.len(),
        a.len() + 1 <= l,
        a.last() != '\n',
        !spec_occurs(a, spec_blank_line()),
        0 < b.len() <= l,
        !spec_occurs(b, spec_blank_line()),
    ensures
        spec_split_chunks(a.skip(k) + spec_blank_line() + b, a.take(k), l, Some(spec_blank_line()))
            == seq![a, b],
    decreases a.len() - k,
{
    let pair = spec_blank_line();
    if k == a.len() {
        let rest = a.skip(k) + pair + b;
        let buf = a.take(k);
        assert(buf =~= a);
        assert(rest[0] == '\n');
        let rest2 = rest.drop_first();
        assert(rest2 =~= seq!['\n'] + b);
        let buf2 = buf.push('\n');
        assert(buf2.len() >= 2);
        if spec_ends_with(buf2, pair) {
            assert(buf2.skip(buf2.len() as int - 2)[0] == a.last());
            assert(false);
        }
        assert(buf2.len() <= l);
        assert(spec_split_chunks(rest, buf, l, Some(pair)) == spec_split_chunks(
            rest2,
            buf2,
            l,
            Some(pair),
        ));
        // the second newline completes the blank line
        assert(rest2[0] == '\n');
        let rest3 = rest2.drop_first();
        assert(rest3 =~= b);
        let buf3 = buf2.push('\n');
        assert(buf3.skip(buf3.len() as int - 2) =~= pair);
        assert(spec_ends_with(buf3, pair));
        assert(buf3.drop_last() =~= a.push('\n'));
        assert(a.push('\n').drop_last() =~= a);
        assert(spec_trim_trailing_newlines(buf3) == spec_trim_trailing_newlines(a.push('\n')));
        assert(spec_trim_trailing_newlines(a.push('\n')) == spec_trim_trailing_newlines(a));
        assert(spec_trim_trailing_newlines(a) == a);
        assert(Seq::<char>::empty() + b =~= b);
        lemma_split_single(b, Seq::<char>::empty(), l, Some(pair));
        assert(spec_split_chunks(rest2, buf2, l, Some(pair)) == seq![a] + spec_split_chunks(
            rest3,
            Seq::<char>::empty(),
            l,
            Some(pair),
        ));
        assert(seq![a] + seq![Seq::<char>::empty() + b] =~= seq![a, b]);
    } else {
        let rest = a.skip(k) + pair + b;
        let buf = a.take(k);
        assert(rest[0] == a[k]);
        let rest2 = rest.drop_first();
        assert(rest2 =~= a.skip(k + 1) + pair + b);
        let buf2 = buf.push(a[k]);
        assert(buf2 =~= a.take(k + 1));
        lemma_no_occurrence_no_suffix(a, k + 1, pair);
        assert(!spec_ends_with(buf2, pair));
        assert(buf2.len() <= l);
        lemma_split_para_walk(a, b, k + 1, l);
        assert(spec_split_chunks(rest, buf, l, Some(pair)) == spec_split_chunks(
            rest2,
            buf2,
            l,
            Some(pair),
        ));
    }
}

/// Law: a text of exactly two paragraphs separated by one blank line —
/// the separator occurring nowhere else, the first paragraph not ending
/// in a newline, each paragraph within the budget — splits into exactly
/// the two paragraphs, in order, the blank line stripped away.
pub proof fn lemma_splitter_two_paragraphs(a: Seq<char>, b: Seq<char>, l: nat)
    requires
        0 < a.len(),
        a.len() + 1 <= l,
        a.last() != '\n',
        !spec_occurs(a, spec_blank_line()),
        0 < b.len() <= l,
        !spec_occurs(b, spec_blank_line()),
    ensures
        spec_split_chunks(
            a + spec_blank_line() + b,
            Seq::<char>::empty(),
            l,
            Some(spec_blank_line()),
        ) == seq![a, b],
{
    lemma_split_para_walk(a, b, 0, l);
    assert(a.skip(0) + spec_blank_line() + b =~= a + spec_blank_line() + b);
    assert(a.take(0) =~= Seq::<char>::empty());
}

/// Law: when no separator is configured, or the separator never occurs
/// in the text, concatenating the splitter's segments reproduces the
/// input exactly: the splitter only places cuts.
pub proof fn lemma_splitter_covers_input(source: Seq<char>, l: nat, sep: Option<Seq<char>>)
    requires
        sep is Some ==> !spec_occurs(source, sep.unwrap()),
    ensures
        spec_concat(spec_split_chunks(source, Seq::<char>::empty(), l, sep)) == source,
{
    if sep is Some {
        assert(Seq::<char>::empty() + source =~= source);
    }
    lemma_split_concat_id(source, Seq::<char>::empty(), l, sep);
    assert(Seq::<char>::empty() + source =~= source);
}

} // verus!
