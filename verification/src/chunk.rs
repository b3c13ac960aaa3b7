//! The chunker: split extracted text into bounded segments.
//!
//! The lexer scans characters one at a time into a buffer and emits it
//! * when a blank line (`"\n\n"`) completes — trailing newlines trimmed,
//! * when a sentence ends (`'.'`) and no further sentence end fits in
//!   the remaining budget,
//! * when the buffer outgrows the budget `L` — at most one character
//!   over, forced by an unbroken run.
//!
//! A bare newline that does not open a blank line is normalized to one
//! space. The final partial buffer is always emitted; no empty segment
//! ever is. The lexer consumes its input exactly once and cannot be
//! rewound.

use vstd::prelude::*;
use crate::strutil::{spec_trim_trailing_newlines, spec_views, string_from_chars,
    trim_trailing_newlines};

verus! {

/// Does `s` contain a sentence terminator?
pub open spec fn spec_has_dot(s: Seq<char>) -> bool {
    exists|i: int| 0 <= i < s.len() && s[i] == '.'
}

/// The room left in the budget for a buffer already `buflen` long.
pub open spec fn spec_room(buflen: nat, l: nat) -> nat {
    if buflen >= l {
        0
    } else {
        (l - buflen) as nat
    }
}

/// The unread text in which another sentence end would still fit.
pub open spec fn spec_window(rest: Seq<char>, buflen: nat, l: nat) -> Seq<char> {
    let room = spec_room(buflen, l);
    if room <= rest.len() {
        rest.take(room as int)
    } else {
        rest
    }
}

/// Emit at a sentence end exactly when no further terminator lies within
/// the remaining budget.
pub open spec fn spec_sentence_break(rest: Seq<char>, buflen: nat, l: nat) -> bool {
    !spec_has_dot(spec_window(rest, buflen, l))
}

/// Every segment the lexer emits for the unread text `rest` with the
/// buffer `buf` accumulated, in order. One character is consumed per
/// step; the rules apply in order: blank line, sentence end, newline
/// handling, budget.
pub open spec fn spec_chunks(rest: Seq<char>, buf: Seq<char>, l: nat) -> Seq<Seq<char>>
    decreases rest.len(),
{
    if rest.len() == 0 {
        if buf.len() == 0 {
            Seq::empty()
        } else {
            seq![buf]
        }
    } else {
        let c = rest[0];
        let rest2 = rest.drop_first();
        let buf2 = buf.push(c);
        if c == '\n' && buf.len() > 0 && buf.last() == '\n' {
            let t = spec_trim_trailing_newlines(buf2);
            if t.len() == 0 {
                spec_chunks(rest2, Seq::empty(), l)
            } else {
                seq![t] + spec_chunks(rest2, Seq::empty(), l)
            }
        } else if c == '.' && spec_sentence_break(rest2, buf2.len(), l) {
            seq![buf2] + spec_chunks(rest2, Seq::empty(), l)
        } else if c == '\n' && rest2.len() > 0 && rest2[0] == '\n' {
            spec_chunks(rest2, buf2, l)
        } else if c == '\n' {
            let buf3 = buf.push(' ');
            if buf3.len() > l {
                seq![buf3] + spec_chunks(rest2, Seq::empty(), l)
            } else {
                spec_chunks(rest2, buf3, l)
            }
        } else if buf2.len() > l {
            seq![buf2] + spec_chunks(rest2, Seq::empty(), l)
        } else {
            spec_chunks(rest2, buf2, l)
        }
    }
}

/// The next segment the lexer emits, with the input left after it, or
/// `None` when the rest of the input dissolves without a segment.
pub open spec fn spec_next(rest: Seq<char>, buf: Seq<char>, l: nat) -> Option<
    (Seq<char>, Seq<char>),
>
    decreases rest.len(),
{
    if rest.len() == 0 {
        if buf.len() == 0 {
            None
        } else {
            Some((buf, rest))
        }
    } else {
        let c = rest[0];
        let rest2 = rest.drop_first();
        let buf2 = buf.push(c);
        if c == '\n' && buf.len() > 0 && buf.last() == '\n' {
            let t = spec_trim_trailing_newlines(buf2);
            if t.len() == 0 {
                spec_next(rest2, Seq::empty(), l)
            } else {
                Some((t, rest2))
            }
        } else if c == '.' && spec_sentence_break(rest2, buf2.len(), l) {
            Some((buf2, rest2))
        } else if c == '\n' && rest2.len() > 0 && rest2[0] == '\n' {
            spec_next(rest2, buf2, l)
        } else if c == '\n' {
            let buf3 = buf.push(' ');
            if buf3.len() > l {
                Some((buf3, rest2))
            } else {
                spec_next(rest2, buf3, l)
            }
        } else if buf2.len() > l {
            Some((buf2, rest2))
        } else {
            spec_next(rest2, buf2, l)
        }
    }
}

/// The chunker's scanning state: the text, how much of it is consumed,
/// and the budget.
pub struct Lexer {
    source: Vec<char>,
    pos: usize,
    context_length: usize,
}

impl Lexer {
    /// The unread input.
    pub closed spec fn spec_rest(&self) -> Seq<char> {
        self.source@.skip(self.pos as int)
    }

    /// The configured budget.
    pub closed spec fn spec_l(&self) -> nat {
        self.context_length as nat
    }

    /// The consumed prefix never outruns the text.
    pub closed spec fn wf(&self) -> bool {
        self.pos <= self.source@.len()
    }

    /// A lexer at the start of `source` with budget `context_length`.
    pub fn new(source: Vec<char>, context_length: usize) -> (r: Lexer)
        ensures
            r.wf(),
            r.spec_rest() == source@,
            r.spec_l() == context_length as nat,
    {
        let r = Lexer { source, pos: 0, context_length };
        proof {
            assert(r.spec_rest() =~= r.source@);
        }
        r
    }

    /// Emits the next segment: exactly the one the scanning rules name
    /// for the unread input, leaving exactly the input after it; `None`
    /// exactly when no segment remains, the input then fully consumed.
    pub fn next(&mut self) -> (r: Option<String>)
        requires
            old(self).wf(),
        ensures
            final(self).wf(),
            final(self).spec_l() == old(self).spec_l(),
            match spec_next(old(self).spec_rest(), Seq::<char>::empty(), old(self).spec_l()) {
                None => r is None && final(self).spec_rest().len() == 0,
                Some((chunk, rem)) => {
                    &&& r is Some
                    &&& r.unwrap()@ == chunk
                    &&& final(self).spec_rest() == rem
                    &&& final(self).spec_rest().len() < old(self).spec_rest().len()
                },
            },
    {
        let mut buf: Vec<char> = Vec::new();
        let l = self.context_length;
        loop
            invariant
                self.wf(),
                self.context_length == old(self).context_length,
                self.source == old(self).source,
                self.pos >= old(self).pos,
                buf@.len() > 0 ==> self.pos > old(self).pos,
                spec_next(old(self).spec_rest(), Seq::<char>::empty(), old(self).spec_l())
                    == spec_next(self.spec_rest(), buf@, self.spec_l()),
                l == self.context_length,
            decreases self.source@.len() - self.pos,
        {
            let ghost r0 = self.spec_rest();
            let ghost b0 = buf@;
            if self.pos == self.source.len() {
                proof {
                    assert(r0.len() == 0);
                }
                if buf.len() == 0 {
                    return None;
                } else {
                    return Some(string_from_chars(&buf));
                }
            }
            let c = self.source[self.pos];
            self.pos = self.pos + 1;
            proof {
                assert(r0[0] == c);
                assert(self.spec_rest() =~= r0.drop_first());
            }
            if c == '\n' {
                if buf.len() > 0 && buf[buf.len() - 1] == '\n' {
                    proof {
                        assert(b0.push('\n').drop_last() =~= b0);
                        assert(spec_trim_trailing_newlines(b0.push('\n'))
                            == spec_trim_trailing_newlines(b0));
                    }
                    trim_trailing_newlines(&mut buf);
                    if buf.len() == 0 {
                        // a blank-line run dissolved entirely; keep scanning
                        proof {
                            assert(buf@ =~= Seq::<char>::empty());
                            assert(spec_next(r0, b0, l as nat) == spec_next(
                                self.spec_rest(),
                                buf@,
                                l as nat,
                            ));
                        }
                    } else {
                        return Some(string_from_chars(&buf));
                    }
                } else if self.pos < self.source.len() && self.source[self.pos] == '\n' {
                    proof {
                        assert(self.spec_rest()[0] == '\n');
                    }
                    buf.push('\n');
                    proof {
                        assert(spec_next(r0, b0, l as nat) == spec_next(
                            self.spec_rest(),
                            buf@,
                            l as nat,
                        ));
                    }
                } else {
                    buf.push(' ');
                    if buf.len() > l {
                        return Some(string_from_chars(&buf));
                    }
                    proof {
                        assert(spec_next(r0, b0, l as nat) == spec_next(
                            self.spec_rest(),
                            buf@,
                            l as nat,
                        ));
                    }
                }
            } else {
                buf.push(c);
                if c == '.' {
                    let room = if buf.len() >= l {
                        0
                    } else {
                        l - buf.len()
                    };
                    proof {
                        assert(room as nat == spec_room(buf@.len(), l as nat));
                        assert(spec_window(self.spec_rest(), 0, room as nat) =~= spec_window(
                            self.spec_rest(),
                            buf@.len(),
                            l as nat,
                        ));
                    }
                    if !self.window_has_dot(room) {
                        return Some(string_from_chars(&buf));
                    }
                }
                if buf.len() > l {
                    return Some(string_from_chars(&buf));
                }
                proof {
                    assert(spec_next(r0, b0, l as nat) == spec_next(
                        self.spec_rest(),
                        buf@,
                        l as nat,
                    ));
                }
            }
        }
    }

    /// Does a sentence end lie within the next `room` unread characters?
    fn window_has_dot(&self, room: usize) -> (r: bool)
        requires
            self.wf(),
        ensures
            r == spec_has_dot(spec_window(self.spec_rest(), 0, room as nat)),
    {
        let n = self.source.len();
        let remaining = n - self.pos;
        let win = if room < remaining {
            room
        } else {
            remaining
        };
        let ghost w = spec_window(self.spec_rest(), 0, room as nat);
        proof {
            assert(w =~= self.spec_rest().take(win as int));
            assert(w.len() == win);
        }
        let mut i: usize = 0;
        while i < win
            invariant
                i <= win,
                n == self.source@.len(),
                win <= n - self.pos,
                self.wf(),
                w == spec_window(self.spec_rest(), 0, room as nat),
                w == self.spec_rest().take(win as int),
                w.len() == win,
                forall|j: int| 0 <= j < i ==> w[j] != '.',
            decreases win - i,
        {
            if self.source[self.pos + i] == '.' {
                proof {
                    assert(w[i as int] == '.');
                    assert(spec_has_dot(w));
                }
                return true;
            }
            i = i + 1;
        }
        proof {
            assert(!spec_has_dot(w));
        }
        false
    }
}

/// Runs the lexer over `source` and collects every emitted segment.
pub fn chunk_text(source: Vec<char>, context_length: usize) -> (r: Vec<String>)
    ensures
        spec_views(r@) == spec_chunks(source@, Seq::<char>::empty(), context_length as nat),
{
    let ghost src = source@;
    let ghost l = context_length as nat;
    let mut lx = Lexer::new(source, context_length);
    let mut r: Vec<String> = Vec::new();
    proof {
        assert(spec_views(r@) =~= Seq::<Seq<char>>::empty());
        assert(Seq::<Seq<char>>::empty() + spec_chunks(src, Seq::<char>::empty(), l)
            =~= spec_chunks(src, Seq::<char>::empty(), l));
    }
    loop
        invariant
            lx.wf(),
            lx.spec_l() == l,
            src == source@,
            l == context_length as nat,
            spec_chunks(src, Seq::<char>::empty(), l) == spec_views(r@) + spec_chunks(
                lx.spec_rest(),
                Seq::<char>::empty(),
                l,
            ),
        decreases lx.spec_rest().len() + 1,
    {
        let ghost rest0 = lx.spec_rest();
        match lx.next() {
            None => {
                proof {
                    lemma_chunks_unfold(rest0, Seq::<char>::empty(), l);
                    assert(spec_chunks(src, Seq::<char>::empty(), l) =~= spec_views(r@));
                }
                return r;
            },
            Some(s) => {
                proof {
                    lemma_chunks_unfold(rest0, Seq::<char>::empty(), l);
                }
                let ghost before = r@;
                r.push(s);
                proof {
                    assert(spec_views(r@) =~= spec_views(before).push(s@));
                    assert(spec_chunks(src, Seq::<char>::empty(), l) =~= spec_views(r@)
                        + spec_chunks(lx.spec_rest(), Seq::<char>::empty(), l));
                }
            },
        }
    }
}

/// The text as the chunker's normalization leaves it: each blank-line
/// pair vanishes (the paragraph break is trimmed away), and each bare
/// newline becomes one space.
pub open spec fn spec_normalize(s: Seq<char>) -> Seq<char>
    decreases s.len(),
{
    if s.len() == 0 {
        Seq::empty()
    } else if s[0] == '\n' {
        if s.len() >= 2 && s[1] == '\n' {
            spec_normalize(s.skip(2))
        } else {
            seq![' '] + spec_normalize(s.drop_first())
        }
    } else {
        seq![s[0]] + spec_normalize(s.drop_first())
    }
}

/// All segments, concatenated in order.
pub open spec fn spec_concat(cs: Seq<Seq<char>>) -> Seq<char>
    decreases cs.len(),
{
    if cs.len() == 0 {
        Seq::empty()
    } else {
        cs[0] + spec_concat(cs.drop_first())
    }
}

proof fn lemma_concat_cons(x: Seq<char>, cs: Seq<Seq<char>>)
    ensures
        spec_concat(seq![x] + cs) == x + spec_concat(cs),
{
    assert((seq![x] + cs)[0] == x);
    assert((seq![x] + cs).drop_first() =~= cs);
}

/// Concatenation takes one more segment at the end as one more suffix.
pub proof fn lemma_concat_snoc(cs: Seq<Seq<char>>, x: Seq<char>)
    ensures
        spec_concat(cs.push(x)) == spec_concat(cs) + x,
    decreases cs.len(),
{
    if cs.len() == 0 {
        assert(cs.push(x)[0] == x);
        assert(cs.push(x).drop_first() =~= Seq::<Seq<char>>::empty());
        assert(x + spec_concat(Seq::<Seq<char>>::empty()) =~= x);
        assert(spec_concat(cs) + x =~= x);
    } else {
        lemma_concat_snoc(cs.drop_first(), x);
        assert(cs.push(x)[0] == cs[0]);
        assert(cs.push(x).drop_first() =~= cs.drop_first().push(x));
        assert(cs[0] + (spec_concat(cs.drop_first()) + x) =~= (cs[0] + spec_concat(
            cs.drop_first(),
        )) + x);
    }
}

/// The buffer is in a lawful scanning state: it ends with a newline only
/// while that newline opens a blank line whose second newline is the
/// very next character.
pub open spec fn spec_buf_wf(rest: Seq<char>, buf: Seq<char>) -> bool {
    buf.len() > 0 && buf.last() == '\n' ==> {
        &&& rest.len() > 0 && rest[0] == '\n'
        &&& (buf.len() < 2 || buf[buf.len() - 2] != '\n')
    }
}

/// What the scanner still owes the output: the buffer (a kept newline
/// handed back to the stream) followed by the normalized unread input.
pub open spec fn spec_pending(rest: Seq<char>, buf: Seq<char>) -> Seq<char> {
    if buf.len() > 0 && buf.last() == '\n' {
        buf.drop_last() + spec_normalize(seq!['\n'] + rest)
    } else {
        buf + spec_normalize(rest)
    }
}

/// Completing a blank line trims the buffer back to what stood before
/// its kept newline.
proof fn lemma_trim_pair(buf: Seq<char>)
    requires
        buf.len() > 0,
        buf.last() == '\n',
        buf.len() < 2 || buf[buf.len() - 2] != '\n',
    ensures
        spec_trim_trailing_newlines(buf.push('\n')) == buf.drop_last(),
{
    assert(buf.push('\n').drop_last() =~= buf);
    assert(spec_trim_trailing_newlines(buf.push('\n')) == spec_trim_trailing_newlines(buf));
    assert(spec_trim_trailing_newlines(buf) == spec_trim_trailing_newlines(buf.drop_last()));
    let b0 = buf.drop_last();
    if b0.len() > 0 {
        assert(b0.last() == buf[buf.len() - 2]);
        assert(b0.last() != '\n');
    }
    assert(spec_trim_trailing_newlines(b0) == b0);
}

/// The concatenation of everything the scanner emits from a lawful state
/// is the pending text.
proof fn lemma_chunks_concat(rest: Seq<char>, buf: Seq<char>, l: nat)
    requires
        spec_buf_wf(rest, buf),
    ensures
        spec_concat(spec_chunks(rest, buf, l)) == spec_pending(rest, buf),
    decreases rest.len(),
{
    if rest.len() == 0 {
        assert(!(buf.len() > 0 && buf.last() == '\n'));
        if buf.len() == 0 {
            assert(spec_pending(rest, buf) =~= Seq::<char>::empty());
        } else {
            lemma_concat_cons(buf, Seq::<Seq<char>>::empty());
            assert(seq![buf] =~= seq![buf] + Seq::<Seq<char>>::empty());
            assert(spec_pending(rest, buf) =~= buf);
            assert(buf + spec_concat(Seq::<Seq<char>>::empty()) =~= buf);
        }
    } else {
        let c = rest[0];
        let rest2 = rest.drop_first();
        let buf2 = buf.push(c);
        if c == '\n' && buf.len() > 0 && buf.last() == '\n' {
            lemma_trim_pair(buf);
            let t = spec_trim_trailing_newlines(buf2);
            assert(t == buf.drop_last());
            lemma_chunks_concat(rest2, Seq::<char>::empty(), l);
            assert(Seq::<char>::empty() + spec_normalize(rest2) =~= spec_normalize(rest2));
            assert((seq!['\n'] + rest).len() >= 2);
            assert((seq!['\n'] + rest)[0] == '\n');
            assert((seq!['\n'] + rest)[1] == '\n');
            assert((seq!['\n'] + rest).skip(2) =~= rest2);
            assert(spec_normalize(seq!['\n'] + rest) == spec_normalize(rest2));
            if t.len() == 0 {
                assert(spec_pending(rest, buf) =~= spec_normalize(rest2));
            } else {
                lemma_concat_cons(t, spec_chunks(rest2, Seq::<char>::empty(), l));
                assert(spec_pending(rest, buf) =~= t + spec_normalize(rest2));
            }
        } else if c == '.' && spec_sentence_break(rest2, buf2.len(), l) {
            assert(!(buf.len() > 0 && buf.last() == '\n'));
            lemma_chunks_concat(rest2, Seq::<char>::empty(), l);
            lemma_concat_cons(buf2, spec_chunks(rest2, Seq::<char>::empty(), l));
            assert(Seq::<char>::empty() + spec_normalize(rest2) =~= spec_normalize(rest2));
            assert(spec_normalize(rest) == seq![c] + spec_normalize(rest2));
            assert(buf2 + spec_normalize(rest2) =~= buf + (seq![c] + spec_normalize(rest2)));
        } else if c == '\n' && rest2.len() > 0 && rest2[0] == '\n' {
            assert(!(buf.len() > 0 && buf.last() == '\n'));
            assert(spec_buf_wf(rest2, buf2));
            lemma_chunks_concat(rest2, buf2, l);
            assert(buf2.drop_last() =~= buf);
            assert(seq!['\n'] + rest2 =~= rest);
            assert(spec_pending(rest2, buf2) == buf + spec_normalize(rest));
        } else if c == '\n' {
            assert(!(buf.len() > 0 && buf.last() == '\n'));
            let buf3 = buf.push(' ');
            assert(!(rest.len() >= 2 && rest[1] == '\n'));
            assert(spec_normalize(rest) == seq![' '] + spec_normalize(rest2));
            if buf3.len() > l {
                lemma_chunks_concat(rest2, Seq::<char>::empty(), l);
                lemma_concat_cons(buf3, spec_chunks(rest2, Seq::<char>::empty(), l));
                assert(Seq::<char>::empty() + spec_normalize(rest2) =~= spec_normalize(rest2));
                assert(buf3 + spec_normalize(rest2) =~= buf + (seq![' '] + spec_normalize(
                    rest2,
                )));
            } else {
                lemma_chunks_concat(rest2, buf3, l);
                assert(buf3 + spec_normalize(rest2) =~= buf + (seq![' '] + spec_normalize(
                    rest2,
                )));
            }
        } else {
            assert(!(buf.len() > 0 && buf.last() == '\n'));
            assert(spec_normalize(rest) == seq![c] + spec_normalize(rest2));
            if buf2.len() > l {
                lemma_chunks_concat(rest2, Seq::<char>::empty(), l);
                lemma_concat_cons(buf2, spec_chunks(rest2, Seq::<char>::empty(), l));
                assert(Seq::<char>::empty() + spec_normalize(rest2) =~= spec_normalize(rest2));
                assert(buf2 + spec_normalize(rest2) =~= buf + (seq![c] + spec_normalize(rest2)));
            } else {
                assert(spec_buf_wf(rest2, buf2));
                lemma_chunks_concat(rest2, buf2, l);
                assert(buf2 + spec_normalize(rest2) =~= buf + (seq![c] + spec_normalize(rest2)));
            }
        }
    }
}

/// Law: concatenating every emitted segment, in order, yields exactly
/// the input text under the chunker's normalization — each blank-line
/// pair removed, each bare newline turned into one space. The whole
/// input is covered once, in order.
pub proof fn lemma_chunker_covers_input(source: Seq<char>, l: nat)
    ensures
        spec_concat(spec_chunks(source, Seq::<char>::empty(), l)) == spec_normalize(source),
{
    lemma_chunks_concat(source, Seq::<char>::empty(), l);
    assert(Seq::<char>::empty() + spec_normalize(source) =~= spec_normalize(source));
}

/// Law: on text without newlines the normalization is the identity, so
/// concatenating the segments reproduces the input exactly.
pub proof fn lemma_normalize_plain_text(source: Seq<char>)
    requires
        forall|i: int| 0 <= i < source.len() ==> source[i] != '\n',
    ensures
        spec_normalize(source) == source,
    decreases source.len(),
{
    if source.len() > 0 {
        lemma_normalize_plain_text(source.drop_first());
        assert(seq![source[0]] + source.drop_first() =~= source);
    }
}

/// Law: empty input yields no segments at all.
pub proof fn lemma_chunker_empty_input(l: nat)
    ensures
        spec_chunks(Seq::<char>::empty(), Seq::<char>::empty(), l) == Seq::<Seq<char>>::empty(),
{
}

/// The buffer never outgrows the budget by more than the one character
/// that forced an emission, and a kept newline is consumed at once.
pub open spec fn spec_buf_bound(rest: Seq<char>, buf: Seq<char>, l: nat) -> bool {
    &&& buf.len() <= l + 1
    &&& buf.len() > l ==> (buf.len() > 0 && buf.last() == '\n' && rest.len() > 0 && rest[0]
        == '\n')
}

/// Trimming never lengthens.
proof fn lemma_trim_len(s: Seq<char>)
    ensures
        spec_trim_trailing_newlines(s).len() <= s.len(),
    decreases s.len(),
{
    if s.len() > 0 && s.last() == '\n' {
        lemma_trim_len(s.drop_last());
    }
}

/// Each segment is non-empty and holds at most `l + 1` characters.
pub open spec fn spec_segments_bounded(cs: Seq<Seq<char>>, l: nat) -> bool {
    forall|i: int|
        0 <= i < cs.len() ==> 1 <= (#[trigger] cs[i]).len() && cs[i].len() <= l + 1
}

/// Every segment emitted from a lawful state is non-empty and holds at
/// most `l + 1` characters.
proof fn lemma_chunks_bounds(rest: Seq<char>, buf: Seq<char>, l: nat)
    requires
        spec_buf_bound(rest, buf, l),
    ensures
        spec_segments_bounded(spec_chunks(rest, buf, l), l),
    decreases rest.len(),
{
    if rest.len() == 0 {
        if buf.len() > 0 {
            assert(spec_chunks(rest, buf, l) =~= seq![buf]);
            assert(spec_chunks(rest, buf, l)[0] == buf);
        }
    } else {
        let c = rest[0];
        let rest2 = rest.drop_first();
        let buf2 = buf.push(c);
        if c == '\n' && buf.len() > 0 && buf.last() == '\n' {
            let t = spec_trim_trailing_newlines(buf2);
            assert(buf2.drop_last() =~= buf);
            assert(spec_trim_trailing_newlines(buf2) == spec_trim_trailing_newlines(buf));
            assert(spec_trim_trailing_newlines(buf) == spec_trim_trailing_newlines(
                buf.drop_last(),
            ));
            assert(buf.drop_last().len() == buf.len() - 1);
            lemma_trim_len(buf.drop_last());
            assert(t.len() <= buf.len() - 1);
            lemma_chunks_bounds(rest2, Seq::<char>::empty(), l);
            if t.len() > 0 {
                let cs = seq![t] + spec_chunks(rest2, Seq::<char>::empty(), l);
                assert(cs[0] == t);
                assert forall|i: int|
                    0 <= i < cs.len() implies 1 <= (#[trigger] cs[i]).len() && cs[i].len() <= l
                    + 1 by {
                    if i > 0 {
                        assert(cs[i] == spec_chunks(rest2, Seq::<char>::empty(), l)[i - 1]);
                    }
                }
                assert(spec_chunks(rest, buf, l) == cs);
            } else {
                assert(spec_chunks(rest, buf, l) == spec_chunks(rest2, Seq::<char>::empty(), l));
            }
        } else if c == '.' && spec_sentence_break(rest2, buf2.len(), l) {
            assert(buf.len() <= l);
            lemma_chunks_bounds(rest2, Seq::<char>::empty(), l);
            let cs = seq![buf2] + spec_chunks(rest2, Seq::<char>::empty(), l);
            assert(cs[0] == buf2);
            assert forall|i: int|
                0 <= i < cs.len() implies 1 <= (#[trigger] cs[i]).len() && cs[i].len() <= l
                + 1 by {
                if i > 0 {
                    assert(cs[i] == spec_chunks(rest2, Seq::<char>::empty(), l)[i - 1]);
                }
            }
            assert(spec_chunks(rest, buf, l) == cs);
        } else if c == '\n' && rest2.len() > 0 && rest2[0] == '\n' {
            assert(buf.len() <= l);
            lemma_chunks_bounds(rest2, buf2, l);
            assert(spec_chunks(rest, buf, l) == spec_chunks(rest2, buf2, l));
        } else if c == '\n' {
            assert(buf.len() <= l);
            let buf3 = buf.push(' ');
            if buf3.len() > l {
                lemma_chunks_bounds(rest2, Seq::<char>::empty(), l);
                let cs = seq![buf3] + spec_chunks(rest2, Seq::<char>::empty(), l);
                assert(cs[0] == buf3);
                assert forall|i: int|
                    0 <= i < cs.len() implies 1 <= (#[trigger] cs[i]).len() && cs[i].len() <= l
                    + 1 by {
                    if i > 0 {
                        assert(cs[i] == spec_chunks(rest2, Seq::<char>::empty(), l)[i - 1]);
                    }
                }
                assert(spec_chunks(rest, buf, l) == cs);
            } else {
                lemma_chunks_bounds(rest2, buf3, l);
                assert(spec_chunks(rest, buf, l) == spec_chunks(rest2, buf3, l));
            }
        } else {
            assert(buf.len() <= l);
            if buf2.len() > l {
                lemma_chunks_bounds(rest2, Seq::<char>::empty(), l);
                let cs = seq![buf2] + spec_chunks(rest2, Seq::<char>::empty(), l);
                assert(cs[0] == buf2);
                assert forall|i: int|
                    0 <= i < cs.len() implies 1 <= (#[trigger] cs[i]).len() && cs[i].len() <= l
                    + 1 by {
                    if i > 0 {
                        assert(cs[i] == spec_chunks(rest2, Seq::<char>::empty(), l)[i - 1]);
                    }
                }
                assert(spec_chunks(rest, buf, l) == cs);
            } else {
                lemma_chunks_bounds(rest2, buf2, l);
                assert(spec_chunks(rest, buf, l) == spec_chunks(rest2, buf2, l));
            }
        }
    }
}

/// Law: every emitted segment is non-empty, and none exceeds the budget
/// by more than the single character whose arrival forced the emission.
pub proof fn lemma_chunker_segments_bounded(source: Seq<char>, l: nat)
    ensures
        spec_segments_bounded(spec_chunks(source, Seq::<char>::empty(), l), l),
{
    lemma_chunks_bounds(source, Seq::<char>::empty(), l);
}

/// A short plain run emits exactly one segment: the input itself.
proof fn lemma_chunks_single(rest: Seq<char>, buf: Seq<char>, l: nat)
    requires
        buf.len() + rest.len() <= l,
        buf.len() + rest.len() > 0,
        forall|i: int| 0 <= i < buf.len() ==> buf[i] != '\n' && buf[i] != '.',
        forall|i: int| 0 <= i < rest.len() ==> rest[i] != '\n',
        forall|i: int| 0 <= i < rest.len() - 1 ==> rest[i] != '.',
    ensures
        spec_chunks(rest, buf, l) == seq![buf + rest],
    decreases rest.len(),
{
    if rest.len() == 0 {
        assert(buf + rest =~= buf);
    } else {
        let c = rest[0];
        let rest2 = rest.drop_first();
        let buf2 = buf.push(c);
        assert(c != '\n');
        assert(buf.len() == 0 || buf.last() != '\n');
        if c == '.' {
            assert(rest.len() == 1);
            assert(rest2.len() == 0);
            assert(spec_window(rest2, buf2.len(), l) =~= Seq::<char>::empty());
            assert(spec_sentence_break(rest2, buf2.len(), l));
            assert(spec_chunks(rest2, Seq::<char>::empty(), l) =~= Seq::<Seq<char>>::empty());
            assert(spec_chunks(rest, buf, l) =~= seq![buf2]);
            assert(buf2 =~= buf + rest);
        } else {
            assert(buf2.len() <= l);
            lemma_chunks_single(rest2, buf2, l);
            assert(buf2 + rest2 =~= buf + rest);
        }
    }
}

/// Law: a non-empty input that fits the budget, free of newlines, with a
/// sentence end at most as its final character, comes out as exactly one
/// segment — the input itself.
pub proof fn lemma_chunker_single_segment(source: Seq<char>, l: nat)
    requires
        0 < source.len() <= l,
        forall|i: int| 0 <= i < source.len() ==> source[i] != '\n',
        forall|i: int| 0 <= i < source.len() - 1 ==> source[i] != '.',
    ensures
        spec_chunks(source, Seq::<char>::empty(), l) == seq![source],
{
    lemma_chunks_single(source, Seq::<char>::empty(), l);
    assert(Seq::<char>::empty() + source =~= source);
}

/// The full segment list is the next segment followed by the segments of
/// what remains.
proof fn lemma_chunks_unfold(rest: Seq<char>, buf: Seq<char>, l: nat)
    ensures
        spec_chunks(rest, buf, l) == match spec_next(rest, buf, l) {
            None => Seq::<Seq<char>>::empty(),
            Some((chunk, rem)) => seq![chunk] + spec_chunks(rem, Seq::<char>::empty(), l),
        },
    decreases rest.len(),
{
    if rest.len() == 0 {
        if buf.len() > 0 {
            assert(spec_chunks(rest, Seq::<char>::empty(), l) =~= Seq::<Seq<char>>::empty());
            assert(seq![buf] =~= seq![buf] + spec_chunks(rest, Seq::<char>::empty(), l));
        }
    } else {
        let c = rest[0];
        let rest2 = rest.drop_first();
        let buf2 = buf.push(c);
        if c == '\n' && buf.len() > 0 && buf.last() == '\n' {
            let t = spec_trim_trailing_newlines(buf2);
            if t.len() == 0 {
                lemma_chunks_unfold(rest2, Seq::<char>::empty(), l);
            }
        } else if c == '.' && spec_sentence_break(rest2, buf2.len(), l) {
        } else if c == '\n' && rest2.len() > 0 && rest2[0] == '\n' {
            lemma_chunks_unfold(rest2, buf2, l);
        } else if c == '\n' {
            let buf3 = buf.push(' ');
            if buf3.len() > l {
            } else {
                lemma_chunks_unfold(rest2, buf3, l);
            }
        } else if buf2.len() > l {
        } else {
            lemma_chunks_unfold(rest2, buf2, l);
        }
    }
}

} // verus!
