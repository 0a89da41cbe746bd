//! Line framing and deduplication of one output stream.
//!
//! Bytes arrive one at a time. Line feed and carriage return both end a
//! segment; a segment becomes a line when it decodes as UTF-8 and is not
//! blank once trimmed. A line already published during the invocation is
//! dropped.

use crate::text::{chars_of, string_of, string_views, trim_chars, trim_end, trim_start, trimmed};
use vstd::prelude::*;
use vstd::utf8::{
    decode_first_scalar, decode_utf8, decode_utf8_first_scalar, encode_scalar,
    length_of_first_scalar, pop_first_scalar, take_first_scalar, valid_utf8,
};

verus! {

/// Line feed and carriage return end a segment.
pub open spec fn is_boundary(b: u8) -> bool {
    b == 10 || b == 13
}

/// The line a segment stands for: its text decoded, trimmed and non-empty.
pub open spec fn line_text(seg: Seq<u8>) -> Option<Seq<char>> {
    if valid_utf8(seg) && trimmed(decode_utf8(seg)).len() > 0 {
        Some(trimmed(decode_utf8(seg)))
    } else {
        None
    }
}

/// The bytes received since the last boundary byte.
pub open spec fn pending(bytes: Seq<u8>) -> Seq<u8>
    decreases bytes.len(),
{
    if bytes.len() == 0 {
        Seq::empty()
    } else if is_boundary(bytes.last()) {
        Seq::empty()
    } else {
        pending(bytes.drop_last()).push(bytes.last())
    }
}

/// The segments that a boundary byte has closed, in order.
pub open spec fn closed_segments(bytes: Seq<u8>) -> Seq<Seq<u8>>
    decreases bytes.len(),
{
    if bytes.len() == 0 {
        Seq::empty()
    } else if is_boundary(bytes.last()) {
        closed_segments(bytes.drop_last()).push(pending(bytes.drop_last()))
    } else {
        closed_segments(bytes.drop_last())
    }
}

/// All segments of a finished stream: the closed ones, then the trailing partial one.
pub open spec fn segments(bytes: Seq<u8>) -> Seq<Seq<u8>> {
    closed_segments(bytes).push(pending(bytes))
}

/// The lines that the segments stand for, duplicates included.
pub open spec fn candidates(segs: Seq<Seq<u8>>) -> Seq<Seq<char>>
    decreases segs.len(),
{
    if segs.len() == 0 {
        Seq::empty()
    } else {
        match line_text(segs.last()) {
            Some(t) => candidates(segs.drop_last()).push(t),
            None => candidates(segs.drop_last()),
        }
    }
}

/// `s` with every element after its first occurrence removed.
pub open spec fn dedup(s: Seq<Seq<char>>) -> Seq<Seq<char>>
    decreases s.len(),
{
    if s.len() == 0 {
        Seq::empty()
    } else if s.drop_last().contains(s.last()) {
        dedup(s.drop_last())
    } else {
        dedup(s.drop_last()).push(s.last())
    }
}

/// The lines published for a whole stream read by a fresh invocation.
pub open spec fn stream_lines(bytes: Seq<u8>) -> Seq<Seq<char>> {
    dedup(candidates(segments(bytes)))
}

/// What offering a closed segment publishes, given the lines already seen.
pub open spec fn offered(seen: Set<Seq<char>>, seg: Seq<u8>) -> Option<Seq<char>> {
    match line_text(seg) {
        Some(t) => if seen.contains(t) {
            None
        } else {
            Some(t)
        },
        None => None,
    }
}

/// The seen set after offering a closed segment.
pub open spec fn seen_after(seen: Set<Seq<char>>, seg: Seq<u8>) -> Set<Seq<char>> {
    match line_text(seg) {
        Some(t) => seen.insert(t),
        None => seen,
    }
}

/// Relies on `String::from_utf8`: it accepts exactly the well-formed UTF-8
/// sequences and decodes them.
#[verifier::external_body]
pub(crate) fn decode_utf8_string(bytes: Vec<u8>) -> (r: Option<String>)
    ensures
        match r {
            Some(s) => valid_utf8(bytes@) && s@ == decode_utf8(bytes@),
            None => !valid_utf8(bytes@),
        },
{
    String::from_utf8(bytes).ok()
}

/// The line a segment stands for, computed.
pub fn segment_line(seg: Vec<u8>) -> (r: Option<String>)
    ensures
        match r {
            Some(s) => line_text(seg@) == Some(s@),
            None => line_text(seg@) is None,
        },
{
    match decode_utf8_string(seg) {
        Some(s) => {
            let t = trim_chars(&chars_of(s.as_str()));
            if t.len() > 0 {
                Some(string_of(&t))
            } else {
                None
            }
        },
        None => None,
    }
}

/// The line texts published so far during one invocation, shared by both streams.
pub struct SeenLines {
    lines: Vec<String>,
}

impl View for SeenLines {
    type V = Set<Seq<char>>;

    closed spec fn view(&self) -> Set<Seq<char>> {
        string_views(self.lines@).to_set()
    }
}

impl SeenLines {
    pub fn new() -> (r: SeenLines)
        ensures
            r@ == Set::<Seq<char>>::empty(),
    {
        let r = SeenLines { lines: Vec::new() };
        assert(string_views(r.lines@).to_set() =~= Set::<Seq<char>>::empty());
        r
    }

    pub fn contains(&self, line: &String) -> (r: bool)
        ensures
            r == self@.contains(line@),
    {
        let mut i: usize = 0;
        while i < self.lines.len()
            invariant
                i <= self.lines.len(),
                forall|k: int| 0 <= k < i ==> self.lines@[k]@ != line@,
            decreases self.lines.len() - i,
        {
            if self.lines[i] == *line {
                assert(string_views(self.lines@)[i as int] == line@);
                return true;
            }
            i = i + 1;
        }
        assert(!string_views(self.lines@).contains(line@));
        false
    }

    pub fn insert(&mut self, line: String)
        ensures
            final(self)@ == old(self)@.insert(line@),
    {
        self.lines.push(line);
        assert(string_views(self.lines@) =~= string_views(old(self).lines@).push(line@));
        proof {
            string_views(old(self).lines@).lemma_push_to_set_commute(line@);
        }
    }

    /// Offers the segment `seg`; returns the line to publish, if any.
    pub fn offer(&mut self, seg: Vec<u8>) -> (r: Option<String>)
        ensures
            final(self)@ == seen_after(old(self)@, seg@),
            match r {
                Some(s) => offered(old(self)@, seg@) == Some(s@),
                None => offered(old(self)@, seg@) is None,
            },
    {
        match segment_line(seg) {
            Some(line) => {
                if self.contains(&line) {
                    proof {
                        assert(old(self)@.insert(line@) =~= old(self)@);
                    }
                    None
                } else {
                    let published = line.clone();
                    self.insert(line);
                    Some(published)
                }
            },
            None => None,
        }
    }
}

/// The framing state of one stream: the bytes of the current segment.
pub struct LineSplitter {
    buffer: Vec<u8>,
}

impl View for LineSplitter {
    type V = Seq<u8>;

    closed spec fn view(&self) -> Seq<u8> {
        self.buffer@
    }
}

impl LineSplitter {
    pub fn new() -> (r: LineSplitter)
        ensures
            r@ == Seq::<u8>::empty(),
    {
        LineSplitter { buffer: Vec::new() }
    }

    pub fn is_empty(&self) -> (r: bool)
        ensures
            r == (self@.len() == 0),
    {
        self.buffer.len() == 0
    }

    /// Takes one byte of the stream; returns the line to publish, if any.
    pub fn push_byte(&mut self, b: u8, seen: &mut SeenLines) -> (r: Option<String>)
        ensures
            is_boundary(b) ==> {
                &&& final(self)@ == Seq::<u8>::empty()
                &&& final(seen)@ == seen_after(old(seen)@, old(self)@)
                &&& match r {
                    Some(s) => offered(old(seen)@, old(self)@) == Some(s@),
                    None => offered(old(seen)@, old(self)@) is None,
                }
            },
            !is_boundary(b) ==> {
                &&& final(self)@ == old(self)@.push(b)
                &&& final(seen)@ == old(seen)@
                &&& r is None
            },
    {
        if b == 10 || b == 13 {
            let mut seg: Vec<u8> = Vec::new();
            std::mem::swap(&mut seg, &mut self.buffer);
            seen.offer(seg)
        } else {
            self.buffer.push(b);
            None
        }
    }

    /// Ends the stream: the trailing partial segment is offered like a closed one.
    pub fn finish(&mut self, seen: &mut SeenLines) -> (r: Option<String>)
        ensures
            final(self)@ == Seq::<u8>::empty(),
            final(seen)@ == seen_after(old(seen)@, old(self)@),
            match r {
                Some(s) => offered(old(seen)@, old(self)@) == Some(s@),
                None => offered(old(seen)@, old(self)@) is None,
            },
    {
        let mut seg: Vec<u8> = Vec::new();
            std::mem::swap(&mut seg, &mut self.buffer);
        seen.offer(seg)
    }
}

/// One step of the candidate sequence: appending a segment adds its line, if any.
pub(crate) proof fn lemma_candidates_push(segs: Seq<Seq<u8>>, seg: Seq<u8>)
    ensures
        candidates(segs.push(seg)) == match line_text(seg) {
            Some(t) => candidates(segs).push(t),
            None => candidates(segs),
        },
{
    assert(segs.push(seg).drop_last() =~= segs);
}

/// One step of deduplication.
pub(crate) proof fn lemma_dedup_push(s: Seq<Seq<char>>, t: Seq<char>)
    ensures
        dedup(s.push(t)) == if s.contains(t) {
            dedup(s)
        } else {
            dedup(s).push(t)
        },
{
    assert(s.push(t).drop_last() =~= s);
}

/// `s` with every element that `seen` holds, or that occurs earlier in `s`, removed.
pub open spec fn dedup_after(seen: Set<Seq<char>>, s: Seq<Seq<char>>) -> Seq<Seq<char>>
    decreases s.len(),
{
    if s.len() == 0 {
        Seq::empty()
    } else if seen.contains(s.last()) || s.drop_last().contains(s.last()) {
        dedup_after(seen, s.drop_last())
    } else {
        dedup_after(seen, s.drop_last()).push(s.last())
    }
}

/// The lines published for a whole stream when the lines `seen` were already published.
pub open spec fn stream_lines_after(seen: Set<Seq<char>>, bytes: Seq<u8>) -> Seq<Seq<char>> {
    dedup_after(seen, candidates(segments(bytes)))
}

proof fn lemma_dedup_after_push(seen: Set<Seq<char>>, s: Seq<Seq<char>>, t: Seq<char>)
    ensures
        dedup_after(seen, s.push(t)) == if seen.contains(t) || s.contains(t) {
            dedup_after(seen, s)
        } else {
            dedup_after(seen, s).push(t)
        },
{
    assert(s.push(t).drop_last() =~= s);
}

proof fn lemma_dedup_after_nothing_seen(s: Seq<Seq<char>>)
    ensures
        dedup_after(Set::empty(), s) == dedup(s),
    decreases s.len(),
{
    if s.len() > 0 {
        lemma_dedup_after_nothing_seen(s.drop_last());
    }
}

/// Reads a whole stream of one invocation whose seen-set is `seen`: the lines
/// it publishes, in order; `seen` then also holds every line the stream
/// stands for.
pub fn pump_stream(bytes: &Vec<u8>, seen: &mut SeenLines) -> (r: Vec<String>)
    ensures
        string_views(r@) == stream_lines_after(old(seen)@, bytes@),
        final(seen)@ == old(seen)@ + candidates(segments(bytes@)).to_set(),
{
    let ghost seen0 = seen@;
    let mut splitter = LineSplitter::new();
    let mut out: Vec<String> = Vec::new();
    let mut i: usize = 0;
    assert(seen0 + candidates(closed_segments(bytes@.subrange(0, 0))).to_set() =~= seen0);
    while i < bytes.len()
        invariant
            i <= bytes.len(),
            splitter@ == pending(bytes@.subrange(0, i as int)),
            seen@ == seen0 + candidates(closed_segments(bytes@.subrange(0, i as int))).to_set(),
            string_views(out@) == dedup_after(
                seen0,
                candidates(closed_segments(bytes@.subrange(0, i as int))),
            ),
        decreases bytes.len() - i,
    {
        let ghost p = bytes@.subrange(0, i as int);
        let ghost segs = closed_segments(p);
        let ghost pend = splitter@;
        let b = bytes[i];
        let r = splitter.push_byte(b, seen);
        proof {
            let q = bytes@.subrange(0, i + 1);
            assert(q.drop_last() =~= p);
            assert(q.last() == b);
            if is_boundary(b) {
                lemma_candidates_push(segs, pend);
                match line_text(pend) {
                    Some(t) => {
                        lemma_dedup_after_push(seen0, candidates(segs), t);
                        candidates(segs).lemma_push_to_set_commute(t);
                        assert(seen0 + candidates(segs).push(t).to_set() =~= (seen0
                            + candidates(segs).to_set()).insert(t));
                    },
                    None => {},
                }
            }
        }
        let ghost out0 = out@;
        match r {
            Some(line) => {
                out.push(line);
                assert(string_views(out@) =~= string_views(out0).push(line@));
            },
            None => {},
        }
        i = i + 1;
    }
    assert(bytes@.subrange(0, bytes.len() as int) =~= bytes@);
    let ghost segs = closed_segments(bytes@);
    let ghost pend = splitter@;
    let r = splitter.finish(seen);
    proof {
        lemma_candidates_push(segs, pend);
        match line_text(pend) {
            Some(t) => {
                lemma_dedup_after_push(seen0, candidates(segs), t);
                candidates(segs).lemma_push_to_set_commute(t);
                assert(seen0 + candidates(segs).push(t).to_set() =~= (seen0
                    + candidates(segs).to_set()).insert(t));
            },
            None => {},
        }
    }
    let ghost out0 = out@;
    match r {
        Some(line) => {
            out.push(line);
            assert(string_views(out@) =~= string_views(out0).push(line@));
        },
        None => {},
    }
    out
}

/// Splits a whole stream, read by a fresh invocation, into the lines it publishes.
pub fn split_stream(bytes: &Vec<u8>) -> (r: Vec<String>)
    ensures
        string_views(r@) == stream_lines(bytes@),
{
    let mut seen = SeenLines::new();
    let r = pump_stream(bytes, &mut seen);
    proof {
        lemma_dedup_after_nothing_seen(candidates(segments(bytes@)));
    }
    r
}

/// A byte stream cut at every occurrence of `sep`: the pieces between them, empty ones included.
pub open spec fn split_on(bytes: Seq<u8>, sep: u8) -> Seq<Seq<u8>>
    decreases bytes.len(),
{
    if bytes.len() == 0 {
        seq![Seq::empty()]
    } else {
        let prev = split_on(bytes.drop_last(), sep);
        if bytes.last() == sep {
            prev.push(Seq::empty())
        } else {
            prev.drop_last().push(prev.last().push(bytes.last()))
        }
    }
}

/// The decoded, trimmed text of each piece, blank ones left out.
pub open spec fn nonempty_trimmed(pieces: Seq<Seq<u8>>) -> Seq<Seq<char>>
    decreases pieces.len(),
{
    if pieces.len() == 0 {
        Seq::empty()
    } else if trimmed(decode_utf8(pieces.last())).len() > 0 {
        nonempty_trimmed(pieces.drop_last()).push(trimmed(decode_utf8(pieces.last())))
    } else {
        nonempty_trimmed(pieces.drop_last())
    }
}

/// `line` followed by a carriage return, `n` times over.
pub open spec fn redrawn(line: Seq<u8>, n: nat) -> Seq<u8>
    decreases n,
{
    if n == 0 {
        Seq::empty()
    } else {
        redrawn(line, (n - 1) as nat) + line.push(13u8)
    }
}

proof fn lemma_segments_without_cr(bytes: Seq<u8>)
    requires
        !bytes.contains(13u8),
    ensures
        segments(bytes) == split_on(bytes, 10u8),
    decreases bytes.len(),
{
    if bytes.len() > 0 {
        let p = bytes.drop_last();
        assert(!p.contains(13u8)) by {
            if p.contains(13u8) {
                let k = choose|k: int| 0 <= k < p.len() && p[k] == 13u8;
                assert(bytes[k] == 13u8);
            }
        }
        assert(bytes.last() != 13u8) by {
            assert(bytes[bytes.len() - 1] == bytes.last());
        }
        lemma_segments_without_cr(p);
        if bytes.last() != 10u8 {
            assert(segments(bytes) =~= segments(p).drop_last().push(segments(p).last().push(bytes.last())));
        }
    }
}

proof fn lemma_candidates_of_valid(pieces: Seq<Seq<u8>>)
    requires
        forall|k: int| 0 <= k < pieces.len() ==> valid_utf8(#[trigger] pieces[k]),
    ensures
        candidates(pieces) == nonempty_trimmed(pieces),
    decreases pieces.len(),
{
    if pieces.len() > 0 {
        let p = pieces.drop_last();
        assert forall|k: int| 0 <= k < p.len() implies valid_utf8(#[trigger] p[k]) by {
            assert(p[k] == pieces[k]);
        }
        assert(valid_utf8(pieces[pieces.len() - 1]));
        lemma_candidates_of_valid(p);
    }
}

proof fn lemma_dedup_distinct(s: Seq<Seq<char>>)
    requires
        s.no_duplicates(),
    ensures
        dedup(s) == s,
    decreases s.len(),
{
    if s.len() > 0 {
        let p = s.drop_last();
        assert(p.no_duplicates());
        assert(!p.contains(s.last())) by {
            if p.contains(s.last()) {
                let k = choose|k: int| 0 <= k < p.len() && p[k] == s.last();
                assert(s[k] == s[s.len() - 1]);
            }
        }
        lemma_dedup_distinct(p);
        assert(p.push(s.last()) =~= s);
    }
}

/// A stream whose lines end with line feeds only publishes the text between the
/// line feeds, trimmed, blank pieces left out; this holds where every piece is
/// valid UTF-8 and no line repeats, since an invalid piece is dropped and a
/// repeated line is published once.
pub proof fn lemma_line_feed_stream(bytes: Seq<u8>)
    requires
        !bytes.contains(13u8),
        forall|k: int|
            0 <= k < split_on(bytes, 10u8).len() ==> valid_utf8(#[trigger] split_on(bytes, 10u8)[k]),
        nonempty_trimmed(split_on(bytes, 10u8)).no_duplicates(),
    ensures
        stream_lines(bytes) == nonempty_trimmed(split_on(bytes, 10u8)),
{
    lemma_segments_without_cr(bytes);
    lemma_candidates_of_valid(split_on(bytes, 10u8));
    lemma_dedup_distinct(nonempty_trimmed(split_on(bytes, 10u8)));
}

proof fn lemma_append_without_boundary(p: Seq<u8>, q: Seq<u8>)
    requires
        forall|k: int| 0 <= k < q.len() ==> !is_boundary(#[trigger] q[k]),
    ensures
        closed_segments(p + q) == closed_segments(p),
        pending(p + q) == pending(p) + q,
    decreases q.len(),
{
    if q.len() == 0 {
        assert(p + q =~= p);
        assert(pending(p) + q =~= pending(p));
    } else {
        let q0 = q.drop_last();
        assert forall|k: int| 0 <= k < q0.len() implies !is_boundary(#[trigger] q0[k]) by {
            assert(q0[k] == q[k]);
        }
        lemma_append_without_boundary(p, q0);
        assert((p + q).drop_last() =~= p + q0);
        assert((p + q).last() == q[q.len() - 1]);
        assert(pending(p) + q =~= (pending(p) + q0).push(q.last()));
    }
}

proof fn lemma_redrawn_segments(line: Seq<u8>, n: nat)
    requires
        forall|k: int| 0 <= k < line.len() ==> !is_boundary(#[trigger] line[k]),
    ensures
        pending(redrawn(line, n)) == Seq::<u8>::empty(),
        closed_segments(redrawn(line, n)) == Seq::new(n, |i: int| line),
    decreases n,
{
    if n > 0 {
        let m = (n - 1) as nat;
        let prev = redrawn(line, m);
        lemma_redrawn_segments(line, m);
        lemma_append_without_boundary(prev, line);
        assert(redrawn(line, n) =~= (prev + line).push(13u8));
        assert((prev + line).push(13u8).drop_last() =~= prev + line);
        assert(Seq::<u8>::empty() + line =~= line);
        assert(Seq::new(m, |i: int| line).push(line) =~= Seq::new(n, |i: int| line));
    }
}

proof fn lemma_candidates_of_copies(line: Seq<u8>, t: Seq<char>, n: nat)
    requires
        line_text(line) == Some(t),
    ensures
        candidates(Seq::new(n, |i: int| line)) == Seq::new(n, |i: int| t),
    decreases n,
{
    if n > 0 {
        let m = (n - 1) as nat;
        lemma_candidates_of_copies(line, t, m);
        assert(Seq::new(n, |i: int| line).drop_last() =~= Seq::new(m, |i: int| line));
        assert(Seq::new(m, |i: int| t).push(t) =~= Seq::new(n, |i: int| t));
    }
}

proof fn lemma_dedup_after_copies(seen: Set<Seq<char>>, t: Seq<char>, n: nat)
    requires
        n >= 1,
        !seen.contains(t),
    ensures
        dedup_after(seen, Seq::new(n, |i: int| t)) == seq![t],
    decreases n,
{
    let s = Seq::new(n, |i: int| t);
    let m = (n - 1) as nat;
    assert(s.drop_last() =~= Seq::new(m, |i: int| t));
    assert(s.last() == t);
    if n == 1 {
        assert(!s.drop_last().contains(t));
        assert(s.drop_last() =~= Seq::<Seq<char>>::empty());
        assert(dedup_after(seen, s) == dedup_after(seen, s.drop_last()).push(t));
        assert(Seq::<Seq<char>>::empty().push(t) =~= seq![t]);
    } else {
        lemma_dedup_after_copies(seen, t, m);
        assert(s.drop_last()[0] == t);
        assert(s.drop_last().contains(t));
        assert(dedup_after(seen, s) == dedup_after(seen, s.drop_last()));
    }
}

/// A line redrawn in place any number of times, each redraw ended by a
/// carriage return (the last one possibly not), is published exactly once,
/// whatever the invocation published before, as long as that was not this
/// line; the stream stands for no other line.
pub proof fn lemma_redraw_published_once(
    seen: Set<Seq<char>>,
    line: Seq<u8>,
    n: nat,
    final_return: bool,
)
    requires
        n >= 1,
        forall|k: int| 0 <= k < line.len() ==> !is_boundary(#[trigger] line[k]),
        line_text(line) is Some,
        !seen.contains(line_text(line)->Some_0),
    ensures
        ({
            let bytes = if final_return {
                redrawn(line, n)
            } else {
                redrawn(line, n).drop_last()
            };
            &&& stream_lines_after(seen, bytes) == seq![line_text(line)->Some_0]
            &&& candidates(segments(bytes)).to_set() == set![line_text(line)->Some_0]
        }),
{
    let t = line_text(line)->Some_0;
    let copies = Seq::new(n, |i: int| line);
    let texts = Seq::new(n, |i: int| t);
    lemma_candidates_of_copies(line, t, n);
    let bytes = if final_return {
        redrawn(line, n)
    } else {
        redrawn(line, n).drop_last()
    };
    if final_return {
        lemma_redrawn_segments(line, n);
        lemma_candidates_push(copies, Seq::<u8>::empty());
        assert(decode_utf8(Seq::<u8>::empty()) == Seq::<char>::empty());
        assert(line_text(Seq::<u8>::empty()) is None);
    } else {
        let m = (n - 1) as nat;
        lemma_redrawn_segments(line, m);
        assert(redrawn(line, n).drop_last() =~= redrawn(line, m) + line);
        lemma_append_without_boundary(redrawn(line, m), line);
        assert(Seq::<u8>::empty() + line =~= line);
        assert(Seq::new(m, |i: int| line).push(line) =~= copies);
    }
    assert(candidates(segments(bytes)) == texts);
    lemma_dedup_after_copies(seen, t, n);
    assert(texts.to_set() =~= set![t]) by {
        assert(texts[0] == t);
    }
}

/// A stream that ends without a boundary byte still publishes its final partial
/// line, unless that text was already published.
pub proof fn lemma_trailing_partial_line(bytes: Seq<u8>)
    requires
        line_text(pending(bytes)) is Some,
        !candidates(closed_segments(bytes)).contains(line_text(pending(bytes))->Some_0),
    ensures
        stream_lines(bytes) == dedup(candidates(closed_segments(bytes))).push(
            line_text(pending(bytes))->Some_0,
        ),
        stream_lines(bytes).last() == line_text(pending(bytes))->Some_0,
{
    let t = line_text(pending(bytes))->Some_0;
    lemma_candidates_push(closed_segments(bytes), pending(bytes));
    lemma_dedup_push(candidates(closed_segments(bytes)), t);
}

/// A line text: not empty, and free of line feeds and carriage returns.
pub open spec fn is_line_text(t: Seq<char>) -> bool {
    t.len() > 0 && no_breaks(t)
}

/// No line feed or carriage return occurs in `t`.
pub open spec fn no_breaks(t: Seq<char>) -> bool {
    forall|i: int| 0 <= i < t.len() ==> #[trigger] t[i] != '\n' && t[i] != '\r'
}

/// No boundary byte occurs in `b`.
pub open spec fn no_boundary_bytes(b: Seq<u8>) -> bool {
    forall|k: int| 0 <= k < b.len() ==> !is_boundary(#[trigger] b[k])
}

proof fn lemma_decode_no_breaks(bytes: Seq<u8>)
    requires
        valid_utf8(bytes),
        no_boundary_bytes(bytes),
    ensures
        no_breaks(decode_utf8(bytes)),
    decreases bytes.len(),
{
    if bytes.len() > 0 {
        let l = length_of_first_scalar(bytes);
        let rest = pop_first_scalar(bytes);
        assert(1 <= l <= bytes.len());
        assert(rest.len() == bytes.len() - l);
        assert forall|k: int| 0 <= k < rest.len() implies !is_boundary(#[trigger] rest[k]) by {
            assert(rest[k] == bytes[k + l]);
        }
        lemma_decode_no_breaks(rest);
        let c = decode_first_scalar(bytes);
        decode_utf8_first_scalar(bytes);
        assert(take_first_scalar(bytes)[0] == bytes[0]);
        assert(!is_boundary(bytes[0]));
        let ch = c as char;
        if ch == '\n' || ch == '\r' {
            let x = ch as u32;
            assert(x == 10 || x == 13);
            assert((10u32 & 0x7F) as u8 == 10u8) by (bit_vector);
            assert((13u32 & 0x7F) as u8 == 13u8) by (bit_vector);
            assert(encode_scalar(x)[0] == bytes[0]);
            assert(false);
        }
        let d = decode_utf8(bytes);
        assert(d == seq![c as char] + decode_utf8(rest));
        assert forall|i: int| 0 <= i < d.len() implies #[trigger] d[i] != '\n' && d[i] != '\r' by {
            if i > 0 {
                assert(d[i] == decode_utf8(rest)[i - 1]);
            } else {
                assert(d[0] == c as char);
            }
        }
    }
}

proof fn lemma_trim_keeps_no_breaks(s: Seq<char>)
    requires
        no_breaks(s),
    ensures
        no_breaks(trim_start(s)),
        no_breaks(trim_end(s)),
        no_breaks(trimmed(s)),
    decreases s.len(),
{
    if s.len() > 0 {
        assert(no_breaks(s.drop_first())) by {
            assert forall|i: int| 0 <= i < s.drop_first().len() implies #[trigger] s.drop_first()[i]
                != '\n' && s.drop_first()[i] != '\r' by {
                assert(s.drop_first()[i] == s[i + 1]);
            }
        }
        assert(no_breaks(s.drop_last())) by {
            assert forall|i: int| 0 <= i < s.drop_last().len() implies #[trigger] s.drop_last()[i]
                != '\n' && s.drop_last()[i] != '\r' by {
                assert(s.drop_last()[i] == s[i]);
            }
        }
        lemma_trim_keeps_no_breaks(s.drop_first());
        lemma_trim_keeps_no_breaks(s.drop_last());
    }
    if no_breaks(trim_start(s)) {
        lemma_trim_end_keeps(trim_start(s));
    }
}

proof fn lemma_trim_end_keeps(s: Seq<char>)
    requires
        no_breaks(s),
    ensures
        no_breaks(trim_end(s)),
    decreases s.len(),
{
    if s.len() > 0 {
        assert(no_breaks(s.drop_last())) by {
            assert forall|i: int| 0 <= i < s.drop_last().len() implies #[trigger] s.drop_last()[i]
                != '\n' && s.drop_last()[i] != '\r' by {
                assert(s.drop_last()[i] == s[i]);
            }
        }
        lemma_trim_end_keeps(s.drop_last());
    }
}

/// The line that a segment without boundary bytes stands for is a line text.
pub proof fn lemma_segment_line_is_line_text(seg: Seq<u8>)
    requires
        no_boundary_bytes(seg),
        line_text(seg) is Some,
    ensures
        is_line_text(line_text(seg)->Some_0),
{
    lemma_decode_no_breaks(seg);
    lemma_trim_keeps_no_breaks(decode_utf8(seg));
}

proof fn lemma_segments_clean(bytes: Seq<u8>)
    ensures
        no_boundary_bytes(pending(bytes)),
        forall|i: int|
            0 <= i < closed_segments(bytes).len() ==> no_boundary_bytes(
                #[trigger] closed_segments(bytes)[i],
            ),
    decreases bytes.len(),
{
    if bytes.len() > 0 {
        let p = bytes.drop_last();
        lemma_segments_clean(p);
        if !is_boundary(bytes.last()) {
            assert forall|k: int| 0 <= k < pending(bytes).len() implies !is_boundary(
                #[trigger] pending(bytes)[k],
            ) by {
                if k < pending(p).len() {
                    assert(pending(bytes)[k] == pending(p)[k]);
                }
            }
        } else {
            assert forall|i: int| 0 <= i < closed_segments(bytes).len() implies no_boundary_bytes(
                #[trigger] closed_segments(bytes)[i],
            ) by {
                if i < closed_segments(p).len() {
                    assert(closed_segments(bytes)[i] == closed_segments(p)[i]);
                }
            }
        }
    }
}

proof fn lemma_candidates_are_lines(segs: Seq<Seq<u8>>)
    requires
        forall|i: int| 0 <= i < segs.len() ==> no_boundary_bytes(#[trigger] segs[i]),
    ensures
        forall|i: int| 0 <= i < candidates(segs).len() ==> is_line_text(#[trigger] candidates(segs)[i]),
    decreases segs.len(),
{
    if segs.len() > 0 {
        let p = segs.drop_last();
        assert forall|i: int| 0 <= i < p.len() implies no_boundary_bytes(#[trigger] p[i]) by {
            assert(p[i] == segs[i]);
        }
        lemma_candidates_are_lines(p);
        assert(no_boundary_bytes(segs[segs.len() - 1]));
        if line_text(segs.last()) is Some {
            lemma_segment_line_is_line_text(segs.last());
        }
        let c = candidates(segs);
        assert forall|i: int| 0 <= i < c.len() implies is_line_text(#[trigger] c[i]) by {
            if i < candidates(p).len() {
                assert(c[i] == candidates(p)[i]);
            }
        }
    }
}

proof fn lemma_dedup_from(s: Seq<Seq<char>>)
    ensures
        forall|i: int| 0 <= i < dedup(s).len() ==> s.contains(#[trigger] dedup(s)[i]),
    decreases s.len(),
{
    if s.len() > 0 {
        let p = s.drop_last();
        lemma_dedup_from(p);
        assert forall|i: int| 0 <= i < dedup(s).len() implies s.contains(#[trigger] dedup(s)[i]) by {
            if i < dedup(p).len() {
                assert(dedup(s)[i] == dedup(p)[i]);
                let j = choose|j: int| 0 <= j < p.len() && p[j] == dedup(p)[i];
                assert(s[j] == p[j]);
            } else {
                assert(dedup(s)[i] == s.last());
                assert(s[s.len() - 1] == s.last());
            }
        }
    }
}

/// Every line that a stream publishes is a line text: not empty, and free of
/// line feeds and carriage returns.
pub proof fn lemma_published_lines_are_line_texts(bytes: Seq<u8>)
    ensures
        forall|i: int|
            0 <= i < stream_lines(bytes).len() ==> is_line_text(#[trigger] stream_lines(bytes)[i]),
{
    lemma_segments_clean(bytes);
    let segs = segments(bytes);
    assert forall|i: int| 0 <= i < segs.len() implies no_boundary_bytes(#[trigger] segs[i]) by {
        if i < closed_segments(bytes).len() {
            assert(segs[i] == closed_segments(bytes)[i]);
        }
    }
    lemma_candidates_are_lines(segs);
    lemma_dedup_from(candidates(segs));
    assert forall|i: int| 0 <= i < stream_lines(bytes).len() implies is_line_text(
        #[trigger] stream_lines(bytes)[i],
    ) by {
        let c = candidates(segs);
        let j = choose|j: int| 0 <= j < c.len() && c[j] == stream_lines(bytes)[i];
        assert(is_line_text(c[j]));
    }
}

} // verus!
