//! The incremental Server-Sent-Events decoder.
//!
//! Raw text arrives in chunks of arbitrary size; the decoder reassembles
//! newline-terminated lines across chunk boundaries, classifies each
//! complete line, decodes `data:` payloads as JSON frames, and emits the
//! text deltas the instant their line completes. The unterminated tail is
//! kept until a later chunk completes it; at end of stream it is discarded.

use vstd::prelude::*;
use vstd::string::*;
use vstd::seq_lib::*;
use crate::json::spec_parse_frame;

verus! {

/// Whitespace trimmed from both ends of a line before classification, so
/// that carriage returns from CRLF framing are tolerated.
pub open spec fn ws_char(c: char) -> bool {
    c == ' ' || c == '\t' || c == '\r' || c == '\n'
}

/// The first position at or after `i` holding no whitespace.
pub open spec fn spec_trim_from(s: Seq<char>, i: int) -> int
    decreases s.len() - i,
{
    if 0 <= i < s.len() && ws_char(s[i]) {
        spec_trim_from(s, i + 1)
    } else {
        i
    }
}

/// The last position at or before `i` with no whitespace just before it.
pub open spec fn spec_trim_back(s: Seq<char>, i: int) -> int
    decreases i,
{
    if 0 < i <= s.len() && ws_char(s[i - 1]) {
        spec_trim_back(s, i - 1)
    } else {
        i
    }
}

/// `s` with leading and trailing whitespace removed.
pub open spec fn spec_trim(s: Seq<char>) -> Seq<char> {
    let a = spec_trim_from(s, 0);
    let b = spec_trim_back(s, s.len() as int);
    if 0 <= a <= b <= s.len() {
        s.subrange(a, b)
    } else {
        Seq::empty()
    }
}

/// The six characters that open a data line.
pub open spec fn data_prefix() -> Seq<char> {
    seq!['d', 'a', 't', 'a', ':', ' ']
}

/// The end-of-message marker, matched as a prefix of the trimmed line.
pub open spec fn done_prefix() -> Seq<char> {
    seq!['d', 'a', 't', 'a', ':', ' ', '[', 'D', 'O', 'N', 'E', ']']
}

/// The deltas emitted for one frame: each choice's `content`, kept when
/// present and non-empty, in choice order.
pub open spec fn emitted(contents: Seq<Option<Seq<char>>>) -> Seq<Seq<char>>
    decreases contents.len(),
{
    if contents.len() == 0 {
        Seq::empty()
    } else {
        let rest = emitted(contents.drop_first());
        match contents[0] {
            Some(c) => if c.len() > 0 {
                seq![c] + rest
            } else {
                rest
            },
            None => rest,
        }
    }
}

/// The deltas emitted for one complete line. The end marker is recognized
/// first and emits nothing; then a data line's payload is decoded as a JSON
/// frame, a malformed or empty payload emitting nothing; every other line
/// is ignored.
#[verifier::opaque]
pub open spec fn line_events(line: Seq<char>) -> Seq<Seq<char>> {
    let t = spec_trim(line);
    if done_prefix().is_prefix_of(t) {
        Seq::empty()
    } else if data_prefix().is_prefix_of(t) {
        let payload = t.skip(6);
        if payload.len() == 0 {
            Seq::empty()
        } else {
            match spec_parse_frame(payload) {
                None => Seq::empty(),
                Some(cs) => emitted(cs),
            }
        }
    } else {
        Seq::empty()
    }
}

/// Whether one complete line counts as a decoded JSON frame.
#[verifier::opaque]
pub open spec fn line_frame(line: Seq<char>) -> nat {
    let t = spec_trim(line);
    if done_prefix().is_prefix_of(t) {
        0
    } else if data_prefix().is_prefix_of(t) {
        let payload = t.skip(6);
        if payload.len() == 0 {
            0
        } else if spec_parse_frame(payload) is Some {
            1
        } else {
            0
        }
    } else {
        0
    }
}

/// The position of the first newline at or after `i`, or the length when
/// none remains.
pub open spec fn first_nl_from(s: Seq<char>, i: int) -> int
    decreases s.len() - i,
{
    if 0 <= i < s.len() {
        if s[i] == '\n' {
            i
        } else {
            first_nl_from(s, i + 1)
        }
    } else {
        s.len() as int
    }
}

/// All deltas emitted for the complete lines of `s`, in order; the
/// unterminated tail after the last newline emits nothing.
pub open spec fn stream_events(s: Seq<char>) -> Seq<Seq<char>>
    decreases s.len(),
{
    let p = first_nl_from(s, 0);
    if 0 <= p < s.len() {
        line_events(s.take(p)) + stream_events(s.skip(p + 1))
    } else {
        Seq::empty()
    }
}

/// The count of decoded JSON frames among the complete lines of `s`.
pub open spec fn stream_frames(s: Seq<char>) -> nat
    decreases s.len(),
{
    let p = first_nl_from(s, 0);
    if 0 <= p < s.len() {
        line_frame(s.take(p)) + stream_frames(s.skip(p + 1))
    } else {
        0
    }
}

/// The unterminated tail of `s`: everything after its last newline.
pub open spec fn line_tail(s: Seq<char>) -> Seq<char>
    decreases s.len(),
{
    let p = first_nl_from(s, 0);
    if 0 <= p < s.len() {
        line_tail(s.skip(p + 1))
    } else {
        s
    }
}

pub proof fn lemma_first_nl_bounds(s: Seq<char>, i: int)
    requires
        0 <= i <= s.len(),
    ensures
        i <= first_nl_from(s, i) <= s.len(),
        first_nl_from(s, i) < s.len() ==> s[first_nl_from(s, i)] == '\n',
    decreases s.len() - i,
{
    if i < s.len() && s[i] != '\n' {
        lemma_first_nl_bounds(s, i + 1);
    }
}

pub proof fn lemma_first_nl_shift(a: Seq<char>, b: Seq<char>, j: int)
    requires
        0 <= j <= b.len(),
    ensures
        first_nl_from(a + b, a.len() + j) == a.len() + first_nl_from(b, j),
    decreases b.len() - j,
{
    if j < b.len() {
        assert((a + b)[a.len() + j] == b[j]);
        if b[j] != '\n' {
            lemma_first_nl_shift(a, b, j + 1);
        }
    }
}

pub proof fn lemma_first_nl_concat(a: Seq<char>, b: Seq<char>, i: int)
    requires
        0 <= i <= a.len(),
    ensures
        first_nl_from(a, i) < a.len() ==> first_nl_from(a + b, i) == first_nl_from(a, i),
        first_nl_from(a, i) == a.len() ==> first_nl_from(a + b, i) == a.len() + first_nl_from(
            b,
            0,
        ),
    decreases a.len() - i,
{
    lemma_first_nl_bounds(a, i);
    if i < a.len() {
        assert((a + b)[i] == a[i]);
        if a[i] != '\n' {
            lemma_first_nl_concat(a, b, i + 1);
        }
    } else {
        lemma_first_nl_shift(a, b, 0);
    }
}

/// The tail after the last newline holds no newline itself.
pub proof fn lemma_line_tail_no_nl(s: Seq<char>)
    ensures
        first_nl_from(line_tail(s), 0) == line_tail(s).len(),
        line_tail(s).len() <= s.len(),
    decreases s.len(),
{
    lemma_first_nl_bounds(s, 0);
    let p = first_nl_from(s, 0);
    if 0 <= p < s.len() {
        lemma_line_tail_no_nl(s.skip(p + 1));
    }
}

/// Splitting off the already-complete lines: the events of `a + b` are the
/// events of `a` followed by the events of `a`'s unterminated tail joined
/// with `b`, and likewise for the tail and the frame count.
pub proof fn lemma_stream_split(a: Seq<char>, b: Seq<char>)
    ensures
        stream_events(a + b) == stream_events(a) + stream_events(line_tail(a) + b),
        line_tail(a + b) == line_tail(line_tail(a) + b),
        stream_frames(a + b) == stream_frames(a) + stream_frames(line_tail(a) + b),
    decreases a.len(),
{
    lemma_first_nl_bounds(a, 0);
    let p = first_nl_from(a, 0);
    lemma_first_nl_concat(a, b, 0);
    if 0 <= p < a.len() {
        assert((a + b).take(p) =~= a.take(p));
        assert((a + b).skip(p + 1) =~= a.skip(p + 1) + b);
        lemma_stream_split(a.skip(p + 1), b);
        assert(stream_events(a + b) =~= stream_events(a) + stream_events(line_tail(a) + b));
    } else {
        assert(line_tail(a) == a);
        assert(stream_events(a) == Seq::<Seq<char>>::empty());
        assert(stream_events(a + b) =~= stream_events(a) + stream_events(line_tail(a) + b));
    }
}

} // verus!

verus! {

/// The concatenation of a sequence of chunks.
pub open spec fn concat_chunks(chunks: Seq<Seq<char>>) -> Seq<char>
    decreases chunks.len(),
{
    if chunks.len() == 0 {
        Seq::empty()
    } else {
        chunks[0] + concat_chunks(chunks.drop_first())
    }
}

/// All deltas a decoder run emits when the chunks are fed one at a time,
/// starting from the carried-over tail `tail`: per chunk, the events of the
/// lines it completes, the new tail carrying over to the next chunk.
pub open spec fn run_events(tail: Seq<char>, chunks: Seq<Seq<char>>) -> Seq<Seq<char>>
    decreases chunks.len(),
{
    if chunks.len() == 0 {
        Seq::empty()
    } else {
        stream_events(tail + chunks[0]) + run_events(
            line_tail(tail + chunks[0]),
            chunks.drop_first(),
        )
    }
}

/// A chunk-by-chunk run starting from a newline-free tail emits exactly the
/// events of the concatenated text.
pub proof fn lemma_run_events(tail: Seq<char>, chunks: Seq<Seq<char>>)
    requires
        first_nl_from(tail, 0) == tail.len(),
    ensures
        run_events(tail, chunks) == stream_events(tail + concat_chunks(chunks)),
    decreases chunks.len(),
{
    if chunks.len() == 0 {
        assert(tail + concat_chunks(chunks) =~= tail);
        assert(stream_events(tail) == Seq::<Seq<char>>::empty());
    } else {
        let c0 = chunks[0];
        let rest = chunks.drop_first();
        let t2 = line_tail(tail + c0);
        lemma_line_tail_no_nl(tail + c0);
        lemma_run_events(t2, rest);
        lemma_stream_split(tail + c0, concat_chunks(rest));
        assert(tail + concat_chunks(chunks) =~= (tail + c0) + concat_chunks(rest));
        assert(run_events(tail, chunks) =~= stream_events(tail + concat_chunks(chunks)));
    }
}

/// Chunk-boundary independence: two chunkings of the same text make a fresh
/// decoder emit the same deltas, in the same order.
pub proof fn lemma_chunk_boundary_independence(c1: Seq<Seq<char>>, c2: Seq<Seq<char>>)
    requires
        concat_chunks(c1) == concat_chunks(c2),
    ensures
        run_events(Seq::empty(), c1) == run_events(Seq::empty(), c2),
{
    lemma_run_events(Seq::empty(), c1);
    lemma_run_events(Seq::empty(), c2);
    assert(Seq::<char>::empty() + concat_chunks(c1) =~= concat_chunks(c1));
    assert(Seq::<char>::empty() + concat_chunks(c2) =~= concat_chunks(c2));
}

/// A line carrying the end-of-message marker emits nothing; in particular
/// its payload is never decoded, so it can raise no decode failure.
pub proof fn lemma_done_marker_silent(line: Seq<char>)
    requires
        done_prefix().is_prefix_of(spec_trim(line)),
    ensures
        line_events(line) == Seq::<Seq<char>>::empty(),
{
    reveal(line_events);
}

/// One complete line followed by the rest of the stream: the line's events
/// come first and the rest is decoded unchanged — a malformed line never
/// terminates decoding.
pub proof fn lemma_line_decompose(line: Seq<char>, rest: Seq<char>)
    requires
        first_nl_from(line, 0) == line.len(),
    ensures
        stream_events(line + seq!['\n'] + rest) == line_events(line) + stream_events(rest),
{
    let s = line + seq!['\n'] + rest;
    assert(s =~= line + (seq!['\n'] + rest));
    lemma_first_nl_concat(line, seq!['\n'] + rest, 0);
    assert((seq!['\n'] + rest)[0] == '\n');
    let p = first_nl_from(s, 0);
    assert(p == line.len());
    assert(s.take(p) =~= line);
    assert(s.skip(p + 1) =~= rest);
}

/// A data line whose payload is not well-formed JSON is skipped without
/// ending the stream: it emits nothing, and every line after it is decoded
/// exactly as if the malformed line were absent.
pub proof fn lemma_malformed_data_line_skipped(line: Seq<char>, rest: Seq<char>)
    requires
        first_nl_from(line, 0) == line.len(),
        data_prefix().is_prefix_of(spec_trim(line)),
        spec_parse_frame(spec_trim(line).skip(6)) is None,
    ensures
        line_events(line) == Seq::<Seq<char>>::empty(),
        stream_events(line + seq!['\n'] + rest) == stream_events(rest),
    decreases 0int,
{
    reveal(line_events);
    lemma_line_decompose(line, rest);
    assert(stream_events(line + seq!['\n'] + rest) =~= stream_events(rest));
}

/// The lossy-tail policy: appending an unterminated tail (no newline) at
/// the end of a stream changes nothing — the tail emits no event and counts
/// no frame, even if it would have parsed with a newline appended.
pub proof fn lemma_unterminated_tail_discarded(s: Seq<char>, t: Seq<char>)
    requires
        first_nl_from(t, 0) == t.len(),
    ensures
        stream_events(s + t) == stream_events(s),
        stream_frames(s + t) == stream_frames(s),
{
    lemma_stream_split(s, t);
    lemma_line_tail_no_nl(s);
    let u = line_tail(s) + t;
    lemma_first_nl_concat(line_tail(s), t, 0);
    assert(first_nl_from(u, 0) == u.len());
    assert(stream_events(u) == Seq::<Seq<char>>::empty());
    assert(stream_frames(u) == 0);
    assert(stream_events(s) + Seq::<Seq<char>>::empty() =~= stream_events(s));
}

} // verus!

verus! {

fn is_ws_char(c: char) -> (r: bool)
    ensures
        r == ws_char(c),
{
    c == ' ' || c == '\t' || c == '\r' || c == '\n'
}

/// Copies `s[from..to]` into a fresh vector.
fn subvec(s: &Vec<char>, from: usize, to: usize) -> (r: Vec<char>)
    requires
        from <= to <= s.len(),
    ensures
        r@ == s@.subrange(from as int, to as int),
{
    let mut r: Vec<char> = Vec::new();
    let mut i = from;
    proof {
        assert(r@ =~= s@.subrange(from as int, from as int));
    }
    while i < to
        invariant
            from <= i <= to <= s.len(),
            r@ == s@.subrange(from as int, i as int),
        decreases to - i,
    {
        r.push(s[i]);
        i = i + 1;
        proof {
            assert(r@ =~= s@.subrange(from as int, i as int));
        }
    }
    r
}

/// `s` with leading and trailing whitespace removed.
fn trim_chars(s: &Vec<char>) -> (r: Vec<char>)
    ensures
        r@ == spec_trim(s@),
{
    let mut a: usize = 0;
    while a < s.len() && is_ws_char(s[a])
        invariant
            a <= s.len(),
            spec_trim_from(s@, 0) == spec_trim_from(s@, a as int),
        decreases s@.len() - a,
    {
        a = a + 1;
    }
    let mut b: usize = s.len();
    while b > 0 && is_ws_char(s[b - 1])
        invariant
            b <= s.len(),
            spec_trim_back(s@, s@.len() as int) == spec_trim_back(s@, b as int),
        decreases b,
    {
        b = b - 1;
    }
    if a <= b {
        subvec(s, a, b)
    } else {
        let r: Vec<char> = Vec::new();
        proof {
            assert(r@ =~= spec_trim(s@));
        }
        r
    }
}

/// Whether `p` is a prefix of `s`.
fn has_prefix(s: &Vec<char>, p: &Vec<char>) -> (r: bool)
    ensures
        r == p@.is_prefix_of(s@),
{
    if p.len() > s.len() {
        return false;
    }
    let mut k: usize = 0;
    while k < p.len()
        invariant
            k <= p.len() <= s.len(),
            forall|m: int| 0 <= m < k ==> s@[m] == p@[m],
        decreases p@.len() - k,
    {
        if s[k] != p[k] {
            proof {
                assert(s@.subrange(0, p@.len() as int)[k as int] != p@[k as int]);
            }
            return false;
        }
        k = k + 1;
    }
    proof {
        assert(p@ =~= s@.subrange(0, p@.len() as int));
    }
    true
}

fn data_prefix_vec() -> (v: Vec<char>)
    ensures
        v@ == data_prefix(),
{
    let mut v: Vec<char> = Vec::new();
    v.push('d');
    v.push('a');
    v.push('t');
    v.push('a');
    v.push(':');
    v.push(' ');
    proof {
        assert(v@ =~= data_prefix());
    }
    v
}

fn done_prefix_vec() -> (v: Vec<char>)
    ensures
        v@ == done_prefix(),
{
    let mut v: Vec<char> = Vec::new();
    v.push('d');
    v.push('a');
    v.push('t');
    v.push('a');
    v.push(':');
    v.push(' ');
    v.push('[');
    v.push('D');
    v.push('O');
    v.push('N');
    v.push('E');
    v.push(']');
    proof {
        assert(v@ =~= done_prefix());
    }
    v
}

/// The events of a frame grow from the right as its choices are walked.
pub proof fn lemma_emitted_push(cs: Seq<Option<Seq<char>>>, x: Option<Seq<char>>)
    ensures
        emitted(cs.push(x)) == emitted(cs) + (match x {
            Some(c) => if c.len() > 0 {
                seq![c]
            } else {
                Seq::<Seq<char>>::empty()
            },
            None => Seq::<Seq<char>>::empty(),
        }),
    decreases cs.len(),
{
    let piece = (match x {
        Some(c) => if c.len() > 0 {
            seq![c]
        } else {
            Seq::<Seq<char>>::empty()
        },
        None => Seq::<Seq<char>>::empty(),
    });
    if cs.len() == 0 {
        assert(cs.push(x).drop_first() =~= Seq::<Option<Seq<char>>>::empty());
        assert(emitted(Seq::<Option<Seq<char>>>::empty()) == Seq::<Seq<char>>::empty());
        assert(cs.push(x)[0] == x);
        assert(emitted(cs.push(x)) =~= emitted(cs) + piece);
    } else {
        assert(cs.push(x).drop_first() =~= cs.drop_first().push(x));
        assert(cs.push(x)[0] == cs[0]);
        lemma_emitted_push(cs.drop_first(), x);
        assert(emitted(cs.push(x)) =~= emitted(cs) + piece);
    }
}

/// A line counts as at most one decoded frame.
pub proof fn lemma_line_frame_bound(line: Seq<char>)
    ensures
        line_frame(line) <= 1,
{
    reveal(line_frame);
}

/// Classifies one complete line and returns its deltas, and whether the
/// line counted as a decoded frame.
#[verifier::rlimit(60)]
fn line_deltas(line: &Vec<char>) -> (r: (Vec<String>, bool))
    ensures
        r.0.deep_view() == line_events(line@),
        r.1 == (line_frame(line@) == 1),
{
    proof {
        reveal(line_events);
        reveal(line_frame);
    }
    let t = trim_chars(line);
    let done = done_prefix_vec();
    let empty_evs: Vec<String> = Vec::new();
    proof {
        assert(empty_evs.deep_view() =~= Seq::<Seq<char>>::empty());
    }
    if has_prefix(&t, &done) {
        return (empty_evs, false);
    }
    let data = data_prefix_vec();
    if !has_prefix(&t, &data) {
        return (empty_evs, false);
    }
    let payload = subvec(&t, 6, t.len());
    proof {
        assert(payload@ =~= spec_trim(line@).skip(6));
    }
    if payload.len() == 0 {
        return (empty_evs, false);
    }
    match crate::json::parse_frame_chars(&payload) {
        None => (empty_evs, false),
        Some(cs) => {
            let mut evs: Vec<String> = Vec::new();
            let mut i: usize = 0;
            proof {
                assert(cs.deep_view().take(0) =~= Seq::<Option<Seq<char>>>::empty());
                assert(evs.deep_view() =~= emitted(cs.deep_view().take(0)));
            }
            while i < cs.len()
                invariant
                    i <= cs.len(),
                    evs.deep_view() == emitted(cs.deep_view().take(i as int)),
                decreases cs@.len() - i,
            {
                let ghost pre = cs.deep_view().take(i as int);
                let ghost evs0 = evs.deep_view();
                match &cs[i] {
                    Some(c) => {
                        proof {
                            assert(c.deep_view() =~= c@);
                        }
                        if c.len() > 0 {
                            let text = crate::text::chars_to_string(c);
                            evs.push(text);
                            proof {
                                assert(evs.deep_view() =~= evs0.push(c@));
                            }
                        }
                    },
                    None => {},
                }
                proof {
                    lemma_emitted_push(pre, cs.deep_view()[i as int]);
                    assert(cs.deep_view().take(i as int + 1) =~= pre.push(
                        cs.deep_view()[i as int],
                    ));
                    assert(evs.deep_view() =~= emitted(cs.deep_view().take(i as int + 1)));
                }
                i = i + 1;
            }
            proof {
                assert(cs.deep_view().take(cs@.len() as int) =~= cs.deep_view());
            }
            (evs, true)
        },
    }
}

} // verus!

verus! {

/// The position of the first newline in `s`, when one exists.
fn find_newline(s: &Vec<char>) -> (r: Option<usize>)
    ensures
        (match r {
            Some(p) => p as int == first_nl_from(s@, 0) && p < s.len(),
            None => first_nl_from(s@, 0) == s@.len(),
        }),
{
    let mut cur: usize = 0;
    while cur < s.len() && s[cur] != '\n'
        invariant
            cur <= s.len(),
            first_nl_from(s@, 0) == first_nl_from(s@, cur as int),
        decreases s@.len() - cur,
    {
        cur = cur + 1;
    }
    if cur < s.len() {
        Some(cur)
    } else {
        None
    }
}

/// The incremental decoder's state: the unterminated tail of the text seen
/// so far, and a saturating diagnostic count of decoded frames. The ghost
/// field `seen` records the whole text ever pushed, so that the contracts
/// can speak of it.
pub struct SseDecoder {
    pub buf: Vec<char>,
    pub frames: u64,
    pub seen: Ghost<Seq<char>>,
}

impl SseDecoder {
    /// The decoder invariant: the buffer holds exactly the unterminated
    /// tail of the text seen, and `frames` counts its decoded frames,
    /// saturating at the counter's maximum.
    pub open spec fn wf(self) -> bool {
        &&& self.buf@ == line_tail(self.seen@)
        &&& self.frames as nat == (if stream_frames(self.seen@) <= u64::MAX as nat {
            stream_frames(self.seen@)
        } else {
            u64::MAX as nat
        })
    }

    /// A fresh decoder that has seen nothing.
    pub fn new() -> (d: SseDecoder)
        ensures
            d.wf(),
            d.seen@ == Seq::<char>::empty(),
            d.frames == 0,
    {
        let d = SseDecoder { buf: Vec::new(), frames: 0, seen: Ghost(Seq::empty()) };
        d
    }

    /// The number of frames decoded so far (saturating).
    pub fn frame_count(&self) -> (n: u64)
        ensures
            n == self.frames,
    {
        self.frames
    }

    /// Feeds one chunk of text to the decoder and returns the deltas of
    /// every line the chunk completes, in order. The events of all text
    /// seen grow exactly by the returned events: nothing is emitted early,
    /// nothing is withheld once its line is complete.
    #[verifier::rlimit(100)]
    pub fn push(&mut self, text: &str) -> (events: Vec<String>)
        requires
            old(self).wf(),
        ensures
            final(self).wf(),
            final(self).seen@ == old(self).seen@ + text@,
            stream_events(old(self).seen@ + text@) == stream_events(old(self).seen@)
                + events.deep_view(),
    {
        let ghost seen0 = self.seen@;
        let ghost f0 = stream_frames(seen0);
        let mut tv = crate::text::str_to_chars(text);
        let ghost buf0 = self.buf@;
        self.buf.append(&mut tv);
        proof {
            self.seen@ = seen0 + text@;
        }
        let ghost start = self.buf@;
        let mut events: Vec<String> = Vec::new();
        let ghost mut fcount: nat = 0nat;
        proof {
            assert(events.deep_view() =~= Seq::<Seq<char>>::empty());
            assert(Seq::<Seq<char>>::empty() + stream_events(start) =~= stream_events(start));
        }
        loop
            invariant
                self.seen@ == seen0 + text@,
                f0 == stream_frames(seen0),
                stream_events(start) == events.deep_view() + stream_events(self.buf@),
                line_tail(start) == line_tail(self.buf@),
                stream_frames(start) == fcount + stream_frames(self.buf@),
                self.frames as nat == (if f0 + fcount <= u64::MAX as nat {
                    f0 + fcount
                } else {
                    u64::MAX as nat
                }),
            ensures
                self.seen@ == seen0 + text@,
                stream_events(start) == events.deep_view() + stream_events(self.buf@),
                line_tail(start) == line_tail(self.buf@),
                stream_frames(start) == fcount + stream_frames(self.buf@),
                self.frames as nat == (if f0 + fcount <= u64::MAX as nat {
                    f0 + fcount
                } else {
                    u64::MAX as nat
                }),
                first_nl_from(self.buf@, 0) == self.buf@.len(),
            decreases self.buf@.len(),
        {
            match find_newline(&self.buf) {
                None => {
                    break ;
                },
                Some(p) => {
                    let ghost buf_a = self.buf@;
                    let line = subvec(&self.buf, 0, p);
                    let rest = subvec(&self.buf, p + 1, self.buf.len());
                    self.buf = rest;
                    proof {
                        assert(line@ =~= buf_a.take(p as int));
                        assert(self.buf@ =~= buf_a.skip(p as int + 1));
                    }
                    let ghost evs_dv0 = events.deep_view();
                    let (mut evs, is_frame) = line_deltas(&line);
                    let ghost line_dv = evs.deep_view();
                    events.append(&mut evs);
                    proof {
                        assert(events.deep_view() =~= evs_dv0 + line_dv);
                        assert(stream_events(buf_a) == line_events(line@) + stream_events(
                            self.buf@,
                        ));
                        assert(events.deep_view() + stream_events(self.buf@) =~= evs_dv0 + (
                        line_events(line@) + stream_events(self.buf@)));
                        assert(stream_frames(buf_a) == line_frame(line@) + stream_frames(
                            self.buf@,
                        ));
                        lemma_line_frame_bound(line@);
                        fcount = fcount + line_frame(line@);
                    }
                    if is_frame {
                        if self.frames < u64::MAX {
                            self.frames = self.frames + 1;
                        }
                    }
                },
            }
        }
        proof {
            assert(stream_events(self.buf@) == Seq::<Seq<char>>::empty());
            assert(stream_frames(self.buf@) == 0);
            assert(events.deep_view() + Seq::<Seq<char>>::empty() =~= events.deep_view());
            assert(line_tail(self.buf@) == self.buf@);
            assert(start =~= line_tail(seen0) + text@);
            lemma_stream_split(seen0, text@);
        }
        events
    }
}

} // verus!
