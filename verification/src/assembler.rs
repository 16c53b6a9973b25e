//! Audio assembly arithmetic: the layered text chunker that bounds what a
//! single synthesis call receives, the linear cross-fade that joins sample
//! buffers without audible clicks, and playback-duration bookkeeping.
use vstd::prelude::*;
use vstd::string::*;
use crate::fingerprint::chars_vec;
use crate::external::string_from_chars;
use crate::textproc::is_terminator;

verus! {

/// A chunk is split preferentially at a sentence end once it reaches this
/// many characters.
pub const CHUNK_SOFT_LIMIT: usize = 50;

/// A chunk is split at secondary punctuation once it exceeds this many
/// characters.
pub const CHUNK_MID_LIMIT: usize = 300;

/// A chunk is split unconditionally at this many characters.
pub const CHUNK_HARD_LIMIT: usize = 500;

/// A strong stop: a sentence terminator of either script.
pub open spec fn is_strong_stop(c: char) -> bool {
    is_terminator(c) || c == '.' || c == '!' || c == '?'
}

/// Secondary punctuation, good enough for a forced split.
pub open spec fn is_secondary_stop(c: char) -> bool {
    c == ',' || c == ';' || c == '\u{ff0c}' || c == '\u{3001}' || c == '\u{ff1b}'
}

/// Whether a character is a strong stop.
pub fn strong_stop(c: char) -> (r: bool)
    ensures
        r == is_strong_stop(c),
{
    c == '\u{3002}' || c == '\u{ff01}' || c == '\u{ff1f}' || c == '.' || c == '!' || c == '?'
}

/// Whether a character is secondary punctuation.
pub fn secondary_stop(c: char) -> (r: bool)
    ensures
        r == is_secondary_stop(c),
{
    c == ',' || c == ';' || c == '\u{ff0c}' || c == '\u{3001}' || c == '\u{ff1b}'
}

/// All chunk characters in order.
pub open spec fn concat_chunks(chunks: Seq<Seq<char>>) -> Seq<char>
    decreases chunks.len(),
{
    if chunks.len() == 0 {
        Seq::empty()
    } else {
        concat_chunks(chunks.drop_last()) + chunks.last()
    }
}

/// Whether a character landing on a chunk of the given length forces a
/// split right after it: at the hard limit unconditionally, at secondary
/// punctuation past the mid limit, at a strong stop past the soft limit.
pub open spec fn splits_after(len: int, c: char) -> bool {
    ||| len + 1 >= CHUNK_HARD_LIMIT
    ||| (len + 1 > CHUNK_MID_LIMIT && is_secondary_stop(c))
    ||| (len + 1 > CHUNK_SOFT_LIMIT && is_strong_stop(c))
}

/// One character of the layered chunking policy: a newline flushes the
/// open chunk (and is itself dropped); any other character joins the open
/// chunk, flushing it when it lands on a split point.
pub open spec fn chunk_step(state: (Seq<Seq<char>>, Seq<char>), c: char) -> (
    Seq<Seq<char>>,
    Seq<char>,
) {
    if c == '\n' {
        if state.1.len() > 0 {
            (state.0.push(state.1), Seq::empty())
        } else {
            state
        }
    } else {
        if splits_after(state.1.len() as int, c) {
            (state.0.push(state.1.push(c)), Seq::empty())
        } else {
            (state.0, state.1.push(c))
        }
    }
}

/// The finished chunks and the open tail after scanning a text.
pub open spec fn chunk_scan(text: Seq<char>) -> (Seq<Seq<char>>, Seq<char>)
    decreases text.len(),
{
    if text.len() == 0 {
        (Seq::empty(), Seq::empty())
    } else {
        chunk_step(chunk_scan(text.drop_last()), text.last())
    }
}

/// The chunks of a text under the layered policy, the open tail flushed as
/// the final chunk.
pub open spec fn chunks_of(text: Seq<char>) -> Seq<Seq<char>> {
    let s = chunk_scan(text);
    if s.1.len() > 0 {
        s.0.push(s.1)
    } else {
        s.0
    }
}

/// Split a text into synthesis chunks: a newline always splits; a strong
/// stop splits once the chunk reaches the soft limit; secondary
/// punctuation splits past the mid limit; the hard limit splits
/// unconditionally.  The chunks are exactly `chunks_of` the text; none is
/// empty or over the hard limit, and together they spell the text minus
/// its newlines.
pub fn chunk_text(text: &str) -> (chunks: Vec<String>)
    ensures
        chunks@.map_values(|s: String| s@) == chunks_of(text@),
        forall|i: int|
            0 <= i < chunks@.len() ==> 0 < (#[trigger] chunks@[i])@.len() <= CHUNK_HARD_LIMIT,
        concat_chunks(chunks@.map_values(|s: String| s@)) == text@.filter(
            |c: char| c != '\n',
        ),
{
    let chars = chars_vec(text);
    let n = chars.len();
    let mut chunks: Vec<String> = Vec::new();
    let mut cur: Vec<char> = Vec::new();
    let mut i: usize = 0;
    while i < n
        invariant
            n == chars@.len(),
            chars@ == text@,
            i <= n,
            cur@.len() < CHUNK_HARD_LIMIT,
            forall|k: int|
                0 <= k < chunks@.len() ==> 0 < (#[trigger] chunks@[k])@.len()
                    <= CHUNK_HARD_LIMIT,
            concat_chunks(chunks@.map_values(|s: String| s@)) + cur@ == chars@.take(
                i as int,
            ).filter(|c: char| c != '\n'),
            (chunks@.map_values(|s: String| s@), cur@) == chunk_scan(chars@.take(i as int)),
        decreases n - i,
    {
        proof {
            lemma_char_filter_take_step(chars@, i as int, |c: char| c != '\n');
            assert(chars@.take(i + 1).drop_last() =~= chars@.take(i as int));
            assert(chars@.take(i + 1).last() == chars@[i as int]);
        }
        let c = chars[i];
        if c == '\n' {
            if cur.len() > 0 {
                let ghost pre = chunks@.map_values(|s: String| s@);
                let ghost curv = cur@;
                let s = string_from_chars(cur.as_slice());
                chunks.push(s);
                cur = Vec::new();
                proof {
                    assert(chunks@.map_values(|s: String| s@) =~= pre.push(curv));
                    lemma_concat_push(pre, curv);
                }
            }
        } else {
            cur.push(c);
            let len = cur.len();
            let split = if len >= CHUNK_HARD_LIMIT {
                true
            } else if len > CHUNK_MID_LIMIT && secondary_stop(c) {
                true
            } else if len > CHUNK_SOFT_LIMIT && strong_stop(c) {
                true
            } else {
                false
            };
            if split {
                let ghost pre = chunks@.map_values(|s: String| s@);
                let ghost curv = cur@;
                let s = string_from_chars(cur.as_slice());
                chunks.push(s);
                cur = Vec::new();
                proof {
                    assert(chunks@.map_values(|s: String| s@) =~= pre.push(curv));
                    lemma_concat_push(pre, curv);
                }
            }
        }
        i = i + 1;
    }
    if cur.len() > 0 {
        let ghost pre = chunks@.map_values(|s: String| s@);
        let ghost curv = cur@;
        let s = string_from_chars(cur.as_slice());
        chunks.push(s);
        proof {
            assert(chunks@.map_values(|s: String| s@) =~= pre.push(curv));
            lemma_concat_push(pre, curv);
        }
    }
    proof {
        assert(chars@.take(n as int) =~= chars@);
    }
    chunks
}

/// Filtering a prefix one character further appends that character exactly
/// when it passes the filter.
proof fn lemma_char_filter_take_step(s: Seq<char>, i: int, pred: spec_fn(char) -> bool)
    requires
        0 <= i < s.len(),
    ensures
        pred(s[i]) ==> s.take(i + 1).filter(pred) == s.take(i).filter(pred).push(s[i]),
        !pred(s[i]) ==> s.take(i + 1).filter(pred) == s.take(i).filter(pred),
{
    reveal(Seq::filter);
    assert(s.take(i + 1).drop_last() =~= s.take(i));
    assert(s.take(i + 1).last() == s[i]);
}

/// Concatenation after appending one chunk appends its characters.
proof fn lemma_concat_push(chunks: Seq<Seq<char>>, c: Seq<char>)
    ensures
        concat_chunks(chunks.push(c)) == concat_chunks(chunks) + c,
{
    assert(chunks.push(c).drop_last() =~= chunks);
    assert(chunks.push(c).last() == c);
}

/// The linear cross-fade of two samples at ramp position `t` of `n`: the
/// first fades out as the second fades in.
pub open spec fn blend(x: i16, y: i16, t: int, n: int) -> int {
    ((x + 32768) * (n - t) + (y + 32768) * t) / n - 32768
}

/// Cross-fade one sample pair.
fn blend_sample(x: i16, y: i16, t: u64, n: u64) -> (r: i16)
    requires
        0 < t <= n,
        n <= 0x4000_0000_0000,
    ensures
        r == blend(x, y, t as int, n as int),
{
    let xs: u64 = (x as i64 + 32768) as u64;
    let ys: u64 = (y as i64 + 32768) as u64;
    proof {
        assert(xs <= 65535 && ys <= 65535);
        assert(xs * (n - t) + ys * t <= 65535 * n) by (nonlinear_arith)
            requires
                xs <= 65535,
                ys <= 65535,
                0 < t <= n,
        ;
        assert(65535 * n <= 65535 * 0x4000_0000_0000) by (nonlinear_arith)
            requires
                n <= 0x4000_0000_0000,
        ;
    }
    let v: u64 = xs * (n - t) + ys * t;
    proof {
        assert(v / n <= 65535) by (nonlinear_arith)
            requires
                v <= 65535 * n,
                n > 0,
        ;
    }
    let q: u64 = v / n;
    let r: i64 = (q as i64) - 32768;
    r as i16
}

/// The cross-fade of two buffers as one sequence: the first buffer's head
/// verbatim, the linearly blended overlap window, then the second buffer's
/// tail verbatim.
pub open spec fn crossfaded(a: Seq<i16>, b: Seq<i16>, overlap: int) -> Seq<i16>
    recommends
        0 <= overlap <= a.len(),
        overlap <= b.len(),
{
    Seq::new(
        (a.len() + b.len() - overlap) as nat,
        |i: int|
            if i < a.len() - overlap {
                a[i]
            } else if i < a.len() {
                blend(a[i], b[i - (a.len() - overlap)], i - (a.len() - overlap) + 1, overlap + 1) as i16
            } else {
                b[i - (a.len() - overlap)]
            },
    )
}

/// Concatenate two sample buffers with a linear cross-fade over the given
/// overlap window, instead of a hard splice.
pub fn crossfade_concat(a: &Vec<i16>, b: &Vec<i16>, overlap: usize) -> (r: Vec<i16>)
    requires
        overlap <= a@.len(),
        overlap <= b@.len(),
        overlap <= 0x4000_0000_0000 - 1,
    ensures
        r@ == crossfaded(a@, b@, overlap as int),
        r@.len() == a@.len() + b@.len() - overlap,
        forall|i: int| 0 <= i < a@.len() - overlap ==> r@[i] == a@[i],
        forall|i: int|
            0 <= i < overlap ==> r@[a@.len() - overlap + i] == blend(
                a@[a@.len() - overlap + i],
                b@[i],
                i + 1,
                overlap + 1,
            ),
        forall|i: int| overlap <= i < b@.len() ==> r@[a@.len() - overlap + i] == b@[i],
{
    let alen = a.len();
    let keep = alen - overlap;
    let mut r: Vec<i16> = Vec::new();
    let mut i: usize = 0;
    while i < keep
        invariant
            keep == a@.len() - overlap,
            i <= keep,
            r@.len() == i,
            forall|k: int| 0 <= k < i ==> r@[k] == a@[k],
        decreases keep - i,
    {
        r.push(a[i]);
        i = i + 1;
    }
    let mut j: usize = 0;
    while j < overlap
        invariant
            alen == a@.len(),
            keep == a@.len() - overlap,
            keep + overlap == alen,
            overlap <= a@.len(),
            overlap <= b@.len(),
            overlap <= 0x4000_0000_0000 - 1,
            j <= overlap,
            r@.len() == keep + j,
            forall|k: int| 0 <= k < keep ==> r@[k] == a@[k],
            forall|k: int|
                0 <= k < j ==> r@[keep + k] == blend(a@[keep + k], b@[k], k + 1, overlap + 1),
        decreases overlap - j,
    {
        let v = blend_sample(a[keep + j], b[j], (j as u64) + 1, (overlap as u64) + 1);
        r.push(v);
        j = j + 1;
    }
    let mut k: usize = overlap;
    while k < b.len()
        invariant
            keep == a@.len() - overlap,
            overlap <= b@.len(),
            overlap <= k <= b@.len(),
            r@.len() == keep + k,
            forall|t: int| 0 <= t < keep ==> r@[t] == a@[t],
            forall|t: int|
                0 <= t < overlap ==> r@[keep + t] == blend(
                    a@[keep + t],
                    b@[t],
                    t + 1,
                    overlap + 1,
                ),
            forall|t: int| overlap <= t < k ==> r@[keep + t] == b@[t],
        decreases b@.len() - k,
    {
        r.push(b[k]);
        k = k + 1;
    }
    proof {
        assert(r@ =~= crossfaded(a@, b@, overlap as int));
    }
    r
}

/// The overlap actually used at one join: the configured window clamped to
/// the shorter neighbour.
pub open spec fn clamped_overlap(alen: int, blen: int, overlap: int) -> int {
    let ov = if overlap <= alen {
        overlap
    } else {
        alen
    };
    if ov <= blen {
        ov
    } else {
        blen
    }
}

/// The stitched whole of a buffer sequence: each further buffer joined to
/// the accumulated result with a cross-fade over the clamped window.
pub open spec fn stitched(buffers: Seq<Seq<i16>>, overlap: int) -> Seq<i16>
    decreases buffers.len(),
{
    if buffers.len() == 0 {
        Seq::empty()
    } else if buffers.len() == 1 {
        buffers[0]
    } else {
        let acc = stitched(buffers.drop_last(), overlap);
        let b = buffers.last();
        crossfaded(acc, b, clamped_overlap(acc.len() as int, b.len() as int, overlap))
    }
}

/// Stitch a sequence of synthesized sample buffers: a single buffer passes
/// through, and each further buffer is joined with a cross-fade over the
/// overlap window (clamped to the shorter neighbour).
pub fn stitch_samples(buffers: Vec<Vec<i16>>, overlap: usize) -> (r: Vec<i16>)
    requires
        overlap <= 0x4000_0000_0000 - 1,
    ensures
        r@ == stitched(buffers@.map_values(|v: Vec<i16>| v@), overlap as int),
{
    let ghost model = buffers@.map_values(|v: Vec<i16>| v@);
    let mut buffers = buffers;
    if buffers.len() == 0 {
        proof {
            assert(stitched(model, overlap as int) =~= Seq::<i16>::empty());
        }
        return Vec::new();
    }
    let mut acc = buffers.remove(0);
    proof {
        assert(acc@ == model[0]);
        assert(buffers@.map_values(|v: Vec<i16>| v@) =~= model.skip(1));
        assert(model.take(1) =~= seq![model[0]]);
        assert(stitched(model.take(1), overlap as int) == model[0]);
    }
    let ghost rest = buffers@.map_values(|v: Vec<i16>| v@);
    let n = buffers.len();
    let mut i: usize = 0;
    while i < n
        invariant
            rest == buffers@.map_values(|v: Vec<i16>| v@),
            rest == model.skip(1),
            model.len() == n + 1,
            n == buffers@.len(),
            i <= n,
            overlap <= 0x4000_0000_0000 - 1,
            acc@ == stitched(model.take(i + 1), overlap as int),
        decreases n - i,
    {
        let b = &buffers[i];
        let mut ov = overlap;
        if acc.len() < ov {
            ov = acc.len();
        }
        if b.len() < ov {
            ov = b.len();
        }
        proof {
            assert(b@ == rest[i as int]);
            assert(rest[i as int] == model[i + 1]);
            assert(ov as int == clamped_overlap(acc@.len() as int, b@.len() as int, overlap as int));
            assert(model.take(i + 2).drop_last() =~= model.take(i + 1));
            assert(model.take(i + 2).last() == model[i + 1]);
        }
        acc = crossfade_concat(&acc, b, ov);
        proof {
            assert(acc@ == stitched(model.take(i + 2), overlap as int));
        }
        i = i + 1;
    }
    proof {
        assert(model.take(n + 1) =~= model);
    }
    acc
}

/// Playback duration in whole seconds from a per-channel sample count and
/// rate; zero when the rate is unreadable.
pub open spec fn duration_secs_of(samples: u32, rate: u32) -> int {
    if rate == 0 {
        0
    } else {
        samples as int / rate as int
    }
}

/// Derive the playback duration from sample count and rate.
pub fn playback_duration(samples: u32, rate: u32) -> (d: i64)
    ensures
        d == duration_secs_of(samples, rate),
{
    if rate == 0 {
        0
    } else {
        (samples / rate) as i64
    }
}

} // verus!
