//! PalmDOC compression codec: a byte-oriented scheme with literal runs,
//! single-byte literals, space-letter pairs, and length/distance
//! backreferences.
//!
//! Decompression is the canonical operation, modeled by
//! [`spec_decompress`]; compression emits only tokens that automaton
//! accepts and is proved to invert under it, so
//! `palmdoc_decompress(palmdoc_compress(x)) == x` for every buffer `x`.
//!
//! On a truncated literal run the decompressor copies what remains; on a
//! truncated token or a backreference whose distance is zero or exceeds
//! the output produced so far, it stops and returns the output
//! accumulated so far. That choice (rather than a typed failure) matches
//! the stated behavior and is exercised by the tests.

use vstd::prelude::*;

verus! {

/// Extends `out` by `len` bytes copied one at a time from `dist` bytes
/// before the end. Each copied byte is appended before the next is read,
/// so a copy whose source range overlaps its destination repeats the
/// just-written tail, which is why the copy must be byte-by-byte.
pub open spec fn spec_backref_extend(out: Seq<u8>, dist: int, len: int) -> Seq<u8>
    recommends
        1 <= dist <= out.len(),
    decreases len,
{
    if len <= 0 {
        out
    } else {
        spec_backref_extend(out.push(out[out.len() - dist]), dist, len - 1)
    }
}

/// The decompressor automaton, scanning `data` left to right from
/// position `i` with output `out` accumulated so far. Control byte `c`:
/// 1–8 copy the next `c` raw bytes; 0 and 9–127 are one literal byte;
/// 192–255 emit a space then `c ^ 0x80`; 128–191 start a two-byte
/// backreference token with an 11-bit distance and a 3-bit length field
/// encoding lengths 3–10.
pub open spec fn spec_decompress_from(data: Seq<u8>, i: int, out: Seq<u8>) -> Seq<u8>
    decreases data.len() - i,
{
    if i < 0 || i >= data.len() {
        out
    } else {
        let c = data[i];
        if 1 <= c && c <= 8 {
            if i + 1 + (c as int) <= data.len() {
                spec_decompress_from(
                    data,
                    i + 1 + (c as int),
                    out + data.subrange(i + 1, i + 1 + (c as int)),
                )
            } else {
                out + data.subrange(i + 1, data.len() as int)
            }
        } else if c <= 127 {
            spec_decompress_from(data, i + 1, out.push(c))
        } else if c >= 192 {
            spec_decompress_from(data, i + 1, out.push(32u8).push(c ^ 128u8))
        } else if i + 1 >= data.len() {
            out
        } else {
            let w = ((c as u16) << 8) | (data[i + 1] as u16);
            let dist = ((w >> 3) & 0x7ff) as int;
            let len = ((w & 7) + 3) as int;
            if dist == 0 || dist > out.len() {
                out
            } else {
                spec_decompress_from(data, i + 2, spec_backref_extend(out, dist, len))
            }
        }
    }
}

/// What decompressing all of `data` yields.
pub open spec fn spec_decompress(data: Seq<u8>) -> Seq<u8> {
    spec_decompress_from(data, 0, Seq::empty())
}

/// True when the scan from position `i` with output `out` meets no
/// truncated token and no invalid backreference: every token is whole and
/// every backreference distance is at least 1 and at most the output
/// produced so far. The compressor emits only such streams.
pub open spec fn spec_wf_stream_from(data: Seq<u8>, i: int, out: Seq<u8>) -> bool
    decreases data.len() - i,
{
    if i < 0 || i >= data.len() {
        true
    } else {
        let c = data[i];
        if 1 <= c && c <= 8 {
            &&& i + 1 + (c as int) <= data.len()
            &&& spec_wf_stream_from(
                data,
                i + 1 + (c as int),
                out + data.subrange(i + 1, i + 1 + (c as int)),
            )
        } else if c <= 127 {
            spec_wf_stream_from(data, i + 1, out.push(c))
        } else if c >= 192 {
            spec_wf_stream_from(data, i + 1, out.push(32u8).push(c ^ 128u8))
        } else {
            &&& i + 1 < data.len()
            &&& {
                let w = ((c as u16) << 8) | (data[i + 1] as u16);
                let dist = ((w >> 3) & 0x7ff) as int;
                let len = ((w & 7) + 3) as int;
                &&& 1 <= dist <= out.len()
                &&& spec_wf_stream_from(data, i + 2, spec_backref_extend(out, dist, len))
            }
        }
    }
}

/// Appending bytes after a well-formed stream does not disturb what the
/// stream decodes to: the scan of the combined buffer first reproduces
/// the stream's output, then continues into the appended bytes.
proof fn lemma_decompress_append(d1: Seq<u8>, d2: Seq<u8>, i: int, out: Seq<u8>)
    requires
        0 <= i <= d1.len(),
        spec_wf_stream_from(d1, i, out),
    ensures
        spec_decompress_from(d1 + d2, i, out) == spec_decompress_from(
            d1 + d2,
            d1.len() as int,
            spec_decompress_from(d1, i, out),
        ),
        spec_wf_stream_from(d1 + d2, i, out) == spec_wf_stream_from(
            d1 + d2,
            d1.len() as int,
            spec_decompress_from(d1, i, out),
        ),
    decreases d1.len() - i,
{
    let d = d1 + d2;
    if i == d1.len() {
        assert(spec_decompress_from(d1, i, out) == out);
    } else {
        let c = d1[i];
        assert(d[i] == c);
        if 1 <= c && c <= 8 {
            let j = i + 1 + (c as int);
            assert(j <= d1.len());
            let chunk1 = d1.subrange(i + 1, j);
            let chunk = d.subrange(i + 1, j);
            assert(chunk =~= chunk1);
            lemma_decompress_append(d1, d2, j, out + chunk1);
            assert(spec_decompress_from(d1, i, out) == spec_decompress_from(d1, j, out + chunk1));
        } else if c <= 127 {
            lemma_decompress_append(d1, d2, i + 1, out.push(c));
        } else if c >= 192 {
            lemma_decompress_append(d1, d2, i + 1, out.push(32u8).push(c ^ 128u8));
        } else {
            assert(i + 1 < d1.len());
            assert(d[i + 1] == d1[i + 1]);
            let w = ((c as u16) << 8) | (d1[i + 1] as u16);
            let dist = ((w >> 3) & 0x7ff) as int;
            let len = ((w & 7) + 3) as int;
            assert(1 <= dist <= out.len());
            lemma_decompress_append(d1, d2, i + 2, spec_backref_extend(out, dist, len));
        }
    }
}

/// Decompresses a PalmDOC-compressed buffer, returning the output
/// accumulated so far if the stream ends in a truncated token or an
/// invalid backreference.
pub fn palmdoc_decompress(data: &[u8]) -> (out: Vec<u8>)
    ensures
        out@ == spec_decompress(data@),
{
    let mut out: Vec<u8> = Vec::new();
    let mut i: usize = 0;
    while i < data.len()
        invariant_except_break
            i <= data@.len(),
            spec_decompress_from(data@, i as int, out@) == spec_decompress(data@),
        ensures
            out@ == spec_decompress(data@),
        decreases data@.len() - i,
    {
        let ghost out0 = out@;
        let ghost i0 = i as int;
        let c: u8 = data[i];
        if 1 <= c && c <= 8 {
            let n: usize = c as usize;
            let dlen: usize = data.len();
            let base: usize = i + 1;
            proof {
                assert(out0 + data@.subrange(i0 + 1, i0 + 1) =~= out0);
            }
            if n <= dlen - base {
                let mut j: usize = 0;
                while j < n
                    invariant
                        j <= n,
                        base + n <= dlen,
                        dlen == data@.len(),
                        base == i0 + 1,
                        out@ == out0 + data@.subrange(i0 + 1, i0 + 1 + j),
                    decreases n - j,
                {
                    out.push(data[base + j]);
                    j = j + 1;
                    proof {
                        assert(out@ =~= out0 + data@.subrange(i0 + 1, i0 + 1 + j));
                    }
                }
                i = base + n;
            } else {
                let mut j: usize = base;
                while j < data.len()
                    invariant
                        0 <= i0,
                        i0 + 1 <= j <= dlen,
                        dlen == data@.len(),
                        out@ == out0 + data@.subrange(i0 + 1, j as int),
                    decreases dlen - j,
                {
                    out.push(data[j]);
                    j = j + 1;
                    proof {
                        assert(out@ =~= out0 + data@.subrange(i0 + 1, j as int));
                    }
                }
                break ;
            }
        } else if c <= 127 {
            out.push(c);
            i = i + 1;
        } else if c >= 192 {
            out.push(32u8);
            out.push(c ^ 128u8);
            i = i + 1;
        } else {
            if data.len() - i < 2 {
                break ;
            }
            let w: u16 = ((c as u16) << 8) | (data[i + 1] as u16);
            let dist: usize = ((w >> 3) & 0x7ff) as usize;
            let lenfield: u16 = w & 7;
            proof {
                assert(w & 7 <= 7) by (bit_vector);
            }
            let l: usize = lenfield as usize + 3;
            if dist == 0 || dist > out.len() {
                break ;
            }
            let ghost outb = out@;
            let mut k: usize = 0;
            while k < l
                invariant
                    k <= l,
                    1 <= dist <= out@.len(),
                    spec_backref_extend(out@, dist as int, (l - k) as int)
                        == spec_backref_extend(outb, dist as int, l as int),
                decreases l - k,
            {
                let ghost outk = out@;
                let idx: usize = out.len() - dist;
                let b: u8 = out[idx];
                out.push(b);
                k = k + 1;
                proof {
                    assert(out@ == outk.push(outk[outk.len() - dist]));
                    assert(spec_backref_extend(outk, dist as int, (l - k + 1) as int)
                        == spec_backref_extend(out@, dist as int, (l - k) as int));
                }
            }
            assert(out@ == spec_backref_extend(outb, dist as int, l as int));
            i = i + 2;
        }
    }
    out
}

/// True of a byte that no control byte can carry directly: values 1–8
/// and 128–255 must travel inside a literal run.
pub open spec fn spec_needs_run(b: u8) -> bool {
    (1 <= b && b <= 8) || b >= 128
}

/// Whether `b` must travel inside a literal run.
fn needs_run(b: u8) -> (r: bool)
    ensures
        r == spec_needs_run(b),
{
    (1 <= b && b <= 8) || b >= 128
}

/// A backreference copy whose source bytes repeat the next `len` input
/// bytes extends an output holding the first `pos` input bytes to one
/// holding the first `pos + len`.
proof fn lemma_backref_extend_match(data: Seq<u8>, pos: int, dist: int, len: int)
    requires
        1 <= dist <= pos,
        0 <= len,
        pos + len <= data.len(),
        forall|k: int| pos <= k < pos + len ==> #[trigger] data[k] == data[k - dist],
    ensures
        spec_backref_extend(data.subrange(0, pos), dist, len) == data.subrange(0, pos + len),
    decreases len,
{
    let out = data.subrange(0, pos);
    if len <= 0 {
        assert(out =~= data.subrange(0, pos + len));
    } else {
        assert(out[out.len() - dist] == data[pos - dist]);
        assert(data[pos] == data[pos - dist]);
        assert(out.push(data[pos]) =~= data.subrange(0, pos + 1));
        lemma_backref_extend_match(data, pos + 1, dist, len - 1);
    }
}

/// The two bytes of a backreference token split and rejoin losslessly,
/// land in the 128–191 control range, and decode to the distance and
/// length they were built from.
proof fn lemma_backref_token(d: u16, lm3: u16)
    by (bit_vector)
    requires
        1 <= d <= 2047,
        lm3 <= 7,
    ensures
        ({
            let w = 0x8000u16 | (d << 3) | lm3;
            &&& 128 <= (w >> 8) as u8 <= 191
            &&& ((((w >> 8) as u8 as u16) << 8) | (w as u8 as u16)) == w
            &&& ((w >> 3) & 0x7ff) == d
            &&& (w & 7) == lm3
        }),
{
}

/// Scans backward for the longest backreference match at `pos`: a
/// distance of at most 2047 whose bytes repeat the bytes at `pos`, up to
/// the 10-byte token limit. A returned length of at least 3 is usable.
#[verifier::loop_isolation(false)]
fn find_backref(data: &[u8], pos: usize) -> (r: (usize, usize))
    requires
        pos < data@.len(),
    ensures
        r.1 >= 3 ==> {
            &&& 1 <= r.0 <= 2047
            &&& r.0 <= pos
            &&& 3 <= r.1 <= 10
            &&& pos + r.1 <= data@.len()
            &&& forall|k: int| pos <= k < pos + r.1 ==> #[trigger] data@[k] == data@[k - r.0]
        },
{
    let mut best_dist: usize = 0;
    let mut best_len: usize = 0;
    let max_dist: usize = if pos < 2047 {
        pos
    } else {
        2047
    };
    let mut d: usize = 1;
    while d <= max_dist
        invariant
            max_dist <= pos < data@.len(),
            max_dist <= 2047,
            1 <= d,
            best_len >= 3 ==> {
                &&& 1 <= best_dist <= max_dist
                &&& 3 <= best_len <= 10
                &&& pos + best_len <= data@.len()
                &&& forall|k: int|
                    pos <= k < pos + best_len ==> #[trigger] data@[k] == data@[k - best_dist]
            },
        decreases max_dist + 1 - d,
    {
        let mut m: usize = 0;
        while m < 10 && m < data.len() - pos && data[pos + m] == data[pos + m - d]
            invariant
                1 <= d <= max_dist,
                m <= 10,
                pos + m <= data@.len(),
                forall|k: int| pos <= k < pos + m ==> #[trigger] data@[k] == data@[k - d],
            decreases 10 - m,
        {
            m = m + 1;
        }
        if m > best_len {
            best_len = m;
            best_dist = d;
        }
        d = d + 1;
    }
    (best_dist, best_len)
}

/// Compresses a buffer into a stream of PalmDOC tokens, greedily
/// preferring the longest valid backreference within the 2047-byte
/// window, then space-letter pairs, then literal and run tokens.
///
/// The contract states the compression round trip: decompressing the
/// result yields the input, for every input. The result is a well-formed
/// stream and at most twice the input's length.
#[verifier::loop_isolation(false)]
pub fn palmdoc_compress(data: &[u8]) -> (out: Vec<u8>)
    ensures
        spec_decompress(out@) == data@,
        spec_wf_stream_from(out@, 0, Seq::empty()),
        out@.len() <= 2 * data@.len(),
{
    let mut out: Vec<u8> = Vec::new();
    let mut pos: usize = 0;
    while pos < data.len()
        invariant
            pos <= data@.len(),
            spec_decompress_from(out@, 0, Seq::empty()) == data@.subrange(0, pos as int),
            spec_wf_stream_from(out@, 0, Seq::empty()),
            out@.len() <= 2 * pos,
        decreases data@.len() - pos,
    {
        let ghost out0 = out@;
        let ghost pos0 = pos as int;
        let ghost decoded0 = data@.subrange(0, pos as int);
        let (bdist, blen) = find_backref(data, pos);
        if blen >= 3 {
            let w: u16 = 0x8000u16 | ((bdist as u16) << 3) | ((blen - 3) as u16);
            out.push((w >> 8) as u8);
            out.push(w as u8);
            pos = pos + blen;
            proof {
                lemma_backref_token(bdist as u16, (blen - 3) as u16);
                let tok = seq![(w >> 8) as u8, w as u8];
                assert(out@ =~= out0 + tok);
                lemma_decompress_append(out0, tok, 0, Seq::empty());
                let d = out0 + tok;
                let li = out0.len() as int;
                let dd = bdist as int;
                let ll = blen as int;
                assert(d[li] == (w >> 8) as u8);
                assert(d[li + 1] == w as u8);
                assert(((d[li] as u16) << 8) | (d[li + 1] as u16) == w);
                assert(decoded0.len() == pos0);
                let ext = spec_backref_extend(decoded0, dd, ll);
                assert(spec_decompress_from(d, li, decoded0)
                    == spec_decompress_from(d, li + 2, ext));
                assert(spec_decompress_from(d, li + 2, ext) == ext);
                lemma_backref_extend_match(data@, pos0, dd, ll);
                assert(ext == data@.subrange(0, pos0 + ll));
                assert(spec_wf_stream_from(d, li, decoded0)
                    == spec_wf_stream_from(d, li + 2, ext));
                assert(spec_wf_stream_from(d, li + 2, ext));
                assert(out@.len() <= 2 * pos);
            }
        } else if data[pos] == 32u8 && pos + 1 < data.len() && data[pos + 1] >= 64
            && data[pos + 1] <= 127 {
            let c: u8 = data[pos + 1] | 128u8;
            out.push(c);
            pos = pos + 2;
            proof {
                let tok = seq![c];
                assert(out@ =~= out0 + tok);
                lemma_decompress_append(out0, tok, 0, Seq::empty());
                let d = out0 + tok;
                let li = out0.len() as int;
                assert(d[li] == c);
                let x = data@[pos0 + 1];
                assert(c >= 192 && (c ^ 128u8) == x) by (bit_vector)
                    requires
                        c == x | 128u8 && 64 <= x <= 127,
                ;
                let dec1 = decoded0.push(32u8).push(c ^ 128u8);
                assert(spec_decompress_from(d, li, decoded0)
                    == spec_decompress_from(d, li + 1, dec1));
                assert(spec_decompress_from(d, li + 1, dec1) == dec1);
                assert(dec1 =~= data@.subrange(0, pos0 + 2));
                assert(spec_wf_stream_from(d, li, decoded0)
                    == spec_wf_stream_from(d, li + 1, dec1));
                assert(spec_wf_stream_from(d, li + 1, dec1));
            }
        } else if data[pos] == 0 || (data[pos] >= 9 && data[pos] <= 127) {
            let c: u8 = data[pos];
            out.push(c);
            pos = pos + 1;
            proof {
                let tok = seq![c];
                assert(out@ =~= out0 + tok);
                lemma_decompress_append(out0, tok, 0, Seq::empty());
                let d = out0 + tok;
                let li = out0.len() as int;
                assert(d[li] == c);
                let dec1 = decoded0.push(c);
                assert(spec_decompress_from(d, li, decoded0)
                    == spec_decompress_from(d, li + 1, dec1));
                assert(spec_decompress_from(d, li + 1, dec1) == dec1);
                assert(dec1 =~= data@.subrange(0, pos0 + 1));
                assert(spec_wf_stream_from(d, li, decoded0)
                    == spec_wf_stream_from(d, li + 1, dec1));
                assert(spec_wf_stream_from(d, li + 1, dec1));
            }
        } else {
            let mut n: usize = 1;
            while n < 8 && n < data.len() - pos && needs_run(data[pos + n])
                invariant
                    1 <= n <= 8,
                    pos + n <= data@.len(),
                decreases 8 - n,
            {
                n = n + 1;
            }
            out.push(n as u8);
            let mut j: usize = 0;
            while j < n
                invariant
                    j <= n,
                    out@ == out0.push(n as u8) + data@.subrange(pos0, pos0 + j),
                decreases n - j,
            {
                out.push(data[pos + j]);
                j = j + 1;
                proof {
                    assert(out@ =~= out0.push(n as u8) + data@.subrange(pos0, pos0 + j));
                }
            }
            pos = pos + n;
            proof {
                let tok = seq![n as u8] + data@.subrange(pos0, pos0 + n as int);
                assert(out@ =~= out0 + tok);
                lemma_decompress_append(out0, tok, 0, Seq::empty());
                let d = out0 + tok;
                let li = out0.len() as int;
                assert(d[li] == n as u8);
                assert(li + 1 + n as int == d.len());
                let chunk = d.subrange(li + 1, li + 1 + n as int);
                assert(chunk =~= data@.subrange(pos0, pos0 + n as int));
                let dec1 = decoded0 + chunk;
                assert(spec_decompress_from(d, li, decoded0)
                    == spec_decompress_from(d, li + 1 + n as int, dec1));
                assert(spec_decompress_from(d, li + 1 + n as int, dec1) == dec1);
                assert(dec1 =~= data@.subrange(0, pos0 + n as int));
                assert(spec_wf_stream_from(d, li, decoded0)
                    == spec_wf_stream_from(d, li + 1 + n as int, dec1));
                assert(spec_wf_stream_from(d, li + 1 + n as int, dec1));
                assert(out@.len() <= 2 * pos);
            }
        }
    }
    proof {
        assert(data@.subrange(0, data@.len() as int) =~= data@);
    }
    out
}

} // verus!
