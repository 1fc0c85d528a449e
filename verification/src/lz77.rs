use vstd::prelude::*;

use crate::err::HapiError;

verus! {

// The custom LZ77 stream interleaves tag bytes with payload bytes. One tag
// byte governs the next up-to-8 decisions, lowest-order bit first: a clear
// bit copies one literal byte to the output; a set bit reads a little-endian
// 16-bit value whose high 12 bits are a window pointer and whose low 4 bits
// are a run length. Pointer 0 is the end-of-stream sentinel; pointer p > 0
// copies `(low 4 bits) + 2` bytes starting at slot p - 1 of a circular
// 4096-byte window of the most recent output, one byte at a time, so a run
// may read bytes it has just written.

/// The byte a 4096-byte sliding window holds at slot `i` once the bytes of
/// `out` have been written into it in order, wrapping around: the most
/// recent byte of `out` written at slot `i`, or 0 if none reached it yet.
pub open spec fn window_at(out: Seq<u8>, i: int) -> u8
    recommends
        0 <= i < 4096,
{
    let n = out.len() as int;
    let r = n % 4096;
    let base = n - r;
    if i < r {
        out[base + i]
    } else if base + i - 4096 >= 0 {
        out[base + i - 4096]
    } else {
        0u8
    }
}

/// Appends to `out` the `count` bytes a back-reference copies: byte `k` of
/// the run reads window slot `(src + k) % 4096` of the output as it stands
/// after the first `k` bytes of the run, which makes self-overlapping runs
/// reproduce bytes they wrote themselves.
pub open spec fn backref_append(out: Seq<u8>, src: int, count: int) -> Seq<u8>
    decreases count,
{
    if count <= 0 {
        out
    } else {
        backref_append(out.push(window_at(out, src % 4096)), src + 1, count - 1)
    }
}

/// One decoding state: the next input position `i`, the unread bits of the
/// current tag (`tag`, consumed lowest-first, `bits` of them left), and the
/// output so far. Gives the final output, or `None` if the input ends before
/// the sentinel.
pub open spec fn lz77_run(input: Seq<u8>, i: int, tag: u8, bits: u8, out: Seq<u8>) -> Option<
    Seq<u8>,
>
    decreases input.len() - i,
{
    if bits == 0 {
        if i >= input.len() {
            None
        } else {
            lz77_run(input, i + 1, input[i], 8, out)
        }
    } else if tag & 1 == 0 {
        if i >= input.len() {
            None
        } else {
            lz77_run(input, i + 1, tag >> 1u8, (bits - 1) as u8, out.push(input[i]))
        }
    } else {
        if i + 2 > input.len() || i < 0 {
            None
        } else {
            let lo = input[i];
            let hi = input[i + 1];
            let pointer = (hi as int) * 16 + (lo as int) / 16;
            if pointer == 0 {
                Some(out)
            } else {
                lz77_run(
                    input,
                    i + 2,
                    tag >> 1u8,
                    (bits - 1) as u8,
                    backref_append(out, pointer - 1, (lo as int) % 16 + 2),
                )
            }
        }
    }
}

/// What the custom LZ77 decoder yields on `input`: the decoded bytes, or
/// `None` if the stream ends before its sentinel.
pub open spec fn lz77_decoded(input: Seq<u8>) -> Option<Seq<u8>> {
    lz77_run(input, 0, 0u8, 0u8, Seq::empty())
}

/// Reads the window slot `slot` out of the decoded output so far; the
/// window is not kept separately, since its live slots are exactly the
/// last up-to-4096 bytes of the output, zero where nothing reached yet.
fn window_read(out: &Vec<u8>, slot: usize) -> (r: u8)
    requires
        slot < 4096,
    ensures
        r == window_at(out@, slot as int),
{
    let n = out.len();
    let rem = n % 4096;
    let base = n - rem;
    if slot < rem {
        out[base + slot]
    } else if base >= 4096 - slot {
        out[base - (4096 - slot)]
    } else {
        0
    }
}

/// Decodes one custom-LZ77 chunk stream. Succeeds exactly when the stream
/// reaches its end-of-stream sentinel, and then returns precisely the bytes
/// `lz77_decoded` names; an input that ends mid-tag, mid-literal or
/// mid-pointer is a decode error.
pub fn decode_lz77(input: &[u8]) -> (r: Result<Vec<u8>, HapiError>)
    ensures
        match r {
            Ok(v) => lz77_decoded(input@) == Some(v@),
            Err(e) => lz77_decoded(input@) is None && e == HapiError::DecodeError,
        },
{
    let mut out: Vec<u8> = Vec::new();
    let mut i: usize = 0;
    let mut tag: u8 = 0;
    let mut bits: u8 = 0;
    loop
        invariant
            i <= input@.len(),
            lz77_decoded(input@) == lz77_run(input@, i as int, tag, bits, out@),
        decreases input@.len() - i,
    {
        if bits == 0 {
            if i >= input.len() {
                return Err(HapiError::DecodeError);
            }
            tag = input[i];
            i = i + 1;
            bits = 8;
        } else if tag & 1 == 0 {
            if i >= input.len() {
                return Err(HapiError::DecodeError);
            }
            let lit = input[i];
            i = i + 1;
            out.push(lit);
            tag = tag >> 1u8;
            bits = bits - 1;
        } else {
            if input.len() - i < 2 {
                return Err(HapiError::DecodeError);
            }
            let lo = input[i];
            let hi = input[i + 1];
            i = i + 2;
            let pointer: u32 = (hi as u32) * 16 + (lo as u32) / 16;
            if pointer == 0 {
                return Ok(out);
            }
            let count: usize = (lo as usize) % 16 + 2;
            let mut src: usize = (pointer - 1) as usize;
            let ghost entry_out = out@;
            let ghost entry_src = src as int;
            let mut k: usize = 0;
            while k < count
                invariant
                    k <= count,
                    src == entry_src + k,
                    entry_src + count <= usize::MAX,
                    backref_append(entry_out, entry_src, count as int) == backref_append(
                        out@,
                        src as int,
                        (count - k) as int,
                    ),
                decreases count - k,
            {
                let b = window_read(&out, src % 4096);
                out.push(b);
                src = src + 1;
                k = k + 1;
            }
            tag = tag >> 1u8;
            bits = bits - 1;
        }
    }
}

/// The encoding of `data`'s tail from index `i` that the encoder emits:
/// groups of a zero tag byte and 8 literals while 8 bytes remain, then a
/// final group whose tag sets the bit right after the leftover literals,
/// where a zero pointer ends the stream.
pub open spec fn lz77_encoded_from(data: Seq<u8>, i: int) -> Seq<u8>
    recommends
        0 <= i <= data.len(),
    decreases data.len() - i,
{
    if data.len() - i >= 8 {
        seq![0u8] + data.subrange(i, i + 8) + lz77_encoded_from(data, i + 8)
    } else {
        seq![(1u8 << ((data.len() - i) as u8))] + data.subrange(i, data.len() as int) + seq![
            0u8,
            0u8,
        ]
    }
}

/// The stream the literal-only encoder produces for `data`.
pub open spec fn lz77_encoded(data: Seq<u8>) -> Seq<u8> {
    lz77_encoded_from(data, 0)
}

/// `t` shifted right by `j`, also defined for shifts past the width.
spec fn shr8(t: u8, j: u8) -> u8 {
    if j >= 8 {
        0u8
    } else {
        t >> j
    }
}

/// Running the decoder over `j` clear tag bits copies the next `j` input
/// bytes to the output and consumes those bits.
#[verifier::rlimit(60)]
proof fn lemma_literal_steps(input: Seq<u8>, pos: int, tag: u8, bits: u8, j: u8, out: Seq<u8>)
    requires
        0 <= pos,
        pos + j <= input.len(),
        j <= bits <= 8,
        forall|b: u8| b < j ==> (#[trigger] (tag >> b)) & 1 == 0,
    ensures
        lz77_run(input, pos, tag, bits, out) == lz77_run(
            input,
            pos + j,
            shr8(tag, j),
            (bits - j) as u8,
            out + input.subrange(pos, pos + j),
        ),
    decreases j,
{
    if j == 0 {
        assert(out + input.subrange(pos, pos) =~= out);
        assert(tag >> 0u8 == tag) by (bit_vector);
    } else {
        assert(tag >> 0u8 == tag) by (bit_vector);
        assert((tag >> 0u8) & 1 == 0);
        let tag1 = tag >> 1u8;
        assert forall|b: u8| b < j - 1 implies (#[trigger] (tag1 >> b)) & 1 == 0 by {
            assert((tag >> 1u8) >> b == tag >> ((b + 1) as u8)) by (bit_vector)
                requires
                    b < 7,
            ;
            assert((tag >> ((b + 1) as u8)) & 1 == 0);
        }
        assert(lz77_run(input, pos, tag, bits, out) == lz77_run(
            input,
            pos + 1,
            tag1,
            (bits - 1) as u8,
            out.push(input[pos]),
        ));
        lemma_literal_steps(
            input,
            pos + 1,
            tag1,
            (bits - 1) as u8,
            (j - 1) as u8,
            out.push(input[pos]),
        );
        assert(out.push(input[pos]) + input.subrange(pos + 1, pos + j) =~= out + input.subrange(
            pos,
            pos + j,
        ));
        assert(shr8(tag1, (j - 1) as u8) == shr8(tag, j)) by (bit_vector)
            requires
                1 <= j <= 8,
                tag1 == tag >> 1u8,
        ;
        assert(lz77_run(input, pos + 1, tag1, (bits - 1) as u8, out.push(input[pos]))
            == lz77_run(
            input,
            pos + j,
            shr8(tag, j),
            (bits - j) as u8,
            out + input.subrange(pos, pos + j),
        ));
    }
}

/// Starting a fresh tag at the end of `pre`, the decoder consumes the
/// encoding of `data`'s tail from `i` and appends exactly that tail.
proof fn lemma_decode_of_encoded(data: Seq<u8>, i: int, pre: Seq<u8>, out: Seq<u8>)
    requires
        0 <= i <= data.len(),
    ensures
        lz77_run(pre + lz77_encoded_from(data, i), pre.len() as int, 0u8, 0u8, out) == Some(
            out + data.skip(i),
        ),
    decreases data.len() - i,
{
    let input = pre + lz77_encoded_from(data, i);
    let pos = pre.len() as int;
    if data.len() - i >= 8 {
        let body = seq![0u8] + data.subrange(i, i + 8);
        assert(lz77_encoded_from(data, i) == body + lz77_encoded_from(data, i + 8));
        assert(input[pos] == 0u8);
        assert(forall|b: u8| b < 8 ==> (#[trigger] (0u8 >> b)) & 1 == 0) by (bit_vector);
        lemma_literal_steps(input, pos + 1, 0u8, 8u8, 8u8, out);
        assert(input.subrange(pos + 1, pos + 9) =~= data.subrange(i, i + 8));
        let pre2 = pre + body;
        assert(pre2 + lz77_encoded_from(data, i + 8) =~= input);
        lemma_decode_of_encoded(data, i + 8, pre2, out + data.subrange(i, i + 8));
        assert(out + data.subrange(i, i + 8) + data.skip(i + 8) =~= out + data.skip(i));
        assert(shr8(0u8, 8u8) == 0u8);
    } else {
        let k = data.len() - i;
        let k8: u8 = k as u8;
        let tagk = 1u8 << k8;
        assert(input[pos] == tagk);
        assert forall|b: u8| b < k implies (#[trigger] (tagk >> b)) & 1 == 0 by {
            assert(((1u8 << k8) >> b) & 1 == 0) by (bit_vector)
                requires
                    b < k8 < 8,
            ;
        }
        lemma_literal_steps(input, pos + 1, tagk, 8u8, k8, out);
        assert(input.subrange(pos + 1, pos + 1 + k) =~= data.skip(i));
        assert(shr8(tagk, k8) & 1 == 1) by (bit_vector)
            requires
                k8 < 8,
                tagk == 1u8 << k8,
        ;
        assert(input[pos + 1 + k] == 0u8);
        assert(input[pos + 2 + k] == 0u8);
        assert(lz77_run(input, pos + 1 + k, shr8(tagk, k8), (8 - k) as u8, out + data.skip(i))
            == Some(out + data.skip(i)));
    }
}

/// Decoding the encoder's own output reproduces the input exactly, for
/// arbitrary byte data.
pub proof fn lemma_lz77_round_trip(data: Seq<u8>)
    ensures
        lz77_decoded(lz77_encoded(data)) == Some(data),
{
    lemma_decode_of_encoded(data, 0, Seq::empty(), Seq::empty());
    assert(Seq::<u8>::empty() + lz77_encoded_from(data, 0) =~= lz77_encoded(data));
    assert(Seq::<u8>::empty() + data.skip(0) =~= data);
}

/// Encodes `data` as a custom-LZ77 stream of literals closed by the
/// end-of-stream sentinel; it exists so that tests can build archives and
/// exercise the decoder on its own output.
pub fn encode_lz77(data: &[u8]) -> (r: Vec<u8>)
    ensures
        r@ == lz77_encoded(data@),
{
    let n = data.len();
    let mut out: Vec<u8> = Vec::new();
    let mut i: usize = 0;
    while n - i >= 8
        invariant
            n == data@.len(),
            i <= n,
            lz77_encoded(data@) == out@ + lz77_encoded_from(data@, i as int),
        decreases n - i,
    {
        let ghost out_entry = out@;
        out.push(0u8);
        let mut j: usize = 0;
        while j < 8
            invariant
                n == data@.len(),
                j <= 8,
                i + 8 <= n,
                out@ == out_entry + seq![0u8] + data@.subrange(i as int, i + j),
            decreases 8 - j,
        {
            out.push(data[i + j]);
            proof {
                assert(out@ =~= out_entry + seq![0u8] + data@.subrange(i as int, i + j + 1));
            }
            j = j + 1;
        }
        proof {
            assert(out@ =~= out_entry + (seq![0u8] + data@.subrange(i as int, i + 8)));
        }
        i = i + 8;
    }
    let ghost out_entry = out@;
    let k = n - i;
    out.push(1u8 << (k as u8));
    let mut j: usize = 0;
    while j < k
        invariant
            n == data@.len(),
            j <= k,
            k == n - i,
            k < 8,
            out@ == out_entry + seq![(1u8 << (k as u8))] + data@.subrange(i as int, i + j),
        decreases k - j,
    {
        out.push(data[i + j]);
        proof {
            assert(out@ =~= out_entry + seq![(1u8 << (k as u8))] + data@.subrange(
                i as int,
                i + j + 1,
            ));
        }
        j = j + 1;
    }
    out.push(0u8);
    out.push(0u8);
    proof {
        assert((1u8 << (k as u8)) == (1u8 << ((data@.len() - i) as u8)));
        assert(out@ =~= out_entry + (seq![(1u8 << ((data@.len() - i) as u8))] + data@.subrange(
            i as int,
            data@.len() as int,
        ) + seq![0u8, 0u8]));
    }
    out
}

} // verus!
