use vstd::prelude::*;

use crate::err::HapiError;

verus! {

/// The little-endian 32-bit value stored at offset `o` of `s`.
pub open spec fn le32_at(s: Seq<u8>, o: int) -> u32
    recommends
        0 <= o,
        o + 4 <= s.len(),
{
    (s[o] + s[o + 1] * 0x100 + s[o + 2] * 0x1_0000 + s[o + 3] * 0x100_0000) as u32
}

/// The position of the first zero byte of `s` at or after `o`, if any.
pub open spec fn find_nul(s: Seq<u8>, o: int) -> Option<int>
    decreases s.len() - o,
{
    if o < 0 || o >= s.len() {
        None
    } else if s[o] == 0 {
        Some(o)
    } else {
        find_nul(s, o + 1)
    }
}

/// What lossy UTF-8 decoding makes of a byte sequence.
pub uninterp spec fn lossy_of(bytes: Seq<u8>) -> Seq<char>;

/// Relies on String::from_utf8_lossy: valid UTF-8 decodes unchanged and
/// each invalid sequence becomes replacement characters, so the result is
/// a function of the bytes alone.
#[verifier::external_body]
pub fn utf8_lossy(bytes: &[u8]) -> (r: String)
    ensures
        r@ == lossy_of(bytes@),
{
    String::from_utf8_lossy(bytes).into_owned()
}

/// Decodes the zero-terminated string that starts `buf`, repairing invalid
/// byte sequences rather than rejecting them; fails only when no zero byte
/// arrives before the buffer ends.
pub fn parse_c_string(buf: &[u8]) -> (r: Result<String, HapiError>)
    ensures
        match r {
            Ok(s) => find_nul(buf@, 0) matches Some(e) && s@ == lossy_of(buf@.subrange(0, e)),
            Err(e) => find_nul(buf@, 0) is None && e == HapiError::TruncatedData,
        },
{
    let n = buf.len();
    let mut i: usize = 0;
    while i < n
        invariant
            n == buf@.len(),
            i <= n,
            find_nul(buf@, 0) == find_nul(buf@, i as int),
        decreases n - i,
    {
        if buf[i] == 0 {
            let mut head: Vec<u8> = Vec::new();
            let mut j: usize = 0;
            while j < i
                invariant
                    n == buf@.len(),
                    j <= i <= n,
                    head@ == buf@.subrange(0, j as int),
                decreases i - j,
            {
                head.push(buf[j]);
                proof {
                    assert(head@ =~= buf@.subrange(0, j + 1));
                }
                j = j + 1;
            }
            return Ok(utf8_lossy(head.as_slice()));
        }
        i = i + 1;
    }
    Err(HapiError::TruncatedData)
}

/// Wrap-around 32-bit sum of a byte sequence, as stored in a chunk header.
pub open spec fn checksum_of(s: Seq<u8>) -> u32
    decreases s.len(),
{
    if s.len() == 0 {
        0u32
    } else {
        ((checksum_of(s.drop_last()) + s.last()) % 0x1_0000_0000) as u32
    }
}

/// Computes the additive checksum over a byte slice.
pub fn checksum(data: &[u8]) -> (r: u32)
    ensures
        r == checksum_of(data@),
{
    let mut sum: u32 = 0;
    let mut i: usize = 0;
    while i < data.len()
        invariant
            0 <= i <= data@.len(),
            sum == checksum_of(data@.subrange(0, i as int)),
        decreases data@.len() - i,
    {
        proof {
            assert(data@.subrange(0, i + 1).drop_last() =~= data@.subrange(0, i as int));
            assert(data@.subrange(0, i + 1).last() == data@[i as int]);
        }
        sum = sum.wrapping_add(data[i] as u32);
        i = i + 1;
    }
    proof {
        assert(data@.subrange(0, data@.len() as int) =~= data@);
    }
    sum
}

/// Changing any one byte of a sequence changes its additive checksum:
/// the sums differ by the bytes' difference, which is nonzero and too
/// small to wrap all the way around.
pub proof fn lemma_checksum_byte_flip(s: Seq<u8>, i: int, b: u8)
    requires
        0 <= i < s.len(),
        b != s[i],
    ensures
        checksum_of(s.update(i, b)) != checksum_of(s),
    decreases s.len(),
{
    let t = s.update(i, b);
    if i == s.len() - 1 {
        assert(t.drop_last() =~= s.drop_last());
        assert(t.last() == b && s.last() == s[i]);
    } else {
        assert(t.drop_last() =~= s.drop_last().update(i, b));
        assert(t.last() == s.last());
        lemma_checksum_byte_flip(s.drop_last(), i, b);
    }
}

} // verus!
