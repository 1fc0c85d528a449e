use vstd::prelude::*;

verus! {

/// The cipher key that a raw header seed derives, when the seed is nonzero.
pub open spec fn key_of(seed: u32) -> u32 {
    !(vstd::wrapping::u32_specs::wrapping_mul(seed, 4) | (seed >> 6))
}

/// The low byte of a 32-bit value.
pub open spec fn low_byte(x: u32) -> u8 {
    (x % 256) as u8
}

/// The plain byte that a stored byte at absolute offset `off` deciphers to
/// under `key`. The transform depends only on the offset and the key, never
/// on what was read before, so reads at arbitrary offsets decode alike.
pub open spec fn decipher_byte(stored: u8, off: u32, key: u32) -> u8 {
    low_byte(off ^ key) ^ (!stored)
}

/// The stored byte that makes `decipher_byte` give back `plain`: the
/// enciphering direction, used to build archives.
pub open spec fn encipher_byte(plain: u8, off: u32, key: u32) -> u8 {
    !(low_byte(off ^ key) ^ plain)
}

/// Derives the cipher key from the raw header seed; a zero seed means
/// the archive is plaintext and has no key.
pub fn derive_key(seed: u32) -> (r: Option<u32>)
    ensures
        r == if seed == 0 {
            Option::<u32>::None
        } else {
            Some(key_of(seed))
        },
{
    if seed == 0 {
        None
    } else {
        Some(!(seed.wrapping_mul(4) | (seed >> 6)))
    }
}

/// Deciphers one stored byte read at absolute offset `off`.
pub fn decipher(stored: u8, off: u32, key: u32) -> (r: u8)
    ensures
        r == decipher_byte(stored, off, key),
{
    (((off ^ key) % 256) as u8) ^ (!stored)
}

/// Enciphers one plain byte for absolute offset `off`, the inverse of
/// `decipher`; it exists so that tests can build enciphered archives.
pub fn encipher(plain: u8, off: u32, key: u32) -> (r: u8)
    ensures
        r == encipher_byte(plain, off, key),
{
    !((((off ^ key) % 256) as u8) ^ plain)
}

/// Enciphering then deciphering at the same offset with the same key gives
/// the byte back, at every offset independently; so any pattern of seeks,
/// monotone or not, reads the bytes that were written.
pub proof fn lemma_cipher_round_trip(plain: u8, off: u32, key: u32)
    ensures
        decipher_byte(encipher_byte(plain, off, key), off, key) == plain,
{
    assert(decipher_byte(encipher_byte(plain, off, key), off, key) == plain) by (bit_vector);
}

} // verus!
