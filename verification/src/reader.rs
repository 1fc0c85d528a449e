use vstd::prelude::*;

use crate::cipher::{decipher, decipher_byte, derive_key, key_of};
use crate::err::{FormatCause, HapiError};
use crate::util::le32_at;

verus! {

/// The raw marker field of a save-data container, which is rejected.
pub const HAPI_SAVE_MARKER: u32 = 0x4B4E4142;

/// The raw marker field an ordinary archive carries; any other value that
/// is not the save marker is tolerated with a warning.
pub const HAPI_ARCHIVE_MARKER: u32 = 0x0001_0000;

/// The fixed header of an archive, 20 bytes including the magic.
#[derive(Clone, Copy, PartialEq, Eq, Structural, Debug)]
pub struct HapiHeader {
    /// The raw marker field, distinguishing container variants.
    pub marker: u32,
    /// The size of the table of contents in bytes, as declared.
    pub toc_size: u32,
    /// The cipher key derived from the header seed; absent when the seed
    /// is zero and the archive is plaintext.
    pub key: Option<u32>,
    /// The absolute offset of the root directory block, which is also the
    /// boundary above which the stream cipher applies.
    pub toc_offset: u32,
}

/// Whether `d` starts with the four archive magic bytes, `HAPI`.
pub open spec fn magic_ok(d: Seq<u8>) -> bool {
    d.len() >= 4 && d[0] == 0x48u8 && d[1] == 0x41u8 && d[2] == 0x50u8 && d[3] == 0x49u8
}

/// What header the first 20 bytes of `d` parse to: any stream that does
/// not open with the magic is not this format; a save-data container is
/// unsupported; otherwise the key is derived from the raw seed.
pub open spec fn parse_header(d: Seq<u8>) -> Result<HapiHeader, HapiError> {
    if !magic_ok(d) {
        Err(HapiError::FormatError(FormatCause::BadMagic))
    } else if d.len() < 20 {
        Err(HapiError::TruncatedData)
    } else if le32_at(d, 4) == HAPI_SAVE_MARKER {
        Err(HapiError::FormatError(FormatCause::SaveContainer))
    } else {
        Ok(
            HapiHeader {
                marker: le32_at(d, 4),
                toc_size: le32_at(d, 8),
                key: if le32_at(d, 12) == 0 {
                    None
                } else {
                    Some(key_of(le32_at(d, 12)))
                },
                toc_offset: le32_at(d, 16),
            },
        )
    }
}

/// The byte the reader yields at offset `o`: deciphered when a key is
/// present and `o` lies at or past the cipher boundary, untouched
/// otherwise — in particular untouched everywhere for a plaintext archive.
pub open spec fn plain_at(d: Seq<u8>, key: Option<u32>, boundary: u32, o: int) -> u8
    recommends
        0 <= o < d.len(),
        d.len() <= 0xFFFF_FFFF,
{
    match key {
        Some(k) => if o >= boundary {
            decipher_byte(d[o], o as u32, k)
        } else {
            d[o]
        },
        None => d[o],
    }
}

/// What `HapiReader::new` yields for a byte stream: its header, or the
/// error that rejects it. Streams too long for the format's 32-bit offsets
/// are rejected, since no field could address their tail.
pub open spec fn reader_of(d: Seq<u8>) -> Result<HapiHeader, HapiError> {
    match parse_header(d) {
        Err(e) => Err(e),
        Ok(h) => if d.len() > 0xFFFF_FFFF {
            Err(HapiError::FormatError(FormatCause::Oversize))
        } else {
            Ok(h)
        },
    }
}

/// The deciphered view of a whole byte stream under `key` with cipher
/// boundary `boundary`.
pub open spec fn plain_of(d: Seq<u8>, key: Option<u32>, boundary: u32) -> Seq<u8> {
    Seq::new(d.len(), |o: int| plain_at(d, key, boundary, o))
}

/// The stored form of a plain byte stream under `key`: each byte at or
/// past the boundary enciphered for its own offset, the rest untouched.
pub open spec fn enciphered_of(plain: Seq<u8>, key: u32, boundary: u32) -> Seq<u8> {
    Seq::new(
        plain.len(),
        |o: int|
            if o >= boundary {
                crate::cipher::encipher_byte(plain[o], o as u32, key)
            } else {
                plain[o]
            },
    )
}

/// Enciphering a stream and reading it back through the deciphering
/// source with the same key and boundary gives every byte back. The
/// decipher depends on the absolute offset alone, so this holds for reads
/// in any order, monotone or not.
pub proof fn lemma_source_round_trip(plain: Seq<u8>, key: u32, boundary: u32)
    requires
        plain.len() <= 0xFFFF_FFFF,
    ensures
        plain_of(enciphered_of(plain, key, boundary), Some(key), boundary) == plain,
{
    let stored = enciphered_of(plain, key, boundary);
    assert forall|o: int| 0 <= o < plain.len() implies plain_of(stored, Some(key), boundary)[o]
        == plain[o] by {
        if o >= boundary {
            crate::cipher::lemma_cipher_round_trip(plain[o], o as u32, key);
        }
    }
    assert(plain_of(stored, Some(key), boundary) =~= plain);
}

/// Without a key — a zero cipher seed — the source passes every byte
/// through untouched, below and above the boundary alike.
pub proof fn lemma_plaintext_passthrough(d: Seq<u8>, boundary: u32)
    ensures
        plain_of(d, None::<u32>, boundary) == d,
{
    assert(plain_of(d, None::<u32>, boundary) =~= d);
}

/// A byte source holding a whole archive, with its parsed header; every
/// read at or past the cipher boundary is deciphered in passing, based on
/// the read position alone, so reads in any order decode alike.
pub struct HapiReader {
    /// The raw archive bytes.
    pub data: Vec<u8>,
    /// The parsed header.
    pub header: HapiHeader,
}

impl HapiReader {
    /// The reader holds the header its own bytes parse to.
    pub open spec fn wf(self) -> bool {
        &&& reader_of(self.data@) == Ok::<HapiHeader, HapiError>(self.header)
        &&& self.data@.len() <= 0xFFFF_FFFF
    }

    /// The deciphered view of the archive: what the bytes mean once the
    /// stream cipher has been undone above the boundary.
    pub open spec fn plain(self) -> Seq<u8> {
        plain_of(self.data@, self.header.key, self.header.toc_offset)
    }

    /// Wraps a byte stream: parses and validates the 20-byte header and
    /// derives the cipher key, rejecting streams that are not archives.
    pub fn new(data: Vec<u8>) -> (r: Result<HapiReader, HapiError>)
        ensures
            match r {
                Ok(rd) => reader_of(data@) == Ok::<HapiHeader, HapiError>(rd.header) && rd.data@ == data@ && rd.wf(),
                Err(e) => reader_of(data@) == Err::<HapiHeader, HapiError>(e),
            },
    {
        if data.len() < 4 || !(data[0] == 0x48 && data[1] == 0x41 && data[2] == 0x50 && data[3]
            == 0x49) {
            return Err(HapiError::FormatError(FormatCause::BadMagic));
        }
        if data.len() < 20 {
            return Err(HapiError::TruncatedData);
        }
        let marker = raw_le32(&data, 4);
        if marker == HAPI_SAVE_MARKER {
            return Err(HapiError::FormatError(FormatCause::SaveContainer));
        }
        if data.len() as u64 > 0xFFFF_FFFFu64 {
            return Err(HapiError::FormatError(FormatCause::Oversize));
        }
        let toc_size = raw_le32(&data, 8);
        let seed = raw_le32(&data, 12);
        let toc_offset = raw_le32(&data, 16);
        let header = HapiHeader { marker, toc_size, key: derive_key(seed), toc_offset };
        Ok(HapiReader { data, header })
    }

    /// Whether the header marker is one of the two documented values; an
    /// unknown marker is tolerated, but callers may warn about it.
    pub fn marker_is_known(&self) -> (r: bool)
        ensures
            r == (self.header.marker == HAPI_ARCHIVE_MARKER),
    {
        self.header.marker == HAPI_ARCHIVE_MARKER
    }

    /// Reads the deciphered byte at offset `o`.
    pub fn read_byte(&self, o: usize) -> (r: u8)
        requires
            self.wf(),
            o < self.data@.len(),
        ensures
            r == self.plain()[o as int],
    {
        let b = self.data[o];
        match self.header.key {
            Some(k) => {
                if (o as u32) >= self.header.toc_offset {
                    decipher(b, o as u32, k)
                } else {
                    b
                }
            },
            None => b,
        }
    }

    /// Reads the deciphered little-endian 32-bit value at offset `o`.
    pub fn read_u32(&self, o: usize) -> (r: u32)
        requires
            self.wf(),
            o + 4 <= self.data@.len(),
        ensures
            r == le32_at(self.plain(), o as int),
    {
        let b0 = self.read_byte(o) as u32;
        let b1 = self.read_byte(o + 1) as u32;
        let b2 = self.read_byte(o + 2) as u32;
        let b3 = self.read_byte(o + 3) as u32;
        b0 + b1 * 0x100 + b2 * 0x1_0000 + b3 * 0x100_0000
    }

    /// Reads `n` deciphered bytes starting at offset `o`.
    pub fn read_bytes(&self, o: usize, n: usize) -> (r: Vec<u8>)
        requires
            self.wf(),
            o + n <= self.data@.len(),
        ensures
            r@ == self.plain().subrange(o as int, o + n),
    {
        let mut out: Vec<u8> = Vec::new();
        let mut i: usize = 0;
        while i < n
            invariant
                self.wf(),
                o + n <= self.data@.len(),
                i <= n,
                out@ == self.plain().subrange(o as int, o + i),
            decreases n - i,
        {
            out.push(self.read_byte(o + i));
            proof {
                assert(out@ =~= self.plain().subrange(o as int, o + i + 1));
            }
            i = i + 1;
        }
        out
    }
}

/// Reads the raw (unciphered) little-endian 32-bit value at offset `o`,
/// for header fields that lie below the cipher boundary.
fn raw_le32(data: &Vec<u8>, o: usize) -> (r: u32)
    requires
        o + 4 <= data@.len(),
    ensures
        r == le32_at(data@, o as int),
{
    let _len = data.len();
    let b0 = data[o] as u32;
    let b1 = data[o + 1] as u32;
    let b2 = data[o + 2] as u32;
    let b3 = data[o + 3] as u32;
    b0 + b1 * 0x100 + b2 * 0x1_0000 + b3 * 0x100_0000
}

} // verus!
