use vstd::prelude::*;

use crate::err::{FormatCause, HapiError};
use crate::lz77::{decode_lz77, lz77_decoded};
use crate::reader::HapiReader;
use crate::types::HapiCompressionType;
use crate::util::{checksum, checksum_of, le32_at};

verus! {

/// One compressed chunk: its header fields and its raw payload bytes, as
/// they sit in the archive after the stream-level decipher.
#[derive(Debug)]
pub struct HapiCompressedChunk {
    /// How the payload is compressed; never `Uncompressed` in a parsed
    /// chunk, since stored files use no chunks at all.
    pub compression: HapiCompressionType,
    /// Whether a second, chunk-local transform covers the payload.
    pub is_enciphered: bool,
    /// The payload length in bytes.
    pub compressed_size: u32,
    /// The decompressed length the header declares; a mismatch with the
    /// actual decoded length is tolerated and only reported.
    pub decompressed_size: u32,
    /// The additive checksum the header declares for the payload.
    pub checksum: u32,
    /// The payload bytes.
    pub data: Vec<u8>,
}

/// The mathematical shape of a chunk.
pub struct ChunkV {
    pub compression: HapiCompressionType,
    pub is_enciphered: bool,
    pub compressed_size: u32,
    pub decompressed_size: u32,
    pub checksum: u32,
    pub data: Seq<u8>,
}

impl View for HapiCompressedChunk {
    type V = ChunkV;

    open spec fn view(&self) -> ChunkV {
        ChunkV {
            compression: self.compression,
            is_enciphered: self.is_enciphered,
            compressed_size: self.compressed_size,
            decompressed_size: self.decompressed_size,
            checksum: self.checksum,
            data: self.data@,
        }
    }
}

/// The low byte of a chunk-payload position, the mask the chunk-local
/// transform uses.
pub open spec fn chunk_mask(i: int) -> u8 {
    (i % 256) as u8
}

/// The plain byte that position `i` of an enciphered chunk payload holds:
/// the stored byte minus its position, wrapping, then xor'd with it.
pub open spec fn chunk_plain_byte(b: u8, i: int) -> u8 {
    vstd::wrapping::u8_specs::wrapping_sub(b, chunk_mask(i)) ^ chunk_mask(i)
}

/// The whole chunk payload after the chunk-local decipher.
pub open spec fn chunk_plain(data: Seq<u8>) -> Seq<u8> {
    Seq::new(data.len(), |i: int| chunk_plain_byte(data[i], i))
}

/// Undoes the chunk-local transform over a whole payload; positions count
/// from the start of this chunk's payload, independent of the archive
/// offset, and on top of the stream-level decipher already undone.
pub fn decipher_chunk(data: &Vec<u8>) -> (r: Vec<u8>)
    ensures
        r@ == chunk_plain(data@),
{
    let n = data.len();
    let mut out: Vec<u8> = Vec::new();
    let mut i: usize = 0;
    while i < n
        invariant
            n == data@.len(),
            i <= n,
            out@ =~= chunk_plain(data@).subrange(0, i as int),
        decreases n - i,
    {
        let k: u8 = (i % 256) as u8;
        out.push(data[i].wrapping_sub(k) ^ k);
        proof {
            assert(out@ =~= chunk_plain(data@).subrange(0, i + 1));
        }
        i = i + 1;
    }
    proof {
        assert(chunk_plain(data@).subrange(0, n as int) =~= chunk_plain(data@));
    }
    out
}

/// What the chunk record at `off` of `p` parses to: the `SQSH` magic, a
/// version byte that is ignored, a compression tag that must name a real
/// compression, the cipher flag, three sizes, and the payload, whose
/// additive checksum must equal the declared one.
pub open spec fn parse_chunk_at(p: Seq<u8>, off: int) -> Result<ChunkV, HapiError> {
    if off < 0 || off + 19 > p.len() {
        Err(HapiError::TruncatedData)
    } else if !(p[off] == 0x53u8 && p[off + 1] == 0x51u8 && p[off + 2] == 0x53u8 && p[off + 3]
        == 0x48u8) {
        Err(HapiError::FormatError(FormatCause::BadChunkMagic))
    } else if !(p[off + 5] == 1 || p[off + 5] == 2) {
        Err(HapiError::FormatError(FormatCause::BadCompression))
    } else {
        let csize = le32_at(p, off + 7);
        if off + 19 + csize > p.len() {
            Err(HapiError::TruncatedData)
        } else {
            let payload = p.subrange(off + 19, off + 19 + csize);
            let declared = le32_at(p, off + 15);
            if checksum_of(payload) != declared {
                Err(
                    HapiError::ChecksumMismatch {
                        expected: declared,
                        actual: checksum_of(payload),
                    },
                )
            } else {
                Ok(
                    ChunkV {
                        compression: if p[off + 5] == 1 {
                            HapiCompressionType::Lz77
                        } else {
                            HapiCompressionType::Zlib
                        },
                        is_enciphered: p[off + 6] == 1,
                        compressed_size: csize,
                        decompressed_size: le32_at(p, off + 11),
                        checksum: declared,
                        data: payload,
                    },
                )
            }
        }
    }
}

/// Reads and validates the chunk record at `off` of the archive.
pub fn read_chunk_at(rd: &HapiReader, off: u64) -> (r: Result<HapiCompressedChunk, HapiError>)
    requires
        rd.wf(),
        off <= 0xFFFF_FFFFu64,
    ensures
        match r {
            Ok(c) => parse_chunk_at(rd.plain(), off as int) == Ok::<ChunkV, HapiError>(c@),
            Err(e) => parse_chunk_at(rd.plain(), off as int) == Err::<ChunkV, HapiError>(e),
        },
{
    let len = rd.data.len();
    if off + 19 > (len as u64) {
        return Err(HapiError::TruncatedData);
    }
    let o = off as usize;
    if !(rd.read_byte(o) == 0x53 && rd.read_byte(o + 1) == 0x51 && rd.read_byte(o + 2) == 0x53
        && rd.read_byte(o + 3) == 0x48) {
        return Err(HapiError::FormatError(FormatCause::BadChunkMagic));
    }
    let cb = rd.read_byte(o + 5);
    if !(cb == 1 || cb == 2) {
        return Err(HapiError::FormatError(FormatCause::BadCompression));
    }
    let compression = if cb == 1 {
        HapiCompressionType::Lz77
    } else {
        HapiCompressionType::Zlib
    };
    let is_enciphered = rd.read_byte(o + 6) == 1;
    let compressed_size = rd.read_u32(o + 7);
    let decompressed_size = rd.read_u32(o + 11);
    let declared = rd.read_u32(o + 15);
    if (compressed_size as u64) > (len as u64) - (off + 19) {
        return Err(HapiError::TruncatedData);
    }
    let data = rd.read_bytes(o + 19, compressed_size as usize);
    let actual = checksum(data.as_slice());
    if actual != declared {
        return Err(HapiError::ChecksumMismatch { expected: declared, actual });
    }
    Ok(
        HapiCompressedChunk {
            compression,
            is_enciphered,
            compressed_size,
            decompressed_size,
            checksum: declared,
            data,
        },
    )
}

/// Flipping any single byte of a chunk's payload makes the chunk parse
/// fail with a checksum mismatch; an untouched payload never does, since
/// `parse_chunk_at` accepts a record exactly when the payload's additive
/// sum equals the declared checksum.
pub proof fn lemma_payload_flip_mismatch(p: Seq<u8>, off: int, j: int, b: u8)
    requires
        parse_chunk_at(p, off) is Ok,
        off + 19 <= j < off + 19 + le32_at(p, off + 7),
        b != p[j],
    ensures
        parse_chunk_at(p.update(j, b), off) matches Err(e) && e is ChecksumMismatch,
{
    let p2 = p.update(j, b);
    let csize = le32_at(p, off + 7);
    let payload = p.subrange(off + 19, off + 19 + csize);
    assert(le32_at(p2, off + 7) == csize);
    assert(le32_at(p2, off + 15) == le32_at(p, off + 15));
    assert(p2.subrange(off + 19, off + 19 + csize) =~= payload.update(j - (off + 19), b));
    crate::util::lemma_checksum_byte_flip(payload, j - (off + 19), b);
}

/// What inflating a zlib stream yields, when the stream is accepted.
pub uninterp spec fn zlib_decoded(input: Seq<u8>) -> Option<Seq<u8>>;

/// Relies on libflate's zlib::Decoder (its `new` and the `Read` it
/// drives): inflating a byte stream in memory is a function of the bytes
/// alone; `None` stands for the streams it rejects.
#[verifier::external_body]
fn zlib_inflate(data: &Vec<u8>) -> (r: Result<Vec<u8>, ()>)
    ensures
        match r {
            Ok(v) => zlib_decoded(data@) == Some(v@),
            Err(_) => zlib_decoded(data@) is None,
        },
{
    let mut out = Vec::new();
    match libflate::zlib::Decoder::new(data.as_slice()) {
        Ok(mut dec) => match std::io::Read::read_to_end(&mut dec, &mut out) {
            Ok(_) => Ok(out),
            Err(_) => Err(()),
        },
        Err(_) => Err(()),
    }
}

/// What decompressing a chunk yields: the payload after the chunk-local
/// decipher if the chunk is enciphered, decoded by the scheme its header
/// names; a stream the decoder rejects is a decode error.
pub open spec fn chunk_decoded(c: ChunkV) -> Result<Seq<u8>, HapiError> {
    let payload = if c.is_enciphered {
        chunk_plain(c.data)
    } else {
        c.data
    };
    match c.compression {
        HapiCompressionType::Uncompressed => Err(
            HapiError::FormatError(FormatCause::BadCompression),
        ),
        HapiCompressionType::Lz77 => match lz77_decoded(payload) {
            Some(b) => Ok(b),
            None => Err(HapiError::DecodeError),
        },
        HapiCompressionType::Zlib => match zlib_decoded(payload) {
            Some(b) => Ok(b),
            None => Err(HapiError::DecodeError),
        },
    }
}

impl HapiCompressedChunk {
    /// Decompresses this chunk onto the end of `output`, returning how
    /// many bytes it added; on an error nothing is written. A mismatch
    /// between that count and the declared decompressed size is for the
    /// caller to report, not an error.
    pub fn decompress(&self, output: &mut Vec<u8>) -> (r: Result<usize, HapiError>)
        requires
            self@.compression != HapiCompressionType::Uncompressed,
        ensures
            match r {
                Ok(n) => chunk_decoded(self@) matches Ok(b) && final(output)@ == old(output)@ + b
                    && n == b.len(),
                Err(e) => chunk_decoded(self@) == Err::<Seq<u8>, HapiError>(e) && final(output)@
                    == old(output)@,
            },
    {
        let payload: Vec<u8> = if self.is_enciphered {
            decipher_chunk(&self.data)
        } else {
            self.data.clone()
        };
        match self.compression {
            HapiCompressionType::Uncompressed => unreached(),
            HapiCompressionType::Lz77 => match decode_lz77(payload.as_slice()) {
                Ok(mut v) => {
                    let n = v.len();
                    output.append(&mut v);
                    Ok(n)
                },
                Err(e) => Err(e),
            },
            HapiCompressionType::Zlib => match zlib_inflate(&payload) {
                Ok(mut v) => {
                    let n = v.len();
                    output.append(&mut v);
                    Ok(n)
                },
                Err(_) => Err(HapiError::DecodeError),
            },
        }
    }
}

} // verus!
