use vstd::prelude::*;

verus! {

/// The way in which an archive violates the container format.
#[derive(Clone, Copy, PartialEq, Eq, Structural, Debug)]
pub enum FormatCause {
    /// The stream does not begin with the archive magic bytes.
    BadMagic,
    /// The header carries the save-data marker, a container variant
    /// that is not supported.
    SaveContainer,
    /// A compression tag byte holds a value outside the known set,
    /// or a chunk header claims to be uncompressed.
    BadCompression,
    /// A chunk header does not begin with the chunk magic bytes.
    BadChunkMagic,
    /// The stream is too large for the format's 32-bit offsets.
    Oversize,
    /// The directory tree nests deeper than any well-formed archive
    /// of this size could, which means its pointers form a cycle.
    PointerCycle,
}

/// An error raised while decoding an archive.
#[derive(Clone, Copy, PartialEq, Eq, Structural, Debug)]
pub enum HapiError {
    /// The stream violates the container format.
    FormatError(FormatCause),
    /// A read reached past the end of the available bytes.
    TruncatedData,
    /// A chunk's payload does not add up to its declared checksum.
    ChecksumMismatch { expected: u32, actual: u32 },
    /// A compressed chunk's byte stream violates its own grammar.
    DecodeError,
}

impl HapiError {
    /// A short description of the error, for callers that show it.
    pub fn message(&self) -> String {
        match self {
            HapiError::FormatError(FormatCause::BadMagic) => String::from_str(
                "Not a HAPI archive",
            ),
            HapiError::FormatError(FormatCause::SaveContainer) => String::from_str(
                "Save data is not supported yet",
            ),
            HapiError::FormatError(FormatCause::BadCompression) => String::from_str(
                "Unknown compression scheme",
            ),
            HapiError::FormatError(FormatCause::BadChunkMagic) => String::from_str(
                "Chunk had bad magic",
            ),
            HapiError::FormatError(FormatCause::Oversize) => String::from_str(
                "Archive is too large for 32-bit offsets",
            ),
            HapiError::FormatError(FormatCause::PointerCycle) => String::from_str(
                "Directory pointers form a cycle",
            ),
            HapiError::TruncatedData => String::from_str("Data ended unexpectedly"),
            HapiError::ChecksumMismatch { .. } => String::from_str("Chunk had bad checksum"),
            HapiError::DecodeError => String::from_str("LZ77 decoding ended prematurely"),
        }
    }
}

} // verus!
