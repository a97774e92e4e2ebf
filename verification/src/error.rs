//! Error taxonomy for decoding and encoding a bundle.
//!
//! Any decode error aborts the whole read: no partially populated aggregate
//! is ever returned.  Each variant carries enough context (expected versus
//! found, the offending offset) to diagnose a malformed input.

use vstd::prelude::*;

verus! {

/// Error produced while decoding a bundle from bytes.
#[derive(Debug, Clone, Copy, PartialEq, Eq, Structural)]
pub enum ReadError {
    /// The input ended before the field being read was complete.
    UnexpectedEof,
    /// A chunk header carried a different tag than the format prescribes at
    /// this position.  Tags are stored as the little-endian packing of the
    /// four ASCII tag bytes.
    UnexpectedChunk { found: u32, expected: u32 },
    /// A string in the string table was not followed by a 0x00 terminator.
    MissingNullTerminator,
    /// A string in the string table was not valid UTF-8.
    InvalidUtf8,
    /// A cross-reference field held an absolute offset that matches no entry
    /// of the string table's offset array.
    UnresolvedStringReference { offset: u32 },
    /// Texture data did not start with the 8-byte PNG signature.
    BadPngMagic { offset: u32 },
    /// A texture entry pointed at pixel data that is not aligned to the
    /// 128-byte boundary the format guarantees.
    MisalignedTextureData { offset: u32 },
    /// A chunk's declared length does not fit the shape its records
    /// prescribe (too short for the fixed fields, or not a whole number
    /// of records).
    BadChunkSize { tag: u32, size: u32 },
    /// The options chunk's icon offset points below the texture data
    /// region, so it cannot be re-expressed relative to it.
    IconOffsetOutOfRange { offset: u32 },
}

/// Error produced while encoding a bundle to bytes.
#[derive(Debug, Clone, Copy, PartialEq, Eq, Structural)]
pub enum WriteError {
    /// A record set is too large for the 32-bit size and offset fields of
    /// the format.
    TooLarge,
    /// A texture references bytes of the original input that lie outside
    /// the buffer supplied for it.
    BadTextureRef,
    /// The audio offset table and the audio entry list differ in length,
    /// so no table can cover the entries.
    BadAudioLayout,
    /// A string holds bytes that are not valid UTF-8, which the format's
    /// decoder would reject.
    InvalidUtf8,
}

} // verus!
