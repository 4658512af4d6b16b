//! The error taxonomy of the decoder.
//!
//! Every failure is reported as a [`DecodeError`]; decoding aborts at the
//! first error and nothing is recovered internally.

use vstd::prelude::*;

verus! {

/// Failure of the byte source itself: the buffer ended before a required
/// read could be satisfied.  A short read is fatal and never retried.
#[derive(Clone, Copy, Debug, PartialEq, Eq, Structural)]
pub enum IoError {
    UnexpectedEof,
}

/// Structural problems found while parsing the file and core headers.
/// All of these abort decoding before any pixel is produced.
#[derive(Clone, Copy, Debug, PartialEq, Eq, Structural)]
pub enum HeaderError {
    /// The two magic bytes were not ASCII "BM".
    BadMagic,
    /// The header-size field did not name a known header generation;
    /// carries the offending size.
    UnsupportedVersion(u32),
    /// A width or height field held the minimum representable negative
    /// value, whose absolute value does not exist.
    InvalidDimension,
    /// The color-planes field was not 1.
    InvalidPlanes,
    /// Bits per pixel outside {1, 4, 8, 16, 24, 32}, or 16/32 under the
    /// oldest header generation.
    InvalidBitDepth,
    /// A compression code that is unknown or does not fit the bit depth;
    /// carries the offending code.
    InvalidCompression(u32),
    /// A nonzero palette size was declared for a bit depth that carries
    /// no palette.
    InvalidPaletteSize,
}

/// A header combination that leaves the decoder without needed data.
#[derive(Clone, Copy, Debug, PartialEq, Eq, Structural)]
pub enum ConfigError {
    /// Run-length compression was selected but the compressed stream
    /// length field was zero, so the stream cannot be bounded.
    MissingCompressedLength,
}

/// Corrupt pixel data found while decoding.
#[derive(Clone, Copy, Debug, PartialEq, Eq, Structural)]
pub enum PixelDataError {
    /// A palette index, from an indexed pixel or an RLE literal, was not
    /// smaller than the palette length.
    PaletteIndexOutOfRange,
}

/// Any failure of a decode call.
#[derive(Clone, Copy, Debug, PartialEq, Eq, Structural)]
pub enum DecodeError {
    Io(IoError),
    Header(HeaderError),
    Config(ConfigError),
    PixelData(PixelDataError),
}

/// The error every short read maps to.
pub open spec fn eof_error() -> DecodeError {
    DecodeError::Io(IoError::UnexpectedEof)
}

} // verus!
