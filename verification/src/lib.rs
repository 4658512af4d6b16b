//! Decoder for the Microsoft bitmap (BMP/DIB) binary format.
//!
//! The decoder consumes a fully buffered byte stream and delivers the image
//! through a caller-supplied [`Builder`] sink: the dimensions once, then every
//! decoded pixel, and finally the sink's own build result.  Four header
//! generations are handled (the 12, 40, 108 and 124 byte core blocks),
//! together with palette lookups, bitfield channel extraction and the RLE4 /
//! RLE8 run-length compression schemes.

use vstd::prelude::*;

pub mod bitmap;
pub mod bmp;
pub mod bytes;
pub mod channel;
pub mod errors;
pub mod header;
pub mod laws;
pub mod palette;
pub mod rle;
pub mod rows;
pub mod sink;

use crate::errors::DecodeError;
use crate::sink::SinkEvent;

verus! {

/// One RGBA color sample, 8 bits per channel.
#[derive(Clone, Copy, Debug, PartialEq, Eq, Structural)]
pub struct Color {
    pub r: u8,
    pub g: u8,
    pub b: u8,
    pub a: u8,
}

/// The output sink: the caller's image builder.
///
/// The decoder delivers the image through this capability: the dimensions
/// once, then individual pixels, and finally a `build` call whose result is
/// the decode call's result.  The ghost `log` abstracts a builder as the
/// sequence of calls it has received; every method appends its own event,
/// so the decoder's contracts can say exactly which calls it makes and in
/// which order.
pub trait Builder {
    type TResult;

    /// The calls this builder has received so far, in order.  The default
    /// stands for builders implemented outside the verifier, which need
    /// not provide a log of their own.
    open spec fn log(&self) -> Seq<SinkEvent> {
        Seq::empty()
    }

    /// Receives the image dimensions; called exactly once, first.
    fn set_size(&mut self, width: u32, height: u32)
        ensures
            final(self).log() == old(self).log().push(SinkEvent::SizeSet { width, height }),
    ;

    /// Receives one decoded pixel at destination coordinate `(x, y)`.
    fn set_pixel(&mut self, x: u32, y: u32, r: u8, g: u8, b: u8, a: u8)
        ensures
            final(self).log() == old(self).log().push(SinkEvent::PixelSet { x, y, r, g, b, a }),
    ;

    /// Builds the caller's image; called exactly once, after all pixels.
    fn build(&mut self) -> (res: Result<Self::TResult, DecodeError>)
        ensures
            final(self).log() == old(self).log().push(SinkEvent::Built),
    ;
}

/// Decodes one bitmap byte stream into the caller's builder.
///
/// The contract pins down, for every input, exactly which calls reach the
/// builder and which result comes back: on a header error nothing is
/// delivered and that error is returned; otherwise the dimensions are set
/// once, the pixel phase delivers its pixels, and on success `build` is
/// called last and its result returned.
pub fn decode<TBuilder: Builder>(input: &Vec<u8>, builder: &mut TBuilder) -> (r: Result<
    TBuilder::TResult,
    DecodeError,
>)
    ensures
        crate::bitmap::spec_decode_post(input@, old(builder).log(), final(builder).log(), r),
{
    crate::bitmap::decode(input, builder)
}

} // verus!
