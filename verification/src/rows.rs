//! Row decoders for uncompressed pixel data: one per bit depth, each
//! turning one DWORD-aligned scanline into `width` sink calls, left to
//! right.
//!
//! The indexed depths (1, 4 and 8 bits) go through the range-checked
//! palette lookup and can fail; the direct depths (16, 24 and 32 bits)
//! cannot.  Each decoder is proved to emit exactly the events of its spec
//! mirror, in order.

use vstd::prelude::*;

use vstd::arithmetic::div_mod::{lemma_div_is_ordered, lemma_fundamental_div_mod,
    lemma_fundamental_div_mod_converse};

use crate::bytes::{le16, le32};
use crate::channel::{clamp8bit, lemma_scaled_bounds, lemma_trailing_zeros_nonzero,
    lemma_trailing_zeros_zero, spec_scaled, spec_trailing_zeros, trailing_zeros};
use crate::errors::DecodeError;
use crate::header::BitfieldMask;
use crate::palette::{palette_lookup, spec_palette_lookup};
use crate::sink::{lemma_po_emit_assoc, po_done, po_emit, po_fail, PixelOutcome, SinkEvent};
use crate::Builder;

verus! {

/// The palette index pixel `x` of an indexed row carries: one bit, one
/// nibble (high first) or one byte, by bit depth.
pub open spec fn spec_index_at(d: Seq<u8>, rs: int, bpp: u32, x: int) -> int {
    if bpp == 1 {
        ((d[rs + x / 8] >> ((7 - x % 8) as u8)) & 1) as int
    } else if bpp == 4 {
        if x % 2 == 0 {
            ((d[rs + x / 2] >> 4) & 0x0F) as int
        } else {
            (d[rs + x / 2] & 0x0F) as int
        }
    } else {
        d[rs + x] as int
    }
}

/// What an indexed row emits from pixel `x` on: a palette color per
/// pixel, stopped by the first out-of-range index.
pub open spec fn spec_row_indexed(
    d: Seq<u8>,
    rs: int,
    bpp: u32,
    pal: Seq<u8>,
    cw: int,
    row: u32,
    width: int,
    x: int,
) -> PixelOutcome
    decreases width - x,
{
    if x >= width {
        po_done()
    } else {
        match spec_palette_lookup(pal, cw, spec_index_at(d, rs, bpp, x)) {
            None => po_fail(
                DecodeError::PixelData(crate::errors::PixelDataError::PaletteIndexOutOfRange),
            ),
            Some(c) => po_emit(
                seq![SinkEvent::PixelSet { x: x as u32, y: row, r: c.r, g: c.g, b: c.b, a: c.a }],
                spec_row_indexed(d, rs, bpp, pal, cw, row, width, x + 1),
            ),
        }
    }
}

/// The sink call for pixel `x` of a 24-bit row: bytes are blue, green,
/// red, with fixed opaque alpha.
pub open spec fn spec_px24(d: Seq<u8>, rs: int, row: u32, x: int) -> SinkEvent {
    SinkEvent::PixelSet {
        x: x as u32,
        y: row,
        r: d[rs + 3 * x + 2],
        g: d[rs + 3 * x + 1],
        b: d[rs + 3 * x],
        a: 255,
    }
}

/// The sink call for pixel `x` of a 16-bit row: each channel rescaled
/// out of the little-endian word under its mask.
pub open spec fn spec_px16(d: Seq<u8>, rs: int, mask: BitfieldMask, row: u32, x: int) -> SinkEvent {
    let raw = le16(d, rs + 2 * x) as u32;
    SinkEvent::PixelSet {
        x: x as u32,
        y: row,
        r: spec_scaled(raw, mask.red, 0) as u8,
        g: spec_scaled(raw, mask.green, 0) as u8,
        b: spec_scaled(raw, mask.blue, 0) as u8,
        a: spec_scaled(raw, mask.alpha, 255) as u8,
    }
}

/// The sink call for pixel `x` of a 32-bit row.
pub open spec fn spec_px32(d: Seq<u8>, rs: int, mask: BitfieldMask, row: u32, x: int) -> SinkEvent {
    let raw = le32(d, rs + 4 * x) as u32;
    SinkEvent::PixelSet {
        x: x as u32,
        y: row,
        r: spec_scaled(raw, mask.red, 0) as u8,
        g: spec_scaled(raw, mask.green, 0) as u8,
        b: spec_scaled(raw, mask.blue, 0) as u8,
        a: spec_scaled(raw, mask.alpha, 255) as u8,
    }
}

/// What a direct-color row emits: one call per pixel, never an error.
pub open spec fn spec_row_direct(
    d: Seq<u8>,
    rs: int,
    bpp: u32,
    mask: BitfieldMask,
    row: u32,
    width: int,
) -> Seq<SinkEvent> {
    Seq::new(
        width as nat,
        |x: int|
            if bpp == 16 {
                spec_px16(d, rs, mask, row, x)
            } else if bpp == 24 {
                spec_px24(d, rs, row, x)
            } else {
                spec_px32(d, rs, mask, row, x)
            },
    )
}

/// What one row emits and whether it fails, over all bit depths.
pub open spec fn spec_row(
    d: Seq<u8>,
    rs: int,
    bpp: u32,
    pal: Seq<u8>,
    cw: int,
    mask: BitfieldMask,
    row: u32,
    width: int,
) -> PixelOutcome {
    if bpp == 1 || bpp == 4 || bpp == 8 {
        spec_row_indexed(d, rs, bpp, pal, cw, row, width, 0)
    } else {
        PixelOutcome { events: spec_row_direct(d, rs, bpp, mask, row, width), err: None }
    }
}

/// How many scanline bytes the pixel logic of one row touches.
pub open spec fn spec_row_bytes(width: int, bpp: u32) -> int {
    if bpp == 1 {
        (width + 7) / 8
    } else if bpp == 4 {
        (width + 1) / 2
    } else if bpp == 8 {
        width
    } else if bpp == 16 {
        2 * width
    } else if bpp == 24 {
        3 * width
    } else {
        4 * width
    }
}

/// A pixel inside the row touches only bytes the row's byte count covers.
pub(crate) proof fn lemma_index_bound(x: int, w: int, bpp: u32)
    requires
        0 <= x < w,
        bpp == 1 || bpp == 4 || bpp == 8,
    ensures
        bpp == 1 ==> x / 8 < (w + 7) / 8,
        bpp == 4 ==> x / 2 < (w + 1) / 2,
{
    if bpp == 1 {
        lemma_fundamental_div_mod(x, 8);
        lemma_fundamental_div_mod_converse(x + 8, 8, x / 8 + 1, x % 8);
        lemma_div_is_ordered(x + 8, w + 7, 8);
    }
    if bpp == 4 {
        lemma_fundamental_div_mod(x, 2);
        lemma_fundamental_div_mod_converse(x + 2, 2, x / 2 + 1, x % 2);
        lemma_div_is_ordered(x + 2, w + 1, 2);
    }
}

/// Decodes one indexed scanline; `bpp` picks how indices are unpacked.
/// This single body carries the three indexed depths; the per-depth entry
/// points below fix `bpp`.
fn decode_indexed<TBuilder: Builder>(
    width: u32,
    row: u32,
    d: &Vec<u8>,
    rs: usize,
    bpp: u32,
    palette: &Vec<u8>,
    color_width: usize,
    builder: &mut TBuilder,
) -> (r: Result<(), DecodeError>)
    requires
        bpp == 1 || bpp == 4 || bpp == 8,
        color_width == 3 || color_width == 4,
        rs + spec_row_bytes(width as int, bpp) <= d@.len(),
    ensures
        ({
            let o = spec_row_indexed(
                d@,
                rs as int,
                bpp,
                palette@,
                color_width as int,
                row,
                width as int,
                0,
            );
            &&& final(builder).log() == old(builder).log() + o.events
            &&& (r is Ok <==> o.err is None)
            &&& (r is Err ==> o.err == Some(r->Err_0))
        }),
{
    let ghost o0 = spec_row_indexed(
        d@,
        rs as int,
        bpp,
        palette@,
        color_width as int,
        row,
        width as int,
        0,
    );
    let ghost log0 = builder.log();
    let dlen = d.len();
    let mut x: u32 = 0;
    loop
        invariant
            x <= width,
            bpp == 1 || bpp == 4 || bpp == 8,
            color_width == 3 || color_width == 4,
            rs + spec_row_bytes(width as int, bpp) <= d@.len(),
            dlen == d@.len(),
            log0 == old(builder).log(),
            o0 == spec_row_indexed(
                d@,
                rs as int,
                bpp,
                palette@,
                color_width as int,
                row,
                width as int,
                0,
            ),
            log0.len() <= builder.log().len(),
            builder.log().take(log0.len() as int) == log0,
            o0 == po_emit(
                builder.log().skip(log0.len() as int),
                spec_row_indexed(
                    d@,
                    rs as int,
                    bpp,
                    palette@,
                    color_width as int,
                    row,
                    width as int,
                    x as int,
                ),
            ),
        decreases width - x,
    {
        let ghost delta = builder.log().skip(log0.len() as int);
        let ghost rest = spec_row_indexed(
            d@,
            rs as int,
            bpp,
            palette@,
            color_width as int,
            row,
            width as int,
            x as int,
        );
        proof {
            assert(builder.log() =~= log0 + delta);
        }
        if x >= width {
            proof {
                assert(o0.events =~= delta);
            }
            return Ok(());
        }
        proof {
            if bpp == 1 || bpp == 4 {
                lemma_index_bound(x as int, width as int, bpp);
            }
        }
        let idx: u8 = if bpp == 1 {
            let b = d[rs + (x / 8) as usize];
            let bit: u8 = 7 - (x % 8) as u8;
            (b >> bit) & 1
        } else if bpp == 4 {
            let b = d[rs + (x / 2) as usize];
            if x % 2 == 0 {
                (b >> 4) & 0x0F
            } else {
                b & 0x0F
            }
        } else {
            d[rs + x as usize]
        };
        proof {
            assert(idx as int == spec_index_at(d@, rs as int, bpp, x as int));
        }
        match palette_lookup(palette, color_width, idx as usize) {
            Err(e) => {
                proof {
                    assert(o0.events =~= delta);
                }
                return Err(e);
            },
            Ok(c) => {
                let ghost ev = SinkEvent::PixelSet {
                    x: x as u32,
                    y: row,
                    r: c.r,
                    g: c.g,
                    b: c.b,
                    a: c.a,
                };
                builder.set_pixel(x, row, c.r, c.g, c.b, c.a);
                proof {
                    let rest2 = spec_row_indexed(
                        d@,
                        rs as int,
                        bpp,
                        palette@,
                        color_width as int,
                        row,
                        width as int,
                        x as int + 1,
                    );
                    assert(rest == po_emit(seq![ev], rest2));
                    lemma_po_emit_assoc(delta, seq![ev], rest2);
                    assert(builder.log().skip(log0.len() as int) =~= delta + seq![ev]);
                    assert(builder.log().take(log0.len() as int) =~= log0);
                }
                x = x + 1;
            },
        }
    }
}

/// Decodes one 1-bit scanline: each byte holds 8 palette indices, most
/// significant bit first.
pub fn decode_1bpp<TBuilder: Builder>(
    width: u32,
    row: u32,
    d: &Vec<u8>,
    rs: usize,
    palette: &Vec<u8>,
    color_width: usize,
    builder: &mut TBuilder,
) -> (r: Result<(), DecodeError>)
    requires
        color_width == 3 || color_width == 4,
        rs + spec_row_bytes(width as int, 1) <= d@.len(),
    ensures
        ({
            let o = spec_row_indexed(
                d@,
                rs as int,
                1,
                palette@,
                color_width as int,
                row,
                width as int,
                0,
            );
            &&& final(builder).log() == old(builder).log() + o.events
            &&& (r is Ok <==> o.err is None)
            &&& (r is Err ==> o.err == Some(r->Err_0))
        }),
{
    decode_indexed(width, row, d, rs, 1, palette, color_width, builder)
}

/// Decodes one 4-bit scanline: each byte holds two palette indices, high
/// nibble first.
pub fn decode_4bpp<TBuilder: Builder>(
    width: u32,
    row: u32,
    d: &Vec<u8>,
    rs: usize,
    palette: &Vec<u8>,
    color_width: usize,
    builder: &mut TBuilder,
) -> (r: Result<(), DecodeError>)
    requires
        color_width == 3 || color_width == 4,
        rs + spec_row_bytes(width as int, 4) <= d@.len(),
    ensures
        ({
            let o = spec_row_indexed(
                d@,
                rs as int,
                4,
                palette@,
                color_width as int,
                row,
                width as int,
                0,
            );
            &&& final(builder).log() == old(builder).log() + o.events
            &&& (r is Ok <==> o.err is None)
            &&& (r is Err ==> o.err == Some(r->Err_0))
        }),
{
    decode_indexed(width, row, d, rs, 4, palette, color_width, builder)
}

/// Decodes one 8-bit scanline: each byte is one palette index.
pub fn decode_8bpp<TBuilder: Builder>(
    width: u32,
    row: u32,
    d: &Vec<u8>,
    rs: usize,
    palette: &Vec<u8>,
    color_width: usize,
    builder: &mut TBuilder,
) -> (r: Result<(), DecodeError>)
    requires
        color_width == 3 || color_width == 4,
        rs + spec_row_bytes(width as int, 8) <= d@.len(),
    ensures
        ({
            let o = spec_row_indexed(
                d@,
                rs as int,
                8,
                palette@,
                color_width as int,
                row,
                width as int,
                0,
            );
            &&& final(builder).log() == old(builder).log() + o.events
            &&& (r is Ok <==> o.err is None)
            &&& (r is Err ==> o.err == Some(r->Err_0))
        }),
{
    decode_indexed(width, row, d, rs, 8, palette, color_width, builder)
}

/// Derives the shift and maximum of one channel mask, as the rescale
/// expects them.
fn mask_params(mask: u32) -> (r: (u32, u32))
    ensures
        r.0 == spec_trailing_zeros(mask),
        r.1 == if mask == 0 {
            0u32
        } else {
            mask >> (spec_trailing_zeros(mask) as u32)
        },
{
    let sh = trailing_zeros(mask);
    if sh >= 32 {
        proof {
            if mask != 0 {
                lemma_trailing_zeros_nonzero(mask);
            }
        }
        (sh, 0)
    } else {
        proof {
            if mask == 0 {
                lemma_trailing_zeros_zero();
            }
        }
        (sh, mask >> sh)
    }
}

/// Decodes one 16-bit scanline through the bitfield channel model.
pub fn decode_16bpp<TBuilder: Builder>(
    width: u32,
    row: u32,
    d: &Vec<u8>,
    rs: usize,
    mask: &BitfieldMask,
    builder: &mut TBuilder,
)
    requires
        rs + spec_row_bytes(width as int, 16) <= d@.len(),
    ensures
        final(builder).log() == old(builder).log() + spec_row_direct(
            d@,
            rs as int,
            16,
            *mask,
            row,
            width as int,
        ),
{
    let ghost log0 = builder.log();
    let dlen = d.len();
    let (red_shift, red_max) = mask_params(mask.red);
    let (green_shift, green_max) = mask_params(mask.green);
    let (blue_shift, blue_max) = mask_params(mask.blue);
    let (alpha_shift, alpha_max) = mask_params(mask.alpha);
    let mut x: u32 = 0;
    while x < width
        invariant
            x <= width,
            rs + spec_row_bytes(width as int, 16) <= d@.len(),
            dlen == d@.len(),
            red_shift == spec_trailing_zeros(mask.red),
            green_shift == spec_trailing_zeros(mask.green),
            blue_shift == spec_trailing_zeros(mask.blue),
            alpha_shift == spec_trailing_zeros(mask.alpha),
            red_max == if mask.red == 0 {
                0u32
            } else {
                mask.red >> (spec_trailing_zeros(mask.red) as u32)
            },
            green_max == if mask.green == 0 {
                0u32
            } else {
                mask.green >> (spec_trailing_zeros(mask.green) as u32)
            },
            blue_max == if mask.blue == 0 {
                0u32
            } else {
                mask.blue >> (spec_trailing_zeros(mask.blue) as u32)
            },
            alpha_max == if mask.alpha == 0 {
                0u32
            } else {
                mask.alpha >> (spec_trailing_zeros(mask.alpha) as u32)
            },
            builder.log() == log0 + Seq::new(
                x as nat,
                |k: int| spec_px16(d@, rs as int, *mask, row, k),
            ),
        decreases width - x,
    {
        let base = rs + 2 * (x as usize);
        let raw: u32 = d[base] as u32 + 0x100 * (d[base + 1] as u32);
        let rr = clamp8bit(raw, mask.red, red_shift, red_max, 0);
        let gg = clamp8bit(raw, mask.green, green_shift, green_max, 0);
        let bb = clamp8bit(raw, mask.blue, blue_shift, blue_max, 0);
        let aa = clamp8bit(raw, mask.alpha, alpha_shift, alpha_max, 255);
        builder.set_pixel(x, row, rr, gg, bb, aa);
        proof {
            lemma_scaled_bounds(raw, mask.red, 0);
            lemma_scaled_bounds(raw, mask.green, 0);
            lemma_scaled_bounds(raw, mask.blue, 0);
            lemma_scaled_bounds(raw, mask.alpha, 255);
            assert(SinkEvent::PixelSet { x, y: row, r: rr, g: gg, b: bb, a: aa } == spec_px16(
                d@,
                rs as int,
                *mask,
                row,
                x as int,
            ));
            assert(builder.log() =~= log0 + Seq::new(
                x as nat + 1,
                |k: int| spec_px16(d@, rs as int, *mask, row, k),
            ));
        }
        x = x + 1;
    }
}

/// Decodes one 24-bit scanline: blue, green, red bytes per pixel, fixed
/// opaque alpha.
pub fn decode_24bpp<TBuilder: Builder>(
    width: u32,
    row: u32,
    d: &Vec<u8>,
    rs: usize,
    builder: &mut TBuilder,
)
    requires
        rs + spec_row_bytes(width as int, 24) <= d@.len(),
    ensures
        final(builder).log() == old(builder).log() + Seq::new(
            width as nat,
            |k: int| spec_px24(d@, rs as int, row, k),
        ),
{
    let ghost log0 = builder.log();
    let dlen = d.len();
    let mut x: u32 = 0;
    while x < width
        invariant
            x <= width,
            rs + spec_row_bytes(width as int, 24) <= d@.len(),
            dlen == d@.len(),
            builder.log() == log0 + Seq::new(x as nat, |k: int| spec_px24(d@, rs as int, row, k)),
        decreases width - x,
    {
        let base = rs + 3 * (x as usize);
        let b = d[base];
        let g = d[base + 1];
        let r = d[base + 2];
        builder.set_pixel(x, row, r, g, b, 255);
        proof {
            assert(builder.log() =~= log0 + Seq::new(
                x as nat + 1,
                |k: int| spec_px24(d@, rs as int, row, k),
            ));
        }
        x = x + 1;
    }
}

/// Decodes one 32-bit scanline through the bitfield channel model.
pub fn decode_32bpp<TBuilder: Builder>(
    width: u32,
    row: u32,
    d: &Vec<u8>,
    rs: usize,
    mask: &BitfieldMask,
    builder: &mut TBuilder,
)
    requires
        rs + spec_row_bytes(width as int, 32) <= d@.len(),
    ensures
        final(builder).log() == old(builder).log() + spec_row_direct(
            d@,
            rs as int,
            32,
            *mask,
            row,
            width as int,
        ),
{
    let ghost log0 = builder.log();
    let dlen = d.len();
    let (red_shift, red_max) = mask_params(mask.red);
    let (green_shift, green_max) = mask_params(mask.green);
    let (blue_shift, blue_max) = mask_params(mask.blue);
    let (alpha_shift, alpha_max) = mask_params(mask.alpha);
    let mut x: u32 = 0;
    while x < width
        invariant
            x <= width,
            rs + spec_row_bytes(width as int, 32) <= d@.len(),
            dlen == d@.len(),
            red_shift == spec_trailing_zeros(mask.red),
            green_shift == spec_trailing_zeros(mask.green),
            blue_shift == spec_trailing_zeros(mask.blue),
            alpha_shift == spec_trailing_zeros(mask.alpha),
            red_max == if mask.red == 0 {
                0u32
            } else {
                mask.red >> (spec_trailing_zeros(mask.red) as u32)
            },
            green_max == if mask.green == 0 {
                0u32
            } else {
                mask.green >> (spec_trailing_zeros(mask.green) as u32)
            },
            blue_max == if mask.blue == 0 {
                0u32
            } else {
                mask.blue >> (spec_trailing_zeros(mask.blue) as u32)
            },
            alpha_max == if mask.alpha == 0 {
                0u32
            } else {
                mask.alpha >> (spec_trailing_zeros(mask.alpha) as u32)
            },
            builder.log() == log0 + Seq::new(
                x as nat,
                |k: int| spec_px32(d@, rs as int, *mask, row, k),
            ),
        decreases width - x,
    {
        let base = rs + 4 * (x as usize);
        let raw: u32 = d[base] as u32 + 0x100 * (d[base + 1] as u32) + 0x10000 * (d[base
            + 2] as u32) + 0x1000000 * (d[base + 3] as u32);
        let rr = clamp8bit(raw, mask.red, red_shift, red_max, 0);
        let gg = clamp8bit(raw, mask.green, green_shift, green_max, 0);
        let bb = clamp8bit(raw, mask.blue, blue_shift, blue_max, 0);
        let aa = clamp8bit(raw, mask.alpha, alpha_shift, alpha_max, 255);
        builder.set_pixel(x, row, rr, gg, bb, aa);
        proof {
            lemma_scaled_bounds(raw, mask.red, 0);
            lemma_scaled_bounds(raw, mask.green, 0);
            lemma_scaled_bounds(raw, mask.blue, 0);
            lemma_scaled_bounds(raw, mask.alpha, 255);
            assert(SinkEvent::PixelSet { x, y: row, r: rr, g: gg, b: bb, a: aa } == spec_px32(
                d@,
                rs as int,
                *mask,
                row,
                x as int,
            ));
            assert(builder.log() =~= log0 + Seq::new(
                x as nat + 1,
                |k: int| spec_px32(d@, rs as int, *mask, row, k),
            ));
        }
        x = x + 1;
    }
}

/// Decodes one scanline, dispatching on the bit depth.
pub fn decode_row<TBuilder: Builder>(
    width: u32,
    row: u32,
    d: &Vec<u8>,
    rs: usize,
    bpp: u32,
    palette: &Vec<u8>,
    color_width: usize,
    mask: &BitfieldMask,
    builder: &mut TBuilder,
) -> (r: Result<(), DecodeError>)
    requires
        bpp == 1 || bpp == 4 || bpp == 8 || bpp == 16 || bpp == 24 || bpp == 32,
        color_width == 3 || color_width == 4,
        rs + spec_row_bytes(width as int, bpp) <= d@.len(),
    ensures
        ({
            let o = spec_row(
                d@,
                rs as int,
                bpp,
                palette@,
                color_width as int,
                *mask,
                row,
                width as int,
            );
            &&& final(builder).log() == old(builder).log() + o.events
            &&& (r is Ok <==> o.err is None)
            &&& (r is Err ==> o.err == Some(r->Err_0))
        }),
{
    if bpp == 1 || bpp == 4 || bpp == 8 {
        decode_indexed(width, row, d, rs, bpp, palette, color_width, builder)
    } else if bpp == 16 {
        decode_16bpp(width, row, d, rs, mask, builder);
        Ok(())
    } else if bpp == 24 {
        decode_24bpp(width, row, d, rs, builder);
        Ok(())
    } else {
        decode_32bpp(width, row, d, rs, mask, builder);
        Ok(())
    }
}

} // verus!
