//! The decode orchestrator: header parsing in file order, palette and
//! mask resolution, then the pixel phase — either the RLE state machine
//! or one stride-aligned scanline per stored row, with the destination
//! row corrected for orientation.

use vstd::prelude::*;

use vstd::arithmetic::div_mod::{lemma_div_is_ordered, lemma_fundamental_div_mod,
    lemma_fundamental_div_mod_converse};

use crate::errors::{eof_error, ConfigError, DecodeError};
use crate::header::{read_bitmask, read_file_header, spec_compression, spec_core_header,
    spec_info_header, spec_read_bitmask, spec_read_file_header, spec_extra_header,
    spec_profile_header, spec_version, spec_zero_mask, BitfieldMask, Compression, CoreHeader,
    ExtraHeader, InfoHeader, ProfileHeader, Version};
use crate::palette::{read_palette, spec_read_palette};
use crate::rle::{decode_rle, spec_rle, spec_wrap_sub};
use crate::rows::{decode_row, spec_row, spec_row_bytes};
use crate::sink::{lemma_po_emit_assoc, po_done, po_emit, po_fail, PixelOutcome, SinkEvent};
use crate::Builder;

verus! {

/// Everything the pixel phase needs, as the header phase left it.
pub ghost struct ParsedBmp {
    pub version: Version,
    pub width: u32,
    pub height: u32,
    pub bpp: u32,
    pub top_down: bool,
    pub compression: Option<Compression>,
    pub image_size: u32,
    pub palette: Seq<u8>,
    pub color_width: int,
    pub mask: BitfieldMask,
    pub px_start: int,
}

/// Advances past the colorimetry block where the version carries one.
pub open spec fn spec_skip_extra(d: Seq<u8>, i: int, version: Version) -> Result<
    int,
    DecodeError,
> {
    if version == Version::Microsoft4 || version == Version::Microsoft5 {
        match spec_extra_header(d, i) {
            Err(e) => Err(e),
            Ok((_x, j)) => Ok(j),
        }
    } else {
        Ok(i)
    }
}

/// Advances past the profile block where the version carries one.
pub open spec fn spec_skip_profile(d: Seq<u8>, i: int, version: Version) -> Result<
    int,
    DecodeError,
> {
    if version == Version::Microsoft5 {
        match spec_profile_header(d, i) {
            Err(e) => Err(e),
            Ok((_x, j)) => Ok(j),
        }
    } else {
        Ok(i)
    }
}

/// What the whole header phase yields for a byte stream: the normalized
/// image description, or the first error in file order.
pub open spec fn spec_parse(d: Seq<u8>) -> Result<ParsedBmp, DecodeError> {
    match spec_read_file_header(d, 0) {
        Err(e) => Err(e),
        Ok((_ft, i1)) => match spec_version(d, i1) {
            Err(e) => Err(e),
            Ok((version, i2)) => match spec_core_header(d, i2, version) {
                Err(e) => Err(e),
                Ok((core, i3)) => if version == Version::Microsoft2 {
                    match spec_read_palette(d, i3, version, core.bpp, 0) {
                        Err(e) => Err(e),
                        Ok((pal, i4)) => Ok(
                            ParsedBmp {
                                version,
                                width: core.width,
                                height: core.height,
                                bpp: core.bpp,
                                top_down: core.top_down,
                                compression: None,
                                image_size: 0,
                                palette: pal,
                                color_width: 3,
                                mask: spec_zero_mask(),
                                px_start: i4,
                            },
                        ),
                    }
                } else {
                    match spec_compression(d, i3, core.bpp) {
                        Err(e) => Err(e),
                        Ok((compression, i4)) => match spec_info_header(d, i4, compression) {
                            Err(e) => Err(e),
                            Ok((info, i5)) => match spec_read_bitmask(
                                d,
                                i5,
                                version,
                                compression,
                                core.bpp,
                            ) {
                                Err(e) => Err(e),
                                Ok((mask, i6)) => match spec_skip_extra(d, i6, version) {
                                    Err(e) => Err(e),
                                    Ok(i7) => match spec_skip_profile(d, i7, version) {
                                        Err(e) => Err(e),
                                        Ok(i8) => match spec_read_palette(
                                            d,
                                            i8,
                                            version,
                                            core.bpp,
                                            info.used_colors,
                                        ) {
                                            Err(e) => Err(e),
                                            Ok((pal, i9)) => Ok(
                                                ParsedBmp {
                                                    version,
                                                    width: core.width,
                                                    height: core.height,
                                                    bpp: core.bpp,
                                                    top_down: core.top_down,
                                                    compression,
                                                    image_size: info.image_size,
                                                    palette: pal,
                                                    color_width: 4,
                                                    mask,
                                                    px_start: i9,
                                                },
                                            ),
                                        },
                                    },
                                },
                            },
                        },
                    }
                },
            },
        },
    }
}

/// The stride: the DWORD-aligned byte width of one stored scanline.
pub open spec fn spec_stride(width: int, bpp: int) -> int {
    ((width * bpp + 31) / 32) * 4
}

/// The row the RLE cursor starts on.
pub open spec fn spec_rle_y0(height: u32, top_down: bool) -> u32 {
    if top_down {
        0u32
    } else {
        spec_wrap_sub(height, 1)
    }
}

/// What the uncompressed raster phase does from stored row `fy` on:
/// one stride of bytes per row, decoded to the orientation-corrected
/// destination row.
pub open spec fn spec_raster(d: Seq<u8>, p: ParsedBmp, fy: int) -> PixelOutcome
    decreases p.height - fy,
{
    if fy >= p.height {
        po_done()
    } else {
        let stride = spec_stride(p.width as int, p.bpp as int);
        let rs = p.px_start + stride * fy;
        if rs + stride > d.len() {
            po_fail(eof_error())
        } else {
            let dest: u32 = if p.top_down {
                fy as u32
            } else {
                (p.height - 1 - fy) as u32
            };
            let ro = spec_row(
                d,
                rs,
                p.bpp,
                p.palette,
                p.color_width,
                p.mask,
                dest,
                p.width as int,
            );
            if ro.err is Some {
                ro
            } else {
                po_emit(ro.events, spec_raster(d, p, fy + 1))
            }
        }
    }
}

/// What the whole pixel phase does for a parsed image: the RLE machine
/// for the two run-length modes, the raster otherwise.
pub open spec fn spec_pixels(d: Seq<u8>, p: ParsedBmp) -> PixelOutcome {
    if (p.bpp == 8 && p.compression == Some(Compression::RunLength8)) || (p.bpp == 4
        && p.compression == Some(Compression::RunLength4)) {
        if p.image_size == 0 {
            po_fail(DecodeError::Config(ConfigError::MissingCompressedLength))
        } else if p.px_start + p.image_size > d.len() {
            po_fail(eof_error())
        } else {
            spec_rle(
                d,
                p.px_start + p.image_size,
                p.px_start,
                0,
                spec_rle_y0(p.height, p.top_down),
                p.width,
                p.top_down,
                p.palette,
                p.color_width,
                p.bpp == 4,
            )
        }
    } else {
        spec_raster(d, p, 0)
    }
}

/// The whole contract of a decode call: the exact builder-call log and
/// result for every byte stream.  On a header error nothing reaches the
/// sink; otherwise the dimensions are set once, the pixel phase emits
/// its events, and on success `build` is the last call, its result the
/// decode call's result.
pub open spec fn spec_decode_post<R>(
    d: Seq<u8>,
    log_in: Seq<SinkEvent>,
    log_out: Seq<SinkEvent>,
    r: Result<R, DecodeError>,
) -> bool {
    match spec_parse(d) {
        Err(e) => r == Err::<R, DecodeError>(e) && log_out == log_in,
        Ok(p) => {
            let base = log_in.push(SinkEvent::SizeSet { width: p.width, height: p.height });
            let po = spec_pixels(d, p);
            match po.err {
                Some(e) => r == Err::<R, DecodeError>(e) && log_out == base + po.events,
                None => log_out == (base + po.events).push(SinkEvent::Built),
            }
        },
    }
}

/// One scanline's pixel bytes never reach past its stride.
pub(crate) proof fn lemma_stride_covers(w: int, bpp: u32)
    requires
        w >= 0,
        bpp == 1 || bpp == 4 || bpp == 8 || bpp == 16 || bpp == 24 || bpp == 32,
    ensures
        spec_row_bytes(w, bpp) <= spec_stride(w, bpp as int),
        spec_stride(w, bpp as int) >= 0,
{
    let a = w * (bpp as int);
    let q = (a + 31) / 32;
    lemma_fundamental_div_mod(a + 31, 32);
    assert(32 * q >= a);
    assert(q >= 0) by {
        lemma_div_is_ordered(0, a + 31, 32);
    }
    if bpp == 1 {
        lemma_div_is_ordered(w + 7, 32 * q + 7, 8);
        lemma_fundamental_div_mod_converse(32 * q + 7, 8, 4 * q, 7);
    }
    if bpp == 4 {
        assert(8 * q >= w);
        lemma_div_is_ordered(w + 1, 8 * q + 1, 2);
        lemma_fundamental_div_mod_converse(8 * q + 1, 2, 4 * q, 1);
    }
}

/// Decodes the uncompressed raster: one stride-aligned scanline per
/// stored row, delivered to the orientation-corrected destination row.
fn decode_raster<TBuilder: Builder>(
    input: &Vec<u8>,
    start: usize,
    width: u32,
    height: u32,
    bpp: u32,
    top_down: bool,
    palette: &Vec<u8>,
    color_width: usize,
    bitmask: &BitfieldMask,
    Ghost(p): Ghost<ParsedBmp>,
    builder: &mut TBuilder,
) -> (r: Result<(), DecodeError>)
    requires
        p.width == width,
        p.height == height,
        p.bpp == bpp,
        p.top_down == top_down,
        p.palette == palette@,
        p.color_width == color_width as int,
        p.mask == *bitmask,
        p.px_start == start as int,
        bpp == 1 || bpp == 4 || bpp == 8 || bpp == 16 || bpp == 24 || bpp == 32,
        width < 0x80000000,
        color_width == 3 || color_width == 4,
    ensures
        ({
            let o = spec_raster(input@, p, 0);
            &&& final(builder).log() == old(builder).log() + o.events
            &&& (r is Ok <==> o.err is None)
            &&& (r is Err ==> o.err == Some(r->Err_0))
        }),
{
    let dlen = input.len();
    let ghost log0 = builder.log();
    proof {
        assert((width as int) * (bpp as int) <= 0x80000000 * 32) by (nonlinear_arith)
            requires
                0 <= width < 0x80000000,
                0 <= bpp <= 32,
        ;
    }
    let stride64: u64 = ((width as u64) * (bpp as u64) + 31) / 32 * 4;
    let mut pos: usize = start;
    let mut fy: u32 = 0;
    loop
        invariant
            fy <= height,
            dlen == input@.len(),
            p.height == height,
            p.width == width,
            p.bpp == bpp,
            p.top_down == top_down,
            p.palette == palette@,
            p.color_width == color_width as int,
            p.mask == *bitmask,
            p.px_start == start as int,
            bpp == 1 || bpp == 4 || bpp == 8 || bpp == 16 || bpp == 24 || bpp == 32,
            width < 0x80000000,
            color_width == 3 || color_width == 4,
            stride64 == spec_stride(width as int, bpp as int),
            pos == start + spec_stride(width as int, bpp as int) * fy,
            log0 == old(builder).log(),
            log0.len() <= builder.log().len(),
            builder.log().take(log0.len() as int) == log0,
            spec_raster(input@, p, 0) == po_emit(
                builder.log().skip(log0.len() as int),
                spec_raster(input@, p, fy as int),
            ),
        decreases height - fy,
    {
        let ghost delta = builder.log().skip(log0.len() as int);
        let ghost rest = spec_raster(input@, p, fy as int);
        proof {
            assert(builder.log() =~= log0 + delta);
        }
        if fy >= height {
            proof {
                assert(spec_raster(input@, p, 0).events =~= delta);
            }
            return Ok(());
        }
        if pos > dlen || stride64 > (dlen - pos) as u64 {
            proof {
                assert(spec_raster(input@, p, 0).events =~= delta);
            }
            return Err(DecodeError::Io(crate::errors::IoError::UnexpectedEof));
        }
        let stride = stride64 as usize;
        let dest: u32 = if top_down {
            fy
        } else {
            height - 1 - fy
        };
        proof {
            lemma_stride_covers(width as int, bpp);
        }
        match decode_row(
            width,
            dest,
            input,
            pos,
            bpp,
            palette,
            color_width,
            bitmask,
            builder,
        ) {
            Err(e) => {
                let ghost ro = spec_row(
                    input@,
                    pos as int,
                    bpp,
                    palette@,
                    color_width as int,
                    *bitmask,
                    dest,
                    width as int,
                );
                proof {
                    assert(rest == ro);
                    assert(spec_raster(input@, p, 0).events =~= delta + ro.events);
                }
                return Err(e);
            },
            Ok(()) => {
                let ghost ro = spec_row(
                    input@,
                    pos as int,
                    bpp,
                    palette@,
                    color_width as int,
                    *bitmask,
                    dest,
                    width as int,
                );
                proof {
                    let rest2 = spec_raster(input@, p, fy as int + 1);
                    assert(rest == po_emit(ro.events, rest2));
                    lemma_po_emit_assoc(delta, ro.events, rest2);
                    assert(builder.log().skip(log0.len() as int) =~= delta + ro.events);
                    assert(builder.log().take(log0.len() as int) =~= log0);
                    let s = spec_stride(width as int, bpp as int);
                    assert(s * (fy as int + 1) == s * (fy as int) + s) by (nonlinear_arith);
                }
                pos = pos + stride;
                fy = fy + 1;
            },
        }
    }
}

/// Decodes one bitmap byte stream into the builder: the whole pipeline,
/// from the file header to the final `build` call.
#[verifier::rlimit(100)]
pub(crate) fn decode<TBuilder: Builder>(input: &Vec<u8>, builder: &mut TBuilder) -> (r: Result<
    TBuilder::TResult,
    DecodeError,
>)
    ensures
        spec_decode_post(input@, old(builder).log(), final(builder).log(), r),
{
    let dlen = input.len();
    let mut pos: usize = 0;
    let _file_type = read_file_header(input, &mut pos)?;
    let version = Version::parse(input, &mut pos)?;
    let core = CoreHeader::parse(input, &mut pos, version)?;
    let (compression, image_size, used_colors): (Option<Compression>, u32, u32) = match version {
        Version::Microsoft2 => (None, 0u32, 0u32),
        _ => {
            let compression = Compression::parse(input, &mut pos, core.bpp)?;
            let info = InfoHeader::parse(input, &mut pos, compression)?;
            (compression, info.image_size, info.used_colors)
        },
    };
    let bitmask = read_bitmask(input, &mut pos, version, compression, core.bpp)?;
    let _extra = match version {
        Version::Microsoft4 | Version::Microsoft5 => Some(ExtraHeader::parse(input, &mut pos)?),
        _ => None,
    };
    let _profile = match version {
        Version::Microsoft5 => Some(ProfileHeader::parse(input, &mut pos)?),
        _ => None,
    };
    let palette = read_palette(input, &mut pos, version, core.bpp, used_colors)?;
    let color_width: usize = match version {
        Version::Microsoft2 => 3,
        _ => 4,
    };
    let ghost p = ParsedBmp {
        version,
        width: core.width,
        height: core.height,
        bpp: core.bpp,
        top_down: core.top_down,
        compression,
        image_size,
        palette: palette@,
        color_width: color_width as int,
        mask: bitmask,
        px_start: pos as int,
    };
    proof {
        assert(spec_parse(input@) == Ok::<ParsedBmp, DecodeError>(p));
    }
    let ghost log0 = builder.log();
    builder.set_size(core.width, core.height);
    let ghost log1 = builder.log();
    let ghost po = spec_pixels(input@, p);
    let is_rle8 = core.bpp == 8 && matches!(compression, Some(Compression::RunLength8));
    let is_rle4 = core.bpp == 4 && matches!(compression, Some(Compression::RunLength4));
    if is_rle8 || is_rle4 {
        if image_size == 0 {
            proof {
                assert(log1 + po.events =~= log1);
            }
            return Err(DecodeError::Config(ConfigError::MissingCompressedLength));
        }
        let count = image_size as usize;
        if pos > dlen || count > dlen - pos {
            proof {
                assert(log1 + po.events =~= log1);
            }
            return Err(DecodeError::Io(crate::errors::IoError::UnexpectedEof));
        }
        match decode_rle(
            input,
            pos,
            count,
            core.width,
            core.height,
            core.top_down,
            &palette,
            color_width,
            is_rle4,
            builder,
        ) {
            Err(e) => {
                proof {
                    assert(po.err == Some(e) && builder.log() == log1 + po.events);
                }
                return Err(e);
            },
            Ok(()) => {},
        }
    } else {
        match decode_raster(
            input,
            pos,
            core.width,
            core.height,
            core.bpp,
            core.top_down,
            &palette,
            color_width,
            &bitmask,
            Ghost(p),
            builder,
        ) {
            Err(e) => {
                proof {
                    assert(po.err == Some(e) && builder.log() == log1 + po.events);
                }
                return Err(e);
            },
            Ok(()) => {},
        }
    }
    proof {
        assert(builder.log() == log1 + po.events && po.err is None);
    }
    builder.build()
}

} // verus!
