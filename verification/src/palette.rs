//! The palette table: an ordered color lookup built from raw palette
//! bytes, and the range-checked lookup every indexed decoder goes through.
//!
//! Entries are stored as they sit in the file, blue first.  Under the
//! oldest header generation an entry is 3 bytes; from the third generation
//! on it is 4, and the reserved fourth byte is replaced by the fixed
//! opaque alpha, which is the decoder's policy for palette alpha.

use vstd::prelude::*;

use crate::bytes::read_u8;
use crate::errors::{eof_error, DecodeError, HeaderError, PixelDataError};
use crate::header::Version;
use crate::Color;

verus! {

/// The palette alpha policy: the fourth palette byte is reserved and is
/// never read as real alpha, so every palette color carries this fixed,
/// fully opaque alpha.
pub const PALETTE_ALPHA: u8 = 255;

/// How many colors the palette holds: the explicit count if nonzero,
/// otherwise every index the bit depth can express.
pub open spec fn spec_palette_size(bpp: u32, used_colors: u32) -> int {
    if used_colors == 0 && bpp < 16 {
        (1u32 << bpp) as int
    } else {
        used_colors as int
    }
}

/// Bytes stored (and consumed) per palette entry.
pub open spec fn spec_entry_width(version: Version) -> int {
    if version == Version::Microsoft2 {
        3
    } else {
        4
    }
}

/// What the palette parse at `i` yields: the stored bytes and the
/// position after them.  A nonzero size at a direct-color bit depth is
/// itself a header error.
pub open spec fn spec_read_palette(
    d: Seq<u8>,
    i: int,
    version: Version,
    bpp: u32,
    used_colors: u32,
) -> Result<(Seq<u8>, int), DecodeError> {
    let n = spec_palette_size(bpp, used_colors);
    let cw = spec_entry_width(version);
    if bpp >= 16 && n > 0 {
        Err(DecodeError::Header(HeaderError::InvalidPaletteSize))
    } else if n == 0 {
        Ok((Seq::empty(), i))
    } else if i + cw * n > d.len() {
        Err(eof_error())
    } else {
        Ok(
            (
                Seq::new(
                    (cw * n) as nat,
                    |j: int|
                        if cw == 4 && j % 4 == 3 {
                            PALETTE_ALPHA
                        } else {
                            d[i + j]
                        },
                ),
                i + cw * n,
            ),
        )
    }
}

/// The color at `idx`, or nothing when the index reaches past the table.
pub open spec fn spec_palette_lookup(pal: Seq<u8>, cw: int, idx: int) -> Option<Color> {
    if cw * idx + 2 < pal.len() {
        Some(
            Color {
                r: pal[cw * idx + 2],
                g: pal[cw * idx + 1],
                b: pal[cw * idx],
                a: PALETTE_ALPHA,
            },
        )
    } else {
        None
    }
}

/// Reads the palette block into its stored form.
pub fn read_palette(
    d: &Vec<u8>,
    pos: &mut usize,
    version: Version,
    bpp: u32,
    used_colors: u32,
) -> (r: Result<Vec<u8>, DecodeError>)
    requires
        bpp < 16 ==> bpp < 32,
    ensures
        match spec_read_palette(d@, *old(pos) as int, version, bpp, used_colors) {
            Ok((p, p2)) => r is Ok && r->Ok_0@ == p && *final(pos) == p2,
            Err(e) => r is Err && r->Err_0 == e,
        },
{
    let size: u32 = if used_colors == 0 && bpp < 16 {
        1u32 << bpp
    } else {
        used_colors
    };
    if bpp >= 16 && size > 0 {
        return Err(DecodeError::Header(HeaderError::InvalidPaletteSize));
    }
    let n = size as usize;
    let ghost i0 = *pos as int;
    let mut colors: Vec<u8> = Vec::new();
    if n == 0 {
        return Ok(colors);
    }
    let cw: usize = match version {
        Version::Microsoft2 => 3,
        _ => 4,
    };
    if *pos > d.len() || (cw as u64) * (size as u64) > (d.len() - *pos) as u64 {
        return Err(DecodeError::Io(crate::errors::IoError::UnexpectedEof));
    }
    assert(i0 + cw * n <= d@.len());
    match version {
        Version::Microsoft2 => {
            let mut k: usize = 0;
            while k < n
                invariant
                    k <= n,
                    i0 + 3 * n <= d@.len(),
                    version == Version::Microsoft2,
                    *pos == i0 + 3 * k,
                    colors@ == Seq::new((3 * k) as nat, |j: int| d@[i0 + j]),
                decreases n - k,
            {
                let b = read_u8(d, pos)?;
                let g = read_u8(d, pos)?;
                let rr = read_u8(d, pos)?;
                colors.push(b);
                colors.push(g);
                colors.push(rr);
                k = k + 1;
                proof {
                    assert(colors@ =~= Seq::new((3 * k) as nat, |j: int| d@[i0 + j]));
                }
            }
            proof {
                let s = spec_read_palette(d@, i0, version, bpp, used_colors);
                assert(s matches Ok((p, p2)) && colors@ =~= p && *pos == p2);
            }
            Ok(colors)
        },
        _ => {
            let mut k: usize = 0;
            while k < n
                invariant
                    k <= n,
                    i0 + 4 * n <= d@.len(),
                    version != Version::Microsoft2,
                    *pos == i0 + 4 * k,
                    colors@ == Seq::new(
                        (4 * k) as nat,
                        |j: int|
                            if j % 4 == 3 {
                                255u8
                            } else {
                                d@[i0 + j]
                            },
                    ),
                decreases n - k,
            {
                let b = read_u8(d, pos)?;
                let g = read_u8(d, pos)?;
                let rr = read_u8(d, pos)?;
                let _reserved = read_u8(d, pos)?;
                colors.push(b);
                colors.push(g);
                colors.push(rr);
                colors.push(PALETTE_ALPHA);
                k = k + 1;
                proof {
                    assert(colors@ =~= Seq::new(
                        (4 * k) as nat,
                        |j: int|
                            if j % 4 == 3 {
                                255u8
                            } else {
                                d@[i0 + j]
                            },
                    ));
                }
            }
            proof {
                let s = spec_read_palette(d@, i0, version, bpp, used_colors);
                assert(s matches Ok((p, p2)) && colors@ =~= p && *pos == p2);
            }
            Ok(colors)
        },
    }
}

/// Looks color `idx` up in the stored palette bytes, failing rather than
/// reading out of range.
pub fn palette_lookup(pal: &Vec<u8>, cw: usize, idx: usize) -> (r: Result<Color, DecodeError>)
    requires
        cw == 3 || cw == 4,
        idx <= 255,
    ensures
        match spec_palette_lookup(pal@, cw as int, idx as int) {
            Some(c) => r is Ok && r->Ok_0 == c,
            None => r == Err::<Color, DecodeError>(
                DecodeError::PixelData(PixelDataError::PaletteIndexOutOfRange),
            ),
        },
{
    if cw * idx + 2 < pal.len() {
        Ok(Color { r: pal[cw * idx + 2], g: pal[cw * idx + 1], b: pal[cw * idx], a: PALETTE_ALPHA })
    } else {
        Err(DecodeError::PixelData(PixelDataError::PaletteIndexOutOfRange))
    }
}

} // verus!
