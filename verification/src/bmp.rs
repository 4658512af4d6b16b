//! A self-contained reader for the oldest header generation: the 14-byte
//! file header, the 12-byte bitmap header, a 3-byte-entry color palette
//! sized from the data offset, and a pixel reader that materializes the
//! whole grid as a color vector in final row order.

use vstd::prelude::*;

use crate::bitmap::{spec_stride, lemma_stride_covers};
use crate::bytes::{le16, le32, read_i16, read_u16, read_u32, read_u8, signed16};
use crate::errors::{eof_error, DecodeError, HeaderError, IoError};
use crate::palette::PALETTE_ALPHA;
use crate::rows::{lemma_index_bound, spec_index_at, spec_row_bytes};
use crate::Color;

verus! {

/// The outer wrapper: total file size and the offset of the pixel data.
#[derive(Clone, Copy, Debug, PartialEq, Eq, Structural)]
pub struct FileHeader {
    pub size: u32,
    pub offset: u32,
}

/// The 12-byte bitmap header: geometry, bit depth, and the stored scan
/// direction (`-1` for top-down, `1` for bottom-up).
#[derive(Clone, Copy, Debug, PartialEq, Eq, Structural)]
pub struct BitmapHeader {
    pub size: u32,
    pub width: i32,
    pub height: i32,
    pub bpp: i32,
    pub direction: i8,
}

/// What the file-header parse at `i` yields.
pub open spec fn spec_file_header(d: Seq<u8>, i: int) -> Result<(FileHeader, int), DecodeError> {
    if i + 1 > d.len() {
        Err(eof_error())
    } else if d[i] != 0x42 {
        Err(DecodeError::Header(HeaderError::BadMagic))
    } else if i + 2 > d.len() {
        Err(eof_error())
    } else if d[i + 1] != 0x4D {
        Err(DecodeError::Header(HeaderError::BadMagic))
    } else if i + 14 > d.len() {
        Err(eof_error())
    } else {
        Ok(
            (
                FileHeader { size: le32(d, i + 2) as u32, offset: le32(d, i + 10) as u32 },
                i + 14,
            ),
        )
    }
}

/// The sign of a dimension, encoding the scan direction.
pub open spec fn spec_signum(h: int) -> int {
    if h < 0 {
        -1
    } else if h > 0 {
        1
    } else {
        0
    }
}

/// What the 12-byte bitmap-header parse at `i` yields.
pub open spec fn spec_bitmap_header(d: Seq<u8>, i: int) -> Result<(BitmapHeader, int), DecodeError> {
    if i + 4 > d.len() {
        Err(eof_error())
    } else if le32(d, i) != 12 {
        Err(DecodeError::Header(HeaderError::UnsupportedVersion(le32(d, i) as u32)))
    } else if i + 8 > d.len() {
        Err(eof_error())
    } else {
        let w = signed16(le16(d, i + 4));
        let h = signed16(le16(d, i + 6));
        if w == -0x8000 || h == -0x8000 {
            Err(DecodeError::Header(HeaderError::InvalidDimension))
        } else if i + 10 > d.len() {
            Err(eof_error())
        } else if le16(d, i + 8) != 1 {
            Err(DecodeError::Header(HeaderError::InvalidPlanes))
        } else if i + 12 > d.len() {
            Err(eof_error())
        } else {
            let bpp = le16(d, i + 10);
            if bpp == 1 || bpp == 4 || bpp == 8 || bpp == 24 {
                Ok(
                    (
                        BitmapHeader {
                            size: 12,
                            width: (if w < 0 {
                                -w
                            } else {
                                w
                            }) as i32,
                            height: (if h < 0 {
                                -h
                            } else {
                                h
                            }) as i32,
                            bpp: bpp as i32,
                            direction: spec_signum(h) as i8,
                        },
                        i + 12,
                    ),
                )
            } else {
                Err(DecodeError::Header(HeaderError::InvalidBitDepth))
            }
        }
    }
}

impl BitmapHeader {
    /// The base offset of stored row `y` in the final row-major grid:
    /// stored rows land in place for top-down images and mirrored for
    /// bottom-up ones.
    pub fn offset(&self, y: usize) -> (r: usize)
        requires
            self.direction == -1 || self.direction == 1,
            0 <= self.width,
            0 < self.height,
            y < self.height,
            self.width * self.height <= usize::MAX,
        ensures
            self.direction == -1 ==> r == y * self.width,
            self.direction == 1 ==> r == (self.height - 1 - y) * self.width,
    {
        proof {
            assert(y * self.width + self.width <= self.height * self.width) by (nonlinear_arith)
                requires
                    0 <= y,
                    (y as int) < self.height,
                    0 <= self.width,
            ;
            assert(self.width * self.height == self.height * self.width) by (nonlinear_arith);
        }
        match self.direction {
            -1 => y * (self.width as usize),
            _ => {
                proof {
                    assert((self.height - 1) * self.width == self.height * self.width
                        - self.width) by (nonlinear_arith);
                    assert(y * self.width <= (self.height - 1) * self.width) by (nonlinear_arith)
                        requires
                            0 <= y,
                            (y as int) <= self.height - 1,
                            0 <= self.width,
                    ;
                    assert((self.height - 1 - y) * self.width == (self.height - 1) * self.width
                        - y * self.width) by (nonlinear_arith);
                }
                ((self.height as usize - 1) * (self.width as usize)) - (y * (self.width as usize))
            },
        }
    }
}

/// Parses the 14-byte file header, keeping the size and data offset.
pub fn read_file_header(d: &Vec<u8>, pos: &mut usize) -> (r: Result<FileHeader, DecodeError>)
    ensures
        match spec_file_header(d@, *old(pos) as int) {
            Ok((v, p2)) => r is Ok && r->Ok_0 == v && *final(pos) == p2,
            Err(e) => r is Err && r->Err_0 == e,
        },
{
    let b0 = read_u8(d, pos)?;
    if b0 != 0x42 {
        return Err(DecodeError::Header(HeaderError::BadMagic));
    }
    let b1 = read_u8(d, pos)?;
    if b1 != 0x4D {
        return Err(DecodeError::Header(HeaderError::BadMagic));
    }
    let size = read_u32(d, pos)?;
    let _reserved = read_u32(d, pos)?;
    let offset = read_u32(d, pos)?;
    Ok(FileHeader { size, offset })
}

/// Parses the 12-byte bitmap header; any other header size is an
/// unsupported generation here.
pub fn read_bitmap_header(d: &Vec<u8>, pos: &mut usize) -> (r: Result<BitmapHeader, DecodeError>)
    ensures
        match spec_bitmap_header(d@, *old(pos) as int) {
            Ok((v, p2)) => r is Ok && r->Ok_0 == v && *final(pos) == p2,
            Err(e) => r is Err && r->Err_0 == e,
        },
{
    let size = read_u32(d, pos)?;
    if size != 12 {
        return Err(DecodeError::Header(HeaderError::UnsupportedVersion(size)));
    }
    let w = read_i16(d, pos)?;
    let h = read_i16(d, pos)?;
    if w == -0x8000 || h == -0x8000 {
        return Err(DecodeError::Header(HeaderError::InvalidDimension));
    }
    let width: i32 = if w < 0 {
        -w
    } else {
        w
    };
    let height: i32 = if h < 0 {
        -h
    } else {
        h
    };
    let direction: i8 = if h < 0 {
        -1
    } else if h > 0 {
        1
    } else {
        0
    };
    let planes = read_u16(d, pos)?;
    if planes != 1 {
        return Err(DecodeError::Header(HeaderError::InvalidPlanes));
    }
    let bpp16 = read_u16(d, pos)?;
    if bpp16 == 1 || bpp16 == 4 || bpp16 == 8 || bpp16 == 24 {
        Ok(BitmapHeader { size, width, height, bpp: bpp16 as i32, direction })
    } else {
        Err(DecodeError::Header(HeaderError::InvalidBitDepth))
    }
}

/// How many palette entries sit between the headers and the pixel data.
pub open spec fn spec_v2_palette_count(fh: FileHeader, bh: BitmapHeader) -> int {
    (fh.offset - 14 - bh.size) / 3
}

/// What the palette read at `i` yields: `count` colors of 3 stored bytes
/// each, blue first, with fixed opaque alpha.
pub open spec fn spec_v2_palette(d: Seq<u8>, i: int, count: int) -> Result<
    (Seq<Color>, int),
    DecodeError,
> {
    if i + 3 * count > d.len() {
        Err(eof_error())
    } else {
        Ok(
            (
                Seq::new(
                    count as nat,
                    |e: int|
                        Color {
                            r: d[i + 3 * e + 2],
                            g: d[i + 3 * e + 1],
                            b: d[i + 3 * e],
                            a: PALETTE_ALPHA,
                        },
                ),
                i + 3 * count,
            ),
        )
    }
}

/// Reads the color palette that fills the space up to the data offset.
pub fn read_color_palette(
    d: &Vec<u8>,
    pos: &mut usize,
    file_header: &FileHeader,
    bmp_header: &BitmapHeader,
) -> (r: Result<Vec<Color>, DecodeError>)
    requires
        file_header.offset >= 14 + bmp_header.size,
    ensures
        match spec_v2_palette(
            d@,
            *old(pos) as int,
            spec_v2_palette_count(*file_header, *bmp_header),
        ) {
            Ok((p, p2)) => r is Ok && r->Ok_0@ == p && *final(pos) == p2,
            Err(e) => r is Err && r->Err_0 == e,
        },
{
    let size = ((file_header.offset - 14 - bmp_header.size) / 3) as usize;
    let ghost i0 = *pos as int;
    let mut palette: Vec<Color> = Vec::new();
    if *pos > d.len() || 3 * (size as u64) > (d.len() - *pos) as u64 {
        return Err(DecodeError::Io(IoError::UnexpectedEof));
    }
    let mut k: usize = 0;
    while k < size
        invariant
            k <= size,
            i0 + 3 * size <= d@.len(),
            *pos == i0 + 3 * k,
            palette@ =~= spec_v2_palette(d@, i0, size as int)->Ok_0.0.take(k as int),
        decreases size - k,
    {
        let b = read_u8(d, pos)?;
        let g = read_u8(d, pos)?;
        let rr = read_u8(d, pos)?;
        palette.push(Color { r: rr, g, b, a: PALETTE_ALPHA });
        k = k + 1;
        proof {
            assert(palette@ =~= spec_v2_palette(d@, i0, size as int)->Ok_0.0.take(k as int));
        }
    }
    proof {
        assert(palette@ =~= spec_v2_palette(d@, i0, size as int)->Ok_0.0);
    }
    Ok(palette)
}

/// The color of pixel `x` in a stored scanline beginning at `rs`.
pub open spec fn spec_v2_pixel(d: Seq<u8>, rs: int, bpp: u32, pal: Seq<Color>, x: int) -> Color {
    if bpp == 24 {
        Color { r: d[rs + 3 * x + 2], g: d[rs + 3 * x + 1], b: d[rs + 3 * x], a: 255 }
    } else {
        pal[spec_index_at(d, rs, bpp, x)]
    }
}

/// The grid base offset of stored row `fy`.
pub open spec fn spec_v2_rowbase(bh: BitmapHeader, fy: int) -> int {
    if bh.direction == -1 {
        fy * bh.width
    } else {
        (bh.height - 1 - fy) * bh.width
    }
}

/// Distinct stored rows occupy disjoint blocks of the grid.
proof fn lemma_rowbase_disjoint(bh: BitmapHeader, fy1: int, x1: int, fy2: int, x2: int)
    requires
        bh.direction == -1 || bh.direction == 1,
        0 <= fy1 < bh.height,
        0 <= fy2 < bh.height,
        fy1 != fy2,
        0 <= x1 < bh.width,
        0 <= x2 < bh.width,
    ensures
        spec_v2_rowbase(bh, fy1) + x1 != spec_v2_rowbase(bh, fy2) + x2,
{
    assert(fy1 * bh.width + x1 != fy2 * bh.width + x2) by (nonlinear_arith)
        requires
            fy1 != fy2,
            0 <= x1 < bh.width,
            0 <= x2 < bh.width,
            0 <= fy1,
            0 <= fy2,
    ;
    assert((bh.height - 1 - fy1) * bh.width + x1 != (bh.height - 1 - fy2) * bh.width + x2)
        by (nonlinear_arith)
        requires
            fy1 != fy2,
            0 <= x1 < bh.width,
            0 <= x2 < bh.width,
            fy1 < bh.height,
            fy2 < bh.height,
            0 <= fy1,
            0 <= fy2,
    ;
}

/// A row block sits inside the grid.
proof fn lemma_rowbase_in_grid(bh: BitmapHeader, fy: int, x: int)
    requires
        bh.direction == -1 || bh.direction == 1,
        0 <= fy < bh.height,
        0 <= x < bh.width,
    ensures
        0 <= spec_v2_rowbase(bh, fy) + x < bh.height * bh.width,
{
    assert(0 <= fy * bh.width + x < bh.height * bh.width) by (nonlinear_arith)
        requires
            0 <= fy < bh.height,
            0 <= x < bh.width,
    ;
    assert(0 <= (bh.height - 1 - fy) * bh.width + x < bh.height * bh.width) by (nonlinear_arith)
        requires
            0 <= fy < bh.height,
            0 <= x < bh.width,
    ;
}

/// Reads the whole pixel raster into a grid of colors, one scanline at a
/// time, each delivered to its orientation-corrected destination row.
#[verifier::rlimit(100)]
pub fn read_pixel_data(
    d: &Vec<u8>,
    pos: &mut usize,
    bmp_header: &BitmapHeader,
    palette: &Vec<Color>,
) -> (r: Result<Vec<Color>, DecodeError>)
    requires
        bmp_header.direction == -1 || bmp_header.direction == 1,
        0 <= bmp_header.width,
        0 <= bmp_header.height,
        bmp_header.bpp == 1 || bmp_header.bpp == 4 || bmp_header.bpp == 8 || bmp_header.bpp == 24,
        bmp_header.bpp == 1 ==> palette@.len() >= 2,
        bmp_header.bpp == 4 ==> palette@.len() >= 16,
        bmp_header.bpp == 8 ==> palette@.len() >= 256,
        bmp_header.width * bmp_header.height <= usize::MAX,
    ensures
        ({
            let bh = *bmp_header;
            let stride = spec_stride(bh.width as int, bh.bpp as int);
            match r {
                Ok(px) => {
                    &&& bh.height > 0 ==> *old(pos) + stride * bh.height <= d@.len()
                    &&& *final(pos) == *old(pos) + stride * bh.height
                    &&& px@.len() == bh.height * bh.width
                    &&& forall|fy: int, x: int|
                        0 <= fy < bh.height && 0 <= x < bh.width ==> px@[spec_v2_rowbase(bh, fy)
                            + x] == #[trigger] spec_v2_pixel(
                            d@,
                            *old(pos) + stride * fy,
                            bh.bpp as u32,
                            palette@,
                            x,
                        )
                },
                Err(e) => e == eof_error() && *old(pos) + stride * bh.height > d@.len(),
            }
        }),
{
    let ghost bh = *bmp_header;
    let ghost i0 = *pos as int;
    let dlen = d.len();
    let width = bmp_header.width as usize;
    let height = bmp_header.height as usize;
    let bpp = bmp_header.bpp as u32;
    let size = width * height;
    let mut pixels: Vec<Color> = Vec::new();
    while pixels.len() < size
        invariant
            pixels@.len() <= size,
        decreases size - pixels@.len(),
    {
        pixels.push(Color { r: 0, g: 0, b: 0, a: 0 });
    }
    proof {
        assert((width as int) * (bpp as int) <= 0x80000000 * 32) by (nonlinear_arith)
            requires
                0 <= width < 0x80000000,
                0 <= bpp <= 32,
        ;
        assert((bh.height as int) * (bh.width as int) == (bh.width as int) * (
        bh.height as int)) by (nonlinear_arith);
    }
    let stride64: u64 = ((width as u64) * (bpp as u64) + 31) / 32 * 4;
    let ghost stride = spec_stride(bh.width as int, bh.bpp as int);
    let mut fy: usize = 0;
    while fy < height
        invariant
            fy <= height,
            dlen == d@.len(),
            bh == *bmp_header,
            width == bh.width,
            height == bh.height,
            bpp == bh.bpp,
            bh.direction == -1 || bh.direction == 1,
            bpp == 1 || bpp == 4 || bpp == 8 || bpp == 24,
            bpp == 1 ==> palette@.len() >= 2,
            bpp == 4 ==> palette@.len() >= 16,
            bpp == 8 ==> palette@.len() >= 256,
            size == width * height,
            size <= usize::MAX,
            pixels@.len() == size,
            stride == spec_stride(bh.width as int, bh.bpp as int),
            stride64 == stride,
            i0 == *old(pos),
            *pos == i0 + stride * fy,
            fy > 0 ==> i0 + stride * fy <= dlen,
            forall|r0: int, x0: int|
                0 <= r0 < fy && 0 <= x0 < width ==> pixels@[spec_v2_rowbase(bh, r0) + x0]
                    == #[trigger] spec_v2_pixel(d@, i0 + stride * r0, bpp, palette@, x0),
        decreases height - fy,
    {
        if *pos > dlen || stride64 > (dlen - *pos) as u64 {
            proof {
                assert(stride * fy + stride == stride * (fy as int + 1)) by (nonlinear_arith);
                assert(stride * (fy as int + 1) <= stride * (height as int)) by (nonlinear_arith)
                    requires
                        fy as int + 1 <= height as int,
                        stride >= 0,
                ;
            }
            return Err(DecodeError::Io(IoError::UnexpectedEof));
        }
        let rs = *pos;
        let base = bmp_header.offset(fy);
        proof {
            lemma_stride_covers(bh.width as int, bpp);
        }
        let mut x: usize = 0;
        while x < width
            invariant
                x <= width,
                dlen == d@.len(),
                bh == *bmp_header,
                width == bh.width,
                height == bh.height,
                bpp == bh.bpp,
                bh.direction == -1 || bh.direction == 1,
                bpp == 1 || bpp == 4 || bpp == 8 || bpp == 24,
                bpp == 1 ==> palette@.len() >= 2,
                bpp == 4 ==> palette@.len() >= 16,
                bpp == 8 ==> palette@.len() >= 256,
                size == width * height,
                size <= usize::MAX,
                pixels@.len() == size,
                fy < height,
                rs as int + spec_row_bytes(width as int, bpp) <= dlen,
                base == spec_v2_rowbase(bh, fy as int),
                forall|r0: int, x0: int|
                    0 <= r0 < fy && 0 <= x0 < width ==> pixels@[spec_v2_rowbase(bh, r0) + x0]
                        == #[trigger] spec_v2_pixel(d@, i0 + stride * r0, bpp, palette@, x0),
                rs == i0 + stride * fy,
                forall|x0: int|
                    0 <= x0 < x ==> pixels@[spec_v2_rowbase(bh, fy as int) + x0] == spec_v2_pixel(
                        d@,
                        rs as int,
                        bpp,
                        palette@,
                        x0,
                    ),
            decreases width - x,
        {
            proof {
                lemma_rowbase_in_grid(bh, fy as int, x as int);
                assert((height as int) * (width as int) == (width as int) * (height as int))
                    by (nonlinear_arith);
                if bpp == 1 || bpp == 4 {
                    lemma_index_bound(x as int, width as int, bpp);
                }
            }
            let c: Color = if bpp == 24 {
                Color { r: d[rs + 3 * x + 2], g: d[rs + 3 * x + 1], b: d[rs + 3 * x], a: 255 }
            } else {
                let idx: u8 = if bpp == 1 {
                    let byte = d[rs + x / 8];
                    let bit: u8 = 7 - (x % 8) as u8;
                    (byte >> bit) & 1
                } else if bpp == 4 {
                    let byte = d[rs + x / 2];
                    if x % 2 == 0 {
                        (byte >> 4) & 0x0F
                    } else {
                        byte & 0x0F
                    }
                } else {
                    d[rs + x]
                };
                proof {
                    assert(idx as int == spec_index_at(d@, rs as int, bpp, x as int));
                    if bpp == 1 {
                        let b0 = d@[rs as int + x as int / 8];
                        let bit0 = (7 - (x as int) % 8) as u8;
                        assert((b0 >> bit0) & 1 < 2) by (bit_vector);
                    }
                    if bpp == 4 {
                        let b1 = d@[rs as int + x as int / 2];
                        assert((b1 >> 4) & 0x0F < 16 && b1 & 0x0F < 16) by (bit_vector);
                    }
                }
                palette[idx as usize]
            };
            let ghost old_pixels = pixels@;
            pixels[base + x] = c;
            proof {
                assert forall|r0: int, x0: int|
                    0 <= r0 < fy && 0 <= x0 < width implies pixels@[spec_v2_rowbase(bh, r0) + x0]
                    == #[trigger] spec_v2_pixel(d@, i0 + stride * r0, bpp, palette@, x0) by {
                    lemma_rowbase_disjoint(bh, r0, x0, fy as int, x as int);
                    lemma_rowbase_in_grid(bh, r0, x0);
                }
                assert forall|x0: int|
                    0 <= x0 < x + 1 implies pixels@[spec_v2_rowbase(bh, fy as int) + x0]
                    == spec_v2_pixel(d@, rs as int, bpp, palette@, x0) by {
                    if x0 < x {
                        assert(spec_v2_rowbase(bh, fy as int) + x0 != spec_v2_rowbase(
                            bh,
                            fy as int,
                        ) + x);
                        lemma_rowbase_in_grid(bh, fy as int, x0);
                    }
                }
            }
            x = x + 1;
        }
        proof {
            assert(stride * fy + stride == stride * (fy as int + 1)) by (nonlinear_arith);
        }
        *pos = *pos + stride64 as usize;
        fy = fy + 1;
    }
    proof {
        assert((bh.height as int) * (bh.width as int) == (bh.width as int) * (
        bh.height as int)) by (nonlinear_arith);
    }
    Ok(pixels)
}

} // verus!
