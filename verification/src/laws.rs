//! Laws of the decode pipeline that relate several components: the shape
//! of the call sequence a successful uncompressed decode delivers to the
//! sink, the orientation correction, and the identity of indexed-pixel
//! errors.

use vstd::prelude::*;

use crate::bitmap::{spec_decode_post, spec_parse, spec_pixels, spec_raster, ParsedBmp};
use crate::errors::{DecodeError, PixelDataError};
use crate::header::Compression;
use crate::palette::spec_palette_lookup;
use crate::rle::{spec_abs4, spec_abs8, spec_delta_y, spec_inc_x, spec_rle, spec_run,
    spec_step_row, spec_wrap_add};
use crate::rows::{spec_index_at, spec_row, spec_row_direct, spec_row_indexed};
use crate::sink::SinkEvent;
use crate::Color;

verus! {

/// Whether `e` is a pixel delivery at destination coordinate `(x, y)`.
pub open spec fn is_pixel_at(e: SinkEvent, x: u32, y: u32) -> bool {
    match e {
        SinkEvent::PixelSet { x: px, y: py, r: _, g: _, b: _, a: _ } => px == x && py == y,
        _ => false,
    }
}

/// The destination row of stored row `fy`: unchanged for top-down images,
/// mirrored for bottom-up ones.
pub open spec fn spec_dest_row(height: u32, top_down: bool, fy: int) -> u32 {
    if top_down {
        fy as u32
    } else {
        (height - 1 - fy) as u32
    }
}

/// An indexed row that does not fail emits one pixel per remaining
/// column, in order.
proof fn lemma_row_indexed_events(
    d: Seq<u8>,
    rs: int,
    bpp: u32,
    pal: Seq<u8>,
    cw: int,
    row: u32,
    width: int,
    x: int,
)
    requires
        0 <= x <= width,
        spec_row_indexed(d, rs, bpp, pal, cw, row, width, x).err is None,
    ensures
        spec_row_indexed(d, rs, bpp, pal, cw, row, width, x).events.len() == width - x,
        forall|k: int|
            0 <= k < width - x ==> is_pixel_at(
                #[trigger] spec_row_indexed(d, rs, bpp, pal, cw, row, width, x).events[k],
                (x + k) as u32,
                row,
            ),
    decreases width - x,
{
    if x < width {
        match spec_palette_lookup(pal, cw, spec_index_at(d, rs, bpp, x)) {
            None => {},
            Some(_) => {
                lemma_row_indexed_events(d, rs, bpp, pal, cw, row, width, x + 1);
            },
        }
    }
}

/// Any error of an indexed row is the palette range check failing.
pub proof fn lemma_row_indexed_err(
    d: Seq<u8>,
    rs: int,
    bpp: u32,
    pal: Seq<u8>,
    cw: int,
    row: u32,
    width: int,
    x: int,
)
    ensures
        spec_row_indexed(d, rs, bpp, pal, cw, row, width, x).err matches Some(e) ==> e
            == DecodeError::PixelData(PixelDataError::PaletteIndexOutOfRange),
    decreases width - x,
{
    if x < width {
        lemma_row_indexed_err(d, rs, bpp, pal, cw, row, width, x + 1);
    }
}

/// A row of any depth that does not fail emits one pixel per column, in
/// order, at its destination row.
proof fn lemma_row_events(
    d: Seq<u8>,
    rs: int,
    bpp: u32,
    pal: Seq<u8>,
    cw: int,
    mask: crate::header::BitfieldMask,
    row: u32,
    width: int,
)
    requires
        0 <= width,
        bpp == 1 || bpp == 4 || bpp == 8 || bpp == 16 || bpp == 24 || bpp == 32,
        spec_row(d, rs, bpp, pal, cw, mask, row, width).err is None,
    ensures
        spec_row(d, rs, bpp, pal, cw, mask, row, width).events.len() == width,
        forall|k: int|
            0 <= k < width ==> is_pixel_at(
                #[trigger] spec_row(d, rs, bpp, pal, cw, mask, row, width).events[k],
                k as u32,
                row,
            ),
{
    if bpp == 1 || bpp == 4 || bpp == 8 {
        lemma_row_indexed_events(d, rs, bpp, pal, cw, row, width, 0);
    } else {
        assert(forall|k: int|
            0 <= k < width ==> is_pixel_at(
                #[trigger] spec_row_direct(d, rs, bpp, mask, row, width)[k],
                k as u32,
                row,
            ));
    }
}

/// The raster phase from stored row `fy` on emits one pixel per
/// coordinate of the remaining rows, stored rows in file order, each at
/// its corrected destination row, columns left to right.
proof fn lemma_raster_events(d: Seq<u8>, p: ParsedBmp, fy: int)
    requires
        0 <= fy <= p.height,
        p.bpp == 1 || p.bpp == 4 || p.bpp == 8 || p.bpp == 16 || p.bpp == 24 || p.bpp == 32,
        spec_raster(d, p, fy).err is None,
    ensures
        spec_raster(d, p, fy).events.len() == (p.height - fy) * p.width,
        forall|r: int, x: int|
            0 <= r < p.height - fy && 0 <= x < p.width ==> is_pixel_at(
                #[trigger] spec_raster(d, p, fy).events[r * p.width + x],
                x as u32,
                spec_dest_row(p.height, p.top_down, fy + r),
            ),
    decreases p.height - fy,
{
    let o = spec_raster(d, p, fy);
    if fy >= p.height {
        assert(o.events.len() == 0);
        assert((p.height - fy) * p.width == 0) by (nonlinear_arith)
            requires
                p.height - fy == 0,
        ;
    } else {
        let stride = crate::bitmap::spec_stride(p.width as int, p.bpp as int);
        let rs = p.px_start + stride * fy;
        let dest: u32 = spec_dest_row(p.height, p.top_down, fy);
        let ro = spec_row(d, rs, p.bpp, p.palette, p.color_width, p.mask, dest, p.width as int);
        lemma_row_events(d, rs, p.bpp, p.palette, p.color_width, p.mask, dest, p.width as int);
        lemma_raster_events(d, p, fy + 1);
        let rest = spec_raster(d, p, fy + 1);
        assert(o.events == ro.events + rest.events);
        assert(o.events.len() == p.width + (p.height - fy - 1) * p.width);
        assert((p.height - fy) * p.width == p.width + (p.height - fy - 1) * p.width)
            by (nonlinear_arith);
        assert forall|r: int, x: int|
            0 <= r < p.height - fy && 0 <= x < p.width implies is_pixel_at(
            #[trigger] o.events[r * p.width + x],
            x as u32,
            spec_dest_row(p.height, p.top_down, fy + r),
        ) by {
            if r == 0 {
                assert(o.events[x] == ro.events[x]);
            } else {
                assert(r * p.width + x - p.width == (r - 1) * p.width + x) by (nonlinear_arith);
                assert(r * p.width + x >= p.width) by (nonlinear_arith)
                    requires
                        r >= 1,
                        x >= 0,
                        p.width >= 0,
                ;
                assert(0 <= (r - 1) * p.width + x < (p.height - fy - 1) * p.width)
                    by (nonlinear_arith)
                    requires
                        1 <= r < p.height - fy,
                        0 <= x < p.width,
                ;
                assert(o.events[r * p.width + x] == rest.events[(r - 1) * p.width + x]);
                assert(is_pixel_at(
                    rest.events[(r - 1) * p.width + x],
                    x as u32,
                    spec_dest_row(p.height, p.top_down, fy + 1 + (r - 1)),
                ));
            }
        }
    }
}

/// A successfully parsed image has a validated bit depth and bounded
/// dimensions.
pub proof fn lemma_parse_valid(d: Seq<u8>, p: ParsedBmp)
    requires
        spec_parse(d) == Ok::<ParsedBmp, DecodeError>(p),
    ensures
        p.bpp == 1 || p.bpp == 4 || p.bpp == 8 || p.bpp == 16 || p.bpp == 24 || p.bpp == 32,
        p.width < 0x80000000,
        p.height < 0x80000000,
{
}

/// Law: a successful uncompressed pixel phase delivers exactly one pixel
/// per destination coordinate — `width * height` deliveries in all — with
/// stored rows in file order, each corrected to its destination row, and
/// columns left to right.  A bottom-up image's first stored row is thus
/// delivered as the last logical row; a top-down image's rows arrive
/// unchanged.
pub proof fn lemma_uncompressed_grid(d: Seq<u8>, p: ParsedBmp)
    requires
        spec_parse(d) == Ok::<ParsedBmp, DecodeError>(p),
        !(p.bpp == 8 && p.compression == Some(Compression::RunLength8)),
        !(p.bpp == 4 && p.compression == Some(Compression::RunLength4)),
        spec_pixels(d, p).err is None,
    ensures
        spec_pixels(d, p).events.len() == p.height * p.width,
        forall|fy: int, x: int|
            0 <= fy < p.height && 0 <= x < p.width ==> is_pixel_at(
                #[trigger] spec_pixels(d, p).events[fy * p.width + x],
                x as u32,
                spec_dest_row(p.height, p.top_down, fy),
            ),
{
    lemma_parse_valid(d, p);
    lemma_raster_events(d, p, 0);
}

/// Law: on a successful uncompressed decode into a fresh builder the sink
/// receives the dimensions first, then exactly `width * height` pixels in
/// corrected row-major order, and the build call last.
pub proof fn lemma_decode_protocol<R>(
    d: Seq<u8>,
    log: Seq<SinkEvent>,
    r: Result<R, DecodeError>,
    p: ParsedBmp,
)
    requires
        crate::bitmap::spec_decode_post(d, Seq::empty(), log, r),
        spec_parse(d) == Ok::<ParsedBmp, DecodeError>(p),
        !(p.bpp == 8 && p.compression == Some(Compression::RunLength8)),
        !(p.bpp == 4 && p.compression == Some(Compression::RunLength4)),
        spec_pixels(d, p).err is None,
    ensures
        log.len() == 2 + p.height * p.width,
        log[0] == (SinkEvent::SizeSet { width: p.width, height: p.height }),
        log[log.len() - 1] == SinkEvent::Built,
        forall|fy: int, x: int|
            0 <= fy < p.height && 0 <= x < p.width ==> is_pixel_at(
                #[trigger] log[1 + fy * p.width + x],
                x as u32,
                spec_dest_row(p.height, p.top_down, fy),
            ),
{
    lemma_uncompressed_grid(d, p);
    let po = spec_pixels(d, p);
    let base = Seq::empty().push(SinkEvent::SizeSet { width: p.width, height: p.height });
    assert(log =~= (base + po.events).push(SinkEvent::Built));
    assert forall|fy: int, x: int|
        0 <= fy < p.height && 0 <= x < p.width implies is_pixel_at(
        #[trigger] log[1 + fy * p.width + x],
        x as u32,
        spec_dest_row(p.height, p.top_down, fy),
    ) by {
        assert(0 <= fy * p.width + x < po.events.len()) by (nonlinear_arith)
            requires
                0 <= fy < p.height,
                0 <= x < p.width,
                po.events.len() == p.height * p.width,
        ;
        assert(log[1 + fy * p.width + x] == po.events[fy * p.width + x]);
    }
}

/// Law, orientation: on a successful uncompressed decode, the pixels of
/// stored row `fy` land on destination row `fy` for a top-down image and
/// on destination row `height - 1 - fy` for a bottom-up one.  In
/// particular a bottom-up image's first stored row is delivered as the
/// last logical row.
pub proof fn lemma_orientation(d: Seq<u8>, p: ParsedBmp, fy: int, x: int)
    requires
        spec_parse(d) == Ok::<ParsedBmp, DecodeError>(p),
        !(p.bpp == 8 && p.compression == Some(Compression::RunLength8)),
        !(p.bpp == 4 && p.compression == Some(Compression::RunLength4)),
        spec_pixels(d, p).err is None,
        0 <= fy < p.height,
        0 <= x < p.width,
    ensures
        p.top_down ==> is_pixel_at(spec_pixels(d, p).events[fy * p.width + x], x as u32, fy as u32),
        !p.top_down ==> is_pixel_at(
            spec_pixels(d, p).events[fy * p.width + x],
            x as u32,
            (p.height - 1 - fy) as u32,
        ),
{
    lemma_uncompressed_grid(d, p);
}

/// An encoded run emits pixel deliveries and nothing else.
proof fn lemma_run_pixelset(cnt: nat, x: u32, y: u32, w: u32, td: bool, c1: Color, c2: Color)
    ensures
        forall|k: int|
            0 <= k < spec_run(cnt, x, y, w, td, c1, c2).events.len() ==> (#[trigger] spec_run(
                cnt,
                x,
                y,
                w,
                td,
                c1,
                c2,
            ).events[k]) is PixelSet,
    decreases cnt,
{
    if cnt > 0 {
        let x1: u32 = if x >= w {
            0
        } else {
            x
        };
        let y1: u32 = if x >= w {
            spec_step_row(y, td)
        } else {
            y
        };
        lemma_run_pixelset((cnt - 1) as nat, spec_inc_x(x1), y1, w, td, c2, c1);
    }
}

/// An 8-bit absolute run emits pixel deliveries and nothing else.
proof fn lemma_abs8_pixelset(
    d: Seq<u8>,
    p: int,
    cnt: nat,
    x: u32,
    y: u32,
    w: u32,
    td: bool,
    pal: Seq<u8>,
    cw: int,
)
    ensures
        forall|k: int|
            0 <= k < spec_abs8(d, p, cnt, x, y, w, td, pal, cw).events.len() ==> (
            #[trigger] spec_abs8(d, p, cnt, x, y, w, td, pal, cw).events[k]) is PixelSet,
    decreases cnt,
{
    if cnt > 0 {
        let x1: u32 = if x >= w {
            0
        } else {
            x
        };
        let y1: u32 = if x >= w {
            spec_step_row(y, td)
        } else {
            y
        };
        if spec_palette_lookup(pal, cw, d[p] as int) is Some {
            lemma_abs8_pixelset(d, p + 1, (cnt - 1) as nat, spec_inc_x(x1), y1, w, td, pal, cw);
        }
    }
}

/// A 4-bit absolute run emits pixel deliveries and nothing else.
proof fn lemma_abs4_pixelset(
    d: Seq<u8>,
    p: int,
    j: nat,
    total: nat,
    x: u32,
    y: u32,
    w: u32,
    td: bool,
    pal: Seq<u8>,
    cw: int,
)
    ensures
        forall|k: int|
            0 <= k < spec_abs4(d, p, j, total, x, y, w, td, pal, cw).events.len() ==> (
            #[trigger] spec_abs4(d, p, j, total, x, y, w, td, pal, cw).events[k]) is PixelSet,
    decreases total - j,
{
    if j < total {
        let byte = d[p + j / 2];
        let idx: u8 = if j % 2 == 0 {
            (byte >> 4) & 0x0F
        } else {
            byte & 0x0F
        };
        let x1: u32 = if x >= w {
            0
        } else {
            x
        };
        let y1: u32 = if x >= w {
            spec_step_row(y, td)
        } else {
            y
        };
        if spec_palette_lookup(pal, cw, idx as int) is Some {
            lemma_abs4_pixelset(d, p, j + 1, total, spec_inc_x(x1), y1, w, td, pal, cw);
        }
    }
}

/// The RLE machine emits pixel deliveries and nothing else, whether or
/// not it fails.
proof fn lemma_rle_pixelset(
    d: Seq<u8>,
    end: int,
    i: int,
    x: u32,
    y: u32,
    w: u32,
    td: bool,
    pal: Seq<u8>,
    cw: int,
    four: bool,
)
    ensures
        forall|k: int|
            0 <= k < spec_rle(d, end, i, x, y, w, td, pal, cw, four).events.len() ==> (
            #[trigger] spec_rle(d, end, i, x, y, w, td, pal, cw, four).events[k]) is PixelSet,
    decreases end - i,
{
    reveal(spec_rle);
    if i >= end || i + 2 > end {
    } else {
        let a = d[i];
        let b = d[i + 1];
        if a == 0 {
            if b == 0 {
                lemma_rle_pixelset(d, end, i + 2, 0, spec_step_row(y, td), w, td, pal, cw, four);
            } else if b == 1 {
            } else if b == 2 {
                if i + 4 <= end {
                    lemma_rle_pixelset(
                        d,
                        end,
                        i + 4,
                        spec_wrap_add(x, d[i + 2] as u32),
                        spec_delta_y(y, d[i + 3], td),
                        w,
                        td,
                        pal,
                        cw,
                        four,
                    );
                }
            } else {
                let nbytes: int = if four {
                    (b + 1) / 2
                } else {
                    b as int
                };
                if i + 2 + nbytes <= end {
                    let ro = if four {
                        spec_abs4(d, i + 2, 0, b as nat, x, y, w, td, pal, cw)
                    } else {
                        spec_abs8(d, i + 2, b as nat, x, y, w, td, pal, cw)
                    };
                    if four {
                        lemma_abs4_pixelset(d, i + 2, 0, b as nat, x, y, w, td, pal, cw);
                    } else {
                        lemma_abs8_pixelset(d, i + 2, b as nat, x, y, w, td, pal, cw);
                    }
                    if ro.err is None {
                        let i2 = i + 2 + nbytes + (if nbytes % 2 == 1 {
                            1int
                        } else {
                            0int
                        });
                        if i2 < end {
                            lemma_rle_pixelset(d, end, i2, ro.x, ro.y, w, td, pal, cw, four);
                        }
                    }
                }
            }
        } else {
            if four {
                let hi = (b >> 4) & 0x0F;
                let lo = b & 0x0F;
                if spec_palette_lookup(pal, cw, hi as int) is Some && spec_palette_lookup(
                    pal,
                    cw,
                    lo as int,
                ) is Some {
                    let c1 = spec_palette_lookup(pal, cw, hi as int)->0;
                    let c2 = spec_palette_lookup(pal, cw, lo as int)->0;
                    let ro = spec_run(a as nat, x, y, w, td, c1, c2);
                    lemma_run_pixelset(a as nat, x, y, w, td, c1, c2);
                    lemma_rle_pixelset(d, end, i + 2, ro.x, ro.y, w, td, pal, cw, four);
                }
            } else {
                if spec_palette_lookup(pal, cw, b as int) is Some {
                    let c = spec_palette_lookup(pal, cw, b as int)->0;
                    let ro = spec_run(a as nat, x, y, w, td, c, c);
                    lemma_run_pixelset(a as nat, x, y, w, td, c, c);
                    lemma_rle_pixelset(d, end, i + 2, ro.x, ro.y, w, td, pal, cw, four);
                }
            }
        }
    }
}

/// An indexed row emits pixel deliveries and nothing else.
proof fn lemma_row_indexed_pixelset(
    d: Seq<u8>,
    rs: int,
    bpp: u32,
    pal: Seq<u8>,
    cw: int,
    row: u32,
    width: int,
    x: int,
)
    ensures
        forall|k: int|
            0 <= k < spec_row_indexed(d, rs, bpp, pal, cw, row, width, x).events.len() ==> (
            #[trigger] spec_row_indexed(d, rs, bpp, pal, cw, row, width, x).events[k]) is PixelSet,
    decreases width - x,
{
    if x < width {
        lemma_row_indexed_pixelset(d, rs, bpp, pal, cw, row, width, x + 1);
    }
}

/// The raster phase emits pixel deliveries and nothing else, whether or
/// not it fails.
proof fn lemma_raster_pixelset(d: Seq<u8>, p: ParsedBmp, fy: int)
    ensures
        forall|k: int|
            0 <= k < spec_raster(d, p, fy).events.len() ==> (#[trigger] spec_raster(
                d,
                p,
                fy,
            ).events[k]) is PixelSet,
    decreases p.height - fy,
{
    if fy < p.height {
        let stride = crate::bitmap::spec_stride(p.width as int, p.bpp as int);
        let rs = p.px_start + stride * fy;
        if rs + stride <= d.len() {
            let dest: u32 = if p.top_down {
                fy as u32
            } else {
                (p.height - 1 - fy) as u32
            };
            if p.bpp == 1 || p.bpp == 4 || p.bpp == 8 {
                lemma_row_indexed_pixelset(d, rs, p.bpp, p.palette, p.color_width, dest, p.width as int, 0);
            }
            lemma_raster_pixelset(d, p, fy + 1);
        }
    }
}

/// The pixel phase emits pixel deliveries and nothing else.
proof fn lemma_pixels_pixelset(d: Seq<u8>, p: ParsedBmp)
    ensures
        forall|k: int|
            0 <= k < spec_pixels(d, p).events.len() ==> (#[trigger] spec_pixels(
                d,
                p,
            ).events[k]) is PixelSet,
{
    if (p.bpp == 8 && p.compression == Some(Compression::RunLength8)) || (p.bpp == 4
        && p.compression == Some(Compression::RunLength4)) {
        if p.image_size != 0 && p.px_start + p.image_size <= d.len() {
            lemma_rle_pixelset(
                d,
                p.px_start + p.image_size,
                p.px_start,
                0,
                crate::bitmap::spec_rle_y0(p.height, p.top_down),
                p.width,
                p.top_down,
                p.palette,
                p.color_width,
                p.bpp == 4,
            );
        }
    } else {
        lemma_raster_pixelset(d, p, 0);
    }
}

/// Law: on every decode call into a fresh builder whose input parses at
/// all — compressed or not, failing later or not — the size is set first
/// and exactly once, every later call but the last delivers a pixel, and
/// the last is either a pixel delivery or the one final build call.
pub proof fn lemma_sink_call_order<R>(d: Seq<u8>, log: Seq<SinkEvent>, r: Result<R, DecodeError>)
    requires
        spec_decode_post(d, Seq::empty(), log, r),
        spec_parse(d) is Ok,
    ensures
        log.len() >= 1,
        log[0] == (SinkEvent::SizeSet {
            width: spec_parse(d)->Ok_0.width,
            height: spec_parse(d)->Ok_0.height,
        }),
        forall|k: int| 1 <= k < log.len() - 1 ==> (#[trigger] log[k]) is PixelSet,
        log.len() > 1 ==> log[log.len() - 1] is PixelSet || log[log.len() - 1] is Built,
{
    let p = spec_parse(d)->Ok_0;
    lemma_pixels_pixelset(d, p);
    let po = spec_pixels(d, p);
    let base = Seq::empty().push(SinkEvent::SizeSet { width: p.width, height: p.height });
    if po.err is Some {
        assert(log =~= base + po.events);
        assert forall|k: int| 1 <= k < log.len() - 1 implies (#[trigger] log[k]) is PixelSet by {
            assert(log[k] == po.events[k - 1]);
        }
        if log.len() > 1 {
            assert(log[log.len() - 1] == po.events[log.len() - 2]);
        }
    } else {
        assert(log =~= (base + po.events).push(SinkEvent::Built));
        assert forall|k: int| 1 <= k < log.len() - 1 implies (#[trigger] log[k]) is PixelSet by {
            assert(log[k] == po.events[k - 1]);
        }
    }
}

} // verus!
