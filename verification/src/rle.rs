//! The RLE4 / RLE8 escape-code decompressor.
//!
//! The compressed segment is a fully buffered block of `count` bytes.
//! State is the cursor `(x, y)` and the byte index; opcodes are 2-byte
//! pairs `(count, value)`: a positive count draws an encoded run, a zero
//! count selects an escape (end of line, end of bitmap, delta, or an
//! absolute run of literal indices with 2-byte realignment padding).
//! Every palette index is range checked.  Cursor arithmetic wraps modulo
//! 2^32, as the 32-bit arithmetic of the format's consumers does.

use vstd::prelude::*;

use vstd::arithmetic::div_mod::{lemma_div_is_ordered, lemma_fundamental_div_mod,
    lemma_fundamental_div_mod_converse};

use crate::errors::{eof_error, DecodeError, PixelDataError};
use crate::palette::{palette_lookup, spec_palette_lookup};
use crate::sink::{lemma_po_emit_assoc, po_done, po_emit, po_fail, PixelOutcome, SinkEvent};
use crate::Builder;
use crate::Color;

verus! {

/// What a single run (encoded or absolute) did: its sink calls, the
/// error that stopped it if any, and the cursor it left behind.
#[verifier::ext_equal]
pub ghost struct RunOut {
    pub events: Seq<SinkEvent>,
    pub err: Option<DecodeError>,
    pub x: u32,
    pub y: u32,
}

/// `events` emitted first, then everything `rest` did.
pub open spec fn ro_emit(events: Seq<SinkEvent>, rest: RunOut) -> RunOut {
    RunOut { events: events + rest.events, err: rest.err, x: rest.x, y: rest.y }
}

/// Emitting in two steps is emitting the concatenation in one.
pub proof fn lemma_ro_emit_assoc(a: Seq<SinkEvent>, b: Seq<SinkEvent>, c: RunOut)
    ensures
        ro_emit(a, ro_emit(b, c)) == ro_emit(a + b, c),
{
    assert(a + (b + c.events) =~= (a + b) + c.events);
    assert(ro_emit(a, ro_emit(b, c)) =~= ro_emit(a + b, c));
}

/// Addition modulo 2^32.
pub open spec fn spec_wrap_add(a: u32, b: u32) -> u32 {
    ((a + b) % 0x100000000) as u32
}

/// Subtraction modulo 2^32.
pub open spec fn spec_wrap_sub(a: u32, b: u32) -> u32 {
    ((a - b) % 0x100000000) as u32
}

/// The next stored row: downwards for top-down images, upwards for
/// bottom-up ones, modulo 2^32.
pub open spec fn spec_step_row(y: u32, top_down: bool) -> u32 {
    if top_down {
        spec_wrap_add(y, 1)
    } else {
        spec_wrap_sub(y, 1)
    }
}

/// The cursor column after drawing a pixel.
pub open spec fn spec_inc_x(x: u32) -> u32 {
    spec_wrap_add(x, 1)
}

/// How a delta escape moves the row, in the stored direction.
pub open spec fn spec_delta_y(y: u32, dy: u8, top_down: bool) -> u32 {
    if top_down {
        spec_wrap_add(y, dy as u32)
    } else {
        spec_wrap_sub(y, dy as u32)
    }
}

/// Adds modulo 2^32.
fn wrap_add(a: u32, b: u32) -> (r: u32)
    ensures
        r == spec_wrap_add(a, b),
{
    proof {
        if a + b < 0x100000000 {
            lemma_fundamental_div_mod_converse((a + b) as int, 0x100000000, 0, (a + b) as int);
        } else {
            lemma_fundamental_div_mod_converse(
                (a + b) as int,
                0x100000000,
                1,
                (a + b - 0x100000000) as int,
            );
        }
    }
    if b <= u32::MAX - a {
        a + b
    } else {
        // a + b - 2^32, computed without leaving 32 bits
        (a as u64 + b as u64 - 0x100000000u64) as u32
    }
}

/// Subtracts modulo 2^32.
fn wrap_sub(a: u32, b: u32) -> (r: u32)
    ensures
        r == spec_wrap_sub(a, b),
{
    proof {
        if a >= b {
            lemma_fundamental_div_mod_converse((a - b) as int, 0x100000000, 0, (a - b) as int);
        } else {
            lemma_fundamental_div_mod_converse(
                a - b,
                0x100000000,
                -1,
                a - b + 0x100000000,
            );
        }
    }
    if a >= b {
        a - b
    } else {
        (0x100000000u64 + a as u64 - b as u64) as u32
    }
}

/// Moves the cursor to the next stored row.
fn step_row(y: u32, top_down: bool) -> (r: u32)
    ensures
        r == spec_step_row(y, top_down),
{
    if top_down {
        wrap_add(y, 1)
    } else {
        wrap_sub(y, 1)
    }
}

/// What an encoded run draws: `cnt` pixels of the alternating colors
/// `c1`, `c2`, wrapping to the next row whenever the column leaves the
/// image.  A solid 8-bit run passes the same color twice.
pub open spec fn spec_run(
    cnt: nat,
    x: u32,
    y: u32,
    w: u32,
    td: bool,
    c1: Color,
    c2: Color,
) -> RunOut
    decreases cnt,
{
    if cnt == 0 {
        RunOut { events: Seq::empty(), err: None, x, y }
    } else {
        let x1: u32 = if x >= w {
            0
        } else {
            x
        };
        let y1: u32 = if x >= w {
            spec_step_row(y, td)
        } else {
            y
        };
        let ev = SinkEvent::PixelSet { x: x1, y: y1, r: c1.r, g: c1.g, b: c1.b, a: c1.a };
        ro_emit(seq![ev], spec_run((cnt - 1) as nat, spec_inc_x(x1), y1, w, td, c2, c1))
    }
}

/// What an 8-bit absolute run draws: one range-checked palette lookup
/// per literal byte, stopped by the first bad index.
pub open spec fn spec_abs8(
    d: Seq<u8>,
    p: int,
    cnt: nat,
    x: u32,
    y: u32,
    w: u32,
    td: bool,
    pal: Seq<u8>,
    cw: int,
) -> RunOut
    decreases cnt,
{
    if cnt == 0 {
        RunOut { events: Seq::empty(), err: None, x, y }
    } else {
        let x1: u32 = if x >= w {
            0
        } else {
            x
        };
        let y1: u32 = if x >= w {
            spec_step_row(y, td)
        } else {
            y
        };
        match spec_palette_lookup(pal, cw, d[p] as int) {
            None => RunOut {
                events: Seq::empty(),
                err: Some(DecodeError::PixelData(PixelDataError::PaletteIndexOutOfRange)),
                x: x1,
                y: y1,
            },
            Some(c) => {
                let ev = SinkEvent::PixelSet { x: x1, y: y1, r: c.r, g: c.g, b: c.b, a: c.a };
                ro_emit(
                    seq![ev],
                    spec_abs8(d, p + 1, (cnt - 1) as nat, spec_inc_x(x1), y1, w, td, pal, cw),
                )
            },
        }
    }
}

/// What a 4-bit absolute run draws: nibble `j` of `total`, high nibble
/// of each packed byte first.
pub open spec fn spec_abs4(
    d: Seq<u8>,
    p: int,
    j: nat,
    total: nat,
    x: u32,
    y: u32,
    w: u32,
    td: bool,
    pal: Seq<u8>,
    cw: int,
) -> RunOut
    decreases total - j,
{
    if j >= total {
        RunOut { events: Seq::empty(), err: None, x, y }
    } else {
        let byte = d[p + j / 2];
        let idx: u8 = if j % 2 == 0 {
            (byte >> 4) & 0x0F
        } else {
            byte & 0x0F
        };
        let x1: u32 = if x >= w {
            0
        } else {
            x
        };
        let y1: u32 = if x >= w {
            spec_step_row(y, td)
        } else {
            y
        };
        match spec_palette_lookup(pal, cw, idx as int) {
            None => RunOut {
                events: Seq::empty(),
                err: Some(DecodeError::PixelData(PixelDataError::PaletteIndexOutOfRange)),
                x: x1,
                y: y1,
            },
            Some(c) => {
                let ev = SinkEvent::PixelSet { x: x1, y: y1, r: c.r, g: c.g, b: c.b, a: c.a };
                ro_emit(
                    seq![ev],
                    spec_abs4(d, p, j + 1, total, spec_inc_x(x1), y1, w, td, pal, cw),
                )
            },
        }
    }
}

/// What the whole opcode stream from byte `i` does, up to the declared
/// end of the compressed segment at `end`.
#[verifier::opaque]
pub open spec fn spec_rle(
    d: Seq<u8>,
    end: int,
    i: int,
    x: u32,
    y: u32,
    w: u32,
    td: bool,
    pal: Seq<u8>,
    cw: int,
    four: bool,
) -> PixelOutcome
    decreases end - i,
{
    if i >= end {
        po_done()
    } else if i + 2 > end {
        po_fail(eof_error())
    } else {
        let a = d[i];
        let b = d[i + 1];
        if a == 0 {
            if b == 0 {
                // end of line
                spec_rle(d, end, i + 2, 0, spec_step_row(y, td), w, td, pal, cw, four)
            } else if b == 1 {
                // end of bitmap
                po_done()
            } else if b == 2 {
                // delta
                if i + 4 > end {
                    po_fail(eof_error())
                } else {
                    spec_rle(
                        d,
                        end,
                        i + 4,
                        spec_wrap_add(x, d[i + 2] as u32),
                        spec_delta_y(y, d[i + 3], td),
                        w,
                        td,
                        pal,
                        cw,
                        four,
                    )
                }
            } else {
                // absolute run of b literal indices
                let nbytes: int = if four {
                    (b + 1) / 2
                } else {
                    b as int
                };
                if i + 2 + nbytes > end {
                    po_fail(eof_error())
                } else {
                    let ro = if four {
                        spec_abs4(d, i + 2, 0, b as nat, x, y, w, td, pal, cw)
                    } else {
                        spec_abs8(d, i + 2, b as nat, x, y, w, td, pal, cw)
                    };
                    if ro.err is Some {
                        PixelOutcome { events: ro.events, err: ro.err }
                    } else {
                        let i2 = i + 2 + nbytes + (if nbytes % 2 == 1 {
                            1int
                        } else {
                            0int
                        });
                        if i2 >= end {
                            PixelOutcome { events: ro.events, err: None }
                        } else {
                            po_emit(
                                ro.events,
                                spec_rle(d, end, i2, ro.x, ro.y, w, td, pal, cw, four),
                            )
                        }
                    }
                }
            }
        } else {
            // encoded run of a pixels colored from b
            if four {
                let hi = (b >> 4) & 0x0F;
                let lo = b & 0x0F;
                match spec_palette_lookup(pal, cw, hi as int) {
                    None => po_fail(
                        DecodeError::PixelData(PixelDataError::PaletteIndexOutOfRange),
                    ),
                    Some(c1) => match spec_palette_lookup(pal, cw, lo as int) {
                        None => po_fail(
                            DecodeError::PixelData(PixelDataError::PaletteIndexOutOfRange),
                        ),
                        Some(c2) => {
                            let ro = spec_run(a as nat, x, y, w, td, c1, c2);
                            po_emit(
                                ro.events,
                                spec_rle(d, end, i + 2, ro.x, ro.y, w, td, pal, cw, four),
                            )
                        },
                    },
                }
            } else {
                match spec_palette_lookup(pal, cw, b as int) {
                    None => po_fail(
                        DecodeError::PixelData(PixelDataError::PaletteIndexOutOfRange),
                    ),
                    Some(c) => {
                        let ro = spec_run(a as nat, x, y, w, td, c, c);
                        po_emit(
                            ro.events,
                            spec_rle(d, end, i + 2, ro.x, ro.y, w, td, pal, cw, four),
                        )
                    },
                }
            }
        }
    }
}

/// Draws an encoded run into the sink and returns the cursor it leaves.
fn run_enc<TBuilder: Builder>(
    cnt: usize,
    x: u32,
    y: u32,
    w: u32,
    td: bool,
    c1: Color,
    c2: Color,
    builder: &mut TBuilder,
) -> (r: (u32, u32))
    requires
        w < 0x80000000,
    ensures
        ({
            let ro = spec_run(cnt as nat, x, y, w, td, c1, c2);
            &&& final(builder).log() == old(builder).log() + ro.events
            &&& r.0 == ro.x
            &&& r.1 == ro.y
        }),
{
    let ghost ro0 = spec_run(cnt as nat, x, y, w, td, c1, c2);
    let ghost log0 = builder.log();
    let mut k: usize = 0;
    let mut cx = x;
    let mut cy = y;
    let mut ca = c1;
    let mut cb = c2;
    loop
        invariant
            k <= cnt,
            w < 0x80000000,
            log0 == old(builder).log(),
            log0.len() <= builder.log().len(),
            builder.log().take(log0.len() as int) == log0,
            ro0 == spec_run(cnt as nat, x, y, w, td, c1, c2),
            ro0 == ro_emit(
                builder.log().skip(log0.len() as int),
                spec_run((cnt - k) as nat, cx, cy, w, td, ca, cb),
            ),
        decreases cnt - k,
    {
        let ghost delta = builder.log().skip(log0.len() as int);
        let ghost rest = spec_run((cnt - k) as nat, cx, cy, w, td, ca, cb);
        proof {
            assert(builder.log() =~= log0 + delta);
        }
        if k >= cnt {
            proof {
                assert(ro0.events =~= delta);
            }
            return (cx, cy);
        }
        if cx >= w {
            cx = 0;
            cy = step_row(cy, td);
        }
        let ghost ev = SinkEvent::PixelSet { x: cx, y: cy, r: ca.r, g: ca.g, b: ca.b, a: ca.a };
        builder.set_pixel(cx, cy, ca.r, ca.g, ca.b, ca.a);
        proof {
            let rest2 = spec_run((cnt - k - 1) as nat, spec_inc_x(cx), cy, w, td, cb, ca);
            assert(rest == ro_emit(seq![ev], rest2));
            lemma_ro_emit_assoc(delta, seq![ev], rest2);
            assert(builder.log().skip(log0.len() as int) =~= delta + seq![ev]);
            assert(builder.log().take(log0.len() as int) =~= log0);
            lemma_fundamental_div_mod_converse(cx + 1, 0x100000000, 0, cx + 1);
        }
        cx = cx + 1;
        let tmp = ca;
        ca = cb;
        cb = tmp;
        k = k + 1;
    }
}

/// Draws an 8-bit absolute run into the sink.
fn run_abs8<TBuilder: Builder>(
    d: &Vec<u8>,
    p: usize,
    cnt: usize,
    x: u32,
    y: u32,
    w: u32,
    td: bool,
    palette: &Vec<u8>,
    color_width: usize,
    builder: &mut TBuilder,
) -> (r: Result<(u32, u32), DecodeError>)
    requires
        p + cnt <= d@.len(),
        color_width == 3 || color_width == 4,
        w < 0x80000000,
    ensures
        ({
            let ro = spec_abs8(
                d@,
                p as int,
                cnt as nat,
                x,
                y,
                w,
                td,
                palette@,
                color_width as int,
            );
            &&& final(builder).log() == old(builder).log() + ro.events
            &&& (r is Ok <==> ro.err is None)
            &&& (r is Ok ==> r->Ok_0.0 == ro.x && r->Ok_0.1 == ro.y)
            &&& (r is Err ==> ro.err == Some(r->Err_0))
        }),
{
    let ghost ro0 = spec_abs8(d@, p as int, cnt as nat, x, y, w, td, palette@, color_width as int);
    let ghost log0 = builder.log();
    let dlen = d.len();
    let mut k: usize = 0;
    let mut cx = x;
    let mut cy = y;
    loop
        invariant
            k <= cnt,
            p + cnt <= d@.len(),
            dlen == d@.len(),
            color_width == 3 || color_width == 4,
            w < 0x80000000,
            log0 == old(builder).log(),
            log0.len() <= builder.log().len(),
            builder.log().take(log0.len() as int) == log0,
            ro0 == spec_abs8(d@, p as int, cnt as nat, x, y, w, td, palette@, color_width as int),
            ro0 == ro_emit(
                builder.log().skip(log0.len() as int),
                spec_abs8(
                    d@,
                    p + k,
                    (cnt - k) as nat,
                    cx,
                    cy,
                    w,
                    td,
                    palette@,
                    color_width as int,
                ),
            ),
        decreases cnt - k,
    {
        let ghost delta = builder.log().skip(log0.len() as int);
        let ghost rest = spec_abs8(
            d@,
            p + k,
            (cnt - k) as nat,
            cx,
            cy,
            w,
            td,
            palette@,
            color_width as int,
        );
        proof {
            assert(builder.log() =~= log0 + delta);
        }
        if k >= cnt {
            proof {
                assert(ro0.events =~= delta);
            }
            return Ok((cx, cy));
        }
        if cx >= w {
            cx = 0;
            cy = step_row(cy, td);
        }
        let idx = d[p + k];
        match palette_lookup(palette, color_width, idx as usize) {
            Err(e) => {
                proof {
                    assert(ro0.events =~= delta);
                }
                return Err(e);
            },
            Ok(c) => {
                let ghost ev = SinkEvent::PixelSet { x: cx, y: cy, r: c.r, g: c.g, b: c.b, a: c.a };
                builder.set_pixel(cx, cy, c.r, c.g, c.b, c.a);
                proof {
                    let rest2 = spec_abs8(
                        d@,
                        p + k + 1,
                        (cnt - k - 1) as nat,
                        spec_inc_x(cx),
                        cy,
                        w,
                        td,
                        palette@,
                        color_width as int,
                    );
                    assert(rest == ro_emit(seq![ev], rest2));
                    lemma_ro_emit_assoc(delta, seq![ev], rest2);
                    assert(builder.log().skip(log0.len() as int) =~= delta + seq![ev]);
                    assert(builder.log().take(log0.len() as int) =~= log0);
                    lemma_fundamental_div_mod_converse(cx + 1, 0x100000000, 0, cx + 1);
                }
                cx = cx + 1;
                k = k + 1;
            },
        }
    }
}

/// A nibble inside the run touches only the packed bytes the run covers.
proof fn lemma_nibble_byte_bound(j: int, total: int)
    requires
        0 <= j < total,
    ensures
        j / 2 < (total + 1) / 2,
{
    lemma_fundamental_div_mod(j, 2);
    lemma_fundamental_div_mod_converse(j + 2, 2, j / 2 + 1, j % 2);
    lemma_div_is_ordered(j + 2, total + 1, 2);
}

/// Draws a 4-bit absolute run into the sink.
fn run_abs4<TBuilder: Builder>(
    d: &Vec<u8>,
    p: usize,
    total: usize,
    x: u32,
    y: u32,
    w: u32,
    td: bool,
    palette: &Vec<u8>,
    color_width: usize,
    builder: &mut TBuilder,
) -> (r: Result<(u32, u32), DecodeError>)
    requires
        p + (total + 1) / 2 <= d@.len(),
        color_width == 3 || color_width == 4,
        w < 0x80000000,
    ensures
        ({
            let ro = spec_abs4(
                d@,
                p as int,
                0,
                total as nat,
                x,
                y,
                w,
                td,
                palette@,
                color_width as int,
            );
            &&& final(builder).log() == old(builder).log() + ro.events
            &&& (r is Ok <==> ro.err is None)
            &&& (r is Ok ==> r->Ok_0.0 == ro.x && r->Ok_0.1 == ro.y)
            &&& (r is Err ==> ro.err == Some(r->Err_0))
        }),
{
    let ghost ro0 = spec_abs4(
        d@,
        p as int,
        0,
        total as nat,
        x,
        y,
        w,
        td,
        palette@,
        color_width as int,
    );
    let ghost log0 = builder.log();
    let dlen = d.len();
    let mut j: usize = 0;
    let mut cx = x;
    let mut cy = y;
    loop
        invariant
            j <= total,
            p + (total + 1) / 2 <= d@.len(),
            dlen == d@.len(),
            color_width == 3 || color_width == 4,
            w < 0x80000000,
            log0 == old(builder).log(),
            log0.len() <= builder.log().len(),
            builder.log().take(log0.len() as int) == log0,
            ro0 == spec_abs4(
                d@,
                p as int,
                0,
                total as nat,
                x,
                y,
                w,
                td,
                palette@,
                color_width as int,
            ),
            ro0 == ro_emit(
                builder.log().skip(log0.len() as int),
                spec_abs4(
                    d@,
                    p as int,
                    j as nat,
                    total as nat,
                    cx,
                    cy,
                    w,
                    td,
                    palette@,
                    color_width as int,
                ),
            ),
        decreases total - j,
    {
        let ghost delta = builder.log().skip(log0.len() as int);
        let ghost rest = spec_abs4(
            d@,
            p as int,
            j as nat,
            total as nat,
            cx,
            cy,
            w,
            td,
            palette@,
            color_width as int,
        );
        proof {
            assert(builder.log() =~= log0 + delta);
        }
        if j >= total {
            proof {
                assert(ro0.events =~= delta);
            }
            return Ok((cx, cy));
        }
        proof {
            lemma_nibble_byte_bound(j as int, total as int);
        }
        let byte = d[p + j / 2];
        let idx: u8 = if j % 2 == 0 {
            (byte >> 4) & 0x0F
        } else {
            byte & 0x0F
        };
        if cx >= w {
            cx = 0;
            cy = step_row(cy, td);
        }
        match palette_lookup(palette, color_width, idx as usize) {
            Err(e) => {
                proof {
                    assert(ro0.events =~= delta);
                }
                return Err(e);
            },
            Ok(c) => {
                let ghost ev = SinkEvent::PixelSet { x: cx, y: cy, r: c.r, g: c.g, b: c.b, a: c.a };
                builder.set_pixel(cx, cy, c.r, c.g, c.b, c.a);
                proof {
                    let rest2 = spec_abs4(
                        d@,
                        p as int,
                        j as nat + 1,
                        total as nat,
                        spec_inc_x(cx),
                        cy,
                        w,
                        td,
                        palette@,
                        color_width as int,
                    );
                    assert(rest == ro_emit(seq![ev], rest2));
                    lemma_ro_emit_assoc(delta, seq![ev], rest2);
                    assert(builder.log().skip(log0.len() as int) =~= delta + seq![ev]);
                    assert(builder.log().take(log0.len() as int) =~= log0);
                    lemma_fundamental_div_mod_converse(cx + 1, 0x100000000, 0, cx + 1);
                }
                cx = cx + 1;
                j = j + 1;
            },
        }
    }
}

/// Executes one opcode at `i`: its sink calls, and either the state to
/// continue from, a clean stop, or the error that aborts decoding.
#[verifier::rlimit(100)]
fn rle_step<TBuilder: Builder>(
    d: &Vec<u8>,
    end: usize,
    i: usize,
    x: u32,
    y: u32,
    width: u32,
    top_down: bool,
    palette: &Vec<u8>,
    color_width: usize,
    four: bool,
    builder: &mut TBuilder,
) -> (r: Result<Option<(usize, u32, u32)>, DecodeError>)
    requires
        i < end,
        end <= d@.len(),
        color_width == 3 || color_width == 4,
        width < 0x80000000,
    ensures
        ({
            let rest = spec_rle(
                d@,
                end as int,
                i as int,
                x,
                y,
                width,
                top_down,
                palette@,
                color_width as int,
                four,
            );
            let emitted = final(builder).log().skip(old(builder).log().len() as int);
            &&& old(builder).log().len() <= final(builder).log().len()
            &&& final(builder).log().take(old(builder).log().len() as int) == old(builder).log()
            &&& match r {
                Ok(step) => match step {
                    Some(nxt) => {
                        &&& i < nxt.0 <= end
                        &&& rest == po_emit(
                            emitted,
                            spec_rle(
                                d@,
                                end as int,
                                nxt.0 as int,
                                nxt.1,
                                nxt.2,
                                width,
                                top_down,
                                palette@,
                                color_width as int,
                                four,
                            ),
                        )
                    },
                    None => rest.err is None && rest.events == emitted,
                },
                Err(e) => rest.err == Some(e) && rest.events == emitted,
            }
        }),
{
    let ghost log0 = builder.log();
    let ghost rest = spec_rle(
        d@,
        end as int,
        i as int,
        x,
        y,
        width,
        top_down,
        palette@,
        color_width as int,
        four,
    );
    proof {
        assert(builder.log().skip(log0.len() as int) =~= Seq::<SinkEvent>::empty());
        assert(builder.log().take(log0.len() as int) =~= log0);
    }
    if end - i < 2 {
        proof {
            reveal(spec_rle);
        }
        return Err(DecodeError::Io(crate::errors::IoError::UnexpectedEof));
    }
    let a = d[i];
    let b = d[i + 1];
    if a == 0 {
        if b == 0 {
            // end of line
            proof {
                reveal(spec_rle);
                assert(rest == po_emit(
                    Seq::empty(),
                    spec_rle(
                        d@,
                        end as int,
                        i as int + 2,
                        0,
                        spec_step_row(y, top_down),
                        width,
                        top_down,
                        palette@,
                        color_width as int,
                        four,
                    ),
                )) by {
                    crate::sink::lemma_po_emit_empty(
                        spec_rle(
                            d@,
                            end as int,
                            i as int + 2,
                            0,
                            spec_step_row(y, top_down),
                            width,
                            top_down,
                            palette@,
                            color_width as int,
                            four,
                        ),
                    );
                }
            }
            let ny = step_row(y, top_down);
            Ok(Some((i + 2, 0, ny)))
        } else if b == 1 {
            // end of bitmap: stop immediately
            proof {
                reveal(spec_rle);
            }
            Ok(None)
        } else if b == 2 {
            // delta escape
            if end - i < 4 {
                proof {
                    reveal(spec_rle);
                }
                return Err(DecodeError::Io(crate::errors::IoError::UnexpectedEof));
            }
            let dx = d[i + 2];
            let dy = d[i + 3];
            let nx = wrap_add(x, dx as u32);
            let ny = if top_down {
                wrap_add(y, dy as u32)
            } else {
                wrap_sub(y, dy as u32)
            };
            proof {
                reveal(spec_rle);
                crate::sink::lemma_po_emit_empty(
                    spec_rle(
                        d@,
                        end as int,
                        i as int + 4,
                        spec_wrap_add(x, dx as u32),
                        spec_delta_y(y, dy, top_down),
                        width,
                        top_down,
                        palette@,
                        color_width as int,
                        four,
                    ),
                );
            }
            Ok(Some((i + 4, nx, ny)))
        } else {
            // absolute run of b literal indices
            let nbytes: usize = if four {
                (b as usize + 1) / 2
            } else {
                b as usize
            };
            if end - i - 2 < nbytes {
                proof {
                    reveal(spec_rle);
                }
                return Err(DecodeError::Io(crate::errors::IoError::UnexpectedEof));
            }
            let ro = if four {
                run_abs4(d, i + 2, b as usize, x, y, width, top_down, palette, color_width, builder)
            } else {
                run_abs8(d, i + 2, b as usize, x, y, width, top_down, palette, color_width, builder)
            };
            let ghost ro_spec = if four {
                spec_abs4(d@, i + 2, 0, b as nat, x, y, width, top_down, palette@,
                    color_width as int)
            } else {
                spec_abs8(d@, i + 2, b as nat, x, y, width, top_down, palette@,
                    color_width as int)
            };
            match ro {
                Err(e) => {
                    proof {
                        reveal(spec_rle);
                        assert(rest.events == ro_spec.events && rest.err == ro_spec.err);
                    }
                    return Err(e);
                },
                Ok((nx, ny)) => {
                    let mut i2: usize = i + 2 + nbytes;
                    if nbytes % 2 == 1 && i2 < end {
                        i2 = i2 + 1;
                    }
                    if i2 >= end {
                        proof {
                            reveal(spec_rle);
                            assert(rest.events == ro_spec.events && rest.err is None);
                        }
                        return Ok(None);
                    }
                    proof {
                        reveal(spec_rle);
                        assert(rest == po_emit(
                            ro_spec.events,
                            spec_rle(
                                d@,
                                end as int,
                                i2 as int,
                                ro_spec.x,
                                ro_spec.y,
                                width,
                                top_down,
                                palette@,
                                color_width as int,
                                four,
                            ),
                        ));
                    }
                    Ok(Some((i2, nx, ny)))
                },
            }
        }
    } else {
        // encoded run
        let (c1, c2) = if four {
            let hi = (b >> 4) & 0x0F;
            let lo = b & 0x0F;
            let c1 = match palette_lookup(palette, color_width, hi as usize) {
                Err(e) => {
                    proof {
                        reveal(spec_rle);
                    }
                    return Err(e);
                },
                Ok(c) => c,
            };
            let c2 = match palette_lookup(palette, color_width, lo as usize) {
                Err(e) => {
                    proof {
                        reveal(spec_rle);
                    }
                    return Err(e);
                },
                Ok(c) => c,
            };
            (c1, c2)
        } else {
            let c = match palette_lookup(palette, color_width, b as usize) {
                Err(e) => {
                    proof {
                        reveal(spec_rle);
                    }
                    return Err(e);
                },
                Ok(c) => c,
            };
            (c, c)
        };
        let ghost ro_spec = spec_run(a as nat, x, y, width, top_down, c1, c2);
        let (nx, ny) = run_enc(a as usize, x, y, width, top_down, c1, c2, builder);
        proof {
            reveal(spec_rle);
            assert(rest == po_emit(
                ro_spec.events,
                spec_rle(
                    d@,
                    end as int,
                    i as int + 2,
                    ro_spec.x,
                    ro_spec.y,
                    width,
                    top_down,
                    palette@,
                    color_width as int,
                    four,
                ),
            ));
        }
        Ok(Some((i + 2, nx, ny)))
    }
}

/// Runs the whole escape-code state machine over the compressed segment
/// `d[start .. start + count]`, drawing into the sink.
pub fn decode_rle<TBuilder: Builder>(
    d: &Vec<u8>,
    start: usize,
    count: usize,
    width: u32,
    height: u32,
    top_down: bool,
    palette: &Vec<u8>,
    color_width: usize,
    four: bool,
    builder: &mut TBuilder,
) -> (r: Result<(), DecodeError>)
    requires
        start + count <= d@.len(),
        color_width == 3 || color_width == 4,
        width < 0x80000000,
    ensures
        ({
            let y0 = if top_down {
                0u32
            } else {
                spec_wrap_sub(height, 1)
            };
            let o = spec_rle(
                d@,
                start + count,
                start as int,
                0,
                y0,
                width,
                top_down,
                palette@,
                color_width as int,
                four,
            );
            &&& final(builder).log() == old(builder).log() + o.events
            &&& (r is Ok <==> o.err is None)
            &&& (r is Err ==> o.err == Some(r->Err_0))
        }),
{
    let ghost log0 = builder.log();
    let dlen = d.len();
    let end: usize = start + count;
    let mut x: u32 = 0;
    let mut y: u32 = if top_down {
        0
    } else {
        wrap_sub(height, 1)
    };
    let mut i: usize = start;
    let ghost o0 = spec_rle(
        d@,
        end as int,
        start as int,
        0,
        y,
        width,
        top_down,
        palette@,
        color_width as int,
        four,
    );
    loop
        invariant
            i <= end,
            end == start + count,
            end <= dlen,
            dlen == d@.len(),
            color_width == 3 || color_width == 4,
            width < 0x80000000,
            log0 == old(builder).log(),
            log0.len() <= builder.log().len(),
            builder.log().take(log0.len() as int) == log0,
            o0 == po_emit(
                builder.log().skip(log0.len() as int),
                spec_rle(
                    d@,
                    end as int,
                    i as int,
                    x,
                    y,
                    width,
                    top_down,
                    palette@,
                    color_width as int,
                    four,
                ),
            ),
            o0 == spec_rle(
                d@,
                end as int,
                start as int,
                0,
                if top_down {
                    0u32
                } else {
                    spec_wrap_sub(height, 1)
                },
                width,
                top_down,
                palette@,
                color_width as int,
                four,
            ),
        decreases end - i,
    {
        let ghost delta = builder.log().skip(log0.len() as int);
        let ghost rest = spec_rle(
            d@,
            end as int,
            i as int,
            x,
            y,
            width,
            top_down,
            palette@,
            color_width as int,
            four,
        );
        proof {
            assert(builder.log() =~= log0 + delta);
        }
        if i >= end {
            proof {
                reveal(spec_rle);
                assert(o0.events =~= delta);
            }
            return Ok(());
        }
        let ghost mid = builder.log();
        match rle_step(d, end, i, x, y, width, top_down, palette, color_width, four, builder) {
            Err(e) => {
                let ghost emitted = builder.log().skip(mid.len() as int);
                proof {
                    assert(rest.events == emitted && rest.err == Some(e));
                    assert(o0.events =~= delta + emitted);
                    assert(builder.log() =~= log0 + (delta + emitted));
                }
                return Err(e);
            },
            Ok(None) => {
                let ghost emitted = builder.log().skip(mid.len() as int);
                proof {
                    assert(rest.events == emitted && rest.err is None);
                    assert(o0.events =~= delta + emitted);
                    assert(builder.log() =~= log0 + (delta + emitted));
                }
                return Ok(());
            },
            Ok(Some((i2, nx, ny))) => {
                let ghost emitted = builder.log().skip(mid.len() as int);
                proof {
                    let rest2 = spec_rle(
                        d@,
                        end as int,
                        i2 as int,
                        nx,
                        ny,
                        width,
                        top_down,
                        palette@,
                        color_width as int,
                        four,
                    );
                    assert(rest == po_emit(emitted, rest2));
                    lemma_po_emit_assoc(delta, emitted, rest2);
                    assert(builder.log().skip(log0.len() as int) =~= delta + emitted);
                    assert(builder.log().take(log0.len() as int) =~= log0);
                }
                x = nx;
                y = ny;
                i = i2;
            },
        }
    }
}

/// Law: a stream whose next opcode is the end-of-bitmap escape `(0, 1)`
/// stops decoding at that point, regardless of how much of the declared
/// segment length remains.
pub proof fn lemma_rle_end_of_bitmap(
    d: Seq<u8>,
    end: int,
    i: int,
    x: u32,
    y: u32,
    w: u32,
    td: bool,
    pal: Seq<u8>,
    cw: int,
    four: bool,
)
    requires
        0 <= i,
        i + 2 <= end,
        d[i] == 0,
        d[i + 1] == 1,
    ensures
        spec_rle(d, end, i, x, y, w, td, pal, cw, four) == po_done(),
{
    reveal(spec_rle);
}

/// Law: an absolute run of `v` literal bytes in the 8-bit scheme consumes
/// `v` bytes plus one pad byte when `v` is odd, so the next opcode is read
/// at `i + 2 + v + (v % 2)`.  A run of 3 literals therefore consumes 4
/// bytes after its opcode.
pub proof fn lemma_rle8_absolute_padding(
    d: Seq<u8>,
    end: int,
    i: int,
    x: u32,
    y: u32,
    w: u32,
    td: bool,
    pal: Seq<u8>,
    cw: int,
)
    requires
        0 <= i,
        i + 2 <= end,
        d[i] == 0,
        d[i + 1] >= 3,
        i + 2 + d[i + 1] + (d[i + 1] as int % 2) < end,
        spec_abs8(d, i + 2, d[i + 1] as nat, x, y, w, td, pal, cw).err is None,
    ensures
        ({
            let v = d[i + 1] as int;
            let ro = spec_abs8(d, i + 2, d[i + 1] as nat, x, y, w, td, pal, cw);
            spec_rle(d, end, i, x, y, w, td, pal, cw, false) == po_emit(
                ro.events,
                spec_rle(d, end, i + 2 + v + (v % 2), ro.x, ro.y, w, td, pal, cw, false),
            )
        }),
{
    reveal(spec_rle);
}

/// Every failure of an 8-bit absolute run is the palette range check.
proof fn lemma_abs8_err(
    d: Seq<u8>,
    p: int,
    cnt: nat,
    x: u32,
    y: u32,
    w: u32,
    td: bool,
    pal: Seq<u8>,
    cw: int,
)
    ensures
        spec_abs8(d, p, cnt, x, y, w, td, pal, cw).err matches Some(e) ==> e
            == DecodeError::PixelData(PixelDataError::PaletteIndexOutOfRange),
    decreases cnt,
{
    if cnt > 0 {
        let x1: u32 = if x >= w {
            0
        } else {
            x
        };
        let y1: u32 = if x >= w {
            spec_step_row(y, td)
        } else {
            y
        };
        if spec_palette_lookup(pal, cw, d[p] as int) is Some {
            lemma_abs8_err(d, p + 1, (cnt - 1) as nat, spec_inc_x(x1), y1, w, td, pal, cw);
        }
    }
}

/// Every failure of a 4-bit absolute run is the palette range check.
proof fn lemma_abs4_err(
    d: Seq<u8>,
    p: int,
    j: nat,
    total: nat,
    x: u32,
    y: u32,
    w: u32,
    td: bool,
    pal: Seq<u8>,
    cw: int,
)
    ensures
        spec_abs4(d, p, j, total, x, y, w, td, pal, cw).err matches Some(e) ==> e
            == DecodeError::PixelData(PixelDataError::PaletteIndexOutOfRange),
    decreases total - j,
{
    if j < total {
        let byte = d[p + j / 2];
        let idx: u8 = if j % 2 == 0 {
            (byte >> 4) & 0x0F
        } else {
            byte & 0x0F
        };
        let x1: u32 = if x >= w {
            0
        } else {
            x
        };
        let y1: u32 = if x >= w {
            spec_step_row(y, td)
        } else {
            y
        };
        if spec_palette_lookup(pal, cw, idx as int) is Some {
            lemma_abs4_err(d, p, j + 1, total, spec_inc_x(x1), y1, w, td, pal, cw);
        }
    }
}

/// Law: every failure of the RLE machine is either the buffer running
/// short or a palette index out of range; in particular any corrupt
/// index is reported as the palette range error, never read out of
/// bounds.
pub proof fn lemma_rle_errors(
    d: Seq<u8>,
    end: int,
    i: int,
    x: u32,
    y: u32,
    w: u32,
    td: bool,
    pal: Seq<u8>,
    cw: int,
    four: bool,
)
    ensures
        spec_rle(d, end, i, x, y, w, td, pal, cw, four).err matches Some(e) ==> e == eof_error()
            || e == DecodeError::PixelData(PixelDataError::PaletteIndexOutOfRange),
    decreases end - i,
{
    reveal(spec_rle);
    if i >= end || i + 2 > end {
    } else {
        let a = d[i];
        let b = d[i + 1];
        if a == 0 {
            if b == 0 {
                lemma_rle_errors(d, end, i + 2, 0, spec_step_row(y, td), w, td, pal, cw, four);
            } else if b == 1 {
            } else if b == 2 {
                if i + 4 <= end {
                    lemma_rle_errors(
                        d,
                        end,
                        i + 4,
                        spec_wrap_add(x, d[i + 2] as u32),
                        spec_delta_y(y, d[i + 3], td),
                        w,
                        td,
                        pal,
                        cw,
                        four,
                    );
                }
            } else {
                let nbytes: int = if four {
                    (b + 1) / 2
                } else {
                    b as int
                };
                if i + 2 + nbytes <= end {
                    let ro = if four {
                        spec_abs4(d, i + 2, 0, b as nat, x, y, w, td, pal, cw)
                    } else {
                        spec_abs8(d, i + 2, b as nat, x, y, w, td, pal, cw)
                    };
                    if four {
                        lemma_abs4_err(d, i + 2, 0, b as nat, x, y, w, td, pal, cw);
                    } else {
                        lemma_abs8_err(d, i + 2, b as nat, x, y, w, td, pal, cw);
                    }
                    if ro.err is None {
                        let i2 = i + 2 + nbytes + (if nbytes % 2 == 1 {
                            1int
                        } else {
                            0int
                        });
                        if i2 < end {
                            lemma_rle_errors(d, end, i2, ro.x, ro.y, w, td, pal, cw, four);
                        }
                    }
                }
            }
        } else {
            if four {
                let hi = (b >> 4) & 0x0F;
                let lo = b & 0x0F;
                if spec_palette_lookup(pal, cw, hi as int) is Some && spec_palette_lookup(
                    pal,
                    cw,
                    lo as int,
                ) is Some {
                    let c1 = spec_palette_lookup(pal, cw, hi as int)->0;
                    let c2 = spec_palette_lookup(pal, cw, lo as int)->0;
                    let ro = spec_run(a as nat, x, y, w, td, c1, c2);
                    lemma_rle_errors(d, end, i + 2, ro.x, ro.y, w, td, pal, cw, four);
                }
            } else {
                if spec_palette_lookup(pal, cw, b as int) is Some {
                    let c = spec_palette_lookup(pal, cw, b as int)->0;
                    let ro = spec_run(a as nat, x, y, w, td, c, c);
                    lemma_rle_errors(d, end, i + 2, ro.x, ro.y, w, td, pal, cw, four);
                }
            }
        }
    }
}

} // verus!
