//! Primitive readers: fixed-width little-endian integer reads over the
//! buffered byte source, the foundation of every other component.
//!
//! Each reader consumes its bytes by advancing a cursor and fails with
//! [`IoError::UnexpectedEof`] when the buffer is too short, leaving the
//! cursor where it was.

use vstd::prelude::*;

use crate::errors::{eof_error, DecodeError, IoError};

verus! {

/// The unsigned value of two little-endian bytes at `i`.
pub open spec fn le16(d: Seq<u8>, i: int) -> int {
    d[i] + 0x100 * d[i + 1]
}

/// The unsigned value of four little-endian bytes at `i`.
pub open spec fn le32(d: Seq<u8>, i: int) -> int {
    d[i] + 0x100 * d[i + 1] + 0x10000 * d[i + 2] + 0x1000000 * d[i + 3]
}

/// The two's-complement reading of a 16-bit unsigned value.
pub open spec fn signed16(v: int) -> int {
    if v >= 0x8000 {
        v - 0x10000
    } else {
        v
    }
}

/// The two's-complement reading of a 32-bit unsigned value.
pub open spec fn signed32(v: int) -> int {
    if v >= 0x80000000 {
        v - 0x100000000
    } else {
        v
    }
}

/// Reads one byte.
pub fn read_u8(d: &Vec<u8>, pos: &mut usize) -> (r: Result<u8, DecodeError>)
    ensures
        *old(pos) + 1 <= d@.len() ==> {
            &&& r is Ok
            &&& r->Ok_0 == d@[*old(pos) as int]
            &&& *final(pos) == *old(pos) + 1
        },
        *old(pos) + 1 > d@.len() ==> r == Err::<u8, DecodeError>(eof_error()) && *final(pos) == *old(
            pos,
        ),
{
    if *pos < d.len() {
        let b = d[*pos];
        *pos = *pos + 1;
        Ok(b)
    } else {
        Err(DecodeError::Io(IoError::UnexpectedEof))
    }
}

/// Reads a little-endian unsigned 16-bit integer.
pub fn read_u16(d: &Vec<u8>, pos: &mut usize) -> (r: Result<u16, DecodeError>)
    ensures
        *old(pos) + 2 <= d@.len() ==> {
            &&& r is Ok
            &&& r->Ok_0 == le16(d@, *old(pos) as int)
            &&& *final(pos) == *old(pos) + 2
        },
        *old(pos) + 2 > d@.len() ==> r == Err::<u16, DecodeError>(eof_error()) && *final(pos)
            == *old(pos),
{
    if d.len() >= 2 && *pos <= d.len() - 2 {
        let b0 = d[*pos];
        let b1 = d[*pos + 1];
        *pos = *pos + 2;
        Ok(b0 as u16 + 0x100 * (b1 as u16))
    } else {
        Err(DecodeError::Io(IoError::UnexpectedEof))
    }
}

/// Reads a little-endian unsigned 32-bit integer.
pub fn read_u32(d: &Vec<u8>, pos: &mut usize) -> (r: Result<u32, DecodeError>)
    ensures
        *old(pos) + 4 <= d@.len() ==> {
            &&& r is Ok
            &&& r->Ok_0 == le32(d@, *old(pos) as int)
            &&& *final(pos) == *old(pos) + 4
        },
        *old(pos) + 4 > d@.len() ==> r == Err::<u32, DecodeError>(eof_error()) && *final(pos)
            == *old(pos),
{
    if d.len() >= 4 && *pos <= d.len() - 4 {
        let b0 = d[*pos];
        let b1 = d[*pos + 1];
        let b2 = d[*pos + 2];
        let b3 = d[*pos + 3];
        *pos = *pos + 4;
        Ok(b0 as u32 + 0x100 * (b1 as u32) + 0x10000 * (b2 as u32) + 0x1000000 * (b3 as u32))
    } else {
        Err(DecodeError::Io(IoError::UnexpectedEof))
    }
}

/// Reads a little-endian signed 16-bit integer, widened to 32 bits.
pub fn read_i16(d: &Vec<u8>, pos: &mut usize) -> (r: Result<i32, DecodeError>)
    ensures
        *old(pos) + 2 <= d@.len() ==> {
            &&& r is Ok
            &&& r->Ok_0 == signed16(le16(d@, *old(pos) as int))
            &&& *final(pos) == *old(pos) + 2
        },
        *old(pos) + 2 > d@.len() ==> r == Err::<i32, DecodeError>(eof_error()) && *final(pos)
            == *old(pos),
{
    let v = read_u16(d, pos)?;
    if v >= 0x8000 {
        Ok(-((0x10000 - v as i32)))
    } else {
        Ok(v as i32)
    }
}

/// Reads a little-endian signed 32-bit integer.
pub fn read_i32(d: &Vec<u8>, pos: &mut usize) -> (r: Result<i32, DecodeError>)
    ensures
        *old(pos) + 4 <= d@.len() ==> {
            &&& r is Ok
            &&& r->Ok_0 == signed32(le32(d@, *old(pos) as int))
            &&& *final(pos) == *old(pos) + 4
        },
        *old(pos) + 4 > d@.len() ==> r == Err::<i32, DecodeError>(eof_error()) && *final(pos)
            == *old(pos),
{
    let v = read_u32(d, pos)?;
    if v >= 0x80000000 {
        let low = (0x100000000u64 - v as u64) as i64;
        Ok((-low) as i32)
    } else {
        Ok(v as i32)
    }
}

} // verus!
