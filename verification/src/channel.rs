//! The bitfield channel model.
//!
//! A 32-bit mask describes where one channel's bits sit inside a 16- or
//! 32-bit pixel.  From the mask the decoder derives a shift (the mask's
//! trailing zero count) and a maximum (the mask shifted down), and rescales
//! the raw channel bits to the 8-bit range:
//! `scaled(raw) = floor(255 * ((raw & mask) >> shift) / max)`, or the
//! channel's default when the mask is zero.

use vstd::prelude::*;

use vstd::arithmetic::div_mod::lemma_div_multiples_vanish;

verus! {

/// The smallest set-bit index of `m` that is `i` or above, or 32 when all
/// such bits are clear.
pub open spec fn spec_tz_from(m: u32, i: nat) -> nat
    decreases 32 - i,
{
    if i >= 32 {
        32
    } else if (m >> (i as u32)) & 1 == 1 {
        i
    } else {
        spec_tz_from(m, i + 1)
    }
}

/// The trailing zero count of `m`: its lowest set-bit index, or 32 for 0.
pub open spec fn spec_trailing_zeros(m: u32) -> nat {
    spec_tz_from(m, 0)
}

/// The search result stays between its start and 32.
pub proof fn lemma_tz_from_range(m: u32, i: nat)
    requires
        i <= 32,
    ensures
        i <= spec_tz_from(m, i) <= 32,
    decreases 32 - i,
{
    if i < 32 && (m >> (i as u32)) & 1 != 1 {
        lemma_tz_from_range(m, i + 1);
    }
}

/// All bits of `m` at or above `i` are clear when no set bit was found.
proof fn lemma_tz_from_exhausted(m: u32, i: nat)
    requires
        i <= 32,
        spec_tz_from(m, i) == 32,
    ensures
        forall|j: u32| i <= j < 32 ==> (m >> j) & 1 == 0,
    decreases 32 - i,
{
    if i < 32 {
        let j0 = i as u32;
        assert((m >> j0) & 1 != 1);
        assert((m >> j0) & 1 == 0 || (m >> j0) & 1 == 1) by (bit_vector);
        lemma_tz_from_exhausted(m, i + 1);
        assert forall|j: u32| i <= j < 32 implies (m >> j) & 1 == 0 by {
            if j == j0 {
                assert((m >> j0) & 1 == 0);
            }
        }
    }
}

/// A value whose 32 bits are all clear is zero.
proof fn lemma_all_bits_clear(m: u32)
    requires
        forall|j: u32| j < 32 ==> (m >> j) & 1 == 0,
    ensures
        m == 0,
{
    assert(m == 0) by (bit_vector)
        requires
            (m >> 0u32) & 1 == 0,
            (m >> 1u32) & 1 == 0,
            (m >> 2u32) & 1 == 0,
            (m >> 3u32) & 1 == 0,
            (m >> 4u32) & 1 == 0,
            (m >> 5u32) & 1 == 0,
            (m >> 6u32) & 1 == 0,
            (m >> 7u32) & 1 == 0,
            (m >> 8u32) & 1 == 0,
            (m >> 9u32) & 1 == 0,
            (m >> 10u32) & 1 == 0,
            (m >> 11u32) & 1 == 0,
            (m >> 12u32) & 1 == 0,
            (m >> 13u32) & 1 == 0,
            (m >> 14u32) & 1 == 0,
            (m >> 15u32) & 1 == 0,
            (m >> 16u32) & 1 == 0,
            (m >> 17u32) & 1 == 0,
            (m >> 18u32) & 1 == 0,
            (m >> 19u32) & 1 == 0,
            (m >> 20u32) & 1 == 0,
            (m >> 21u32) & 1 == 0,
            (m >> 22u32) & 1 == 0,
            (m >> 23u32) & 1 == 0,
            (m >> 24u32) & 1 == 0,
            (m >> 25u32) & 1 == 0,
            (m >> 26u32) & 1 == 0,
            (m >> 27u32) & 1 == 0,
            (m >> 28u32) & 1 == 0,
            (m >> 29u32) & 1 == 0,
            (m >> 30u32) & 1 == 0,
            (m >> 31u32) & 1 == 0,
    ;
}

/// A nonzero mask has a set bit, so its trailing zero count is below 32
/// and shifting it down by that count leaves a nonzero value.
pub proof fn lemma_trailing_zeros_nonzero(m: u32)
    requires
        m != 0,
    ensures
        spec_trailing_zeros(m) < 32,
        m >> (spec_trailing_zeros(m) as u32) & 1 == 1,
        m >> (spec_trailing_zeros(m) as u32) >= 1,
    decreases 32nat,
{
    lemma_tz_from_range(m, 0);
    if spec_trailing_zeros(m) == 32 {
        lemma_tz_from_exhausted(m, 0);
        lemma_all_bits_clear(m);
    }
    lemma_tz_from_found(m, 0);
    let sh = spec_trailing_zeros(m) as u32;
    assert((m >> sh) & 1 == 1 ==> m >> sh >= 1) by (bit_vector);
}

/// When a set bit is found, the bit at the found index really is set.
proof fn lemma_tz_from_found(m: u32, i: nat)
    requires
        i <= 32,
        spec_tz_from(m, i) < 32,
    ensures
        (m >> (spec_tz_from(m, i) as u32)) & 1 == 1,
    decreases 32 - i,
{
    if i < 32 {
        if (m >> (i as u32)) & 1 == 1 {
        } else {
            lemma_tz_from_found(m, i + 1);
        }
    }
}

/// The zero mask has no set bit at all.
pub proof fn lemma_trailing_zeros_zero()
    ensures
        spec_trailing_zeros(0u32) == 32,
{
    lemma_tz_from_range(0u32, 0);
    if spec_trailing_zeros(0u32) < 32 {
        lemma_tz_from_found(0u32, 0);
        let sh = spec_trailing_zeros(0u32) as u32;
        assert((0u32 >> sh) & 1 == 0) by (bit_vector);
    }
}

/// The trailing zero count of `mask`, computed bit by bit.
pub fn trailing_zeros(mask: u32) -> (r: u32)
    ensures
        r == spec_trailing_zeros(mask),
        r <= 32,
{
    let mut i: u32 = 0;
    loop
        invariant
            i <= 32,
            spec_tz_from(mask, 0) == spec_tz_from(mask, i as nat),
        decreases 32 - i,
    {
        if i >= 32 {
            return 32;
        }
        if (mask >> i) & 1 == 1 {
            return i;
        }
        i = i + 1;
    }
}

/// What one channel's rescale yields for the raw pixel `raw` under `mask`,
/// with `dflt` standing in when the mask declares no such channel.
pub open spec fn spec_scaled(raw: u32, mask: u32, dflt: u8) -> int {
    let sh = spec_trailing_zeros(mask) as u32;
    if mask == 0 {
        dflt as int
    } else {
        255 * (((raw & mask) >> sh) as int) / ((mask >> sh) as int)
    }
}

/// The rescale lands in the 8-bit range.
pub proof fn lemma_scaled_bounds(raw: u32, mask: u32, dflt: u8)
    ensures
        0 <= spec_scaled(raw, mask, dflt) <= 255,
{
    if mask != 0 {
        lemma_trailing_zeros_nonzero(mask);
        let sh = spec_trailing_zeros(mask) as u32;
        let q = ((raw & mask) >> sh) as int;
        let mx = (mask >> sh) as int;
        assert(((raw & mask) >> sh) <= (mask >> sh)) by (bit_vector);
        assert(255 * q <= 255 * mx) by (nonlinear_arith)
            requires
                q <= mx,
        ;
        assert(255 * q / mx <= 255 * mx / mx) by (nonlinear_arith)
            requires
                255 * q <= 255 * mx,
                mx >= 1,
        ;
        lemma_div_multiples_vanish(255, mx);
        assert(255 * q >= 0) by (nonlinear_arith)
            requires
                q >= 0,
        ;
        assert(255 * q / mx >= 0) by (nonlinear_arith)
            requires
                255 * q >= 0,
                mx >= 1,
        ;
    }
}

/// Rescale is exact at the extremes: a raw value carrying the whole mask
/// maps to 255 and a raw value of zero maps to 0, for any nonzero mask.
pub proof fn lemma_scaled_extremes(mask: u32, dflt: u8)
    requires
        mask != 0,
    ensures
        spec_scaled(mask, mask, dflt) == 255,
        spec_scaled(0, mask, dflt) == 0,
{
    lemma_trailing_zeros_nonzero(mask);
    let sh = spec_trailing_zeros(mask) as u32;
    assert(mask & mask == mask) by (bit_vector);
    assert(0u32 & mask == 0) by (bit_vector);
    assert(0u32 >> sh == 0) by (bit_vector);
    let mx = (mask >> sh) as int;
    lemma_div_multiples_vanish(255, mx);
    assert(mx * 255 == 255 * mx) by (nonlinear_arith);
    assert(0int / mx == 0);
    assert(255 * 0 == 0) by (nonlinear_arith);
}

/// Rescales the channel bits that `mask` selects out of `value` to the
/// 8-bit range; `shr_count` and `mask_max` are the shift and maximum the
/// caller derived from the same mask, and `default` answers for an absent
/// channel.
pub fn clamp8bit(value: u32, mask: u32, shr_count: u32, mask_max: u32, default: u8) -> (r: u8)
    requires
        shr_count == spec_trailing_zeros(mask),
        mask_max == if mask == 0 {
            0u32
        } else {
            mask >> (spec_trailing_zeros(mask) as u32)
        },
    ensures
        r == spec_scaled(value, mask, default),
{
    match mask_max {
        0 => {
            proof {
                if mask != 0 {
                    lemma_trailing_zeros_nonzero(mask);
                }
            }
            default
        },
        max => {
            proof {
                lemma_trailing_zeros_nonzero(mask);
                lemma_scaled_bounds(value, mask, default);
            }
            let q = (value & mask) >> shr_count;
            ((255u64 * (q as u64)) / (max as u64)) as u8
        },
    }
}

} // verus!
