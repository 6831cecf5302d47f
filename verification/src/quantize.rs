//! Radix packing of quantised terms.
//!
//! The DC term packs three sRGB bytes into one 24-bit integer; each AC
//! term packs three base-19 digits in `[0, 18]` into one integer below
//! 83 squared.  The clamps bound the raw quantiser outputs: each AC digit
//! to `[0, 18]` and the shared dynamic-range value to `[0, 82]`.
use vstd::prelude::*;

verus! {

/// Packs three sRGB bytes as `(r << 16) | (g << 8) | b`, a 24-bit value.
pub fn pack_dc(r: u8, g: u8, b: u8) -> (v: u32)
    ensures
        v == (r as int) * 65536 + (g as int) * 256 + (b as int),
        v < 16777216,
{
    (r as u32) * 65536 + (g as u32) * 256 + (b as u32)
}

/// Unpacks a value read as a 24-bit integer into its three sRGB bytes.
pub fn unpack_dc(v: u32) -> (rgb: (u8, u8, u8))
    ensures
        rgb.0 as int == (v as int / 65536) % 256,
        rgb.1 as int == (v as int / 256) % 256,
        rgb.2 as int == v as int % 256,
{
    (((v / 65536) % 256) as u8, ((v / 256) % 256) as u8, (v % 256) as u8)
}

/// Packs three quantised AC digits base 19 as `qr*19*19 + qg*19 + qb`.
pub fn pack_ac(qr: u8, qg: u8, qb: u8) -> (v: u32)
    requires
        qr <= 18,
        qg <= 18,
        qb <= 18,
    ensures
        v == (qr as int) * 361 + (qg as int) * 19 + (qb as int),
        v < 6859,
{
    (qr as u32) * 361 + (qg as u32) * 19 + (qb as u32)
}

/// Unpacks an AC value into its three base-19 digits,
/// `(v/361, (v/19) % 19, v % 19)`.  Any value below 83 squared fits.
pub fn unpack_ac(v: u32) -> (q: (u8, u8, u8))
    requires
        v < 6889,
    ensures
        q.0 as int == v as int / 361,
        q.1 as int == (v as int / 19) % 19,
        q.2 as int == v as int % 19,
{
    ((v / 361) as u8, ((v / 19) % 19) as u8, (v % 19) as u8)
}

/// Clamps a raw quantised AC digit to `[0, 18]`.
pub fn clamp_ac_digit(raw: i32) -> (q: u8)
    ensures
        q as int == if raw < 0 {
            0int
        } else if raw > 18 {
            18int
        } else {
            raw as int
        },
{
    if raw < 0 {
        0
    } else if raw > 18 {
        18
    } else {
        raw as u8
    }
}

/// Clamps a raw quantised dynamic-range value to `[0, 82]`.
pub fn clamp_quantised_max(raw: i32) -> (q: u8)
    ensures
        q as int == if raw < 0 {
            0int
        } else if raw > 82 {
            82int
        } else {
            raw as int
        },
{
    if raw < 0 {
        0
    } else if raw > 82 {
        82
    } else {
        raw as u8
    }
}

} // verus!
