//! Hue, saturation and value to red, green and blue.
//!
//! The hue is an angle in degrees, saturation and value are fractions of
//! one; all three are fixed-point, `UNIT` steps to one. Every channel is the
//! exact value of the six-sector formula times 255, rounded down, and what
//! does not fit a byte stops at its ends.

use vstd::prelude::*;
use vstd::arithmetic::div_mod::lemma_fundamental_div_mod;
use crate::units::{clamp, floor_div, UNIT};

verus! {

/// A full turn of the hue: 360 degrees.
pub const FULL_TURN: i64 = 360_000_000_000;

/// One of the six sectors of the hue circle: 60 degrees.
pub const SECTOR: i64 = 60_000_000_000;

/// The hue folded into `0 .. FULL_TURN`.
pub open spec fn folded(h: int) -> int {
    h % (FULL_TURN as int)
}

/// The channel for the value `v` times the fraction `num / den`: that
/// product times 255, rounded down and held to `0 ..= 255`.
pub open spec fn tone(v: int, num: int, den: int) -> int {
    clamp((255 * v * num) / (UNIT * den), 0, 255)
}

/// The colour of hue `h`, saturation `s` and value `v`. Without saturation it
/// is a grey of the value; else the sector of the folded hue says which
/// channel is at the value, which at the low level, and which in between,
/// rising or falling with the place of the hue in its sector.
pub open spec fn hsv_rgb(h: int, s: int, v: int) -> (int, int, int) {
    let top = tone(v, 1, 1);
    if s == 0 {
        (top, top, top)
    } else {
        let sector = folded(h) / (SECTOR as int);
        let f = folded(h) % (SECTOR as int);
        let low = tone(v, UNIT - s, UNIT as int);
        let falling = tone(v, UNIT * SECTOR - s * f, UNIT * SECTOR);
        let rising = tone(v, UNIT * SECTOR - s * (SECTOR - f), UNIT * SECTOR);
        if sector == 0 {
            (top, rising, low)
        } else if sector == 1 {
            (falling, top, low)
        } else if sector == 2 {
            (low, top, rising)
        } else if sector == 3 {
            (low, falling, top)
        } else if sector == 4 {
            (rising, low, top)
        } else {
            (top, low, falling)
        }
    }
}

/// Hue idempotence. Whole turns added to the hue do not change the colour,
/// and neither does folding the hue first.
pub proof fn hue_turns_are_idle(h: int, k: int, s: int, v: int)
    ensures
        hsv_rgb(folded(h), s, v) == hsv_rgb(h + FULL_TURN * k, s, v),
        hsv_rgb(folded(h), s, v) == hsv_rgb(h, s, v),
{
    vstd::arithmetic::div_mod::lemma_mod_multiples_vanish(k, h, FULL_TURN as int);
    assert(FULL_TURN * k == k * FULL_TURN) by (nonlinear_arith);
    assert(folded(h + FULL_TURN * k) == folded(h));
    assert(folded(folded(h)) == folded(h));
}

/// One channel.
fn tone_of(v: i64, num: i128, den: i128) -> (c: u8)
    requires
        -0x10_0000_0000_0000_0000_0000_0000 <= num <= 0x10_0000_0000_0000_0000_0000_0000,
        0 < den <= UNIT * SECTOR,
    ensures
        c == tone(v as int, num as int, den as int),
{
    assert(UNIT * SECTOR == 60_000_000_000_000_000_000) by (nonlinear_arith)
        requires
            UNIT == 1_000_000_000,
            SECTOR == 60_000_000_000,
    ;
    assert(0 < UNIT * den <= 1_000_000_000 * 60_000_000_000_000_000_000) by (nonlinear_arith)
        requires
            UNIT == 1_000_000_000,
            0 < den <= 60_000_000_000_000_000_000,
    ;
    let below: i128 = (UNIT as i128) * den;
    let (size, part): (i128, i128) = if v < 0 && num < 0 {
        (-(v as i128), -num)
    } else {
        (v as i128, num)
    };
    if size <= 0 || part <= 0 {
        assert((255 * v * num) / below as int <= 0) by (nonlinear_arith)
            requires
                (v <= 0 && num >= 0) || (v >= 0 && num <= 0),
                0 < below,
        ;
        return 0;
    }
    assert(255 * v * num == 255 * (size * part)) by (nonlinear_arith)
        requires
            (size == v && part == num) || (size == -v && part == -num),
    ;
    let most: i128 = below / part;
    if size > most {
        assert((255 * (size * part)) / below as int >= 255) by (nonlinear_arith)
            requires
                most == below / part,
                size > most,
                part > 0,
                below > 0,
        ;
        return 255;
    }
    assert(0 < size * part <= below) by (nonlinear_arith)
        requires
            most == below / part,
            0 < size <= most,
            part > 0,
            below > 0,
    ;
    let above: i128 = 255 * (size * part);
    let c: i128 = above / below;
    assert(0 <= c <= 255) by (nonlinear_arith)
        requires
            c == above / below,
            0 <= above <= 255 * below,
            0 < below,
    ;
    c as u8
}

/// The colour of hue `h`, saturation `s` and value `v`.
pub fn hsv_to_rgb(h: i64, s: i64, v: i64) -> (rgb: (u8, u8, u8))
    ensures
        (rgb.0 as int, rgb.1 as int, rgb.2 as int) == hsv_rgb(h as int, s as int, v as int),
{
    let top: u8 = tone_of(v, 1, 1);
    if s == 0 {
        return (top, top, top);
    }
    let turn: i128 = FULL_TURN as i128;
    let turns: i128 = floor_div(h as i128, turn);
    proof {
        lemma_fundamental_div_mod(h as int, FULL_TURN as int);
    }
    let hue: i128 = h as i128 - turns * turn;
    assert(hue == folded(h as int));
    let sector: i128 = hue / (SECTOR as i128);
    let f: i128 = hue % (SECTOR as i128);
    let whole: i128 = 60_000_000_000_000_000_000;
    assert(whole == UNIT * SECTOR) by (nonlinear_arith)
        requires
            whole == 60_000_000_000_000_000_000,
            UNIT == 1_000_000_000,
            SECTOR == 60_000_000_000,
    ;
    assert(-0x8000_0000_0000_0000 * 60_000_000_000 <= s * f <= 0x8000_0000_0000_0000 * 60_000_000_000
        && -0x8000_0000_0000_0000 * 60_000_000_000 <= s * (SECTOR - f) <= 0x8000_0000_0000_0000
        * 60_000_000_000) by (nonlinear_arith)
        requires
            -0x8000_0000_0000_0000 <= s <= 0x8000_0000_0000_0000,
            0 <= f < SECTOR,
            SECTOR == 60_000_000_000,
    ;
    let low: u8 = tone_of(v, (UNIT as i128) - (s as i128), UNIT as i128);
    let falling: u8 = tone_of(v, whole - (s as i128) * f, whole);
    let rising: u8 = tone_of(v, whole - (s as i128) * ((SECTOR as i128) - f), whole);
    if sector == 0 {
        (top, rising, low)
    } else if sector == 1 {
        (falling, top, low)
    } else if sector == 2 {
        (low, top, rising)
    } else if sector == 3 {
        (low, falling, top)
    } else if sector == 4 {
        (rising, low, top)
    } else {
        (top, low, falling)
    }
}

} // verus!
