//! Opacity arithmetic: the darkness level of a display, in whole percent.
//!
//! An opacity of 0 leaves the display untouched; the largest accepted value
//! is 90, so that user input can never drive a screen fully black.
use vstd::prelude::*;

verus! {

/// The largest opacity, in percent, that the dimmer ever applies.
pub const MAX_OPACITY: u32 = 90;

/// The value `v` limited to the accepted opacity range `[0, 90]`.
pub open spec fn clamped(v: int) -> int {
    if v < 0 {
        0
    } else if v > MAX_OPACITY as int {
        MAX_OPACITY as int
    } else {
        v
    }
}

/// True of an opacity that lies in the accepted range.
pub open spec fn valid_opacity(o: int) -> bool {
    0 <= o <= MAX_OPACITY as int
}

/// Limits a requested opacity to `[0, 90]`; values outside are clamped,
/// never rejected.
pub fn clamp_opacity(v: i64) -> (r: u32)
    ensures
        r as int == clamped(v as int),
        valid_opacity(r as int),
{
    if v < 0 {
        0
    } else if v > MAX_OPACITY as i64 {
        MAX_OPACITY
    } else {
        v as u32
    }
}

/// Alpha channel value (0..=255) of an overlay surface that darkens by
/// `o` percent: `o * 255 / 100`, rounded down.
pub open spec fn alpha_of(o: int) -> int {
    o * 255 / 100
}

/// The opacity, in percent, that an overlay alpha value stands for,
/// rounded to the nearest percent.
pub open spec fn opacity_of_alpha(a: int) -> int {
    (a * 200 + 255) / 510
}

/// Brightness scale factor, in percent, of a compositor colour transform
/// that darkens by `o` percent: `1 - o`, kept within `[5, 100]` so that a
/// display is never driven to an unrecoverable black.
pub open spec fn brightness_of(o: int) -> int {
    if 100 - o < 5 {
        5
    } else if 100 - o > 100 {
        100
    } else {
        100 - o
    }
}

/// Alpha value of an overlay surface for an opacity in percent.
pub fn alpha_for(o: u32) -> (a: u8)
    requires
        o <= 100,
    ensures
        a as int == alpha_of(o as int),
{
    assert(o * 255 / 100 <= 255) by (nonlinear_arith)
        requires
            o <= 100,
    ;
    (o * 255 / 100) as u8
}

/// Reads back the opacity that an overlay's alpha value applies.
pub fn opacity_from_alpha(a: u8) -> (o: u32)
    ensures
        o as int == opacity_of_alpha(a as int),
{
    ((a as u32) * 200 + 255) / 510
}

/// Brightness factor, in percent, that the compositor effect applies for
/// an opacity in percent.
pub fn brightness_for(o: u32) -> (b: u32)
    ensures
        b as int == brightness_of(o as int),
        5 <= b <= 100,
{
    if o >= 95 {
        5
    } else {
        100 - o
    }
}

/// Reads back the opacity that a brightness factor applies.
pub fn opacity_from_brightness(b: u32) -> (o: u32)
    requires
        b <= 100,
    ensures
        o == 100 - b,
{
    100 - b
}

/// An overlay surface shown at any accepted opacity reads back as that same
/// opacity from its alpha value.
pub proof fn lemma_alpha_round_trip(o: int)
    requires
        valid_opacity(o),
    ensures
        opacity_of_alpha(alpha_of(o)) == o,
{
    let a = alpha_of(o);
    assert(100 * a <= 255 * o < 100 * a + 100) by (nonlinear_arith)
        requires
            a == o * 255 / 100,
            0 <= o,
    ;
    assert(510 * o <= a * 200 + 255 < 510 * o + 510) by (nonlinear_arith)
        requires
            100 * a <= 255 * o < 100 * a + 100,
    ;
    assert((a * 200 + 255) / 510 == o) by (nonlinear_arith)
        requires
            510 * o <= a * 200 + 255 < 510 * o + 510,
    ;
}

/// A compositor effect applied at any accepted opacity reads back as that
/// same opacity from its brightness factor.
pub proof fn lemma_brightness_round_trip(o: int)
    requires
        valid_opacity(o),
    ensures
        100 - brightness_of(o) == o,
{
}

/// Clamping is idempotent and leaves accepted values as they are.
pub proof fn lemma_clamp_keeps_valid(v: int)
    ensures
        valid_opacity(clamped(v)),
        valid_opacity(v) ==> clamped(v) == v,
        clamped(clamped(v)) == clamped(v),
{
}

} // verus!
