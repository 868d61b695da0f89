//! Colors: linear fixed-point channels during tracing, 8-bit channels in
//! the framebuffer.

use vstd::prelude::*;
use crate::maths::{SCALE, sabs, sdiv, fxm, lemma_sdiv_basics};
use vstd::arithmetic::div_mod::lemma_div_is_ordered;
use vstd::arithmetic::div_mod::lemma_div_by_multiple;

verus! {

/// A linear RGBA color; each channel is a fixed-point scalar where
/// `SCALE` stands for full intensity.
#[derive(Clone, Copy, Debug, PartialEq, Eq, Structural)]
pub struct Color {
    pub r: i64,
    pub g: i64,
    pub b: i64,
    pub a: i64,
}

/// An 8-bit RGBA pixel.
#[derive(Clone, Copy, Debug, PartialEq, Eq, Structural)]
pub struct ColorU8 {
    pub r: u8,
    pub g: u8,
    pub b: u8,
    pub a: u8,
}

/// Every channel lies in the unit interval `[0, 1]` (raw `[0, SCALE]`).
pub open spec fn color_wf(c: Color) -> bool {
    &&& 0 <= c.r <= SCALE
    &&& 0 <= c.g <= SCALE
    &&& 0 <= c.b <= SCALE
    &&& 0 <= c.a <= SCALE
}

/// A fixed-point product of two unit-interval scalars stays in the unit
/// interval.
pub proof fn lemma_fxm_unit(a: int, b: int)
    requires
        0 <= a <= SCALE,
        0 <= b <= SCALE,
    ensures
        0 <= fxm(a, b) <= SCALE,
        fxm(a, b) <= b,
        a == SCALE ==> fxm(a, b) == b,
{
    assert(a * b <= SCALE * b) by (nonlinear_arith)
        requires 0 <= b && a <= SCALE;
    lemma_div_is_ordered(a * b, SCALE as int * b, SCALE as int);
    assert(SCALE as int * b == b * SCALE) by (nonlinear_arith);
    lemma_div_by_multiple(b, SCALE as int);
    lemma_sdiv_basics(a * b, SCALE as int);
    assert(a * b >= 0) by (nonlinear_arith)
        requires a >= 0 && b >= 0;
    assert(a * b <= SCALE * SCALE) by (nonlinear_arith)
        requires 0 <= a <= SCALE && 0 <= b <= SCALE;
    lemma_div_is_ordered(a * b, SCALE as int * SCALE as int, SCALE as int);
    lemma_div_by_multiple(SCALE as int, SCALE as int);
    assert(SCALE as int * SCALE as int == SCALE as int * SCALE as int);
    if a == SCALE {
        assert(a * b == b * SCALE) by (nonlinear_arith)
            requires a == SCALE;
        lemma_div_by_multiple(b, SCALE as int);
    }
}

impl Color {
    /// An opaque color with the given channels.
    pub fn new(r: i64, g: i64, b: i64) -> (c: Color)
        ensures
            c == (Color { r, g, b, a: SCALE }),
    {
        Color { r, g, b, a: 65536 }
    }

    /// A color with an explicit alpha channel.
    pub fn new_with_alpha(r: i64, g: i64, b: i64, a: i64) -> (c: Color)
        ensures
            c == (Color { r, g, b, a }),
    {
        Color { r, g, b, a }
    }

    /// Channelwise fixed-point product, alpha included.
    pub fn mul_with_alpha(&self, o: &Color) -> (c: Color)
        requires
            color_wf(*self),
            color_wf(*o),
        ensures
            c.r == fxm(self.r as int, o.r as int),
            c.g == fxm(self.g as int, o.g as int),
            c.b == fxm(self.b as int, o.b as int),
            c.a == fxm(self.a as int, o.a as int),
            color_wf(c),
    {
        proof {
            lemma_fxm_unit(self.r as int, o.r as int);
            lemma_fxm_unit(self.g as int, o.g as int);
            lemma_fxm_unit(self.b as int, o.b as int);
            lemma_fxm_unit(self.a as int, o.a as int);
        }
        Color {
            r: crate::maths::fx_mul(self.r, o.r),
            g: crate::maths::fx_mul(self.g, o.g),
            b: crate::maths::fx_mul(self.b, o.b),
            a: crate::maths::fx_mul(self.a, o.a),
        }
    }

    /// Channelwise sum, alpha included.
    pub fn add_with_alpha(&self, o: &Color) -> (c: Color)
        requires
            sabs(self.r as int) <= 0x2000000000000000,
            sabs(self.g as int) <= 0x2000000000000000,
            sabs(self.b as int) <= 0x2000000000000000,
            sabs(self.a as int) <= 0x2000000000000000,
            sabs(o.r as int) <= 0x2000000000000000,
            sabs(o.g as int) <= 0x2000000000000000,
            sabs(o.b as int) <= 0x2000000000000000,
            sabs(o.a as int) <= 0x2000000000000000,
        ensures
            c.r == self.r + o.r,
            c.g == self.g + o.g,
            c.b == self.b + o.b,
            c.a == self.a + o.a,
    {
        Color { r: self.r + o.r, g: self.g + o.g, b: self.b + o.b, a: self.a + o.a }
    }
}

} // verus!
