//! Fixed-point scalars and 3-vectors.
//!
//! A raw `i64` value `r` stands for the real number `r / SCALE`. Products
//! and quotients are truncated toward zero, exactly as the spec functions
//! `fxm` and `fxd` describe, so every arithmetic routine here has an exact
//! contract.

use vstd::prelude::*;
use vstd::arithmetic::div_mod::lemma_fundamental_div_mod;
use vstd::arithmetic::div_mod::lemma_div_is_ordered;
use vstd::arithmetic::div_mod::lemma_div_is_ordered_by_denominator;

verus! {

/// One, as a raw fixed-point value (16 fractional bits).
pub const SCALE: i64 = 65536;

/// Absolute value of a mathematical integer.
pub open spec fn sabs(a: int) -> int {
    if a < 0 { -a } else { a }
}

/// Division truncated toward zero (the semantics of hardware division),
/// defined through Euclidean division of the magnitudes.
pub open spec fn sdiv(a: int, b: int) -> int {
    let q = sabs(a) / sabs(b);
    if (a < 0) <==> (b < 0) { q } else { -q }
}

/// Fixed-point product: `a * b` rescaled back, truncated toward zero.
pub open spec fn fxm(a: int, b: int) -> int {
    sdiv(a * b, SCALE as int)
}

/// Fixed-point quotient: `a / b` rescaled, truncated toward zero.
pub open spec fn fxd(a: int, b: int) -> int {
    sdiv(a * SCALE, b)
}

/// The defining property of truncated division: the quotient is the
/// magnitude quotient with the sign of the operands, and it never
/// rounds away from zero.
pub proof fn lemma_sdiv_basics(a: int, b: int)
    requires
        b != 0,
    ensures
        sabs(sdiv(a, b)) == sabs(a) / sabs(b),
        sabs(a) == sabs(b) * (sabs(a) / sabs(b)) + sabs(a) % sabs(b),
        0 <= sabs(a) % sabs(b) < sabs(b),
        a >= 0 && b > 0 ==> sdiv(a, b) == a / b,
{
    lemma_fundamental_div_mod(sabs(a), sabs(b));
    if a >= 0 && b > 0 {
        assert(sabs(a) == a && sabs(b) == b);
    }
}

/// The magnitude of a truncated quotient, scaled back up by the divisor,
/// never exceeds the magnitude of the dividend, and misses it by less
/// than the divisor.
pub proof fn lemma_sdiv_close(a: int, b: int)
    requires
        b > 0,
    ensures
        sabs(sdiv(a, b) * b) <= sabs(a),
        sabs(a) - b < sabs(sdiv(a, b) * b),
        sabs(sdiv(a, b)) <= sabs(a),
{
    lemma_fundamental_div_mod(sabs(a), b);
    let q = sabs(a) / b;
    assert(sabs(a) == b * q + sabs(a) % b);
    assert(q >= 0) by {
        assert(b * q + sabs(a) % b >= 0);
        if q < 0 {
            assert(b * q <= -b) by (nonlinear_arith)
                requires b > 0 && q <= -1;
        }
    }
    assert(sabs(sdiv(a, b) * b) == q * b) by {
        if a < 0 {
            assert(sdiv(a, b) == -q);
            assert((-q) * b == -(q * b)) by (nonlinear_arith);
        }
    }
    assert(q * b == b * q) by (nonlinear_arith);
    assert(q <= b * q) by (nonlinear_arith)
        requires b >= 1 && q >= 0;
}

/// Fixed-point multiplication, exact per `fxm`.
pub fn fx_mul(a: i64, b: i64) -> (r: i64)
    requires
        sabs(fxm(a as int, b as int)) <= i64::MAX as int,
    ensures
        r as int == fxm(a as int, b as int),
{
    let p: i128 = (a as i128) * (b as i128);
    proof {
        assert(
            -0x40000000000000000000000000000000 <= a as int * b as int
                <= 0x40000000000000000000000000000000
        ) by (nonlinear_arith)
            requires
                -0x8000000000000000 <= a as int <= 0x7fffffffffffffff,
                -0x8000000000000000 <= b as int <= 0x7fffffffffffffff;
    }
    let neg: bool = p < 0;
    let m: u128 = if neg { (-p) as u128 } else { p as u128 };
    let q: u128 = m / 65536u128;
    proof {
        lemma_sdiv_basics(a as int * b as int, SCALE as int);
        assert(m as int == sabs(a as int * b as int));
    }
    if neg {
        proof {
            assert(q as int == sabs(fxm(a as int, b as int)));
        }
        -(q as i64)
    } else {
        proof {
            assert(q as int == sabs(fxm(a as int, b as int)));
        }
        q as i64
    }
}

/// Fixed-point division, exact per `fxd`.
pub fn fx_div(a: i64, b: i64) -> (r: i64)
    requires
        b != 0,
        sabs(fxd(a as int, b as int)) <= i64::MAX as int,
    ensures
        r as int == fxd(a as int, b as int),
{
    let p: i128 = (a as i128) * 65536i128;
    let nega: bool = p < 0;
    let m: u128 = if nega { (-p) as u128 } else { p as u128 };
    let negb: bool = b < 0;
    let d: u128 = if negb { (-(b as i128)) as u128 } else { b as u128 };
    let q: u128 = m / d;
    proof {
        lemma_sdiv_basics(a as int * SCALE as int, b as int);
        assert(m as int == sabs(a as int * SCALE as int));
        assert(d as int == sabs(b as int));
        assert(q as int == sabs(fxd(a as int, b as int)));
    }
    if nega == negb {
        q as i64
    } else {
        -(q as i64)
    }
}


/// Wide truncated division, exact per `sdiv`.
pub fn sdiv_i128(a: i128, b: i128) -> (r: i128)
    requires
        b != 0,
        -0x40000000000000000000000000000000 <= a <= 0x40000000000000000000000000000000,
        -0x40000000000000000000000000000000 <= b <= 0x40000000000000000000000000000000,
    ensures
        r as int == sdiv(a as int, b as int),
{
    let nega: bool = a < 0;
    let m: u128 = if nega { (-a) as u128 } else { a as u128 };
    let negb: bool = b < 0;
    let d: u128 = if negb { (-b) as u128 } else { b as u128 };
    let q: u128 = m / d;
    proof {
        lemma_sdiv_basics(a as int, b as int);
        assert(m as int == sabs(a as int));
        assert(d as int == sabs(b as int));
        lemma_div_is_ordered(m as int, 0x40000000000000000000000000000000, 1);
        assert(m as int / 1 == m as int);
        lemma_div_is_ordered_by_denominator(m as int, 1, d as int);
    }
    if nega == negb {
        q as i128
    } else {
        -(q as i128)
    }
}

/// The fixed-point square root: `sqrt_floor` of the value rescaled so
/// the result is again a fixed-point scalar.
pub open spec fn fx_sqrt_spec(v: int) -> int {
    sqrt_floor(v * SCALE)
}

/// Fixed-point square root of a non-negative scalar.
pub fn fx_sqrt(v: i64) -> (r: i64)
    requires
        0 <= v,
    ensures
        r as int == fx_sqrt_spec(v as int),
        0 <= r,
        r as int * r as int <= v * SCALE,
        v * SCALE < (r as int + 1) * (r as int + 1),
{
    let w: u128 = (v as u128) * 65536u128;
    let q: u128 = isqrt_u128(w);
    proof {
        assert(q as int <= 0x10000000000) by (nonlinear_arith)
            requires
                q as int * q as int <= v as int * 65536,
                v as int <= 0x7fffffffffffffff,
                0 <= q as int;
    }
    q as i64
}


/// Componentwise box bound for a fixed-point cross product.
pub proof fn lemma_cross_box(a: Vec3, b: Vec3, ba: int, bb: int)
    requires
        in_box(a, ba),
        in_box(b, bb),
        0 <= ba,
        0 <= bb,
    ensures
        sabs(fxm(a.y as int, b.z as int)) <= (ba * bb) / (SCALE as int),
        sabs(fxm(a.z as int, b.y as int)) <= (ba * bb) / (SCALE as int),
        sabs(fxm(a.z as int, b.x as int)) <= (ba * bb) / (SCALE as int),
        sabs(fxm(a.x as int, b.z as int)) <= (ba * bb) / (SCALE as int),
        sabs(fxm(a.x as int, b.y as int)) <= (ba * bb) / (SCALE as int),
        sabs(fxm(a.y as int, b.x as int)) <= (ba * bb) / (SCALE as int),
        0 <= (ba * bb) / (SCALE as int),
{
    lemma_fxm_bound(a.y as int, b.z as int, ba, bb);
    lemma_fxm_bound(a.z as int, b.y as int, ba, bb);
    lemma_fxm_bound(a.z as int, b.x as int, ba, bb);
    lemma_fxm_bound(a.x as int, b.z as int, ba, bb);
    lemma_fxm_bound(a.x as int, b.y as int, ba, bb);
    lemma_fxm_bound(a.y as int, b.x as int, ba, bb);
    assert(0 <= ba * bb) by (nonlinear_arith)
        requires 0 <= ba && 0 <= bb;
    vstd::arithmetic::div_mod::lemma_div_is_ordered(0, ba * bb, SCALE as int);
}

/// The integer square root: the greatest `r` with `r * r <= n`.
pub open spec fn sqrt_floor(n: int) -> int {
    choose|r: int| 0 <= r && #[trigger] (r * r) <= n && n < (r + 1) * (r + 1)
}

/// Any `r` whose square brackets `n` is the integer square root of `n`.
pub proof fn lemma_sqrt_floor(n: int, r: int)
    requires
        0 <= r,
        r * r <= n,
        n < (r + 1) * (r + 1),
    ensures
        sqrt_floor(n) == r,
{
    let s = choose|s: int| 0 <= s && #[trigger] (s * s) <= n && n < (s + 1) * (s + 1);
    assert(0 <= s && s * s <= n && n < (s + 1) * (s + 1));
    if s < r {
        assert((s + 1) * (s + 1) <= r * r) by (nonlinear_arith)
            requires 0 <= s && s + 1 <= r;
    }
    if s > r {
        assert((r + 1) * (r + 1) <= s * s) by (nonlinear_arith)
            requires 0 <= r && r + 1 <= s;
    }
}

/// Integer square root by bisection.
pub fn isqrt_u128(n: u128) -> (r: u128)
    ensures
        r as int == sqrt_floor(n as int),
        r as int * r as int <= n as int,
        (n as int) < (r as int + 1) * (r as int + 1),
{
    let mut lo: u128 = 0;
    let mut hi: u128 = 0xffffffffffffffff;
    proof {
        assert((hi as int + 1) * (hi as int + 1) > n as int) by (nonlinear_arith)
            requires
                hi as int == 0xffffffffffffffff,
                (n as int) < 0x100000000000000000000000000000000;
    }
    while lo < hi
        invariant
            lo <= hi <= 0xffffffffffffffff,
            lo as int * lo as int <= n as int,
            (n as int) < (hi as int + 1) * (hi as int + 1),
        decreases hi - lo,
    {
        let mid: u128 = lo + (hi - lo + 1) / 2;
        proof {
            assert(mid as int * mid as int <= 0xfffffffffffffffffffffffffffffffe)
                by (nonlinear_arith)
                requires 0 <= mid as int <= 0xffffffffffffffff;
        }
        if mid * mid <= n {
            lo = mid;
        } else {
            hi = mid - 1;
        }
    }
    proof {
        lemma_sqrt_floor(n as int, lo as int);
    }
    lo
}


/// Fixed-point multiplication of moderate operands (no overflow can
/// occur).
pub fn fx_mul_s(a: i64, b: i64) -> (r: i64)
    requires
        sabs(a as int) <= 0x100000000,
        sabs(b as int) <= 0x100000000,
    ensures
        r as int == fxm(a as int, b as int),
        sabs(r as int) <= 0x1000000000000,
        sabs(a as int) <= 0x10000 && sabs(b as int) <= 0x10000 ==> sabs(r as int) <= 0x10000,
        sabs(a as int) <= 0x30000 && sabs(b as int) <= 0x30000 ==> sabs(r as int) <= 0x90000,
        sabs(a as int) <= 0x40000 && sabs(b as int) <= 0x40000 ==> sabs(r as int) <= 0x100000,
        sabs(a as int) <= 0x80000 && sabs(b as int) <= 0x80000 ==> sabs(r as int) <= 0x400000,
        sabs(a as int) <= 0x100000 && sabs(b as int) <= 0x100000 ==> sabs(r as int) <= 0x1000000,
        sabs(a as int) <= 0x1000000 && sabs(b as int) <= 0x40000 ==> sabs(r as int) <= 0x4000000,
        sabs(a as int) <= 0x20000 && sabs(b as int) <= 0x4000000 ==> sabs(r as int) <= 0x8000000,
        sabs(a as int) <= 0x400000 && sabs(b as int) <= 0x100000 ==> sabs(r as int) <= 0x10000000,
{
    proof {
        lemma_fxm_bound(a as int, b as int, 0x100000000, 0x100000000);
        if sabs(a as int) <= 0x10000 && sabs(b as int) <= 0x10000 {
            lemma_fxm_bound(a as int, b as int, 0x10000, 0x10000);
        }
        if sabs(a as int) <= 0x30000 && sabs(b as int) <= 0x30000 {
            lemma_fxm_bound(a as int, b as int, 0x30000, 0x30000);
        }
        if sabs(a as int) <= 0x40000 && sabs(b as int) <= 0x40000 {
            lemma_fxm_bound(a as int, b as int, 0x40000, 0x40000);
        }
        if sabs(a as int) <= 0x80000 && sabs(b as int) <= 0x80000 {
            lemma_fxm_bound(a as int, b as int, 0x80000, 0x80000);
        }
        if sabs(a as int) <= 0x100000 && sabs(b as int) <= 0x100000 {
            lemma_fxm_bound(a as int, b as int, 0x100000, 0x100000);
        }
        if sabs(a as int) <= 0x1000000 && sabs(b as int) <= 0x40000 {
            lemma_fxm_bound(a as int, b as int, 0x1000000, 0x40000);
        }
        if sabs(a as int) <= 0x20000 && sabs(b as int) <= 0x4000000 {
            lemma_fxm_bound(a as int, b as int, 0x20000, 0x4000000);
        }
        if sabs(a as int) <= 0x400000 && sabs(b as int) <= 0x100000 {
            lemma_fxm_bound(a as int, b as int, 0x400000, 0x100000);
        }
    }
    fx_mul(a, b)
}

/// Fixed-point division of a moderate dividend (no overflow can occur).
pub fn fx_div_s(a: i64, b: i64) -> (r: i64)
    requires
        b != 0,
        sabs(a as int) <= 0x100000000,
    ensures
        r as int == fxd(a as int, b as int),
        sabs(r as int) <= 0x1000000000000,
        sabs(a as int) <= sabs(b as int) ==> sabs(r as int) <= SCALE as int,
{
    proof {
        if sabs(a as int) <= sabs(b as int) {
            assert(sabs(a as int) * SCALE <= sabs(b as int) * SCALE) by (nonlinear_arith)
                requires sabs(a as int) <= sabs(b as int);
            lemma_div_is_ordered(
                sabs(a as int) * SCALE,
                sabs(b as int) * SCALE,
                sabs(b as int),
            );
            assert(sabs(b as int) * SCALE == SCALE as int * sabs(b as int)) by (nonlinear_arith);
            vstd::arithmetic::div_mod::lemma_div_by_multiple(SCALE as int, sabs(b as int));
        }
        lemma_sdiv_basics(a as int * SCALE, b as int);
        assert(sabs(a as int * SCALE) == sabs(a as int) * SCALE) by (nonlinear_arith);
        assert(sabs(a as int) * SCALE <= 0x1000000000000) by (nonlinear_arith)
            requires sabs(a as int) <= 0x100000000;
        lemma_div_is_ordered(sabs(a as int * SCALE), 0x1000000000000, sabs(b as int));
        lemma_div_is_ordered_by_denominator(0x1000000000000, 1, sabs(b as int));
    }
    fx_div(a, b)
}

/// The integer square root of any non-negative integer exists.
pub proof fn lemma_sqrt_exists(n: int)
    requires
        0 <= n,
    ensures
        0 <= sqrt_floor(n),
        sqrt_floor(n) * sqrt_floor(n) <= n,
        n < (sqrt_floor(n) + 1) * (sqrt_floor(n) + 1),
    decreases n,
{
    if n == 0 {
        lemma_sqrt_floor(0, 0);
    } else {
        lemma_sqrt_exists(n - 1);
        let r = sqrt_floor(n - 1);
        if (r + 1) * (r + 1) <= n {
            assert(n < (r + 2) * (r + 2)) by (nonlinear_arith)
                requires n <= (r + 1) * (r + 1) + 0 && n - 1 < (r + 1) * (r + 1) && r >= 0;
            lemma_sqrt_floor(n, r + 1);
        } else {
            lemma_sqrt_floor(n, r);
        }
    }
}

/// What `unit_spec` yields is componentwise bounded by one and not
/// degenerately short.
pub proof fn lemma_unit_spec_props(v: Vec3)
    requires
        in_box(v, 0x80000000000000),
    ensures
        in_box(unit_spec(v), SCALE as int),
        dotw(unit_spec(v), unit_spec(v)) >= 0x40000000,
{
    lemma_dotw_self_nonneg(v);
    let u = unit_spec(v);
    if dotw(v, v) < MIN_DIR_SQ as int {
        assert(u.x == 0 && u.y == 0 && u.z == 65536);
        assert(dotw(u, u) == 65536 * 65536) by (nonlinear_arith)
            requires u.x == 0 && u.y == 0 && u.z == 65536;
    } else {
        lemma_sqrt_exists(dotw(v, v));
        let l = sqrt_floor(dotw(v, v));
        assert(l >= 0x2000) by (nonlinear_arith)
            requires
                dotw(v, v) < (l + 1) * (l + 1),
                dotw(v, v) >= 0x4000000,
                0 <= l;
        lemma_comp_le_root(v.x as int, v.y as int, v.z as int, l);
        lemma_unit_comp_small(v.x as int, l);
        lemma_unit_comp_small(v.y as int, l);
        lemma_unit_comp_small(v.z as int, l);
        let xa = sabs(v.x as int);
        let ya = sabs(v.y as int);
        let za = sabs(v.z as int);
        if xa >= ya && xa >= za {
            lemma_largest_comp(v.x as int, v.y as int, v.z as int, l);
            lemma_unit_comp_large(v.x as int, l);
            assert(u.x as int * u.x as int >= 32768 * 32768) by (nonlinear_arith)
                requires sabs(u.x as int) >= 32768;
        } else if ya >= za {
            lemma_largest_comp(v.y as int, v.x as int, v.z as int, l);
            lemma_unit_comp_large(v.y as int, l);
            assert(u.y as int * u.y as int >= 32768 * 32768) by (nonlinear_arith)
                requires sabs(u.y as int) >= 32768;
        } else {
            lemma_largest_comp(v.z as int, v.x as int, v.y as int, l);
            lemma_unit_comp_large(v.z as int, l);
            assert(u.z as int * u.z as int >= 32768 * 32768) by (nonlinear_arith)
                requires sabs(u.z as int) >= 32768;
        }
        assert(u.x as int * u.x as int >= 0) by (nonlinear_arith);
        assert(u.y as int * u.y as int >= 0) by (nonlinear_arith);
        assert(u.z as int * u.z as int >= 0) by (nonlinear_arith);
    }
}

/// A 3-vector of fixed-point scalars.
#[derive(Clone, Copy, Debug, PartialEq, Eq, Structural)]
pub struct Vec3 {
    pub x: i64,
    pub y: i64,
    pub z: i64,
}

/// Every component of `v` lies in `[-b, b]`.
pub open spec fn in_box(v: Vec3, b: int) -> bool {
    &&& -b <= v.x <= b
    &&& -b <= v.y <= b
    &&& -b <= v.z <= b
}

/// The raw (unscaled) dot product; its scale is `SCALE * SCALE`.
pub open spec fn dotw(u: Vec3, v: Vec3) -> int {
    u.x * v.x + u.y * v.y + u.z * v.z
}

/// Raw squared length is never negative.
pub proof fn lemma_dotw_self_nonneg(v: Vec3)
    ensures
        dotw(v, v) >= 0,
{
    assert(v.x * v.x >= 0 && v.y * v.y >= 0 && v.z * v.z >= 0) by (nonlinear_arith);
}

/// A product of box-bounded values stays inside the product box.
pub proof fn lemma_mul_box(a: int, b: int, ba: int, bb: int)
    requires
        -ba <= a <= ba,
        -bb <= b <= bb,
        0 <= ba,
        0 <= bb,
    ensures
        -(ba * bb) <= a * b <= ba * bb,
{
    assert(-(ba * bb) <= a * b <= ba * bb) by (nonlinear_arith)
        requires -ba <= a <= ba && -bb <= b <= bb && 0 <= ba && 0 <= bb;
}

/// A fixed-point product of box-bounded factors is bounded by the
/// rescaled product of the boxes.
pub proof fn lemma_fxm_bound(a: int, b: int, ba: int, bb: int)
    requires
        -ba <= a <= ba,
        -bb <= b <= bb,
        0 <= ba,
        0 <= bb,
    ensures
        sabs(fxm(a, b)) <= (ba * bb) / (SCALE as int),
{
    lemma_mul_box(a, b, ba, bb);
    lemma_sdiv_basics(a * b, SCALE as int);
    lemma_div_is_ordered(sabs(a * b), ba * bb, SCALE as int);
}

impl Vec3 {
    /// Builds the vector with the given raw components.
    pub fn new(x: i64, y: i64, z: i64) -> (r: Vec3)
        ensures
            r == (Vec3 { x, y, z }),
    {
        Vec3 { x, y, z }
    }

    /// The zero vector.
    pub fn new_zero() -> (r: Vec3)
        ensures
            r == (Vec3 { x: 0i64, y: 0i64, z: 0i64 }),
    {
        Vec3 { x: 0, y: 0, z: 0 }
    }

    /// Componentwise sum.
    pub fn plus(&self, o: &Vec3) -> (r: Vec3)
        requires
            in_box(*self, 0x2000000000000000),
            in_box(*o, 0x2000000000000000),
        ensures
            r.x == self.x + o.x,
            r.y == self.y + o.y,
            r.z == self.z + o.z,
    {
        Vec3 { x: self.x + o.x, y: self.y + o.y, z: self.z + o.z }
    }

    /// Componentwise difference.
    pub fn minus(&self, o: &Vec3) -> (r: Vec3)
        requires
            in_box(*self, 0x2000000000000000),
            in_box(*o, 0x2000000000000000),
        ensures
            r.x == self.x - o.x,
            r.y == self.y - o.y,
            r.z == self.z - o.z,
    {
        Vec3 { x: self.x - o.x, y: self.y - o.y, z: self.z - o.z }
    }

    /// Componentwise negation.
    pub fn neg(&self) -> (r: Vec3)
        requires
            in_box(*self, 0x4000000000000000),
        ensures
            r.x == -self.x,
            r.y == -self.y,
            r.z == -self.z,
    {
        Vec3 { x: -self.x, y: -self.y, z: -self.z }
    }

    /// Fixed-point scaling of every component by `k`.
    pub fn scaled(&self, k: i64) -> (r: Vec3)
        requires
            in_box(*self, 0x4000000000),
            -0x4000000000 <= k <= 0x4000000000,
        ensures
            r.x == fxm(self.x as int, k as int),
            r.y == fxm(self.y as int, k as int),
            r.z == fxm(self.z as int, k as int),
            in_box(r, 0x1000000000000000),
    {
        proof {
            lemma_fxm_bound(self.x as int, k as int, 0x4000000000, 0x4000000000);
            lemma_fxm_bound(self.y as int, k as int, 0x4000000000, 0x4000000000);
            lemma_fxm_bound(self.z as int, k as int, 0x4000000000, 0x4000000000);
        }
        Vec3 { x: fx_mul(self.x, k), y: fx_mul(self.y, k), z: fx_mul(self.z, k) }
    }

    /// Fixed-point dot product (rescaled, truncated toward zero).
    pub fn dot(&self, o: &Vec3) -> (r: i64)
        requires
            in_box(*self, 0x400000000),
            in_box(*o, 0x400000000),
        ensures
            r as int == sdiv(dotw(*self, *o), SCALE as int),
    {
        proof {
            lemma_mul_box(self.x as int, o.x as int, 0x400000000, 0x400000000);
            lemma_mul_box(self.y as int, o.y as int, 0x400000000, 0x400000000);
            lemma_mul_box(self.z as int, o.z as int, 0x400000000, 0x400000000);
        }
        let w: i128 = (self.x as i128) * (o.x as i128) + (self.y as i128) * (o.y as i128)
            + (self.z as i128) * (o.z as i128);
        let neg: bool = w < 0;
        let m: u128 = if neg { (-w) as u128 } else { w as u128 };
        let q: u128 = m / 65536u128;
        proof {
            lemma_sdiv_basics(dotw(*self, *o), SCALE as int);
            assert(m as int == sabs(dotw(*self, *o)));
            lemma_div_is_ordered(m as int, 0xc00000000000000000, SCALE as int);
            assert(q as int == sabs(sdiv(dotw(*self, *o), SCALE as int)));
        }
        if neg {
            -(q as i64)
        } else {
            q as i64
        }
    }

    /// Raw widened dot product, exact.
    pub fn dot_wide(&self, o: &Vec3) -> (r: i128)
        requires
            in_box(*self, 0x4000000000000000),
            in_box(*o, 0x4000000000000000),
        ensures
            r as int == dotw(*self, *o),
    {
        proof {
            lemma_mul_box(self.x as int, o.x as int, 0x4000000000000000, 0x4000000000000000);
            lemma_mul_box(self.y as int, o.y as int, 0x4000000000000000, 0x4000000000000000);
            lemma_mul_box(self.z as int, o.z as int, 0x4000000000000000, 0x4000000000000000);
        }
        (self.x as i128) * (o.x as i128) + (self.y as i128) * (o.y as i128)
            + (self.z as i128) * (o.z as i128)
    }

    /// Fixed-point cross product.
    pub fn cross(&self, o: &Vec3) -> (r: Vec3)
        requires
            in_box(*self, 0x100000000),
            in_box(*o, 0x200000000000),
        ensures
            r.x == fxm(self.y as int, o.z as int) - fxm(self.z as int, o.y as int),
            r.y == fxm(self.z as int, o.x as int) - fxm(self.x as int, o.z as int),
            r.z == fxm(self.x as int, o.y as int) - fxm(self.y as int, o.x as int),
    {
        proof {
            lemma_cross_term(self.y as int, o.z as int);
            lemma_cross_term(self.z as int, o.y as int);
            lemma_cross_term(self.z as int, o.x as int);
            lemma_cross_term(self.x as int, o.z as int);
            lemma_cross_term(self.x as int, o.y as int);
            lemma_cross_term(self.y as int, o.x as int);
        }
        Vec3 {
            x: fx_mul(self.y, o.z) - fx_mul(self.z, o.y),
            y: fx_mul(self.z, o.x) - fx_mul(self.x, o.z),
            z: fx_mul(self.x, o.y) - fx_mul(self.y, o.x),
        }
    }
}

/// One term of a cross product stays well inside `i64` after rescaling.
proof fn lemma_cross_term(a: int, b: int)
    requires
        -0x100000000 <= a <= 0x100000000,
        -0x200000000000 <= b <= 0x200000000000,
    ensures
        sabs(fxm(a, b)) <= 0x2000000000000000,
{
    lemma_fxm_bound(a, b, 0x100000000, 0x200000000000);
}


/// Squared length below which a vector counts as degenerate for
/// normalization (an eighth of unit length, squared, in raw terms).
pub const MIN_DIR_SQ: i64 = 0x4000000;

/// The normalized direction of `v`: each component is divided by the
/// integer square root of the raw squared length. A degenerate `v` falls
/// back to the positive z axis.
pub open spec fn unit_spec(v: Vec3) -> Vec3 {
    if dotw(v, v) < MIN_DIR_SQ as int {
        Vec3 { x: 0i64, y: 0i64, z: SCALE }
    } else {
        let l = sqrt_floor(dotw(v, v));
        Vec3 {
            x: fxd(v.x as int, l) as i64,
            y: fxd(v.y as int, l) as i64,
            z: fxd(v.z as int, l) as i64,
        }
    }
}

/// A component no larger than the divisor normalizes to at most one.
proof fn lemma_unit_comp_small(c: int, l: int)
    requires
        sabs(c) <= l,
        0 < l,
    ensures
        sabs(fxd(c, l)) <= SCALE as int,
{
    lemma_sdiv_basics(c * SCALE, l);
    assert(sabs(c * SCALE) == sabs(c) * SCALE) by (nonlinear_arith);
    assert(sabs(c) * SCALE <= l * SCALE) by (nonlinear_arith)
        requires sabs(c) <= l;
    lemma_div_is_ordered(sabs(c * SCALE), l * SCALE, l);
    assert(l * SCALE == SCALE * l) by (nonlinear_arith);
    vstd::arithmetic::div_mod::lemma_div_by_multiple(SCALE as int, l);
}

/// A component of at least half the divisor normalizes to at least one
/// half.
proof fn lemma_unit_comp_large(c: int, l: int)
    requires
        l <= 2 * sabs(c),
        0 < l,
    ensures
        sabs(fxd(c, l)) >= 32768,
{
    lemma_sdiv_basics(c * SCALE, l);
    assert(sabs(c * SCALE) == sabs(c) * SCALE) by (nonlinear_arith);
    assert(l * 32768 <= sabs(c) * SCALE) by (nonlinear_arith)
        requires l <= 2 * sabs(c);
    lemma_div_is_ordered(l * 32768, sabs(c * SCALE), l);
    vstd::arithmetic::div_mod::lemma_div_by_multiple(32768, l);
    assert(l * 32768 == 32768 * l) by (nonlinear_arith);
}

impl Vec3 {
    /// Normalizes `v` to (approximately) unit length; a vector shorter
    /// than an eighth yields the positive z axis instead.
    pub fn normalize(&self) -> (r: Vec3)
        requires
            in_box(*self, 0x80000000000000),
        ensures
            r == unit_spec(*self),
            in_box(r, SCALE as int),
            dotw(r, r) >= 0x40000000,
    {
        let d: i128 = self.dot_wide(self);
        proof {
            lemma_dotw_self_nonneg(*self);
        }
        if d < 0x4000000 {
            let r = Vec3 { x: 0, y: 0, z: 65536 };
            proof {
                assert(dotw(r, r) == 65536 * 65536);
            }
            r
        } else {
            let lw: u128 = isqrt_u128(d as u128);
            proof {
                lemma_mul_box(self.x as int, self.x as int, 0x80000000000000, 0x80000000000000);
                lemma_mul_box(self.y as int, self.y as int, 0x80000000000000, 0x80000000000000);
                lemma_mul_box(self.z as int, self.z as int, 0x80000000000000, 0x80000000000000);
                assert(dotw(*self, *self) < 0x10000000000000000000000000000);
                assert(lw as int <= 0x100000000000000) by (nonlinear_arith)
                    requires
                        lw as int * lw as int <= dotw(*self, *self),
                        dotw(*self, *self) < 0x10000000000000000000000000000,
                        0 <= lw as int;
                assert(lw as int >= 0x2000) by (nonlinear_arith)
                    requires
                        (dotw(*self, *self)) < (lw as int + 1) * (lw as int + 1),
                        dotw(*self, *self) >= 0x4000000,
                        0 <= lw as int;
            }
            let l: i64 = lw as i64;
            proof {
                lemma_comp_le_root(self.x as int, self.y as int, self.z as int, l as int);
                lemma_unit_comp_small(self.x as int, l as int);
                lemma_unit_comp_small(self.y as int, l as int);
                lemma_unit_comp_small(self.z as int, l as int);
            }
            let r = Vec3 {
                x: fx_div(self.x, l),
                y: fx_div(self.y, l),
                z: fx_div(self.z, l),
            };
            proof {
                let xa = sabs(self.x as int);
                let ya = sabs(self.y as int);
                let za = sabs(self.z as int);
                let li = l as int;
                if xa >= ya && xa >= za {
                    lemma_largest_comp(self.x as int, self.y as int, self.z as int, li);
                    lemma_unit_comp_large(self.x as int, li);
                    assert(r.x as int * r.x as int >= 32768 * 32768) by (nonlinear_arith)
                        requires sabs(r.x as int) >= 32768;
                } else if ya >= za {
                    lemma_largest_comp(self.y as int, self.x as int, self.z as int, li);
                    lemma_unit_comp_large(self.y as int, li);
                    assert(r.y as int * r.y as int >= 32768 * 32768) by (nonlinear_arith)
                        requires sabs(r.y as int) >= 32768;
                } else {
                    lemma_largest_comp(self.z as int, self.x as int, self.y as int, li);
                    lemma_unit_comp_large(self.z as int, li);
                    assert(r.z as int * r.z as int >= 32768 * 32768) by (nonlinear_arith)
                        requires sabs(r.z as int) >= 32768;
                }
                assert(r.x as int * r.x as int >= 0) by (nonlinear_arith);
                assert(r.y as int * r.y as int >= 0) by (nonlinear_arith);
                assert(r.z as int * r.z as int >= 0) by (nonlinear_arith);
            }
            r
        }
    }
}

/// The largest component of a vector is at least half the integer
/// square root of the raw squared length.
proof fn lemma_largest_comp(c: int, a1: int, a2: int, l: int)
    requires
        sabs(c) >= sabs(a1),
        sabs(c) >= sabs(a2),
        l * l <= c * c + a1 * a1 + a2 * a2,
        l >= 0,
    ensures
        l <= 2 * sabs(c),
{
    assert(sabs(c) * sabs(c) == c * c) by (nonlinear_arith)
        requires sabs(c) == c || sabs(c) == -c;
    assert(sabs(a1) * sabs(a1) == a1 * a1) by (nonlinear_arith)
        requires sabs(a1) == a1 || sabs(a1) == -a1;
    assert(sabs(a2) * sabs(a2) == a2 * a2) by (nonlinear_arith)
        requires sabs(a2) == a2 || sabs(a2) == -a2;
    assert(l <= 2 * sabs(c)) by (nonlinear_arith)
        requires
            l >= 0,
            sabs(c) >= sabs(a1) >= 0,
            sabs(c) >= sabs(a2) >= 0,
            l * l <= c * c + a1 * a1 + a2 * a2,
            sabs(c) * sabs(c) == c * c,
            sabs(a1) * sabs(a1) == a1 * a1,
            sabs(a2) * sabs(a2) == a2 * a2;
}

/// Every component of a vector is bounded in magnitude by the integer
/// square root of its raw squared length.
proof fn lemma_comp_le_root(x: int, y: int, z: int, l: int)
    requires
        0 <= l,
        x * x + y * y + z * z < (l + 1) * (l + 1),
    ensures
        sabs(x) <= l,
        sabs(y) <= l,
        sabs(z) <= l,
{
    assert(sabs(x) <= l && sabs(y) <= l && sabs(z) <= l) by (nonlinear_arith)
        requires
            0 <= l,
            x * x + y * y + z * z < (l + 1) * (l + 1);
}


/// A rescaled dot product of box-bounded vectors is bounded by the
/// rescaled product of the boxes, three times over.
pub proof fn lemma_dot_bound(u: Vec3, v: Vec3, bu: int, bv: int)
    requires
        in_box(u, bu),
        in_box(v, bv),
        0 <= bu,
        0 <= bv,
    ensures
        sabs(sdiv(dotw(u, v), SCALE as int)) <= (3 * (bu * bv)) / (SCALE as int),
        sabs(dotw(u, v)) <= 3 * (bu * bv),
{
    lemma_mul_box(u.x as int, v.x as int, bu, bv);
    lemma_mul_box(u.y as int, v.y as int, bu, bv);
    lemma_mul_box(u.z as int, v.z as int, bu, bv);
    lemma_sdiv_basics(dotw(u, v), SCALE as int);
    assert(0 <= 3 * (bu * bv)) by (nonlinear_arith)
        requires 0 <= bu && 0 <= bv;
    lemma_div_is_ordered(sabs(dotw(u, v)), 3 * (bu * bv), SCALE as int);
}


/// Multiplying or dividing by one (in fixed point) is the identity.
pub proof fn lemma_fxm_scale_id(x: int)
    ensures
        fxm(x, SCALE as int) == x,
        fxm(x, -(SCALE as int)) == -x,
        fxd(x, SCALE as int) == x,
{
    lemma_sdiv_basics(x * SCALE, SCALE as int);
    assert(sabs(x * SCALE) == sabs(x) * SCALE) by (nonlinear_arith);
    vstd::arithmetic::div_mod::lemma_div_by_multiple(sabs(x), SCALE as int);
    lemma_sdiv_basics(x * -(SCALE as int), SCALE as int);
    assert(sabs(x * -(SCALE as int)) == sabs(x) * SCALE) by (nonlinear_arith);
    assert(x * SCALE == SCALE as int * x) by (nonlinear_arith);
    assert(x * -(SCALE as int) == -(x * SCALE)) by (nonlinear_arith);
}


/// One normalized component, scaled back up by the divisor, squares to
/// nearly the square of the original scaled component.
proof fn lemma_unit_comp_sq(c: int, l: int)
    requires
        0 < l,
    ensures
        (fxd(c, l) * l) * (fxd(c, l) * l) <= (c * SCALE) * (c * SCALE),
        (fxd(c, l) * l) * (fxd(c, l) * l) >= (c * SCALE) * (c * SCALE) - 2 * l * (sabs(c) * SCALE),
        (fxd(c, l) * l) * (fxd(c, l) * l) == (fxd(c, l) * fxd(c, l)) * (l * l),
{
    lemma_sdiv_close(c * SCALE, l);
    let u = fxd(c, l);
    let a = sabs(u * l);
    let b = sabs(c * SCALE);
    assert(b == sabs(c) * SCALE) by (nonlinear_arith)
        requires
            b == sabs(c * SCALE),
            (sabs(c) == c || sabs(c) == -c) && sabs(c) >= 0,
            (b == c * SCALE || b == -(c * SCALE)) && b >= 0;
    assert((u * l) * (u * l) == a * a) by (nonlinear_arith)
        requires a == sabs(u * l);
    assert((c * SCALE) * (c * SCALE) == b * b) by (nonlinear_arith)
        requires b == sabs(c * SCALE);
    assert(a * a <= b * b) by (nonlinear_arith)
        requires 0 <= a <= b;
    assert(a * a >= b * b - 2 * l * b) by (nonlinear_arith)
        requires 0 <= a && b - l < a && 0 <= b && 0 < l;
    assert((u * l) * (u * l) == (u * u) * (l * l)) by (nonlinear_arith);
}

/// What `unit_spec` yields has unit length within tolerance: its raw
/// squared length differs from one (raw `SCALE * SCALE`) by at most
/// `2^-12` of it.
#[verifier::spinoff_prover]
pub proof fn lemma_unit_spec_length(v: Vec3)
    requires
        in_box(v, 0x80000000000000),
    ensures
        sabs(dotw(unit_spec(v), unit_spec(v)) - SCALE as int * SCALE as int) <= 0x100000,
{
    lemma_dotw_self_nonneg(v);
    let u = unit_spec(v);
    if dotw(v, v) < MIN_DIR_SQ as int {
        assert(u.x == 0 && u.y == 0 && u.z == 65536);
        assert(dotw(u, u) == 65536 * 65536) by (nonlinear_arith)
            requires u.x == 0 && u.y == 0 && u.z == 65536;
    } else {
        let dv = dotw(v, v);
        lemma_sqrt_exists(dv);
        let l = sqrt_floor(dv);
        assert(l >= 0x2000) by (nonlinear_arith)
            requires dv < (l + 1) * (l + 1) && dv >= 0x4000000 && 0 <= l;
        lemma_comp_le_root(v.x as int, v.y as int, v.z as int, l);
        lemma_unit_comp_sq(v.x as int, l);
        lemma_unit_comp_sq(v.y as int, l);
        lemma_unit_comp_sq(v.z as int, l);
        let si = SCALE as int;
        let uu = dotw(u, u);
        assert(u.x == fxd(v.x as int, l) && u.y == fxd(v.y as int, l) && u.z == fxd(
            v.z as int,
            l,
        )) by {
            lemma_unit_comp_small(v.x as int, l);
            lemma_unit_comp_small(v.y as int, l);
            lemma_unit_comp_small(v.z as int, l);
        }
        let l2 = l * l;
        let s2 = si * si;
        let px = u.x as int * u.x as int;
        let py = u.y as int * u.y as int;
        let pz = u.z as int * u.z as int;
        let qx = v.x as int * v.x as int;
        let qy = v.y as int * v.y as int;
        let qz = v.z as int * v.z as int;
        let ax = sabs(v.x as int);
        let ay = sabs(v.y as int);
        let az = sabs(v.z as int);
        // per component: (u_i l)^2 is (u_i^2)(l^2), and (v_i S)^2 is (v_i^2)(S^2)
        assert((v.x as int * si) * (v.x as int * si) == qx * s2) by (nonlinear_arith)
            requires qx == v.x as int * v.x as int && s2 == si * si;
        assert((v.y as int * si) * (v.y as int * si) == qy * s2) by (nonlinear_arith)
            requires qy == v.y as int * v.y as int && s2 == si * si;
        assert((v.z as int * si) * (v.z as int * si) == qz * s2) by (nonlinear_arith)
            requires qz == v.z as int * v.z as int && s2 == si * si;
        assert(px * l2 <= qx * s2 && px * l2 >= qx * s2 - 2 * l * (ax * si));
        assert(py * l2 <= qy * s2 && py * l2 >= qy * s2 - 2 * l * (ay * si));
        assert(pz * l2 <= qz * s2 && pz * l2 >= qz * s2 - 2 * l * (az * si));
        // distribute the sums
        assert(uu * l2 == px * l2 + py * l2 + pz * l2) by (nonlinear_arith)
            requires uu == px + py + pz;
        assert(dv * s2 == qx * s2 + qy * s2 + qz * s2) by (nonlinear_arith)
            requires dv == qx + qy + qz;
        let am = ax + ay + az;
        assert(2 * l * (ax * si) + 2 * l * (ay * si) + 2 * l * (az * si) == (2 * (l * si)) * am)
            by (nonlinear_arith)
            requires am == ax + ay + az;
        assert(uu * l2 <= dv * s2);
        assert(uu * l2 >= dv * s2 - (2 * (l * si)) * am);
        // the magnitudes sum to at most 3l
        assert((2 * (l * si)) * am <= 6 * (si * l2)) by (nonlinear_arith)
            requires 0 <= am <= 3 * l && si == 65536 && l2 == l * l && l >= 0;
        // upper bound: dv <= l^2 + 2l, so uu exceeds one by at most 2^20
        assert(dv <= l2 + 2 * l) by (nonlinear_arith)
            requires dv < (l + 1) * (l + 1) && l2 == l * l;
        assert(dv * s2 <= l2 * s2 + (2 * l) * s2) by (nonlinear_arith)
            requires dv <= l2 + 2 * l && s2 >= 0;
        assert((uu - s2) * l2 <= (2 * l) * s2) by (nonlinear_arith)
            requires uu * l2 <= l2 * s2 + (2 * l) * s2;
        assert(uu - s2 <= 0x100000) by (nonlinear_arith)
            requires
                (uu - s2) * l2 <= (2 * l) * s2,
                l2 == l * l,
                l >= 0x2000,
                s2 == 0x100000000;
        // lower bound: l^2 <= dv, so uu misses one by at most 6 S
        assert(l2 * s2 <= dv * s2) by (nonlinear_arith)
            requires l2 <= dv && s2 >= 0;
        assert((uu - s2 + 6 * si) * l2 >= 0) by (nonlinear_arith)
            requires
                uu * l2 >= l2 * s2 - 6 * (si * l2),
                si == 65536;
        assert(l2 >= 1) by (nonlinear_arith)
            requires l2 == l * l && l >= 0x2000;
        assert(uu - s2 + 6 * si >= 0) by (nonlinear_arith)
            requires (uu - s2 + 6 * si) * l2 >= 0 && l2 >= 1;
    }
}

} // verus!
