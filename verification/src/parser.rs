//! The scene-description parser: a hand-written recursive-descent
//! reader over ASCII bytes, producing a camera, spheres and a mesh.
//!
//! Functions take the source bytes and a position and return the
//! position after what they consumed. The construction stage rejects
//! the numeric edge cases the renderer must never see: out-of-range
//! coordinates, degenerate radii and degenerate triangles.

use vstd::prelude::*;
use crate::maths::{Vec3, sabs, fxd, in_box};
use crate::materials::{MaterialType, material_wf};
use crate::color::Color;
use crate::camera::{Camera, camera_wf, camera_at};
use crate::common::{Sphere, Triangle, Mesh, sphere_wf, tri_wf, triangle_from};

verus! {

/// The named failure kinds of scene loading.
#[derive(Clone, Copy, Debug, PartialEq, Eq, Structural)]
pub enum ParseError {
    CouldntOpenFile,
    MissingCamera,
    WrongSyntax,
    DidntStartWith,
    NotAI32,
    NotAF32,
}

/// ASCII whitespace.
pub open spec fn is_ws(c: u8) -> bool {
    c == 32 || c == 9 || c == 10 || c == 13 || c == 11 || c == 12
}

/// ASCII decimal digit.
pub open spec fn is_digit(c: u8) -> bool {
    48 <= c <= 57
}

/// ASCII identifier character: alphanumeric or underscore.
pub open spec fn is_ident(c: u8) -> bool {
    is_digit(c) || (97 <= c <= 122) || (65 <= c <= 90) || c == 95
}

/// The target occurs in `s` at position `i`.
pub open spec fn match_at(s: Seq<u8>, i: int, t: Seq<u8>) -> bool {
    0 <= i && i + t.len() <= s.len() && s.subrange(i, i + t.len()) == t
}

/// The first position at or after `i` holding a non-whitespace byte.
pub open spec fn ws_end(s: Seq<u8>, i: int) -> int
    decreases s.len() - i,
{
    if i < 0 || i >= s.len() || !is_ws(s[i]) {
        i
    } else {
        ws_end(s, i + 1)
    }
}

/// The position just past the run of identifier bytes starting at `i`.
pub open spec fn ident_end(s: Seq<u8>, i: int) -> int
    decreases s.len() - i,
{
    if i < 0 || i >= s.len() || !is_ident(s[i]) {
        i
    } else {
        ident_end(s, i + 1)
    }
}

/// Skips ASCII whitespace: returns the first position at or after
/// `pos` holding a non-whitespace byte (or the end).
pub fn skip_whitespace(s: &[u8], pos: usize) -> (r: usize)
    requires
        pos <= s@.len(),
    ensures
        r as int == ws_end(s@, pos as int),
        pos <= r <= s@.len(),
        forall|i: int| pos <= i < r ==> is_ws(#[trigger] s@[i]),
        r < s@.len() ==> !is_ws(s@[r as int]),
{
    let n = s.len();
    let mut i = pos;
    while i < n && (s[i] == 32 || s[i] == 9 || s[i] == 10 || s[i] == 13 || s[i] == 11 || s[i]
        == 12)
        invariant
            pos <= i <= n,
            n == s@.len(),
            ws_end(s@, pos as int) == ws_end(s@, i as int),
            forall|k: int| pos <= k < i ==> is_ws(#[trigger] s@[k]),
        decreases n - i,
    {
        i = i + 1;
    }
    i
}

/// Reads an identifier: returns the position just past the run of
/// alphanumeric / underscore bytes starting at `pos`.
pub fn get_identifier(s: &[u8], pos: usize) -> (r: usize)
    requires
        pos <= s@.len(),
    ensures
        r as int == ident_end(s@, pos as int),
        pos <= r <= s@.len(),
        forall|i: int| pos <= i < r ==> is_ident(#[trigger] s@[i]),
        r < s@.len() ==> !is_ident(s@[r as int]),
{
    let n = s.len();
    let mut i = pos;
    while i < n && (s[i] == 95 || (48 <= s[i] && s[i] <= 57) || (97 <= s[i] && s[i] <= 122) || (65
        <= s[i] && s[i] <= 90))
        invariant
            pos <= i <= n,
            n == s@.len(),
            ident_end(s@, pos as int) == ident_end(s@, i as int),
            forall|k: int| pos <= k < i ==> is_ident(#[trigger] s@[k]),
        decreases n - i,
    {
        i = i + 1;
    }
    i
}

/// Copies the bytes of `s` in `[a, b)`.
pub fn bytes_range(s: &[u8], a: usize, b: usize) -> (v: Vec<u8>)
    requires
        a <= b <= s@.len(),
    ensures
        v@ == s@.subrange(a as int, b as int),
{
    let mut v: Vec<u8> = Vec::new();
    let mut i = a;
    while i < b
        invariant
            a <= i <= b <= s@.len(),
            v@ == s@.subrange(a as int, i as int),
        decreases b - i,
    {
        let c = s[i];
        v.push(c);
        proof {
            assert(v@ =~= s@.subrange(a as int, i + 1));
        }
        i = i + 1;
    }
    v
}

/// Whether `t` occurs at `pos` in `s`.
pub fn starts_with_at(s: &[u8], pos: usize, t: &[u8]) -> (r: bool)
    requires
        pos <= s@.len(),
    ensures
        r == match_at(s@, pos as int, t@),
{
    let m = t.len();
    let n = s.len();
    if m > n || pos > n - m {
        proof {
            assert(!match_at(s@, pos as int, t@));
        }
        return false;
    }
    let mut i: usize = 0;
    while i < m
        invariant
            0 <= i <= m,
            m == t@.len(),
            n == s@.len(),
            pos + m <= n,
            forall|k: int| 0 <= k < i ==> s@[pos + k] == t@[k],
        decreases m - i,
    {
        if s[pos + i] != t[i] {
            proof {
                assert(s@.subrange(pos as int, pos + t@.len())[i as int] == s@[pos + i]);
                assert(s@.subrange(pos as int, pos + t@.len()) != t@);
            }
            return false;
        }
        i = i + 1;
    }
    proof {
        assert(s@.subrange(pos as int, pos + t@.len()) =~= t@);
    }
    true
}

/// The position of the first occurrence of `t` at or after `i`, if
/// any.
pub open spec fn find_first(s: Seq<u8>, i: int, t: Seq<u8>) -> Option<int>
    decreases s.len() - i,
{
    if i < 0 || i + t.len() > s.len() {
        None
    } else if t.len() == 0 || match_at(s, i, t) {
        Some(i)
    } else {
        find_first(s, i + 1, t)
    }
}

/// Finds the first occurrence of `t` at or after `pos`: the position
/// of the match, or an error if there is none.
pub fn find(s: &[u8], pos: usize, t: &[u8]) -> (r: Result<usize, ParseError>)
    requires
        pos <= s@.len(),
    ensures
        match r {
            Ok(i) => find_first(s@, pos as int, t@) == Some(i as int) && pos <= i && match_at(
                s@,
                i as int,
                t@,
            ) && forall|k: int| pos <= k < i ==> !match_at(s@, k, t@),
            Err(e) => e == ParseError::DidntStartWith && find_first(s@, pos as int, t@) is None
                && forall|k: int| pos <= k ==> !match_at(s@, k, t@),
        },
{
    let m = t.len();
    let n = s.len();
    if m == 0 {
        proof {
            assert(s@.subrange(pos as int, pos as int) =~= t@);
        }
        return Ok(pos);
    }
    if m > n {
        proof {
            assert forall|k: int| pos <= k implies !match_at(s@, k, t@) by {}
        }
        return Err(ParseError::DidntStartWith);
    }
    let mut i = pos;
    while i <= n - m
        invariant
            pos <= i,
            1 <= m == t@.len(),
            m <= n == s@.len(),
            find_first(s@, pos as int, t@) == find_first(s@, i as int, t@),
            forall|k: int| pos <= k < i ==> !match_at(s@, k, t@),
        decreases n - i,
    {
        if starts_with_at(s, i, t) {
            return Ok(i);
        }
        i = i + 1;
    }
    proof {
        assert forall|k: int| pos <= k implies !match_at(s@, k, t@) by {
            if k + t@.len() > s@.len() {
                assert(!match_at(s@, k, t@));
            }
        }
    }
    Err(ParseError::DidntStartWith)
}

/// Checks that `s` continues with `t` at `pos` and steps past it.
pub fn starts_with(s: &[u8], pos: usize, t: &[u8]) -> (r: Result<usize, ParseError>)
    requires
        pos <= s@.len(),
    ensures
        match r {
            Ok(p) => match_at(s@, pos as int, t@) && p == pos + t@.len(),
            Err(e) => e == ParseError::DidntStartWith && !match_at(s@, pos as int, t@),
        },
{
    let n = s.len();
    if starts_with_at(s, pos, t) {
        Ok(pos + t.len())
    } else {
        Err(ParseError::DidntStartWith)
    }
}

/// The position just past the run of digits starting at `i`.
pub open spec fn digit_end(s: Seq<u8>, i: int) -> int
    decreases s.len() - i,
{
    if i < 0 || i >= s.len() || !is_digit(s[i]) {
        i
    } else {
        digit_end(s, i + 1)
    }
}

/// The decimal value of the digits of `s` in `[a, b)`.
pub open spec fn dec_val(s: Seq<u8>, a: int, b: int) -> int
    decreases b - a,
{
    if a >= b {
        0
    } else {
        dec_val(s, a, b - 1) * 10 + (s[b - 1] - 48)
    }
}

/// Parses a run of decimal digits as an `i32`: the new position and
/// the value, or an error when there is no digit or the value
/// overflows.
pub fn parse_int(s: &[u8], pos: usize) -> (r: Result<(usize, i32), ParseError>)
    requires
        pos <= s@.len(),
    ensures
        match r {
            Ok(p) => p.0 == digit_end(s@, pos as int) && pos < p.0 && p.1 == dec_val(
                s@,
                pos as int,
                p.0 as int,
            ) && 0 <= p.1,
            Err(e) => e == ParseError::NotAI32 && (digit_end(s@, pos as int) == pos as int
                || dec_val(s@, pos as int, digit_end(s@, pos as int)) > i32::MAX),
        },
{
    let n = s.len();
    let mut i = pos;
    let mut val: i64 = 0;
    let mut over: bool = false;
    while i < n && 48 <= s[i] && s[i] <= 57
        invariant
            pos <= i <= n,
            n == s@.len(),
            digit_end(s@, pos as int) == digit_end(s@, i as int),
            !over ==> 0 <= val == dec_val(s@, pos as int, i as int) <= i32::MAX,
            over ==> dec_val(s@, pos as int, i as int) > i32::MAX,
            forall|k: int| pos <= k < i ==> is_digit(#[trigger] s@[k]),
        decreases n - i,
    {
        let d = s[i] - 48;
        proof {
            assert(dec_val(s@, pos as int, i + 1) == dec_val(s@, pos as int, i as int) * 10 + (
            s@[i as int] - 48));
        }
        if over {
        } else if val > (0x7fffffff - d as i64) / 10 {
            proof {
                assert(val * 10 + d >= val * 10) by (nonlinear_arith)
                    requires d >= 0;
                assert(val * 10 + d as int > 0x7fffffff) by (nonlinear_arith)
                    requires val > (0x7fffffff - d as int) / 10 && 0 <= d <= 9 && val >= 0;
            }
            over = true;
        } else {
            proof {
                assert(val * 10 + d as int <= 0x7fffffff) by (nonlinear_arith)
                    requires val <= (0x7fffffff - d as int) / 10 && 0 <= d <= 9 && 0 <= val;
            }
            val = val * 10 + d as i64;
        }
        i = i + 1;
    }
    proof {
        assert(digit_end(s@, i as int) == i);
    }
    if i == pos || over {
        Err(ParseError::NotAI32)
    } else {
        Ok((i, val as i32))
    }
}

/// Ten to the `k`.
pub open spec fn pow10(k: int) -> int
    decreases k,
{
    if k <= 0 {
        1
    } else {
        10 * pow10(k - 1)
    }
}

/// One scanning step of a fixed-point literal: from position `i` with
/// the dot seen or not, mantissa `m`, `k` fraction digits and `d`
/// digits in all, to the state at the end of the literal; `None` on a
/// second dot or when the literal exceeds the representable range.
pub open spec fn float_scan(s: Seq<u8>, i: int, dot: bool, m: int, k: int, d: int) -> Option<
    (int, int, int, int),
>
    decreases s.len() - i,
{
    if i < 0 || i >= s.len() {
        Some((i, m, k, d))
    } else if is_digit(s[i]) {
        if m > 0x80000000000 || k >= 17 {
            None
        } else {
            float_scan(s, i + 1, dot, m * 10 + (s[i] - 48), if dot {
                k + 1
            } else {
                k
            }, d + 1)
        }
    } else if s[i] == 46 {
        if dot {
            None
        } else {
            float_scan(s, i + 1, true, m, k, d)
        }
    } else {
        Some((i, m, k, d))
    }
}

/// The fixed-point value of a scanned literal.
pub open spec fn float_val(neg: bool, m: int, k: int) -> int {
    if neg {
        -fxd(m, pow10(k))
    } else {
        fxd(m, pow10(k))
    }
}

/// What `parse_float` yields: the position past the literal and its
/// fixed-point value, or the error kind.
#[verifier::opaque]
pub open spec fn pf_spec(s: Seq<u8>, pos: int) -> Result<(int, int), ParseError> {
    if s.len() - pos < 3 {
        Err(ParseError::NotAF32)
    } else {
        let neg = s[pos] == 45;
        let start = if neg { pos + 1 } else { pos };
        match float_scan(s, start, false, 0, 0, 0) {
            None => Err(ParseError::NotAF32),
            Some(sc) => if sc.3 == 0 {
                Err(ParseError::NotAF32)
            } else {
                Ok((sc.0, float_val(neg, sc.1, sc.2)))
            },
        }
    }
}

/// Parses a (possibly signed) decimal literal with at most one dot
/// into a fixed-point scalar: the new position and the value, or an
/// error when the remainder is too short, no digit occurs, a second
/// dot occurs, or the literal exceeds the representable range.
#[verifier::loop_isolation(false)]
pub fn parse_float(s: &[u8], pos: usize) -> (r: Result<(usize, i64), ParseError>)
    requires
        pos <= s@.len(),
    ensures
        match r {
            Ok(p) => pf_spec(s@, pos as int) matches Ok(q) && q.0 == p.0 && q.1 == p.1,
            Err(e) => pf_spec(s@, pos as int) matches Err(e2) && e2 == e,
        },
        r matches Ok(p) ==> pos <= p.0 <= s@.len(),
{
    proof {
        reveal(pf_spec);
    }
    let n = s.len();
    if n - pos < 3 {
        return Err(ParseError::NotAF32);
    }
    let neg = s[pos] == 45;
    let start = if neg {
        pos + 1
    } else {
        pos
    };
    let mut i = start;
    let mut dot: bool = false;
    let mut m: i64 = 0;
    let mut k: u32 = 0;
    let mut d: usize = 0;
    while i < n && ((48 <= s[i] && s[i] <= 57) || s[i] == 46)
        invariant
            start <= i <= n,
            n == s@.len(),
            0 <= m <= 0x600000000000,
            0 <= k <= 17,
            0 <= d <= i - start,
            float_scan(s@, start as int, false, 0, 0, 0) == float_scan(
                s@,
                i as int,
                dot,
                m as int,
                k as int,
                d as int,
            ),
        decreases n - i,
    {
        let c = s[i];
        if 48 <= c && c <= 57 {
            if m > 0x80000000000 || k >= 17 {
                proof {
                    assert(float_scan(s@, i as int, dot, m as int, k as int, d as int) is None);
                }
                return Err(ParseError::NotAF32);
            }
            m = m * 10 + ((c - 48) as i64);
            if dot {
                k = k + 1;
            }
            d = d + 1;
        } else {
            if dot {
                proof {
                    assert(float_scan(s@, i as int, dot, m as int, k as int, d as int) is None);
                }
                return Err(ParseError::NotAF32);
            }
            dot = true;
        }
        i = i + 1;
    }
    proof {
        assert(float_scan(s@, i as int, dot, m as int, k as int, d as int) == Some(
            (i as int, m as int, k as int, d as int),
        ));
    }
    if d == 0 {
        return Err(ParseError::NotAF32);
    }
    let mut p: i64 = 1;
    let mut kk: u32 = 0;
    while kk < k
        invariant
            0 <= kk <= k <= 17,
            1 <= p == pow10(kk as int),
            p <= 0x16345785d8a0000,
        decreases k - kk,
    {
        proof {
            lemma_pow10_mono(kk as int + 1, 17);
            lemma_pow10_17();
        }
        p = p * 10;
        kk = kk + 1;
    }
    proof {
        crate::maths::lemma_sdiv_basics(m as int * 65536, p as int);
        vstd::arithmetic::div_mod::lemma_div_is_ordered_by_denominator(
            sabs(m as int * 65536),
            1,
            p as int,
        );
        assert(sabs(m as int * 65536) == m as int * 65536) by (nonlinear_arith)
            requires m as int >= 0;
        assert(m as int * 65536 <= 0x6000000000000000) by (nonlinear_arith)
            requires m as int <= 0x600000000000;
    }
    let v = crate::maths::fx_div(m, p);
    if neg {
        Ok((i, -v))
    } else {
        Ok((i, v))
    }
}

/// `pow10` is positive and monotone, and bounded at its cap.
proof fn lemma_pow10_pos(k: int)
    ensures
        1 <= pow10(k),
    decreases k,
{
    if k > 0 {
        lemma_pow10_pos(k - 1);
    }
}

/// `pow10` grows with its exponent.
proof fn lemma_pow10_mono(j: int, k: int)
    requires
        j <= k,
    ensures
        pow10(j) <= pow10(k),
    decreases k - j,
{
    lemma_pow10_pos(j);
    if j < k {
        lemma_pow10_mono(j, k - 1);
        lemma_pow10_pos(k - 1);
    }
}

/// The value of ten to the seventeenth.
proof fn lemma_pow10_17()
    ensures
        pow10(17) == 0x16345785d8a0000,
{
    reveal_with_fuel(pow10, 20);
}



/// The bytes of `camera`.
pub open spec fn kw_camera_s() -> Seq<u8> {
    seq![99u8, 97u8, 109u8, 101u8, 114u8, 97u8]
}

/// Builds the byte keyword `camera`.
fn kw_camera() -> (v: Vec<u8>)
    ensures
        v@ == kw_camera_s(),
{
    let mut v: Vec<u8> = Vec::new();
    v.push(99);
    v.push(97);
    v.push(109);
    v.push(101);
    v.push(114);
    v.push(97);
    proof {
        assert(v@ =~= kw_camera_s());
    }
    v
}

/// The bytes of `origin`.
pub open spec fn kw_origin_s() -> Seq<u8> {
    seq![111u8, 114u8, 105u8, 103u8, 105u8, 110u8]
}

/// Builds the byte keyword `origin`.
fn kw_origin() -> (v: Vec<u8>)
    ensures
        v@ == kw_origin_s(),
{
    let mut v: Vec<u8> = Vec::new();
    v.push(111);
    v.push(114);
    v.push(105);
    v.push(103);
    v.push(105);
    v.push(110);
    proof {
        assert(v@ =~= kw_origin_s());
    }
    v
}

/// The bytes of `aspect`.
pub open spec fn kw_aspect_s() -> Seq<u8> {
    seq![97u8, 115u8, 112u8, 101u8, 99u8, 116u8]
}

/// Builds the byte keyword `aspect`.
fn kw_aspect() -> (v: Vec<u8>)
    ensures
        v@ == kw_aspect_s(),
{
    let mut v: Vec<u8> = Vec::new();
    v.push(97);
    v.push(115);
    v.push(112);
    v.push(101);
    v.push(99);
    v.push(116);
    proof {
        assert(v@ =~= kw_aspect_s());
    }
    v
}

/// The bytes of `material`.
pub open spec fn kw_material_s() -> Seq<u8> {
    seq![109u8, 97u8, 116u8, 101u8, 114u8, 105u8, 97u8, 108u8]
}

/// Builds the byte keyword `material`.
fn kw_material() -> (v: Vec<u8>)
    ensures
        v@ == kw_material_s(),
{
    let mut v: Vec<u8> = Vec::new();
    v.push(109);
    v.push(97);
    v.push(116);
    v.push(101);
    v.push(114);
    v.push(105);
    v.push(97);
    v.push(108);
    proof {
        assert(v@ =~= kw_material_s());
    }
    v
}

/// The bytes of `Diffuse`.
pub open spec fn kw_diffuse_s() -> Seq<u8> {
    seq![68u8, 105u8, 102u8, 102u8, 117u8, 115u8, 101u8]
}

/// Builds the byte keyword `Diffuse`.
fn kw_diffuse() -> (v: Vec<u8>)
    ensures
        v@ == kw_diffuse_s(),
{
    let mut v: Vec<u8> = Vec::new();
    v.push(68);
    v.push(105);
    v.push(102);
    v.push(102);
    v.push(117);
    v.push(115);
    v.push(101);
    proof {
        assert(v@ =~= kw_diffuse_s());
    }
    v
}

/// The bytes of `Metal`.
pub open spec fn kw_metal_s() -> Seq<u8> {
    seq![77u8, 101u8, 116u8, 97u8, 108u8]
}

/// Builds the byte keyword `Metal`.
fn kw_metal() -> (v: Vec<u8>)
    ensures
        v@ == kw_metal_s(),
{
    let mut v: Vec<u8> = Vec::new();
    v.push(77);
    v.push(101);
    v.push(116);
    v.push(97);
    v.push(108);
    proof {
        assert(v@ =~= kw_metal_s());
    }
    v
}

/// The bytes of `Dielectric`.
pub open spec fn kw_dielectric_s() -> Seq<u8> {
    seq![68u8, 105u8, 101u8, 108u8, 101u8, 99u8, 116u8, 114u8, 105u8, 99u8]
}

/// Builds the byte keyword `Dielectric`.
fn kw_dielectric() -> (v: Vec<u8>)
    ensures
        v@ == kw_dielectric_s(),
{
    let mut v: Vec<u8> = Vec::new();
    v.push(68);
    v.push(105);
    v.push(101);
    v.push(108);
    v.push(101);
    v.push(99);
    v.push(116);
    v.push(114);
    v.push(105);
    v.push(99);
    proof {
        assert(v@ =~= kw_dielectric_s());
    }
    v
}

/// The bytes of `color`.
pub open spec fn kw_color_s() -> Seq<u8> {
    seq![99u8, 111u8, 108u8, 111u8, 114u8]
}

/// Builds the byte keyword `color`.
fn kw_color() -> (v: Vec<u8>)
    ensures
        v@ == kw_color_s(),
{
    let mut v: Vec<u8> = Vec::new();
    v.push(99);
    v.push(111);
    v.push(108);
    v.push(111);
    v.push(114);
    proof {
        assert(v@ =~= kw_color_s());
    }
    v
}

/// The bytes of `fuzz`.
pub open spec fn kw_fuzz_s() -> Seq<u8> {
    seq![102u8, 117u8, 122u8, 122u8]
}

/// Builds the byte keyword `fuzz`.
fn kw_fuzz() -> (v: Vec<u8>)
    ensures
        v@ == kw_fuzz_s(),
{
    let mut v: Vec<u8> = Vec::new();
    v.push(102);
    v.push(117);
    v.push(122);
    v.push(122);
    proof {
        assert(v@ =~= kw_fuzz_s());
    }
    v
}

/// The bytes of `ir`.
pub open spec fn kw_ir_s() -> Seq<u8> {
    seq![105u8, 114u8]
}

/// Builds the byte keyword `ir`.
fn kw_ir() -> (v: Vec<u8>)
    ensures
        v@ == kw_ir_s(),
{
    let mut v: Vec<u8> = Vec::new();
    v.push(105);
    v.push(114);
    proof {
        assert(v@ =~= kw_ir_s());
    }
    v
}

/// The bytes of `sphere`.
pub open spec fn kw_sphere_s() -> Seq<u8> {
    seq![115u8, 112u8, 104u8, 101u8, 114u8, 101u8]
}

/// Builds the byte keyword `sphere`.
fn kw_sphere() -> (v: Vec<u8>)
    ensures
        v@ == kw_sphere_s(),
{
    let mut v: Vec<u8> = Vec::new();
    v.push(115);
    v.push(112);
    v.push(104);
    v.push(101);
    v.push(114);
    v.push(101);
    proof {
        assert(v@ =~= kw_sphere_s());
    }
    v
}

/// The bytes of `center`.
pub open spec fn kw_center_s() -> Seq<u8> {
    seq![99u8, 101u8, 110u8, 116u8, 101u8, 114u8]
}

/// Builds the byte keyword `center`.
fn kw_center() -> (v: Vec<u8>)
    ensures
        v@ == kw_center_s(),
{
    let mut v: Vec<u8> = Vec::new();
    v.push(99);
    v.push(101);
    v.push(110);
    v.push(116);
    v.push(101);
    v.push(114);
    proof {
        assert(v@ =~= kw_center_s());
    }
    v
}

/// The bytes of `radius`.
pub open spec fn kw_radius_s() -> Seq<u8> {
    seq![114u8, 97u8, 100u8, 105u8, 117u8, 115u8]
}

/// Builds the byte keyword `radius`.
fn kw_radius() -> (v: Vec<u8>)
    ensures
        v@ == kw_radius_s(),
{
    let mut v: Vec<u8> = Vec::new();
    v.push(114);
    v.push(97);
    v.push(100);
    v.push(105);
    v.push(117);
    v.push(115);
    proof {
        assert(v@ =~= kw_radius_s());
    }
    v
}

/// The bytes of `triangle`.
pub open spec fn kw_triangle_s() -> Seq<u8> {
    seq![116u8, 114u8, 105u8, 97u8, 110u8, 103u8, 108u8, 101u8]
}

/// Builds the byte keyword `triangle`.
fn kw_triangle() -> (v: Vec<u8>)
    ensures
        v@ == kw_triangle_s(),
{
    let mut v: Vec<u8> = Vec::new();
    v.push(116);
    v.push(114);
    v.push(105);
    v.push(97);
    v.push(110);
    v.push(103);
    v.push(108);
    v.push(101);
    proof {
        assert(v@ =~= kw_triangle_s());
    }
    v
}

/// The bytes of `v0`.
pub open spec fn kw_v0w_s() -> Seq<u8> {
    seq![118u8, 48u8]
}

/// Builds the byte keyword `v0`.
fn kw_v0w() -> (v: Vec<u8>)
    ensures
        v@ == kw_v0w_s(),
{
    let mut v: Vec<u8> = Vec::new();
    v.push(118);
    v.push(48);
    proof {
        assert(v@ =~= kw_v0w_s());
    }
    v
}

/// The bytes of `v1`.
pub open spec fn kw_v1w_s() -> Seq<u8> {
    seq![118u8, 49u8]
}

/// Builds the byte keyword `v1`.
fn kw_v1w() -> (v: Vec<u8>)
    ensures
        v@ == kw_v1w_s(),
{
    let mut v: Vec<u8> = Vec::new();
    v.push(118);
    v.push(49);
    proof {
        assert(v@ =~= kw_v1w_s());
    }
    v
}

/// The bytes of `v2`.
pub open spec fn kw_v2w_s() -> Seq<u8> {
    seq![118u8, 50u8]
}

/// Builds the byte keyword `v2`.
fn kw_v2w() -> (v: Vec<u8>)
    ensures
        v@ == kw_v2w_s(),
{
    let mut v: Vec<u8> = Vec::new();
    v.push(118);
    v.push(50);
    proof {
        assert(v@ =~= kw_v2w_s());
    }
    v
}

/// The bytes of `;`.
pub open spec fn kw_semi_s() -> Seq<u8> {
    seq![59u8]
}

/// Builds the byte keyword `;`.
fn kw_semi() -> (v: Vec<u8>)
    ensures
        v@ == kw_semi_s(),
{
    let mut v: Vec<u8> = Vec::new();
    v.push(59);
    proof {
        assert(v@ =~= kw_semi_s());
    }
    v
}

/// The bytes of `:`.
pub open spec fn kw_colon_s() -> Seq<u8> {
    seq![58u8]
}

/// Builds the byte keyword `:`.
fn kw_colon() -> (v: Vec<u8>)
    ensures
        v@ == kw_colon_s(),
{
    let mut v: Vec<u8> = Vec::new();
    v.push(58);
    proof {
        assert(v@ =~= kw_colon_s());
    }
    v
}

/// The bytes of `//`.
pub open spec fn kw_comment_s() -> Seq<u8> {
    seq![47u8, 47u8]
}

/// Builds the byte keyword `//`.
fn kw_comment() -> (v: Vec<u8>)
    ensures
        v@ == kw_comment_s(),
{
    let mut v: Vec<u8> = Vec::new();
    v.push(47);
    v.push(47);
    proof {
        assert(v@ =~= kw_comment_s());
    }
    v
}

/// The bytes of `\n`.
pub open spec fn kw_newline_s() -> Seq<u8> {
    seq![10u8]
}

/// Builds the byte keyword `\n`.
fn kw_newline() -> (v: Vec<u8>)
    ensures
        v@ == kw_newline_s(),
{
    let mut v: Vec<u8> = Vec::new();
    v.push(10);
    proof {
        assert(v@ =~= kw_newline_s());
    }
    v
}

/// Byte-for-byte equality of two byte vectors.
fn eq_bytes(a: &Vec<u8>, b: &Vec<u8>) -> (r: bool)
    ensures
        r == (a@ == b@),
{
    let n = a.len();
    if n != b.len() {
        proof {
            assert(a@ != b@);
        }
        return false;
    }
    let mut i: usize = 0;
    while i < n
        invariant
            0 <= i <= n,
            n == a@.len() == b@.len(),
            forall|k: int| 0 <= k < i ==> a@[k] == b@[k],
        decreases n - i,
    {
        if a[i] != b[i] {
            proof {
                assert(a@ != b@);
            }
            return false;
        }
        i = i + 1;
    }
    proof {
        assert(a@ =~= b@);
    }
    true
}

/// Every material in a name table is valid.
pub open spec fn table_wf(t: Seq<(Vec<u8>, MaterialType)>) -> bool {
    forall|i: int| 0 <= i < t.len() ==> material_wf(#[trigger] t[i].1)
}

/// The name table as bare sequences.
pub open spec fn tmap(t: Seq<(Vec<u8>, MaterialType)>) -> Seq<(Seq<u8>, MaterialType)> {
    t.map_values(|e: (Vec<u8>, MaterialType)| (e.0@, e.1))
}

/// The material of the first table entry from index `i` on whose name
/// is `name`, if any.
pub open spec fn table_lookup(t: Seq<(Seq<u8>, MaterialType)>, name: Seq<u8>, i: int) -> Option<
    MaterialType,
>
    decreases t.len() - i,
{
    if i < 0 || i >= t.len() {
        None
    } else if t[i].0 == name {
        Some(t[i].1)
    } else {
        table_lookup(t, name, i + 1)
    }
}

/// Looks a material up by name: the first entry whose name matches.
fn find_material(table: &Vec<(Vec<u8>, MaterialType)>, name: &Vec<u8>) -> (r: Option<
    MaterialType,
>)
    ensures
        r == table_lookup(tmap(table@), name@, 0),
        r matches Some(m) ==> exists|i: int|
            0 <= i < table@.len() && #[trigger] table@[i].1 == m,
{
    let n = table.len();
    let mut i: usize = 0;
    while i < n
        invariant
            0 <= i <= n,
            n == table@.len(),
            table_lookup(tmap(table@), name@, 0) == table_lookup(tmap(table@), name@, i as int),
        decreases n - i,
    {
        if eq_bytes(&table[i].0, name) {
            return Some(table[i].1);
        }
        i = i + 1;
    }
    None
}

/// What `parse_vec3` yields: three whitespace-separated fixed-point
/// literals, or the first literal's error.
#[verifier::opaque]
pub open spec fn pv3_spec(s: Seq<u8>, pos: int) -> Result<(int, Vec3), ParseError> {
    match pf_spec(s, pos) {
        Err(e) => Err(e),
        Ok((p1, x)) => match pf_spec(s, ws_end(s, p1)) {
            Err(e) => Err(e),
            Ok((p2, y)) => match pf_spec(s, ws_end(s, p2)) {
                Err(e) => Err(e),
                Ok((p3, z)) => Ok((p3, Vec3 { x: x as i64, y: y as i64, z: z as i64 })),
            },
        },
    }
}

/// Parses three scalars separated by whitespace into a vector.
pub fn parse_vec3(s: &[u8], pos: usize) -> (r: Result<(usize, Vec3), ParseError>)
    requires
        pos <= s@.len(),
    ensures
        match r {
            Ok(p) => pv3_spec(s@, pos as int) matches Ok(q) && q.0 == p.0 && q.1 == p.1,
            Err(e) => pv3_spec(s@, pos as int) matches Err(e2) && e2 == e,
        },
        r matches Ok(p) ==> pos <= p.0 <= s@.len(),
{
    proof {
        reveal(pv3_spec);
    }
    let (p1, x) = match parse_float(s, pos) {
        Ok(v) => v,
        Err(e) => { return Err(e); },
    };
    let p1b = skip_whitespace(s, p1);
    let (p2, y) = match parse_float(s, p1b) {
        Ok(v) => v,
        Err(e) => { return Err(e); },
    };
    let p2b = skip_whitespace(s, p2);
    let (p3, z) = match parse_float(s, p2b) {
        Ok(v) => v,
        Err(e) => { return Err(e); },
    };
    Ok((p3, Vec3 { x, y, z }))
}

/// Whether every component of a parsed vector lies inside a box.
fn vec_in_box(v: &Vec3, b: i64) -> (r: bool)
    requires
        0 <= b,
    ensures
        r == in_box(*v, b as int),
{
    -b <= v.x && v.x <= b && -b <= v.y && v.y <= b && -b <= v.z && v.z <= b
}

/// One keyword step: the position past `kw` when it occurs at `pos`.
pub open spec fn kw_step(s: Seq<u8>, pos: int, kw: Seq<u8>) -> Result<int, ParseError> {
    if match_at(s, pos, kw) {
        Ok(pos + kw.len())
    } else {
        Err(ParseError::DidntStartWith)
    }
}

/// What `parse_camera` yields: nothing without the camera keyword;
/// otherwise the parsed declaration, its origin and aspect range
/// checked, or the first failing step's error.
#[verifier::opaque]
pub open spec fn pc_spec(s: Seq<u8>, pos: int) -> Option<Result<(int, Camera), ParseError>> {
    if !match_at(s, pos, kw_camera_s()) {
        None
    } else {
        let p0 = ws_end(s, pos + kw_camera_s().len());
        match kw_step(s, p0, kw_origin_s()) {
            Err(e) => Some(Err(e)),
            Ok(p1a) => match pv3_spec(s, ws_end(s, p1a)) {
                Err(e) => Some(Err(e)),
                Ok((p2a, o)) => match kw_step(s, ws_end(s, p2a), kw_aspect_s()) {
                    Err(e) => Some(Err(e)),
                    Ok(p3a) => match pf_spec(s, ws_end(s, p3a)) {
                        Err(e) => Some(Err(e)),
                        Ok((p4a, a)) => match kw_step(s, ws_end(s, p4a), kw_semi_s()) {
                            Err(e) => Some(Err(e)),
                            Ok(p5) => if !in_box(o, 0x10000000) || a < 8192 || a > 1048576 {
                                Some(Err(ParseError::WrongSyntax))
                            } else {
                                Some(Ok((p5, camera_at(o, a))))
                            },
                        },
                    },
                },
            },
        }
    }
}

/// Parses `camera origin <x> <y> <z> aspect <a> ;` if the source
/// starts with the camera keyword; rejects cameras outside the scene
/// box or with an aspect ratio outside `[1/8, 16]`.
pub fn parse_camera(s: &[u8], pos: usize) -> (r: Option<Result<(usize, Camera), ParseError>>)
    requires
        pos <= s@.len(),
    ensures
        match r {
            None => pc_spec(s@, pos as int) is None,
            Some(Ok(p)) => pc_spec(s@, pos as int) matches Some(Ok(q)) && q.0 == p.0 && q.1
                == p.1,
            Some(Err(e)) => pc_spec(s@, pos as int) matches Some(Err(e2)) && e2 == e,
        },
        r is None ==> !match_at(s@, pos as int, kw_camera_s()),
        r matches Some(Ok(p)) ==> pos < p.0 <= s@.len() && camera_wf(p.1),
{
    proof {
        reveal(pc_spec);
    }
    let kw = kw_camera();
    let p0 = match starts_with(s, pos, kw.as_slice()) {
        Ok(p) => p,
        Err(_) => { return None; },
    };
    let p0 = skip_whitespace(s, p0);
    let p1 = match starts_with(s, p0, kw_origin().as_slice()) {
        Ok(p) => p,
        Err(e) => { return Some(Err(e)); },
    };
    let p1 = skip_whitespace(s, p1);
    let (p2, o) = match parse_vec3(s, p1) {
        Ok(v) => v,
        Err(e) => { return Some(Err(e)); },
    };
    let p2 = skip_whitespace(s, p2);
    let p3 = match starts_with(s, p2, kw_aspect().as_slice()) {
        Ok(p) => p,
        Err(e) => { return Some(Err(e)); },
    };
    let p3 = skip_whitespace(s, p3);
    let (p4, a) = match parse_float(s, p3) {
        Ok(v) => v,
        Err(e) => { return Some(Err(e)); },
    };
    let p4 = skip_whitespace(s, p4);
    let p5 = match starts_with(s, p4, kw_semi().as_slice()) {
        Ok(p) => p,
        Err(e) => { return Some(Err(e)); },
    };
    if !vec_in_box(&o, 0x10000000) || a < 8192 || a > 1048576 {
        return Some(Err(ParseError::WrongSyntax));
    }
    Some(Ok((p5, Camera::new_at(o, a))))
}

/// Whether a color literal lies in the unit cube.
fn color_in_range(c: &Vec3) -> (r: bool)
    ensures
        r == (0 <= c.x <= 65536 && 0 <= c.y <= 65536 && 0 <= c.z <= 65536),
{
    0 <= c.x && c.x <= 65536 && 0 <= c.y && c.y <= 65536 && 0 <= c.z && c.z <= 65536
}

/// A color literal lies in the unit cube.
pub open spec fn color_ok(c: Vec3) -> bool {
    0 <= c.x <= 65536 && 0 <= c.y <= 65536 && 0 <= c.z <= 65536
}

/// The diffuse tail of a material declaration: `color <v3> ;`.
#[verifier::opaque]
pub open spec fn pm_diffuse(s: Seq<u8>, pos: int, name: Seq<u8>) -> Option<
    Result<(int, Seq<u8>, MaterialType), ParseError>,
> {
    match kw_step(s, ws_end(s, pos), kw_color_s()) {
        Err(e) => Some(Err(e)),
        Ok(p3a) => match pv3_spec(s, ws_end(s, p3a)) {
            Err(e) => Some(Err(e)),
            Ok((p4a, c)) => match kw_step(s, ws_end(s, p4a), kw_semi_s()) {
                Err(e) => Some(Err(e)),
                Ok(p5) => if !color_ok(c) {
                    Some(Err(ParseError::WrongSyntax))
                } else {
                    Some(
                        Ok(
                            (
                                p5,
                                name,
                                MaterialType::Diffuse(Color { r: c.x, g: c.y, b: c.z, a: 65536 }),
                            ),
                        ),
                    )
                },
            },
        },
    }
}

/// The metal tail of a material declaration: `color <v3> fuzz <f> ;`.
#[verifier::opaque]
pub open spec fn pm_metal(s: Seq<u8>, pos: int, name: Seq<u8>) -> Option<
    Result<(int, Seq<u8>, MaterialType), ParseError>,
> {
    match kw_step(s, ws_end(s, pos), kw_color_s()) {
        Err(e) => Some(Err(e)),
        Ok(p3a) => match pv3_spec(s, ws_end(s, p3a)) {
            Err(e) => Some(Err(e)),
            Ok((p4a, c)) => match kw_step(s, ws_end(s, p4a), kw_fuzz_s()) {
                Err(e) => Some(Err(e)),
                Ok(p5a) => match pf_spec(s, ws_end(s, p5a)) {
                    Err(e) => Some(Err(e)),
                    Ok((p6a, f)) => match kw_step(s, ws_end(s, p6a), kw_semi_s()) {
                        Err(e) => Some(Err(e)),
                        Ok(p7) => if !color_ok(c) || f < 0 || f > 65536 {
                            Some(Err(ParseError::WrongSyntax))
                        } else {
                            Some(
                                Ok(
                                    (
                                        p7,
                                        name,
                                        MaterialType::Metal(
                                            Color { r: c.x, g: c.y, b: c.z, a: 65536 },
                                            f as i64,
                                        ),
                                    ),
                                ),
                            )
                        },
                    },
                },
            },
        },
    }
}

/// The dielectric tail of a material declaration: `ir <f> ;`.
#[verifier::opaque]
pub open spec fn pm_dielectric(s: Seq<u8>, pos: int, name: Seq<u8>) -> Option<
    Result<(int, Seq<u8>, MaterialType), ParseError>,
> {
    match kw_step(s, ws_end(s, pos), kw_ir_s()) {
        Err(e) => Some(Err(e)),
        Ok(p3a) => match pf_spec(s, ws_end(s, p3a)) {
            Err(e) => Some(Err(e)),
            Ok((p4a, ir)) => match kw_step(s, ws_end(s, p4a), kw_semi_s()) {
                Err(e) => Some(Err(e)),
                Ok(p5) => if ir < 8192 || ir > 524288 {
                    Some(Err(ParseError::WrongSyntax))
                } else {
                    Some(Ok((p5, name, MaterialType::Dielectric(ir as i64))))
                },
            },
        },
    }
}

/// What `parse_material` yields: nothing without the material
/// keyword; otherwise the parsed name and the declared kind with its
/// parameters, range checked, or the first failing step's error.
#[verifier::opaque]
pub open spec fn pm_spec(s: Seq<u8>, pos: int) -> Option<
    Result<(int, Seq<u8>, MaterialType), ParseError>,
> {
    if !match_at(s, pos, kw_material_s()) {
        None
    } else {
        let p0 = ws_end(s, pos + kw_material_s().len());
        let pn = ident_end(s, p0);
        let name = s.subrange(p0, pn);
        match kw_step(s, ws_end(s, pn), kw_colon_s()) {
            Err(e) => Some(Err(e)),
            Ok(p1a) => {
                let p1 = ws_end(s, p1a);
                if match_at(s, p1, kw_diffuse_s()) {
                    pm_diffuse(s, p1 + kw_diffuse_s().len(), name)
                } else if match_at(s, p1, kw_metal_s()) {
                    pm_metal(s, p1 + kw_metal_s().len(), name)
                } else if match_at(s, p1, kw_dielectric_s()) {
                    pm_dielectric(s, p1 + kw_dielectric_s().len(), name)
                } else {
                    Some(Err(ParseError::WrongSyntax))
                }
            },
        }
    }
}

/// Parses `material <name> : <kind> ... ;` if the source starts with
/// the material keyword; rejects parameters outside their ranges.
pub fn parse_material(s: &[u8], pos: usize) -> (r: Option<
    Result<(usize, Vec<u8>, MaterialType), ParseError>,
>)
    requires
        pos <= s@.len(),
    ensures
        match r {
            None => pm_spec(s@, pos as int) is None,
            Some(Ok(p)) => pm_spec(s@, pos as int) matches Some(Ok(q)) && q.0 == p.0 && q.1
                == p.1@ && q.2 == p.2,
            Some(Err(e)) => pm_spec(s@, pos as int) matches Some(Err(e2)) && e2 == e,
        },
        r is None ==> !match_at(s@, pos as int, kw_material_s()),
        r matches Some(Ok(p)) ==> pos < p.0 <= s@.len() && material_wf(p.2),
{
    proof {
        reveal(pm_spec);
        reveal(pm_diffuse);
        reveal(pm_metal);
        reveal(pm_dielectric);
    }
    let p0 = match starts_with(s, pos, kw_material().as_slice()) {
        Ok(p) => p,
        Err(_) => { return None; },
    };
    let p0 = skip_whitespace(s, p0);
    let pn = get_identifier(s, p0);
    let name = bytes_range(s, p0, pn);
    let p1 = skip_whitespace(s, pn);
    let p1 = match starts_with(s, p1, kw_colon().as_slice()) {
        Ok(p) => p,
        Err(e) => { return Some(Err(e)); },
    };
    let p1 = skip_whitespace(s, p1);
    if let Ok(p2) = starts_with(s, p1, kw_diffuse().as_slice()) {
        let p2 = skip_whitespace(s, p2);
        let p3 = match starts_with(s, p2, kw_color().as_slice()) {
            Ok(p) => p,
            Err(e) => { return Some(Err(e)); },
        };
        let p3 = skip_whitespace(s, p3);
        let (p4, c) = match parse_vec3(s, p3) {
            Ok(v) => v,
            Err(e) => { return Some(Err(e)); },
        };
        let p4 = skip_whitespace(s, p4);
        let p5 = match starts_with(s, p4, kw_semi().as_slice()) {
            Ok(p) => p,
            Err(e) => { return Some(Err(e)); },
        };
        if !color_in_range(&c) {
            return Some(Err(ParseError::WrongSyntax));
        }
        let m = MaterialType::Diffuse(Color { r: c.x, g: c.y, b: c.z, a: 65536 });
        return Some(Ok((p5, name, m)));
    }
    if let Ok(p2) = starts_with(s, p1, kw_metal().as_slice()) {
        let p2 = skip_whitespace(s, p2);
        let p3 = match starts_with(s, p2, kw_color().as_slice()) {
            Ok(p) => p,
            Err(e) => { return Some(Err(e)); },
        };
        let p3 = skip_whitespace(s, p3);
        let (p4, c) = match parse_vec3(s, p3) {
            Ok(v) => v,
            Err(e) => { return Some(Err(e)); },
        };
        let p4 = skip_whitespace(s, p4);
        let p5 = match starts_with(s, p4, kw_fuzz().as_slice()) {
            Ok(p) => p,
            Err(e) => { return Some(Err(e)); },
        };
        let p5 = skip_whitespace(s, p5);
        let (p6, f) = match parse_float(s, p5) {
            Ok(v) => v,
            Err(e) => { return Some(Err(e)); },
        };
        let p6 = skip_whitespace(s, p6);
        let p7 = match starts_with(s, p6, kw_semi().as_slice()) {
            Ok(p) => p,
            Err(e) => { return Some(Err(e)); },
        };
        if !color_in_range(&c) || f < 0 || f > 65536 {
            return Some(Err(ParseError::WrongSyntax));
        }
        let m = MaterialType::Metal(Color { r: c.x, g: c.y, b: c.z, a: 65536 }, f);
        return Some(Ok((p7, name, m)));
    }
    if let Ok(p2) = starts_with(s, p1, kw_dielectric().as_slice()) {
        let p2 = skip_whitespace(s, p2);
        let p3 = match starts_with(s, p2, kw_ir().as_slice()) {
            Ok(p) => p,
            Err(e) => { return Some(Err(e)); },
        };
        let p3 = skip_whitespace(s, p3);
        let (p4, ir) = match parse_float(s, p3) {
            Ok(v) => v,
            Err(e) => { return Some(Err(e)); },
        };
        let p4 = skip_whitespace(s, p4);
        let p5 = match starts_with(s, p4, kw_semi().as_slice()) {
            Ok(p) => p,
            Err(e) => { return Some(Err(e)); },
        };
        if ir < 8192 || ir > 524288 {
            return Some(Err(ParseError::WrongSyntax));
        }
        return Some(Ok((p5, name, MaterialType::Dielectric(ir))));
    }
    Some(Err(ParseError::WrongSyntax))
}

/// What `parse_sphere` yields against a name table: nothing without
/// the sphere keyword; otherwise the parsed sphere, its material the
/// first table entry whose name matches, its geometry range checked,
/// or the first failing step's error.
#[verifier::opaque]
pub open spec fn ps_spec(s: Seq<u8>, pos: int, t: Seq<(Seq<u8>, MaterialType)>) -> Option<
    Result<(int, Sphere), ParseError>,
> {
    if !match_at(s, pos, kw_sphere_s()) {
        None
    } else {
        match kw_step(s, ws_end(s, pos + kw_sphere_s().len()), kw_center_s()) {
            Err(e) => Some(Err(e)),
            Ok(p1a) => match pv3_spec(s, ws_end(s, p1a)) {
                Err(e) => Some(Err(e)),
                Ok((p2a, c)) => match kw_step(s, ws_end(s, p2a), kw_radius_s()) {
                    Err(e) => Some(Err(e)),
                    Ok(p3a) => match pf_spec(s, ws_end(s, p3a)) {
                        Err(e) => Some(Err(e)),
                        Ok((p4a, rad)) => match kw_step(s, ws_end(s, p4a), kw_material_s()) {
                            Err(e) => Some(Err(e)),
                            Ok(p5a) => {
                                let p5 = ws_end(s, p5a);
                                let pn = ident_end(s, p5);
                                let name = s.subrange(p5, pn);
                                match kw_step(s, ws_end(s, pn), kw_semi_s()) {
                                    Err(e) => Some(Err(e)),
                                    Ok(p7) => match table_lookup(t, name, 0) {
                                        None => Some(Err(ParseError::WrongSyntax)),
                                        Some(material) => if !in_box(c, 0x10000000) || rad < 64
                                            || rad > 0x10000000 {
                                            Some(Err(ParseError::WrongSyntax))
                                        } else {
                                            Some(
                                                Ok(
                                                    (
                                                        p7,
                                                        Sphere {
                                                            center: c,
                                                            radius: rad as i64,
                                                            material,
                                                        },
                                                    ),
                                                ),
                                            )
                                        },
                                    },
                                }
                            },
                        },
                    },
                },
            },
        }
    }
}

/// Parses `sphere center <x> <y> <z> radius <r> material <name> ;` if
/// the source starts with the sphere keyword; rejects degenerate radii
/// and out-of-box centers.
pub fn parse_sphere(s: &[u8], pos: usize, materials: &Vec<(Vec<u8>, MaterialType)>) -> (r: Option<
    Result<(usize, Sphere), ParseError>,
>)
    requires
        pos <= s@.len(),
        table_wf(materials@),
    ensures
        match r {
            None => ps_spec(s@, pos as int, tmap(materials@)) is None,
            Some(Ok(p)) => ps_spec(s@, pos as int, tmap(materials@)) matches Some(Ok(q)) && q.0
                == p.0 && q.1 == p.1,
            Some(Err(e)) => ps_spec(s@, pos as int, tmap(materials@)) matches Some(Err(e2)) && e2
                == e,
        },
        r is None ==> !match_at(s@, pos as int, kw_sphere_s()),
        r matches Some(Ok(p)) ==> pos < p.0 <= s@.len() && sphere_wf(p.1),
{
    proof {
        reveal(ps_spec);
    }
    let p0 = match starts_with(s, pos, kw_sphere().as_slice()) {
        Ok(p) => p,
        Err(_) => { return None; },
    };
    let p0 = skip_whitespace(s, p0);
    let p1 = match starts_with(s, p0, kw_center().as_slice()) {
        Ok(p) => p,
        Err(e) => { return Some(Err(e)); },
    };
    let p1 = skip_whitespace(s, p1);
    let (p2, c) = match parse_vec3(s, p1) {
        Ok(v) => v,
        Err(e) => { return Some(Err(e)); },
    };
    let p2 = skip_whitespace(s, p2);
    let p3 = match starts_with(s, p2, kw_radius().as_slice()) {
        Ok(p) => p,
        Err(e) => { return Some(Err(e)); },
    };
    let p3 = skip_whitespace(s, p3);
    let (p4, rad) = match parse_float(s, p3) {
        Ok(v) => v,
        Err(e) => { return Some(Err(e)); },
    };
    let p4 = skip_whitespace(s, p4);
    let p5 = match starts_with(s, p4, kw_material().as_slice()) {
        Ok(p) => p,
        Err(e) => { return Some(Err(e)); },
    };
    let p5 = skip_whitespace(s, p5);
    let pn = get_identifier(s, p5);
    let name = bytes_range(s, p5, pn);
    let p6 = skip_whitespace(s, pn);
    let p7 = match starts_with(s, p6, kw_semi().as_slice()) {
        Ok(p) => p,
        Err(e) => { return Some(Err(e)); },
    };
    let material = match find_material(materials, &name) {
        Some(m) => m,
        None => { return Some(Err(ParseError::WrongSyntax)); },
    };
    if !vec_in_box(&c, 0x10000000) || rad < 64 || rad > 0x10000000 {
        return Some(Err(ParseError::WrongSyntax));
    }
    Some(Ok((p7, Sphere { center: c, radius: rad, material })))
}

/// What `parse_triangle` yields against a name table: nothing without
/// the triangle keyword; otherwise the parsed triangle with its face
/// normal derived from the vertex winding and its material the first
/// table entry whose name matches, or the first failing step's error.
#[verifier::opaque]
pub open spec fn pt_spec(s: Seq<u8>, pos: int, t: Seq<(Seq<u8>, MaterialType)>) -> Option<
    Result<(int, Triangle), ParseError>,
> {
    if !match_at(s, pos, kw_triangle_s()) {
        None
    } else {
        match kw_step(s, ws_end(s, pos + kw_triangle_s().len()), kw_v0w_s()) {
            Err(e) => Some(Err(e)),
            Ok(p1a) => match pv3_spec(s, ws_end(s, p1a)) {
                Err(e) => Some(Err(e)),
                Ok((p2a, v0)) => match kw_step(s, ws_end(s, p2a), kw_v1w_s()) {
                    Err(e) => Some(Err(e)),
                    Ok(p3a) => match pv3_spec(s, ws_end(s, p3a)) {
                        Err(e) => Some(Err(e)),
                        Ok((p4a, v1)) => match kw_step(s, ws_end(s, p4a), kw_v2w_s()) {
                            Err(e) => Some(Err(e)),
                            Ok(p5a) => match pv3_spec(s, ws_end(s, p5a)) {
                                Err(e) => Some(Err(e)),
                                Ok((p6a, v2)) => match kw_step(
                                    s,
                                    ws_end(s, p6a),
                                    kw_material_s(),
                                ) {
                                    Err(e) => Some(Err(e)),
                                    Ok(p7a) => {
                                        let p7 = ws_end(s, p7a);
                                        let pn = ident_end(s, p7);
                                        let name = s.subrange(p7, pn);
                                        match kw_step(s, ws_end(s, pn), kw_semi_s()) {
                                            Err(e) => Some(Err(e)),
                                            Ok(p9) => match table_lookup(t, name, 0) {
                                                None => Some(Err(ParseError::WrongSyntax)),
                                                Some(material) => if !in_box(v0, 0x10000000)
                                                    || !in_box(v1, 0x10000000) || !in_box(
                                                    v2,
                                                    0x10000000,
                                                ) {
                                                    Some(Err(ParseError::WrongSyntax))
                                                } else {
                                                    Some(
                                                        Ok(
                                                            (
                                                                p9,
                                                                triangle_from(
                                                                    v0,
                                                                    v1,
                                                                    v2,
                                                                    material,
                                                                ),
                                                            ),
                                                        ),
                                                    )
                                                },
                                            },
                                        }
                                    },
                                },
                            },
                        },
                    },
                },
            },
        }
    }
}

/// Parses `triangle v0 ... v1 ... v2 ... material <name> ;` if the
/// source starts with the triangle keyword; rejects out-of-box
/// vertices.
pub fn parse_triangle(s: &[u8], pos: usize, materials: &Vec<(Vec<u8>, MaterialType)>) -> (r:
    Option<Result<(usize, Triangle), ParseError>>)
    requires
        pos <= s@.len(),
        table_wf(materials@),
    ensures
        match r {
            None => pt_spec(s@, pos as int, tmap(materials@)) is None,
            Some(Ok(p)) => pt_spec(s@, pos as int, tmap(materials@)) matches Some(Ok(q)) && q.0
                == p.0 && q.1 == p.1,
            Some(Err(e)) => pt_spec(s@, pos as int, tmap(materials@)) matches Some(Err(e2)) && e2
                == e,
        },
        r is None ==> !match_at(s@, pos as int, kw_triangle_s()),
        r matches Some(Ok(p)) ==> pos < p.0 <= s@.len() && tri_wf(p.1),
{
    proof {
        reveal(pt_spec);
    }
    let p0 = match starts_with(s, pos, kw_triangle().as_slice()) {
        Ok(p) => p,
        Err(_) => { return None; },
    };
    let p0 = skip_whitespace(s, p0);
    let p1 = match starts_with(s, p0, kw_v0w().as_slice()) {
        Ok(p) => p,
        Err(e) => { return Some(Err(e)); },
    };
    let p1 = skip_whitespace(s, p1);
    let (p2, v0) = match parse_vec3(s, p1) {
        Ok(v) => v,
        Err(e) => { return Some(Err(e)); },
    };
    let p2 = skip_whitespace(s, p2);
    let p3 = match starts_with(s, p2, kw_v1w().as_slice()) {
        Ok(p) => p,
        Err(e) => { return Some(Err(e)); },
    };
    let p3 = skip_whitespace(s, p3);
    let (p4, v1) = match parse_vec3(s, p3) {
        Ok(v) => v,
        Err(e) => { return Some(Err(e)); },
    };
    let p4 = skip_whitespace(s, p4);
    let p5 = match starts_with(s, p4, kw_v2w().as_slice()) {
        Ok(p) => p,
        Err(e) => { return Some(Err(e)); },
    };
    let p5 = skip_whitespace(s, p5);
    let (p6, v2) = match parse_vec3(s, p5) {
        Ok(v) => v,
        Err(e) => { return Some(Err(e)); },
    };
    let p6 = skip_whitespace(s, p6);
    let p7 = match starts_with(s, p6, kw_material().as_slice()) {
        Ok(p) => p,
        Err(e) => { return Some(Err(e)); },
    };
    let p7 = skip_whitespace(s, p7);
    let pn = get_identifier(s, p7);
    let name = bytes_range(s, p7, pn);
    let p8 = skip_whitespace(s, pn);
    let p9 = match starts_with(s, p8, kw_semi().as_slice()) {
        Ok(p) => p,
        Err(e) => { return Some(Err(e)); },
    };
    let material = match find_material(materials, &name) {
        Some(m) => m,
        None => { return Some(Err(ParseError::WrongSyntax)); },
    };
    if !vec_in_box(&v0, 0x10000000) || !vec_in_box(&v1, 0x10000000) || !vec_in_box(
        &v2,
        0x10000000,
    ) {
        return Some(Err(ParseError::WrongSyntax));
    }
    Some(Ok((p9, Triangle::new(v0, v1, v2, material))))
}

/// What `skip_comment` yields: the position past every leading
/// comment line, or an error when a comment never ends. (The inner
/// guards against an out-of-range newline position are unreachable: a
/// newline found for a comment at `pos` lies in `[pos + 2, len)`.)
#[verifier::opaque]
pub open spec fn sc_spec(s: Seq<u8>, pos: int) -> Result<int, ParseError>
    decreases s.len() - pos,
{
    if !match_at(s, pos, kw_comment_s()) {
        Ok(pos)
    } else {
        match find_first(s, pos + 2, kw_newline_s()) {
            None => Err(ParseError::WrongSyntax),
            Some(nl) => if nl < pos + 2 || nl + 1 > s.len() {
                Err(ParseError::WrongSyntax)
            } else {
                sc_spec(s, nl + 1)
            },
        }
    }
}

/// Skips `//` comment lines: steps past every comment line at `pos`,
/// failing when a comment never ends.
pub fn skip_comment(s: &[u8], pos: usize) -> (r: Result<usize, ParseError>)
    requires
        pos <= s@.len(),
    ensures
        match r {
            Ok(p) => sc_spec(s@, pos as int) == Ok::<int, ParseError>(p as int),
            Err(e) => sc_spec(s@, pos as int) matches Err(e2) && e2 == e,
        },
        r matches Ok(p) ==> pos <= p <= s@.len() && !match_at(s@, p as int, kw_comment_s()),
{
    proof {
        reveal(sc_spec);
    }
    let mut cur = pos;
    let n = s.len();
    loop
        invariant
            pos <= cur <= n,
            n == s@.len(),
            sc_spec(s@, pos as int) == sc_spec(s@, cur as int),
        decreases n - cur,
    {
        proof {
            reveal(sc_spec);
        }
        match starts_with(s, cur, kw_comment().as_slice()) {
            Ok(after) => {
                match find(s, after, kw_newline().as_slice()) {
                    Ok(nl) => {
                        proof {
                            assert(match_at(s@, nl as int, kw_newline_s()));
                        }
                        cur = nl + 1;
                    },
                    Err(_) => { return Err(ParseError::WrongSyntax); },
                }
            },
            Err(_) => { return Ok(cur); },
        }
    }
}

/// The run of material declarations from `pos`, each followed by
/// whitespace and comment lines, accumulated onto `acc`. (The inner
/// position guards are unreachable: every declaration advances.)
pub open spec fn pm_fold(s: Seq<u8>, pos: int, acc: Seq<(Seq<u8>, MaterialType)>) -> Result<
    (int, Seq<(Seq<u8>, MaterialType)>),
    ParseError,
>
    decreases s.len() - pos,
{
    match pm_spec(s, pos) {
        None => Ok((pos, acc)),
        Some(Err(e)) => Err(e),
        Some(Ok((next, name, m))) => match sc_spec(s, ws_end(s, next)) {
            Err(e) => Err(e),
            Ok(p2) => if p2 <= pos || p2 > s.len() {
                Err(ParseError::WrongSyntax)
            } else {
                pm_fold(s, p2, acc.push((name, m)))
            },
        },
    }
}

/// The run of sphere declarations from `pos` against a name table.
pub open spec fn ps_fold(
    s: Seq<u8>,
    pos: int,
    t: Seq<(Seq<u8>, MaterialType)>,
    acc: Seq<Sphere>,
) -> Result<(int, Seq<Sphere>), ParseError>
    decreases s.len() - pos,
{
    match ps_spec(s, pos, t) {
        None => Ok((pos, acc)),
        Some(Err(e)) => Err(e),
        Some(Ok((next, sp))) => match sc_spec(s, ws_end(s, next)) {
            Err(e) => Err(e),
            Ok(p2) => if p2 <= pos || p2 > s.len() {
                Err(ParseError::WrongSyntax)
            } else {
                ps_fold(s, p2, t, acc.push(sp))
            },
        },
    }
}

/// The run of triangle declarations from `pos` against a name table.
pub open spec fn pt_fold(
    s: Seq<u8>,
    pos: int,
    t: Seq<(Seq<u8>, MaterialType)>,
    acc: Seq<Triangle>,
) -> Result<(int, Seq<Triangle>), ParseError>
    decreases s.len() - pos,
{
    match pt_spec(s, pos, t) {
        None => Ok((pos, acc)),
        Some(Err(e)) => Err(e),
        Some(Ok((next, tr))) => match sc_spec(s, ws_end(s, next)) {
            Err(e) => Err(e),
            Ok(p2) => if p2 <= pos || p2 > s.len() {
                Err(ParseError::WrongSyntax)
            } else {
                pt_fold(s, p2, t, acc.push(tr))
            },
        },
    }
}

/// What `parse_input` yields: the camera after any leading comments
/// (or `MissingCamera`), then the declared materials, spheres and
/// triangles in order, each sphere and triangle bound to the first
/// table entry whose name matches; the whole source must be consumed.
pub open spec fn pi_spec(s: Seq<u8>) -> Result<(Camera, Seq<Sphere>, Seq<Triangle>), ParseError> {
    match sc_spec(s, 0) {
        Err(e) => Err(e),
        Ok(p0) => match pc_spec(s, p0) {
            None => Err(ParseError::MissingCamera),
            Some(Err(e)) => Err(e),
            Some(Ok((p1, cam))) => match sc_spec(s, ws_end(s, p1)) {
                Err(e) => Err(e),
                Ok(p2) => match pm_fold(s, p2, Seq::empty()) {
                    Err(e) => Err(e),
                    Ok((p3, table)) => match ps_fold(s, p3, table, Seq::empty()) {
                        Err(e) => Err(e),
                        Ok((p4, spheres)) => match pt_fold(s, p4, table, Seq::empty()) {
                            Err(e) => Err(e),
                            Ok((p5, tris)) => if p5 != s.len() {
                                Err(ParseError::WrongSyntax)
                            } else {
                                Ok((cam, spheres, tris))
                            },
                        },
                    },
                },
            },
        },
    }
}

/// Pushing an entry commutes with viewing the name table as bare
/// sequences.
proof fn lemma_tmap_push(t: Seq<(Vec<u8>, MaterialType)>, e: (Vec<u8>, MaterialType))
    ensures
        tmap(t.push(e)) == tmap(t).push((e.0@, e.1)),
{
    assert(tmap(t.push(e)) =~= tmap(t).push((e.0@, e.1)));
}

/// Parses a whole scene: one camera, then materials, spheres and
/// triangles, with comments between items; the source must be fully
/// consumed. On success every returned entity satisfies its validity
/// predicate, so the scene can be rendered.
#[verifier::spinoff_prover]
#[verifier::loop_isolation(false)]
pub fn parse_input(s: &[u8]) -> (r: Result<(Camera, Vec<Sphere>, Mesh), ParseError>)
    ensures
        match r {
            Ok(p) => pi_spec(s@) matches Ok(q) && q.0 == p.0 && q.1 == p.1@ && q.2
                == p.2.triangles@,
            Err(e) => pi_spec(s@) matches Err(e2) && e2 == e,
        },
        r matches Ok(p) ==> camera_wf(p.0) && (forall|i: int|
            0 <= i < p.1@.len() ==> sphere_wf(#[trigger] p.1@[i])) && crate::common::mesh_wf(p.2),
{
    let n = s.len();
    let mut materials: Vec<(Vec<u8>, MaterialType)> = Vec::new();
    let mut spheres: Vec<Sphere> = Vec::new();
    let mut triangles: Vec<Triangle> = Vec::new();
    let mut pos: usize = 0;

    pos = match skip_comment(s, pos) {
        Ok(p) => p,
        Err(e) => { return Err(e); },
    };
    let camera = match parse_camera(s, pos) {
        Some(res) => {
            match res {
                Ok((next, camera)) => {
                    pos = skip_whitespace(s, next);
                    camera
                },
                Err(e) => { return Err(e); },
            }
        },
        None => { return Err(ParseError::MissingCamera); },
    };

    pos = match skip_comment(s, pos) {
        Ok(p) => p,
        Err(e) => { return Err(e); },
    };
    let ghost mstart = pos as int;
    proof {
        assert(tmap(materials@) =~= Seq::<(Seq<u8>, MaterialType)>::empty());
    }
    loop
        invariant
            pos <= n,
            n == s@.len(),
            table_wf(materials@),
            pm_fold(s@, pos as int, tmap(materials@)) == pm_fold(s@, mstart, Seq::empty()),
        decreases n - pos,
    {
        match parse_material(s, pos) {
            Some(res) => {
                match res {
                    Ok((next, name, material)) => {
                        proof {
                            lemma_tmap_push(materials@, (name, material));
                        }
                        materials.push((name, material));
                        pos = skip_whitespace(s, next);
                        pos = match skip_comment(s, pos) {
                            Ok(p) => p,
                            Err(e) => { return Err(e); },
                        };
                    },
                    Err(e) => { return Err(e); },
                }
            },
            None => { break ; },
        }
    }

    let ghost table = tmap(materials@);
    let ghost sstart = pos as int;
    proof {
        assert(spheres@ =~= Seq::<Sphere>::empty());
    }
    loop
        invariant
            pos <= n,
            n == s@.len(),
            table_wf(materials@),
            table == tmap(materials@),
            ps_fold(s@, pos as int, table, spheres@) == ps_fold(s@, sstart, table, Seq::empty()),
            forall|i: int| 0 <= i < spheres@.len() ==> sphere_wf(#[trigger] spheres@[i]),
        decreases n - pos,
    {
        match parse_sphere(s, pos, &materials) {
            Some(res) => {
                match res {
                    Ok((next, sphere)) => {
                        spheres.push(sphere);
                        pos = skip_whitespace(s, next);
                        pos = match skip_comment(s, pos) {
                            Ok(p) => p,
                            Err(e) => { return Err(e); },
                        };
                    },
                    Err(e) => { return Err(e); },
                }
            },
            None => { break ; },
        }
    }

    let ghost tstart = pos as int;
    proof {
        assert(triangles@ =~= Seq::<Triangle>::empty());
    }
    loop
        invariant
            pos <= n,
            n == s@.len(),
            table_wf(materials@),
            table == tmap(materials@),
            pt_fold(s@, pos as int, table, triangles@) == pt_fold(s@, tstart, table, Seq::empty()),
            forall|i: int| 0 <= i < triangles@.len() ==> tri_wf(#[trigger] triangles@[i]),
        decreases n - pos,
    {
        match parse_triangle(s, pos, &materials) {
            Some(res) => {
                match res {
                    Ok((next, triangle)) => {
                        triangles.push(triangle);
                        pos = skip_whitespace(s, next);
                        pos = match skip_comment(s, pos) {
                            Ok(p) => p,
                            Err(e) => { return Err(e); },
                        };
                    },
                    Err(e) => { return Err(e); },
                }
            },
            None => { break ; },
        }
    }

    if pos != n {
        Err(ParseError::WrongSyntax)
    } else {
        Ok((camera, spheres, Mesh::new(triangles)))
    }
}

} // verus!


