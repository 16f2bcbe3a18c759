//! Aspect-preserving scale-to-fit: the largest size of the same proportions
//! that fits in the interior box.

use vstd::prelude::*;
use crate::error::NormalizeError;

verus! {

/// `a / b` rounded to the nearest integer, halves away from zero
/// (for `a >= 0`, `b > 0`).
pub open spec fn round_div(a: int, b: int) -> int {
    (2 * a + b) / (2 * b)
}

pub open spec fn max(a: int, b: int) -> int {
    if a >= b { a } else { b }
}

pub open spec fn abs(a: int) -> int {
    if a >= 0 { a } else { -a }
}

/// The size that a `w x h` region takes in an `iw x ih` box: the scale
/// factor is `min(iw / w, ih / h)`; the side it is taken from is filled
/// exactly, the other one is rounded and kept at least one pixel long.
pub open spec fn fit_spec(w: int, h: int, iw: int, ih: int) -> (int, int) {
    if iw * h <= ih * w {
        (iw, max(1, round_div(h * iw, w)))
    } else {
        (max(1, round_div(w * ih, h)), ih)
    }
}

/// What rounding to the nearest integer leaves: `q` is within half of `b`
/// of `a / b`.
proof fn lemma_round_div(a: int, b: int)
    requires
        0 <= a,
        0 < b,
    ensures
        0 <= round_div(a, b),
        2 * b * round_div(a, b) <= 2 * a + b,
        2 * a + b < 2 * b * round_div(a, b) + 2 * b,
{
    let q = round_div(a, b);
    let n = 2 * a + b;
    let d = 2 * b;
    vstd::arithmetic::div_mod::lemma_fundamental_div_mod(n, d);
    vstd::arithmetic::div_mod::lemma_mod_bound(n, d);
    vstd::arithmetic::div_mod::lemma_div_pos_is_pos(n, d);
    assert(d * q == 2 * b * q) by (nonlinear_arith)
        requires
            d == 2 * b,
    ;
}

/// Rounding `a / b` does not pass `c` where `a <= c * b`.
proof fn lemma_round_div_le(a: int, b: int, c: int)
    requires
        0 <= a,
        0 < b,
        0 <= c,
        a <= c * b,
    ensures
        round_div(a, b) <= c,
{
    lemma_round_div(a, b);
    let q = round_div(a, b);
    assert(q <= c) by (nonlinear_arith)
        requires
            2 * b * q <= 2 * a + b,
            a <= c * b,
            0 < b,
    ;
}

/// The fitted size keeps the proportions of the region: the cross products
/// `w' * h` and `w * h'` differ by at most the longer side of the region, and
/// by at most half of it unless a side was raised to the one-pixel minimum.
/// Dividing by `h' * h`, the ratio `w' / h'` is within rounding of `w / h`.
pub proof fn lemma_aspect_preserved(w: u32, h: u32, iw: u32, ih: u32)
    requires
        w > 0,
        h > 0,
        iw > 0,
        ih > 0,
    ensures
        ({
            let (w2, h2) = fit_spec(w as int, h as int, iw as int, ih as int);
            &&& abs(w2 * h - w * h2) <= max(w as int, h as int)
            &&& 2 * abs(w2 * h - w * h2) <= max(w as int, h as int) || w2 == 1 || h2 == 1
        }),
{
    let (w2, h2) = fit_spec(w as int, h as int, iw as int, ih as int);
    if (iw as int) * (h as int) <= (ih as int) * (w as int) {
        let a = h as int * iw as int;
        lemma_round_div(a, w as int);
        let q = round_div(a, w as int);
        assert(w2 * h == a) by (nonlinear_arith)
            requires
                w2 == iw,
                a == h as int * iw as int,
        ;
        if q >= 1 {
            assert(w * h2 == w as int * q);
            assert(2 * (w as int) * q == 2 * (w as int * q)) by (nonlinear_arith);
            assert(-(w as int) <= 2 * (w2 * h - w * h2) < w as int);
        } else {
            assert(h2 == 1);
            assert(w * h2 == w as int) by (nonlinear_arith)
                requires
                    h2 == 1,
            ;
            assert(2 * (w as int) * q == 0) by (nonlinear_arith)
                requires
                    q == 0,
            ;
            assert(2 * a < w as int);
            assert(-(w as int) <= w2 * h - w * h2 <= 0);
        }
    } else {
        let a = w as int * ih as int;
        lemma_round_div(a, h as int);
        let q = round_div(a, h as int);
        assert(w * h2 == a) by (nonlinear_arith)
            requires
                h2 == ih,
                a == w as int * ih as int,
        ;
        if q >= 1 {
            assert(w2 * h == h as int * q) by (nonlinear_arith)
                requires
                    w2 == q,
            ;
            assert(2 * (h as int) * q == 2 * (h as int * q)) by (nonlinear_arith);
            assert(-(h as int) < 2 * (w2 * h - w * h2) <= h as int);
        } else {
            assert(w2 == 1);
            assert(w2 * h == h as int) by (nonlinear_arith)
                requires
                    w2 == 1,
            ;
            assert(2 * (h as int) * q == 0) by (nonlinear_arith)
                requires
                    q == 0,
            ;
            assert(2 * a < h as int);
            assert(0 <= w2 * h - w * h2 <= h as int);
        }
    }
}

/// Target dimensions for a `width x height` region in an
/// `inner_width x inner_height` interior box: aspect ratio kept within
/// rounding, both sides at least one pixel, and neither side past the box.
/// A region with a zero side has no scale factor.
pub fn scale_to_fit(width: u32, height: u32, inner_width: u32, inner_height: u32) -> (r: Result<
    (u32, u32),
    NormalizeError,
>)
    requires
        inner_width > 0,
        inner_height > 0,
    ensures
        r is Err <==> width == 0 || height == 0,
        r is Err ==> r == Err::<(u32, u32), NormalizeError>(NormalizeError::InvalidGeometry),
        r matches Ok((w2, h2)) ==> (w2 as int, h2 as int) == fit_spec(
            width as int,
            height as int,
            inner_width as int,
            inner_height as int,
        ),
        r matches Ok((w2, h2)) ==> 1 <= w2 <= inner_width && 1 <= h2 <= inner_height,
{
    if width == 0 || height == 0 {
        return Err(NormalizeError::InvalidGeometry);
    }
    proof {
        assert(0 <= inner_width as int * height as int <= u64::MAX) by (nonlinear_arith)
            requires
                inner_width <= u32::MAX,
                height <= u32::MAX,
        ;
        assert(0 <= inner_height as int * width as int <= u64::MAX) by (nonlinear_arith)
            requires
                inner_height <= u32::MAX,
                width <= u32::MAX,
        ;
    }
    if inner_width as u64 * height as u64 <= inner_height as u64 * width as u64 {
        proof {
            assert(0 <= height as int * inner_width as int <= u64::MAX) by (nonlinear_arith)
                requires
                    inner_width <= u32::MAX,
                    height <= u32::MAX,
            ;
            assert(height as int * inner_width as int <= inner_height as int * width as int) by (nonlinear_arith)
                requires
                    inner_width as int * height as int <= inner_height as int * width as int,
            ;
            lemma_round_div_le(height as int * inner_width as int, width as int, inner_height as int);
            lemma_round_div(height as int * inner_width as int, width as int);
        }
        let q: u128 = (2 * (height as u128 * inner_width as u128) + width as u128) / (2 * width as u128);
        let h2: u32 = if q == 0 { 1 } else { q as u32 };
        Ok((inner_width, h2))
    } else {
        proof {
            assert(0 <= width as int * inner_height as int <= u64::MAX) by (nonlinear_arith)
                requires
                    inner_height <= u32::MAX,
                    width <= u32::MAX,
            ;
            assert(width as int * inner_height as int <= inner_width as int * height as int) by (nonlinear_arith)
                requires
                    inner_width as int * height as int > inner_height as int * width as int,
            ;
            lemma_round_div_le(width as int * inner_height as int, height as int, inner_width as int);
            lemma_round_div(width as int * inner_height as int, height as int);
        }
        let q: u128 = (2 * (width as u128 * inner_height as u128) + height as u128) / (2 * height as u128);
        let w2: u32 = if q == 0 { 1 } else { q as u32 };
        Ok((w2, inner_height))
    }
}

} // verus!
