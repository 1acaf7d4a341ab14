use vstd::prelude::*;
use crate::color::Color;

verus! {

/// Upper bound on the source-alpha denominator accepted by the compositor.
/// Every drawing path stays far below it, and it keeps all intermediate
/// products of the blend arithmetic inside `u64`.
pub const BLEND_DEN_MAX: u64 = 0x100_0000_0000;

/// Numerator of the blended output alpha, over the denominator `255 * s_den`.
///
/// The source alpha is the rational `s_num / s_den` (a paint alpha already
/// scaled by a coverage fraction); `da` is the destination alpha byte.
/// This is `255 * s_den` times `sa + da/255 * (1 - sa)`.
pub open spec fn out_alpha_num(s_num: int, s_den: int, da: int) -> int {
    255 * s_num + da * (s_den - s_num)
}

/// `n / d` rounded to the nearest integer, halves rounding up (`d > 0`).
pub open spec fn round_div(n: int, d: int) -> int {
    (2 * n + d) / (2 * d)
}

/// The source-over blended color channel, as a byte value.
///
/// With every quantity normalized to `[0,1]`, the rule is
/// `out = (s*sa + d*da*(1-sa)) / out_a` when `out_a != 0`, else `0`,
/// rounded to the nearest byte and clamped to `[0,255]`.
/// Here it is evaluated exactly over the common denominator
/// `255 * 255 * s_den`: `s` and `d` are the source and destination
/// channel bytes and `da` the destination alpha byte.
pub open spec fn blend_channel(s: int, d: int, da: int, s_num: int, s_den: int) -> int {
    let an = out_alpha_num(s_num, s_den, da);
    if an == 0 {
        0
    } else {
        let nc = 255 * s * s_num + d * da * (s_den - s_num);
        if round_div(nc, an) > 255 {
            255
        } else {
            round_div(nc, an)
        }
    }
}

/// The source-over blended alpha, as a byte value: `out_a` rounded to the
/// nearest byte and clamped to `[0,255]`.
pub open spec fn blend_alpha(da: int, s_num: int, s_den: int) -> int {
    if round_div(out_alpha_num(s_num, s_den, da), s_den) > 255 {
        255
    } else {
        round_div(out_alpha_num(s_num, s_den, da), s_den)
    }
}

/// The byte that source-over blending writes at channel `k` (0..4) of the
/// pixel whose first byte sits at `base` in `b`, for paint color `c` with
/// source alpha `s_num / s_den`.
pub open spec fn blended_byte(
    b: Seq<u8>,
    base: int,
    c: Color,
    s_num: int,
    s_den: int,
    k: int,
) -> u8 {
    if k == 3 {
        blend_alpha(b[base + 3] as int, s_num, s_den) as u8
    } else {
        blend_channel(
            c.chan(k) as int,
            b[base + k] as int,
            b[base + 3] as int,
            s_num,
            s_den,
        ) as u8
    }
}

/// Composites the paint color `c` with source alpha `s_num / s_den` onto the
/// 4-byte pixel at `base`, with the Porter-Duff source-over rule.
pub fn blend_src_over(buf: &mut Vec<u8>, base: usize, c: Color, s_num: u64, s_den: u64)
    requires
        base + 4 <= old(buf).len(),
        1 <= s_den <= BLEND_DEN_MAX,
        s_num <= s_den,
    ensures
        final(buf).len() == old(buf).len(),
        forall|i: int|
            0 <= i < final(buf).len() && !(base <= i < base + 4) ==> final(buf)[i] == old(
                buf,
            )[i],
        forall|k: int|
            0 <= k < 4 ==> final(buf)[base + k] == blended_byte(
                old(buf)@,
                base as int,
                c,
                s_num as int,
                s_den as int,
                k,
            ),
{
    let d0 = buf[base];
    let d1 = buf[base + 1];
    let d2 = buf[base + 2];
    let da = buf[base + 3];
    let rest = s_den - s_num;
    assert((da as u64) * rest <= 255 * BLEND_DEN_MAX) by (nonlinear_arith)
        requires da <= 255, rest <= BLEND_DEN_MAX;
    let an: u64 = 255 * s_num + (da as u64) * rest;
    if an == 0 {
        buf.set(base, 0);
        buf.set(base + 1, 0);
        buf.set(base + 2, 0);
        proof {
            vstd::arithmetic::div_mod::lemma_basic_div(s_den as int, 2 * s_den as int);
        }
        let qa = (2 * an + s_den) / (2 * s_den);
        buf.set(base + 3, qa as u8);
    } else {
        let c0 = blend_one(c.r, d0, da, s_num, rest, an);
        let c1 = blend_one(c.g, d1, da, s_num, rest, an);
        let c2 = blend_one(c.b, d2, da, s_num, rest, an);
        buf.set(base, c0);
        buf.set(base + 1, c1);
        buf.set(base + 2, c2);
        let qa = (2 * an + s_den) / (2 * s_den);
        let ab: u8 = if qa > 255 {
            255
        } else {
            qa as u8
        };
        buf.set(base + 3, ab);
    }
}

/// One channel of the source-over blend, for a nonzero output alpha
/// numerator `an` over the denominator `255 * s_den`.
fn blend_one(s: u8, d: u8, da: u8, s_num: u64, rest: u64, an: u64) -> (r: u8)
    requires
        s_num + rest <= BLEND_DEN_MAX,
        an == 255 * s_num + (da as u64) * rest,
        an > 0,
    ensures
        r as int == blend_channel(
            s as int,
            d as int,
            da as int,
            s_num as int,
            (s_num + rest) as int,
        ),
{
    assert(255 * (s as u64) * s_num <= 255 * 255 * BLEND_DEN_MAX) by (nonlinear_arith)
        requires s <= 255, s_num <= BLEND_DEN_MAX;
    assert((d as u64) * (da as u64) <= 65025) by (nonlinear_arith)
        requires d <= 255, da <= 255;
    let dd: u64 = (d as u64) * (da as u64);
    assert(dd * rest <= 65025 * BLEND_DEN_MAX) by (nonlinear_arith)
        requires dd <= 65025, rest <= BLEND_DEN_MAX;
    assert((da as u64) * rest <= 255 * BLEND_DEN_MAX) by (nonlinear_arith)
        requires da <= 255, rest <= BLEND_DEN_MAX;
    let nc: u64 = 255 * (s as u64) * s_num + dd * rest;
    assert(dd * rest == (d as int) * (da as int) * (rest as int)) by (nonlinear_arith)
        requires dd == (d as u64) * (da as u64);
    let q = (2 * nc + an) / (2 * an);
    if q > 255 {
        255
    } else {
        q as u8
    }
}

} // verus!
