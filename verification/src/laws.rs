use vstd::prelude::*;
use crate::blend::{blend_alpha, blend_channel, blended_byte, out_alpha_num, round_div};
use crate::color::Color;
use crate::sample::{circle_count, oval_count, sample_pattern};
use crate::shader::Radial;
use crate::surface::{cleared_buf, circle_result, effective_shader, oval_result, rect_result};
use crate::text::{text_result, GlyphRaster};

verus! {

/// After `clear(r,g,b,a)`, reading the buffer back finds exactly the
/// clear color in every pixel: clearing replaces pixel values, it never
/// blends with what was there.
pub proof fn lemma_clear_reads_back(len: nat, c: Color, p: int, k: int)
    requires
        0 <= p,
        0 <= k < 4,
        4 * p + k < len,
    ensures
        cleared_buf(len, c)[4 * p + k] == c.chan(k),
{
    vstd::arithmetic::div_mod::lemma_fundamental_div_mod_converse(4 * p + k, 4, p, k);
}

/// A fully opaque source (alpha numerator equal to its denominator)
/// composited onto a fully transparent destination yields exactly the
/// source channel and full alpha.
pub proof fn lemma_opaque_over_transparent(s: int, d: int, sn: int)
    requires
        0 <= s <= 255,
        1 <= sn,
    ensures
        blend_channel(s, d, 0, sn, sn) == s,
        blend_alpha(0, sn, sn) == 255,
{
    let an = out_alpha_num(sn, sn, 0);
    assert(an == 255 * sn);
    let nc = 255 * s * sn + d * 0 * (sn - sn);
    assert(d * 0 * (sn - sn) == 0);
    assert(nc == 255 * s * sn);
    assert(2 * nc + an == s * (2 * (255 * sn)) + 255 * sn) by (nonlinear_arith)
        requires nc == 255 * s * sn, an == 255 * sn;
    vstd::arithmetic::div_mod::lemma_fundamental_div_mod_converse(
        2 * nc + an,
        2 * (255 * sn),
        s,
        255 * sn,
    );
    assert(round_div(nc, an) == s);
    assert(2 * an + sn == 255 * (2 * sn) + sn) by (nonlinear_arith)
        requires an == 255 * sn;
    vstd::arithmetic::div_mod::lemma_fundamental_div_mod_converse(
        2 * an + sn,
        2 * sn,
        255,
        sn,
    );
    assert(round_div(an, sn) == 255);
}

/// Drawing a fully opaque rectangle onto a fully transparent surface
/// gives exactly the paint color (with full alpha) at every pixel of
/// the clipped box, and leaves every pixel outside it untouched.
pub proof fn lemma_opaque_rect_on_transparent(
    b: Seq<u8>,
    sw: int,
    x0: int,
    x1: int,
    y0: int,
    y1: int,
    c: Color,
    px: int,
    py: int,
    k: int,
)
    requires
        forall|i: int| 0 <= i < b.len() ==> b[i] == 0u8,
        c.a == 255,
        0 <= k < 4,
        0 <= px < sw,
        0 <= py,
        4 * (py * sw + px) + 4 <= b.len(),
    ensures
        x0 <= px < x1 && y0 <= py < y1 ==> rect_result(b, sw, x0, x1, y0, y1, c)[4 * (py * sw + px)
            + k] == c.chan(k),
        !(x0 <= px < x1 && y0 <= py < y1) ==> rect_result(b, sw, x0, x1, y0, y1, c)[4 * (py * sw
            + px) + k] == 0u8,
{
    let p = py * sw + px;
    vstd::arithmetic::div_mod::lemma_fundamental_div_mod_converse(4 * p + k, 4, p, k);
    vstd::arithmetic::div_mod::lemma_fundamental_div_mod_converse(p, sw, py, px);
    if x0 <= px < x1 && y0 <= py < y1 {
        assert(b[4 * p + k] == 0u8 && b[4 * p + 3] == 0u8);
        lemma_opaque_over_transparent(c.chan(k) as int, b[4 * p + k] as int, 255);
        assert(rect_result(b, sw, x0, x1, y0, y1, c)[4 * p + k] == blended_byte(
            b,
            4 * p,
            c,
            c.a as int,
            255,
            k,
        ));
    }
}

/// Drawing a fully opaque circle onto a fully transparent surface gives
/// exactly the paint color (with full alpha) at every fully covered
/// pixel, and leaves every zero-coverage pixel untouched.
pub proof fn lemma_opaque_circle_on_transparent(
    b: Seq<u8>,
    sw: int,
    pat: Seq<(i64, i64)>,
    cx: int,
    cy: int,
    r: int,
    c: Color,
    px: int,
    py: int,
    k: int,
)
    requires
        forall|i: int| 0 <= i < b.len() ==> b[i] == 0u8,
        c.a == 255,
        1 <= pat.len(),
        0 <= k < 4,
        0 <= px < sw,
        0 <= py,
        4 * (py * sw + px) + 4 <= b.len(),
    ensures
        circle_count(pat, cx, cy, r, px, py) == pat.len() ==> circle_result(
            b,
            sw,
            pat,
            cx,
            cy,
            r,
            c,
        )[4 * (py * sw + px) + k] == c.chan(k),
        circle_count(pat, cx, cy, r, px, py) == 0 ==> circle_result(b, sw, pat, cx, cy, r, c)[4
            * (py * sw + px) + k] == 0u8,
{
    let p = py * sw + px;
    let i = 4 * p + k;
    vstd::arithmetic::div_mod::lemma_fundamental_div_mod_converse(4 * p + k, 4, p, k);
    vstd::arithmetic::div_mod::lemma_fundamental_div_mod_converse(p, sw, py, px);
    let cov = circle_count(pat, cx, cy, r, px, py);
    if cov == pat.len() {
        let sn = c.a * cov;
        assert(sn == 255 * pat.len() as int && sn >= 1) by (nonlinear_arith)
            requires sn == c.a * cov, c.a == 255, cov == pat.len(), pat.len() >= 1;
        assert(b[4 * p + k] == 0u8 && b[4 * p + 3] == 0u8);
        lemma_opaque_over_transparent(c.chan(k) as int, b[4 * p + k] as int, sn);
        assert(circle_result(b, sw, pat, cx, cy, r, c)[i] == blended_byte(
            b,
            4 * p,
            c,
            c.a * cov,
            255 * pat.len() as int,
            k,
        ));
    }
}

/// A pixel with every sample point outside the circle has coverage 0 —
/// and a zero-coverage pixel is never written, so pixels beyond a
/// shape's extent keep their previous value exactly.
pub proof fn lemma_all_samples_outside_zero_coverage(
    pat: Seq<(i64, i64)>,
    cx: int,
    cy: int,
    r: int,
    x: int,
    y: int,
)
    requires
        forall|j: int|
            0 <= j < pat.len() ==> !crate::sample::circle_inside(
                cx,
                cy,
                r,
                8 * x + (#[trigger] pat[j]).0,
                8 * y + pat[j].1,
            ),
    ensures
        circle_count(pat, cx, cy, r, x, y) == 0,
    decreases pat.len(),
{
    if pat.len() > 0 {
        assert(pat.last() == pat[pat.len() - 1]);
        lemma_all_samples_outside_zero_coverage(pat.drop_last(), cx, cy, r, x, y);
    }
}

/// Compositing is not idempotent: blending a source alpha onto a pixel
/// never lowers the pixel's alpha byte, and strictly raises it whenever
/// the pixel is not yet opaque and the increment reaches half a
/// quantization step — so repeating an identical blended draw without
/// clearing keeps changing such pixels. (A fully opaque or a zero source
/// alpha can land on the same byte; the law therefore speaks of the
/// alpha channel, where the increase is provable, not of every channel.)
pub proof fn lemma_blend_alpha_monotone(da: int, s_num: int, s_den: int)
    requires
        0 <= da <= 255,
        0 <= s_num <= s_den,
        1 <= s_den,
    ensures
        blend_alpha(da, s_num, s_den) >= da,
        da <= 254 && 2 * s_num * (255 - da) >= s_den ==> blend_alpha(da, s_num, s_den) >= da + 1,
{
    let an = out_alpha_num(s_num, s_den, da);
    assert(an == da * s_den + s_num * (255 - da) && an >= da * s_den) by (nonlinear_arith)
        requires
            an == 255 * s_num + da * (s_den - s_num),
            0 <= s_num,
            0 <= da <= 255,
            s_num <= s_den,
    ;
    assert(2 * an + s_den >= da * (2 * s_den) + s_den) by (nonlinear_arith)
        requires an >= da * s_den;
    vstd::arithmetic::div_mod::lemma_fundamental_div_mod_converse(
        da * (2 * s_den) + s_den,
        2 * s_den,
        da,
        s_den,
    );
    vstd::arithmetic::div_mod::lemma_div_is_ordered(
        da * (2 * s_den) + s_den,
        2 * an + s_den,
        2 * s_den,
    );
    assert(round_div(an, s_den) >= da);
    if da <= 254 && 2 * s_num * (255 - da) >= s_den {
        assert(2 * an + s_den >= (da + 1) * (2 * s_den)) by (nonlinear_arith)
            requires
                an == da * s_den + s_num * (255 - da),
                2 * s_num * (255 - da) >= s_den,
        ;
        vstd::arithmetic::div_mod::lemma_fundamental_div_mod_converse(
            (da + 1) * (2 * s_den),
            2 * s_den,
            da + 1,
            0,
        );
        vstd::arithmetic::div_mod::lemma_div_is_ordered(
            (da + 1) * (2 * s_den),
            2 * an + s_den,
            2 * s_den,
        );
        assert(round_div(an, s_den) >= da + 1);
    }
}

/// Reproducibility: every drawing operation is a pure function of the
/// starting buffer and its arguments, so replaying the same draw on an
/// identical surface produces a byte-identical result.
pub proof fn lemma_draw_deterministic(
    b1: Seq<u8>,
    b2: Seq<u8>,
    sw: int,
    pat: Seq<(i64, i64)>,
    x0: int,
    x1: int,
    y0: int,
    y1: int,
    cx: int,
    cy: int,
    r: int,
    rx: int,
    ry: int,
    sh: Radial,
    glyphs: Seq<GlyphRaster>,
    c: Color,
)
    requires
        b1 == b2,
    ensures
        rect_result(b1, sw, x0, x1, y0, y1, c) == rect_result(b2, sw, x0, x1, y0, y1, c),
        circle_result(b1, sw, pat, cx, cy, r, c) == circle_result(b2, sw, pat, cx, cy, r, c),
        oval_result(b1, sw, pat, cx, cy, rx, ry, sh) == oval_result(b2, sw, pat, cx, cy, rx, ry, sh),
        text_result(b1, sw, glyphs, c) == text_result(b2, sw, glyphs, c),
{
}

/// With a single sample per pixel, coverage is binary: a pixel is either
/// fully outside (0) or fully counted (1), so edges carry no fractional
/// alpha.
pub proof fn lemma_one_sample_binary(cx: int, cy: int, r: int, rx: int, ry: int, x: int, y: int)
    ensures
        circle_count(sample_pattern(1), cx, cy, r, x, y) == 0 || circle_count(
            sample_pattern(1),
            cx,
            cy,
            r,
            x,
            y,
        ) == 1,
        oval_count(sample_pattern(1), cx, cy, rx, ry, x, y) == 0 || oval_count(
            sample_pattern(1),
            cx,
            cy,
            rx,
            ry,
            x,
            y,
        ) == 1,
{
    crate::sample::lemma_circle_count_le(sample_pattern(1), cx, cy, r, x, y);
    crate::sample::lemma_oval_count_le(sample_pattern(1), cx, cy, rx, ry, x, y);
}

/// A partially covered pixel shows a fractional edge: compositing an
/// opaque paint at coverage `cov` of `n` samples (neither none nor all)
/// onto a transparent pixel writes an alpha byte strictly between 0 and
/// 255. Together with the binary-coverage law for one sample, this is
/// what makes multi-sample edges visibly antialiased.
pub proof fn lemma_fractional_coverage_fractional_alpha(cov: int, n: int)
    requires
        1 <= cov,
        cov < n,
        n <= 8,
    ensures
        0 < blend_alpha(0, 255 * cov, 255 * n) < 255,
{
    let s_num = 255 * cov;
    let s_den = 255 * n;
    let an = out_alpha_num(s_num, s_den, 0);
    assert(an == 255 * (255 * cov));
    assert(2 * an + s_den >= 1 * (2 * s_den) + 0 && 2 * an + s_den < 255 * (2 * s_den))
        by (nonlinear_arith)
        requires
            an == 255 * (255 * cov),
            s_den == 255 * n,
            1 <= cov,
            cov < n,
            n <= 8,
    ;
    vstd::arithmetic::div_mod::lemma_fundamental_div_mod_converse(
        1 * (2 * s_den) + 0,
        2 * s_den,
        1,
        0,
    );
    vstd::arithmetic::div_mod::lemma_div_is_ordered(
        1 * (2 * s_den) + 0,
        2 * an + s_den,
        2 * s_den,
    );
    vstd::arithmetic::div_mod::lemma_multiply_divide_lt(2 * an + s_den, 2 * s_den, 255);
    assert(1 <= round_div(an, s_den) < 255);
}

/// An oval drawn with no shader set produces the very buffer that first
/// installing the documented fallback gradient — opaque black at the
/// oval's own center fading to transparent at its smaller radius — and
/// then drawing would produce.
pub proof fn lemma_oval_default_shader(
    b: Seq<u8>,
    sw: int,
    pat: Seq<(i64, i64)>,
    cx: i64,
    cy: i64,
    rx: int,
    ry: int,
    rmin: i64,
)
    ensures
        oval_result(b, sw, pat, cx as int, cy as int, rx, ry, effective_shader(None, cx, cy, rmin))
            == oval_result(
            b,
            sw,
            pat,
            cx as int,
            cy as int,
            rx,
            ry,
            effective_shader(
                Some(
                    Radial {
                        cx,
                        cy,
                        r: rmin,
                        c0: Color { r: 0, g: 0, b: 0, a: 255 },
                        c1: Color { r: 0, g: 0, b: 0, a: 0 },
                    },
                ),
                cx,
                cy,
                rmin,
            ),
        ),
{
}

} // verus!
