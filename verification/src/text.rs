use vstd::prelude::*;
use crate::blend::{blend_src_over, blended_byte};
use crate::color::Color;
use crate::surface::Surface;

verus! {

/// One glyph delivered by an external shaping step: its pixel-space
/// placement (`left`, `top` of its bounding box), its dimensions, and a
/// row-major coverage byte per cell (0 = outside the outline, 255 =
/// fully covered).
pub struct GlyphRaster {
    pub left: i64,
    pub top: i64,
    pub width: usize,
    pub height: usize,
    pub coverage: Vec<u8>,
}

/// The coverage buffer matches the dimensions, and the placement stays
/// within bounds that keep pixel positions inside `i64`.
pub open spec fn glyph_wf(g: GlyphRaster) -> bool {
    &&& g.coverage.len() == g.width * g.height
    &&& g.width <= 0x10000
    &&& g.height <= 0x10000
    &&& -0x1_0000_0000 <= g.left <= 0x1_0000_0000
    &&& -0x1_0000_0000 <= g.top <= 0x1_0000_0000
}

/// The buffer after compositing one glyph with paint color `c`: every
/// surface pixel under a glyph cell with nonzero coverage `v` is
/// source-over blended with source alpha `(v / 255) * (c.a / 255)`;
/// cells off the surface are dropped.
pub open spec fn glyph_applied(b: Seq<u8>, sw: int, g: GlyphRaster, c: Color) -> Seq<u8> {
    Seq::new(
        b.len(),
        |i: int|
            {
                let p = i / 4;
                let px = p % sw;
                let py = p / sw;
                let gx = px - g.left;
                let gy = py - g.top;
                if 0 <= gx < g.width && 0 <= gy < g.height && g.coverage[gy * g.width + gx] > 0 {
                    blended_byte(
                        b,
                        4 * p,
                        c,
                        (g.coverage[gy * g.width + gx] as int) * c.a,
                        65025,
                        i % 4,
                    )
                } else {
                    b[i]
                }
            },
    )
}

/// The buffer after compositing a sequence of glyphs in order.
pub open spec fn text_result(b: Seq<u8>, sw: int, glyphs: Seq<GlyphRaster>, c: Color) -> Seq<u8>
    decreases glyphs.len(),
{
    if glyphs.len() == 0 {
        b
    } else {
        text_result(glyph_applied(b, sw, glyphs[0], c), sw, glyphs.drop_first(), c)
    }
}

/// Compositing the glyphs of `s` and then `g` is compositing `s.push(g)`.
pub proof fn lemma_text_result_push(
    b: Seq<u8>,
    sw: int,
    s: Seq<GlyphRaster>,
    g: GlyphRaster,
    c: Color,
)
    ensures
        text_result(b, sw, s.push(g), c) == glyph_applied(text_result(b, sw, s, c), sw, g, c),
    decreases s.len(),
{
    if s.len() == 0 {
        assert(s.push(g).drop_first() =~= Seq::<GlyphRaster>::empty());
        assert(s.push(g)[0] == g);
        assert(text_result(b, sw, s.push(g), c) == text_result(
            glyph_applied(b, sw, g, c),
            sw,
            Seq::<GlyphRaster>::empty(),
            c,
        ));
        assert(text_result(glyph_applied(b, sw, g, c), sw, Seq::<GlyphRaster>::empty(), c)
            == glyph_applied(b, sw, g, c));
        assert(text_result(b, sw, s, c) == b);
    } else {
        assert(s.push(g).drop_first() =~= s.drop_first().push(g));
        assert(s.push(g)[0] == s[0]);
        assert(text_result(b, sw, s.push(g), c) == text_result(
            glyph_applied(b, sw, s[0], c),
            sw,
            s.drop_first().push(g),
            c,
        ));
        lemma_text_result_push(glyph_applied(b, sw, s[0], c), sw, s.drop_first(), g, c);
        assert(text_result(b, sw, s, c) == text_result(
            glyph_applied(b, sw, s[0], c),
            sw,
            s.drop_first(),
            c,
        ));
    }
}

/// Composites one glyph's coverage onto the buffer.
#[verifier::loop_isolation(false)]
fn draw_glyph(buf: &mut Vec<u8>, sw: usize, shh: usize, g: &GlyphRaster, c: Color)
    requires
        glyph_wf(*g),
        1 <= sw,
        1 <= shh,
        sw * shh <= 0x1000_0000,
        old(buf).len() == sw * shh * 4,
    ensures
        final(buf).len() == old(buf).len(),
        final(buf)@ == glyph_applied(old(buf)@, sw as int, *g, c),
{
    let gw = g.width;
    let gh = g.height;
    assert(gw * gh <= 0x1_0000_0000) by (nonlinear_arith)
        requires gw <= 0x10000, gh <= 0x10000;
    assert(sw <= 0x1000_0000 && shh <= 0x1000_0000) by (nonlinear_arith)
        requires 1 <= sw, 1 <= shh, sw * shh <= 0x1000_0000;
    let ncell: usize = gw * gh;
    let ghost res = glyph_applied(old(buf)@, sw as int, *g, c);
    let ghost gg = *g;
    let mut gp: usize = 0;
    while gp < ncell
        invariant
            gp <= ncell,
            buf.len() == old(buf).len(),
            forall|i: int|
                #![trigger buf@[i]]
                {
                    let p = i / 4;
                    let gx = p % (sw as int) - gg.left;
                    let gy = p / (sw as int) - gg.top;
                    (0 <= i < buf.len() && 0 <= gx < gg.width && 0 <= gy < gg.height && gy
                        * gg.width + gx < gp && gg.coverage[gy * gg.width + gx] > 0) ==> buf[i]
                        == res[i]
                },
            forall|i: int|
                #![trigger buf@[i]]
                {
                    let p = i / 4;
                    let gx = p % (sw as int) - gg.left;
                    let gy = p / (sw as int) - gg.top;
                    (0 <= i < buf.len() && !(0 <= gx < gg.width && 0 <= gy < gg.height && gy
                        * gg.width + gx < gp && gg.coverage[gy * gg.width + gx] > 0)) ==> buf[i]
                        == old(buf)[i]
                },
        decreases ncell - gp,
    {
        let gx = gp % gw;
        let gy = gp / gw;
        proof {
            vstd::arithmetic::div_mod::lemma_multiply_divide_lt(gp as int, gw as int, gh as int);
            vstd::arithmetic::div_mod::lemma_fundamental_div_mod(gp as int, gw as int);
        }
        let v = g.coverage[gp];
        let ghost prev = buf@;
        let mut touched: bool = false;
        let ghost mut tp: int = 0;
        if v > 0 {
            let pxs: i64 = g.left + gx as i64;
            let pys: i64 = g.top + gy as i64;
            if 0 <= pxs && pxs < sw as i64 && 0 <= pys && pys < shh as i64 {
                let px = pxs as usize;
                let py = pys as usize;
                assert(py * sw + px < sw * shh && py * sw + px < 0x1000_0000)
                    by (nonlinear_arith)
                    requires px < sw, py < shh, sw * shh <= 0x1000_0000;
                let p: usize = py * sw + px;
                assert((v as u64) * (c.a as u64) <= 65025) by (nonlinear_arith)
                    requires v <= 255, c.a <= 255;
                let s_num: u64 = (v as u64) * (c.a as u64);
                assert(4 * p + 4 <= buf.len());
                blend_src_over(buf, 4 * p, c, s_num, 65025);
                touched = true;
                proof {
                    tp = p as int;
                    vstd::arithmetic::div_mod::lemma_fundamental_div_mod_converse(
                        (py * sw + px) as int, sw as int, py as int, px as int);
                }
            }
        }
        proof {
            let gpi = gp as int;
            let swi = sw as int;
            assert forall|i: int| #![trigger buf@[i]] 0 <= i < buf.len() implies {
                let p = i / 4;
                let gx2 = p % swi - gg.left;
                let gy2 = p / swi - gg.top;
                (if 0 <= gx2 < gg.width && 0 <= gy2 < gg.height && gy2 * gg.width + gx2 < gpi + 1
                    && gg.coverage[gy2 * gg.width + gx2] > 0 {
                    buf[i] == res[i]
                } else {
                    buf[i] == old(buf)[i]
                })
            } by {
                let p = i / 4;
                let k = i % 4;
                vstd::arithmetic::div_mod::lemma_fundamental_div_mod(i, 4);
                vstd::arithmetic::div_mod::lemma_fundamental_div_mod_converse(4 * p + k, 4, p, k);
                vstd::arithmetic::div_mod::lemma_fundamental_div_mod_converse(4 * p + 3, 4, p, 3);
                vstd::arithmetic::div_mod::lemma_fundamental_div_mod(p, swi);
                vstd::arithmetic::div_mod::lemma_mod_division_less_than_divisor(p, swi);
                vstd::arithmetic::div_mod::lemma_multiply_divide_lt(p, swi, shh as int);
                vstd::arithmetic::div_mod::lemma_fundamental_div_mod(gpi, gw as int);
                let gx2 = p % swi - gg.left;
                let gy2 = p / swi - gg.top;
                if touched && p == tp {
                    // the pixel written this iteration: its glyph cell is gp
                    assert(gx2 == gp as int % gw as int && gy2 == gp as int / gw as int);
                    assert(gy2 * gg.width + gx2 == gpi) by (nonlinear_arith)
                        requires
                            gpi == (gw as int) * (gpi / (gw as int)) + gpi % (gw as int),
                            gx2 == gpi % (gw as int),
                            gy2 == gpi / (gw as int),
                            gg.width == gw,
                    ;
                    assert(0 <= 4 * p + k < buf.len() && (4 * p + k) / 4 == p);
                    assert(prev[4 * p + k] == old(buf)[4 * p + k]);
                    assert(prev[4 * p + 3] == old(buf)[4 * p + 3]);
                    assert(gg.coverage[gy2 * gg.width + gx2] > 0);
                    assert(buf[i] == blended_byte(
                        prev,
                        4 * p,
                        c,
                        (gg.coverage[gpi] as int) * c.a,
                        65025,
                        k,
                    ));
                    assert(blended_byte(prev, 4 * p, c, (gg.coverage[gpi] as int) * c.a, 65025, k)
                        == blended_byte(
                        old(buf)@,
                        4 * p,
                        c,
                        (gg.coverage[gpi] as int) * c.a,
                        65025,
                        k,
                    ));
                    assert(res[i] == blended_byte(
                        old(buf)@,
                        4 * p,
                        c,
                        (gg.coverage[gpi] as int) * c.a,
                        65025,
                        k,
                    ));
                } else {
                    if touched {
                        assert(i / 4 != tp);
                        if i / 4 < tp {
                            assert(i < 4 * tp);
                        } else {
                            assert(i >= 4 * tp + 4);
                        }
                    }
                    assert(buf[i] == prev[i]);
                    if 0 <= gx2 < gg.width && 0 <= gy2 < gg.height && gy2 * gg.width + gx2 == gpi
                        && gg.coverage[gy2 * gg.width + gx2] > 0 {
                        // this cell's pixel is on the surface, so it was just written
                        vstd::arithmetic::div_mod::lemma_fundamental_div_mod_converse(
                            gy2 * (gg.width as int) + gx2, gw as int, gy2, gx2);
                        assert(gpi % (gw as int) == gx2 && gpi / (gw as int) == gy2);
                        assert(p % swi == gg.left + gx2 && p / swi == gg.top + gy2);
                        vstd::arithmetic::div_mod::lemma_div_pos_is_pos(p, swi);
                        assert(touched);
                        assert(tp == (p / swi) * swi + (p % swi));
                        assert(p == tp) by (nonlinear_arith)
                            requires
                                tp == (p / swi) * swi + (p % swi),
                                p == swi * (p / swi) + p % swi,
                        ;
                        assert(false);
                    }
                }
            }
        }
        gp = gp + 1;
    }
    proof {
        assert forall|i: int| #![trigger buf@[i]] 0 <= i < buf.len() implies buf[i] == res[i] by {
            let p = i / 4;
            vstd::arithmetic::div_mod::lemma_fundamental_div_mod(i, 4);
            let gx2 = p % (sw as int) - gg.left;
            let gy2 = p / (sw as int) - gg.top;
            if 0 <= gx2 < gg.width && 0 <= gy2 < gg.height {
                assert(gy2 * gg.width + gx2 < ncell) by (nonlinear_arith)
                    requires
                        0 <= gx2 < gg.width,
                        0 <= gy2 < gg.height,
                        ncell == gg.width * gg.height,
                ;
            }
        }
        assert(buf@ =~= res);
    }
}

impl Surface {
    /// Composites pre-shaped text onto the surface: each glyph's coverage
    /// bitmap is blended with the paint color, the paint alpha scaled per
    /// cell by the coverage fraction; cells falling outside the surface
    /// are silently dropped. With no font loaded this is a silent no-op,
    /// never an error, whatever glyphs are passed.
    #[verifier::loop_isolation(false)]
    pub fn draw_text(&mut self, glyphs: &Vec<GlyphRaster>, r: u8, g: u8, b: u8, a: u8)
        requires
            old(self).wf(),
            old(self).font is Some ==> forall|i: int|
                0 <= i < glyphs@.len() ==> glyph_wf(#[trigger] glyphs@[i]),
        ensures
            final(self).wf(),
            final(self).same_config(*old(self)),
            old(self).font is None ==> final(self).buf@ == old(self).buf@,
            old(self).font is Some ==> final(self).buf@ == text_result(
                old(self).buf@,
                old(self).width as int,
                glyphs@,
                Color { r, g, b, a },
            ),
    {
        if !self.has_font() {
            return ;
        }
        let c = Color::new(r, g, b, a);
        let sw = self.width;
        let shh = self.height;
        let mut gi: usize = 0;
        while gi < glyphs.len()
            invariant
                gi <= glyphs@.len(),
                self.buf.len() == old(self).buf.len(),
                self.same_config(*old(self)),
                self.buf@ == text_result(old(self).buf@, sw as int, glyphs@.take(gi as int), c),
            decreases glyphs@.len() - gi,
        {
            let ghost before = self.buf@;
            draw_glyph(&mut self.buf, sw, shh, &glyphs[gi], c);
            proof {
                assert(glyphs@.take(gi + 1) =~= glyphs@.take(gi as int).push(glyphs@[gi as int]));
                lemma_text_result_push(
                    old(self).buf@,
                    sw as int,
                    glyphs@.take(gi as int),
                    glyphs@[gi as int],
                    c,
                );
            }
            gi = gi + 1;
        }
        proof {
            assert(glyphs@.take(glyphs@.len() as int) =~= glyphs@);
        }
    }
}

} // verus!
