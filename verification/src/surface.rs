use vstd::prelude::*;
use crate::blend::{blend_src_over, blended_byte};
use crate::codec::{webp_encode_rgba, webp_of, EncodeError};
use crate::color::Color;
use crate::font::{font_parses, font_try_parse, FontError};
use crate::sample::{
    circle_count, circle_coverage, oval_count, oval_coverage, sample_pattern, sample_pattern_vec,
    COORD_LIMIT,
};
use crate::shader::{
    grad_alpha_num, grad_chan, grad_t_den, shader_wf, Radial, Stop,
};

verus! {

/// Largest surface dimension the fixed-point arithmetic supports: with
/// both dimensions below it, every squared sample distance stays
/// inside `i64`.
pub const MAX_DIM: usize = 0x400_0000;

/// Largest pixel count of a surface, a machine limit: it keeps the
/// buffer length `width * height * 4` inside `usize` on every platform.
pub const MAX_PIXELS: usize = 0x1000_0000;

/// Largest canvas dimension the external WebP codec accepts; encoding a
/// wider or taller surface fails with an `EncodeError`.
pub const WEBP_MAX_DIM: usize = 16384;

/// Bound on the rectangle inputs, so that clipping arithmetic stays
/// inside `i64`.
pub const RECT_LIMIT: i64 = 0x1_0000_0000;

/// A drawing surface: an RGBA8 pixel buffer (row major, 4 bytes per
/// pixel) together with its shading and antialiasing state.
pub struct Surface {
    pub width: usize,
    pub height: usize,
    pub buf: Vec<u8>,
    pub shader: Option<Radial>,
    pub aa_samples: u8,
    pub font: Option<rusttype::Font<'static>>,
    pub font_scale_milli: u64,
}

/// A dimension requested at creation, clamped to a minimum of 1.
pub open spec fn clamp_dim(v: int) -> int {
    if v < 1 {
        1
    } else {
        v
    }
}

/// The buffer that `clear` leaves behind: every pixel holds the four
/// channel bytes of `c`.
pub open spec fn cleared_buf(len: nat, c: Color) -> Seq<u8> {
    Seq::new(len, |i: int| c.chan(i % 4))
}

impl Surface {
    /// Structural invariant: positive clamped dimensions, a buffer of
    /// exactly `width * height * 4` bytes, a supported antialias level,
    /// and a shader (if any) within the coordinate limit.
    pub open spec fn wf(self) -> bool {
        &&& 1 <= self.width <= MAX_DIM
        &&& 1 <= self.height <= MAX_DIM
        &&& self.width * self.height <= MAX_PIXELS
        &&& self.buf.len() == self.width * self.height * 4
        &&& (self.aa_samples == 1 || self.aa_samples == 4 || self.aa_samples == 8)
        &&& match self.shader {
            Some(sh) => shader_wf(sh),
            None => true,
        }
    }

    /// The two surfaces agree on everything but the pixel buffer.
    pub open spec fn same_config(self, other: Surface) -> bool {
        &&& self.width == other.width
        &&& self.height == other.height
        &&& self.shader == other.shader
        &&& self.aa_samples == other.aa_samples
        &&& self.font == other.font
        &&& self.font_scale_milli == other.font_scale_milli
    }

    /// Creates a surface of the requested dimensions (each clamped to a
    /// minimum of 1, never rejected), zero-filled (fully transparent
    /// black), with the default 4-sample antialiasing, no shader, no
    /// font, and an 18-point font scale. The upper bound on the inputs
    /// is a machine limit of the fixed-point arithmetic, not a clamp.
    #[verifier::loop_isolation(false)]
    pub fn new(w: i64, h: i64) -> (s: Surface)
        requires
            w <= MAX_DIM as i64,
            h <= MAX_DIM as i64,
            clamp_dim(w as int) * clamp_dim(h as int) <= MAX_PIXELS as int,
        ensures
            s.wf(),
            s.width == clamp_dim(w as int),
            s.height == clamp_dim(h as int),
            s.buf@ == Seq::new((clamp_dim(w as int) * clamp_dim(h as int) * 4) as nat, |i: int| 0u8),
            s.shader is None,
            s.aa_samples == 4,
            s.font is None,
            s.font_scale_milli == 18000,
    {
        let wq: usize = if w < 1 {
            1
        } else {
            w as usize
        };
        let hq: usize = if h < 1 {
            1
        } else {
            h as usize
        };
        assert(wq * hq <= MAX_PIXELS);
        let len: usize = wq * hq * 4;
        let mut buf: Vec<u8> = Vec::new();
        while buf.len() < len
            invariant
                buf.len() <= len,
                forall|i: int| 0 <= i < buf.len() ==> buf[i] == 0u8,
            decreases len - buf.len(),
        {
            buf.push(0);
        }
        assert(buf@ =~= Seq::new((wq * hq * 4) as nat, |i: int| 0u8));
        Surface {
            width: wq,
            height: hq,
            buf,
            shader: None,
            aa_samples: 4,
            font: None,
            font_scale_milli: 18000,
        }
    }

    /// Overwrites every pixel with exactly the given channel values; the
    /// one operation that replaces instead of compositing.
    #[verifier::loop_isolation(false)]
    pub fn clear(&mut self, r: u8, g: u8, b: u8, a: u8)
        requires
            old(self).wf(),
        ensures
            final(self).wf(),
            final(self).same_config(*old(self)),
            final(self).buf@ == cleared_buf(old(self).buf.len() as nat, Color { r, g, b, a }),
    {
        let ghost c = Color { r, g, b, a };
        let len = self.buf.len();
        let mut i: usize = 0;
        while i < len
            invariant
                self.buf.len() == len,
                i <= len,
                self.same_config(*old(self)),
                forall|j: int| 0 <= j < i ==> self.buf[j] == c.chan(j % 4),
            decreases len - i,
        {
            let k = i % 4;
            let v = if k == 0 {
                r
            } else if k == 1 {
                g
            } else if k == 2 {
                b
            } else {
                a
            };
            self.buf.set(i, v);
            i = i + 1;
        }
        assert(self.buf@ =~= cleared_buf(old(self).buf.len() as nat, c));
    }

    /// An immutable snapshot of the buffer: width, height, row stride
    /// (always `width * 4`, no padding) and a copy of the pixel bytes.
    #[verifier::loop_isolation(false)]
    pub fn read_pixels(&self) -> (out: (usize, usize, usize, Vec<u8>))
        requires
            self.wf(),
        ensures
            out.0 == self.width,
            out.1 == self.height,
            out.2 == self.width * 4,
            out.3@ == self.buf@,
    {
        let mut copy: Vec<u8> = Vec::new();
        let mut i: usize = 0;
        while i < self.buf.len()
            invariant
                i <= self.buf.len(),
                copy.len() == i,
                forall|j: int| 0 <= j < i ==> copy[j] == self.buf[j],
            decreases self.buf.len() - i,
        {
            copy.push(self.buf[i]);
            i = i + 1;
        }
        assert(copy@ =~= self.buf@);
        (self.width, self.height, self.width * 4, copy)
    }

    /// Sets the antialias level from a boolean: 4 samples when enabled,
    /// 1 when disabled.
    pub fn set_antialias(&mut self, enabled: bool)
        requires
            old(self).wf(),
        ensures
            final(self).wf(),
            final(self).buf@ == old(self).buf@,
            final(self).aa_samples == if enabled { 4u8 } else { 1u8 },
            final(self).width == old(self).width,
            final(self).height == old(self).height,
            final(self).shader == old(self).shader,
            final(self).font == old(self).font,
            final(self).font_scale_milli == old(self).font_scale_milli,
    {
        self.aa_samples = if enabled {
            4
        } else {
            1
        };
    }

    /// Sets the antialias level from a sample count: 1, 4 and 8 are taken
    /// as given, every other value falls back to 4.
    pub fn set_antialias_samples(&mut self, n: i64)
        requires
            old(self).wf(),
        ensures
            final(self).wf(),
            final(self).buf@ == old(self).buf@,
            final(self).aa_samples == if n == 1 { 1u8 } else if n == 8 { 8u8 } else { 4u8 },
            final(self).width == old(self).width,
            final(self).height == old(self).height,
            final(self).shader == old(self).shader,
            final(self).font == old(self).font,
            final(self).font_scale_milli == old(self).font_scale_milli,
    {
        self.aa_samples = if n == 1 {
            1
        } else if n == 8 {
            8
        } else {
            4
        };
    }

    /// Installs a radial gradient shader, replacing any previous one. The
    /// start and end colors are the first and last stops' colors (black
    /// transparent when the list is empty); interior stops are ignored.
    pub fn set_radial_gradient(&mut self, cx: i64, cy: i64, r: i64, stops: &Vec<Stop>)
        requires
            old(self).wf(),
            -COORD_LIMIT <= cx <= COORD_LIMIT,
            -COORD_LIMIT <= cy <= COORD_LIMIT,
            -COORD_LIMIT <= r <= COORD_LIMIT,
        ensures
            final(self).wf(),
            final(self).buf@ == old(self).buf@,
            final(self).shader == Some(
                Radial {
                    cx,
                    cy,
                    r,
                    c0: stops_first_color(stops@),
                    c1: stops_last_color(stops@),
                },
            ),
            final(self).width == old(self).width,
            final(self).height == old(self).height,
            final(self).aa_samples == old(self).aa_samples,
            final(self).font == old(self).font,
            final(self).font_scale_milli == old(self).font_scale_milli,
    {
        let c0 = if stops.len() > 0 {
            stops[0].color
        } else {
            Color { r: 0, g: 0, b: 0, a: 0 }
        };
        let c1 = if stops.len() > 0 {
            stops[stops.len() - 1].color
        } else {
            Color { r: 0, g: 0, b: 0, a: 0 }
        };
        self.shader = Some(Radial { cx, cy, r, c0, c1 });
    }

    /// Loads a font from raw file bytes, replacing any previous font; on
    /// a parse failure the previous font is kept and an error returned.
    pub fn load_font(&mut self, data: Vec<u8>) -> (res: Result<(), FontError>)
        requires
            old(self).wf(),
        ensures
            final(self).wf(),
            final(self).buf@ == old(self).buf@,
            res is Ok <==> font_parses(data@),
            res is Ok ==> final(self).font is Some,
            res is Err ==> res == Result::<(), FontError>::Err(FontError::ParseFailed)
                && final(self).font == old(self).font,
            final(self).width == old(self).width,
            final(self).height == old(self).height,
            final(self).shader == old(self).shader,
            final(self).aa_samples == old(self).aa_samples,
            final(self).font_scale_milli == old(self).font_scale_milli,
    {
        match font_try_parse(data) {
            Some(f) => {
                self.font = Some(f);
                Ok(())
            },
            None => Err(FontError::ParseFailed),
        }
    }

    /// Whether a font is currently loaded.
    pub fn has_font(&self) -> (r: bool)
        ensures
            r == (self.font is Some),
    {
        match &self.font {
            Some(_) => true,
            None => false,
        }
    }

    /// The loaded font, if any, for an external shaping step.
    pub fn font_ref(&self) -> (r: Option<&rusttype::Font<'static>>)
        ensures
            r is Some <==> self.font is Some,
    {
        match &self.font {
            Some(f) => Some(f),
            None => None,
        }
    }

    /// Stores the text scale, in thousandths of a point, used by
    /// subsequent text draws.
    pub fn set_font_size(&mut self, points_milli: u64)
        requires
            old(self).wf(),
        ensures
            final(self).wf(),
            final(self).buf@ == old(self).buf@,
            final(self).font_scale_milli == points_milli,
            final(self).width == old(self).width,
            final(self).height == old(self).height,
            final(self).shader == old(self).shader,
            final(self).aa_samples == old(self).aa_samples,
            final(self).font == old(self).font,
    {
        self.font_scale_milli = points_milli;
    }

    /// The stored text scale, in thousandths of a point.
    pub fn font_scale_milli(&self) -> (r: u64)
        ensures
            r == self.font_scale_milli,
    {
        self.font_scale_milli
    }

    /// Encodes the buffer as a lossless WebP byte stream through the
    /// external codec. Encoding succeeds exactly when both dimensions
    /// are within the codec's canvas limit; beyond it the recoverable
    /// `EncodeError` is returned and nothing else happens.
    pub fn encode_webp(&self) -> (res: Result<Vec<u8>, EncodeError>)
        requires
            self.wf(),
        ensures
            res is Ok <==> self.width <= WEBP_MAX_DIM && self.height <= WEBP_MAX_DIM,
            res matches Ok(bytes) ==> bytes@ == webp_of(
                self.buf@,
                self.width as int,
                self.height as int,
            ),
            res matches Err(e) ==> e == EncodeError::EncodeFailed,
    {
        if self.width > WEBP_MAX_DIM || self.height > WEBP_MAX_DIM {
            return Err(EncodeError::EncodeFailed);
        }
        match webp_encode_rgba(&self.buf, self.width as u32, self.height as u32) {
            Some(bytes) => Ok(bytes),
            None => Err(EncodeError::EncodeFailed),
        }
    }
}

/// A clip bound from below: negative coordinates collapse to 0.
pub open spec fn clip_lo(v: int) -> int {
    if v < 0 {
        0
    } else {
        v
    }
}

/// A clip bound from above: coordinates beyond `limit` collapse to it.
pub open spec fn clip_hi(v: int, limit: int) -> int {
    if v > limit {
        limit
    } else {
        v
    }
}

/// The buffer after compositing the color `c`, with full coverage and
/// source alpha `c.a / 255`, over every pixel of the rectangle
/// `[x0, x1) x [y0, y1)` (pixel coordinates, row width `sw`).
pub open spec fn rect_result(
    b: Seq<u8>,
    sw: int,
    x0: int,
    x1: int,
    y0: int,
    y1: int,
    c: Color,
) -> Seq<u8> {
    Seq::new(
        b.len(),
        |i: int|
            {
                let p = i / 4;
                let px = p % sw;
                let py = p / sw;
                if x0 <= px < x1 && y0 <= py < y1 {
                    blended_byte(b, 4 * p, c, c.a as int, 255, i % 4)
                } else {
                    b[i]
                }
            },
    )
}

impl Surface {
    /// Composites an axis-aligned rectangle of the given color over the
    /// surface: every pixel of the rectangle clipped to the surface gets
    /// the color source-over blended with alpha `a / 255` (rectangles are
    /// pixel-aligned, so coverage is always 1 inside the clipped box).
    /// A non-positive width or height is a no-op.
    #[verifier::loop_isolation(false)]
    pub fn fill_rect(&mut self, x: i64, y: i64, w: i64, h: i64, r: u8, g: u8, b: u8, a: u8)
        requires
            old(self).wf(),
            w > 0 && h > 0 ==> -RECT_LIMIT <= x <= RECT_LIMIT && -RECT_LIMIT <= y <= RECT_LIMIT
                && w <= RECT_LIMIT && h <= RECT_LIMIT,
        ensures
            final(self).wf(),
            final(self).same_config(*old(self)),
            w <= 0 || h <= 0 ==> final(self).buf@ == old(self).buf@,
            w > 0 && h > 0 ==> final(self).buf@ == rect_result(
                old(self).buf@,
                old(self).width as int,
                clip_lo(x as int),
                clip_hi(x + w, old(self).width as int),
                clip_lo(y as int),
                clip_hi(y + h, old(self).height as int),
                Color { r, g, b, a },
            ),
    {
        if w <= 0 || h <= 0 {
            return ;
        }
        let c = Color::new(r, g, b, a);
        let sw = self.width;
        let sh = self.height;
        let x0: i64 = if x < 0 {
            0
        } else {
            x
        };
        let xw: i64 = x + w;
        let x1: i64 = if xw > sw as i64 {
            sw as i64
        } else {
            xw
        };
        let y0: i64 = if y < 0 {
            0
        } else {
            y
        };
        let yh: i64 = y + h;
        let y1: i64 = if yh > sh as i64 {
            sh as i64
        } else {
            yh
        };
        assert(sw * sh <= MAX_PIXELS);
        let npix: usize = sw * sh;
        let ghost res = rect_result(
            old(self).buf@,
            sw as int,
            x0 as int,
            x1 as int,
            y0 as int,
            y1 as int,
            c,
        );
        let mut p: usize = 0;
        while p < npix
            invariant
                p <= npix,
                self.buf.len() == old(self).buf.len(),
                self.same_config(*old(self)),
                forall|i: int| 0 <= i < self.buf.len() && i / 4 < p ==> self.buf[i] == res[i],
                forall|i: int|
                    0 <= i < self.buf.len() && i / 4 >= p ==> self.buf[i] == old(self).buf[i],
            decreases npix - p,
        {
            let px = p % sw;
            let py = p / sw;
            let ghost prev = self.buf@;
            let inside = x0 <= px as i64 && (px as i64) < x1 && y0 <= py as i64 && (py as i64)
                < y1;
            if inside {
                assert(4 * p + 4 <= self.buf.len());
                blend_src_over(&mut self.buf, 4 * p, c, a as u64, 255);
            }
            proof {
                let pi = p as int;
                assert forall|i: int| 0 <= i < self.buf.len() && i / 4 == pi
                    implies self.buf[i] == res[i] by {
                    let k = i % 4;
                    vstd::arithmetic::div_mod::lemma_fundamental_div_mod(i, 4);
                    vstd::arithmetic::div_mod::lemma_fundamental_div_mod_converse(
                        4 * pi + k, 4, pi, k);
                    vstd::arithmetic::div_mod::lemma_fundamental_div_mod_converse(
                        4 * pi + 3, 4, pi, 3);
                    if inside {
                        assert(prev[4 * pi + k] == old(self).buf[4 * pi + k]);
                        assert(prev[4 * pi + 3] == old(self).buf[4 * pi + 3]);
                        assert(self.buf[4 * pi + k] == blended_byte(
                            prev, 4 * pi, c, a as int, 255, k));
                    } else {
                        assert(self.buf[i] == prev[i]);
                    }
                }
                assert forall|i: int| 0 <= i < self.buf.len() && i / 4 != pi
                    implies self.buf[i] == prev[i] by {
                    vstd::arithmetic::div_mod::lemma_fundamental_div_mod(i, 4);
                    if i / 4 < pi {
                        assert(i < 4 * pi);
                    } else {
                        assert(i >= 4 * pi + 4);
                    }
                }
            }
            p = p + 1;
        }
        proof {
            assert forall|i: int| 0 <= i < self.buf.len() implies self.buf[i] == res[i] by {
                vstd::arithmetic::div_mod::lemma_fundamental_div_mod(i, 4);
                assert(i / 4 < npix);
            }
            assert(self.buf@ =~= res);
        }
    }
}

/// The buffer after compositing the color `c` over every pixel with a
/// nonzero multi-sample coverage of the circle (center and radius in
/// subpixel units); the source alpha of a pixel is
/// `c.a / 255 * coverage / pat.len()`. Zero-coverage pixels are untouched.
pub open spec fn circle_result(
    b: Seq<u8>,
    sw: int,
    pat: Seq<(i64, i64)>,
    cx: int,
    cy: int,
    r: int,
    c: Color,
) -> Seq<u8> {
    Seq::new(
        b.len(),
        |i: int|
            {
                let p = i / 4;
                let px = p % sw;
                let py = p / sw;
                let cov = circle_count(pat, cx, cy, r, px, py);
                if cov > 0 {
                    blended_byte(b, 4 * p, c, c.a * cov, 255 * pat.len() as int, i % 4)
                } else {
                    b[i]
                }
            },
    )
}

/// The shader a gradient-filled oval draws with: the installed one, or,
/// when none is set, an opaque-black to transparent-black fallback
/// centered on the oval itself with radius `rmin` (its smaller radius).
pub open spec fn effective_shader(shader: Option<Radial>, cx: i64, cy: i64, rmin: i64) -> Radial {
    match shader {
        Some(sh) => sh,
        None => Radial {
            cx,
            cy,
            r: rmin,
            c0: Color { r: 0, g: 0, b: 0, a: 255 },
            c1: Color { r: 0, g: 0, b: 0, a: 0 },
        },
    }
}

/// The buffer after compositing the gradient `sh` over every pixel with
/// a nonzero multi-sample coverage of the ellipse (center and radii in
/// subpixel units); a pixel's color comes from the gradient at its
/// center, and its source alpha is the gradient alpha scaled by
/// `coverage / pat.len()`.
pub open spec fn oval_result(
    b: Seq<u8>,
    sw: int,
    pat: Seq<(i64, i64)>,
    cx: int,
    cy: int,
    rx: int,
    ry: int,
    sh: Radial,
) -> Seq<u8> {
    Seq::new(
        b.len(),
        |i: int|
            {
                let p = i / 4;
                let px = p % sw;
                let py = p / sw;
                let cov = oval_count(pat, cx, cy, rx, ry, px, py);
                if cov > 0 {
                    let c = Color {
                        r: grad_chan(sh, px, py, 0) as u8,
                        g: grad_chan(sh, px, py, 1) as u8,
                        b: grad_chan(sh, px, py, 2) as u8,
                        a: 0,
                    };
                    blended_byte(
                        b,
                        4 * p,
                        c,
                        grad_alpha_num(sh, px, py) * cov,
                        grad_t_den(sh) * (255 * pat.len() as int),
                        i % 4,
                    )
                } else {
                    b[i]
                }
            },
    )
}

impl Surface {
    /// Composites an antialiased filled circle of the given color: every
    /// pixel's coverage is the fraction of the active sample pattern
    /// inside `dx^2 + dy^2 <= radius^2`, and the paint alpha is scaled by
    /// it before source-over blending. Center and radius are in subpixel
    /// units (8 per pixel). A non-positive radius is a no-op.
    #[verifier::loop_isolation(false)]
    pub fn fill_circle(&mut self, cx: i64, cy: i64, radius: i64, r: u8, g: u8, b: u8, a: u8)
        requires
            old(self).wf(),
            radius > 0 ==> -COORD_LIMIT <= cx <= COORD_LIMIT && -COORD_LIMIT <= cy <= COORD_LIMIT
                && radius <= COORD_LIMIT,
        ensures
            final(self).wf(),
            final(self).same_config(*old(self)),
            radius <= 0 ==> final(self).buf@ == old(self).buf@,
            radius > 0 ==> final(self).buf@ == circle_result(
                old(self).buf@,
                old(self).width as int,
                sample_pattern(old(self).aa_samples as int),
                cx as int,
                cy as int,
                radius as int,
                Color { r, g, b, a },
            ),
    {
        if radius <= 0 {
            return ;
        }
        let c = Color::new(r, g, b, a);
        let pat = sample_pattern_vec(self.aa_samples);
        proof {
            crate::sample::lemma_sample_pattern_wf(self.aa_samples as int);
        }
        let n = pat.len();
        let s_den: u64 = 255 * (n as u64);
        let sw = self.width;
        let sh = self.height;
        assert(sw * sh <= MAX_PIXELS);
        let npix: usize = sw * sh;
        let ghost res = circle_result(
            old(self).buf@,
            sw as int,
            pat@,
            cx as int,
            cy as int,
            radius as int,
            c,
        );
        let mut p: usize = 0;
        while p < npix
            invariant
                p <= npix,
                self.buf.len() == old(self).buf.len(),
                self.same_config(*old(self)),
                forall|i: int| 0 <= i < self.buf.len() && i / 4 < p ==> self.buf[i] == res[i],
                forall|i: int|
                    0 <= i < self.buf.len() && i / 4 >= p ==> self.buf[i] == old(self).buf[i],
            decreases npix - p,
        {
            let px = p % sw;
            let py = p / sw;
            proof {
                vstd::arithmetic::div_mod::lemma_multiply_divide_lt(p as int, sw as int, sh as int);
            }
            let ghost prev = self.buf@;
            let cov = circle_coverage(&pat, cx, cy, radius, px as i64, py as i64);
            if cov > 0 {
                assert((a as u64) * cov <= 255 * (n as u64) && (a as u64) * cov <= 2040)
                    by (nonlinear_arith)
                    requires a <= 255, cov <= n, n <= 8;
                let s_num: u64 = (a as u64) * cov;
                assert(4 * p + 4 <= self.buf.len());
                blend_src_over(&mut self.buf, 4 * p, c, s_num, s_den);
            }
            proof {
                let pi = p as int;
                assert forall|i: int| 0 <= i < self.buf.len() && i / 4 == pi
                    implies self.buf[i] == res[i] by {
                    let k = i % 4;
                    vstd::arithmetic::div_mod::lemma_fundamental_div_mod(i, 4);
                    vstd::arithmetic::div_mod::lemma_fundamental_div_mod_converse(
                        4 * pi + k, 4, pi, k);
                    vstd::arithmetic::div_mod::lemma_fundamental_div_mod_converse(
                        4 * pi + 3, 4, pi, 3);
                    if cov > 0 {
                        assert(prev[4 * pi + k] == old(self).buf[4 * pi + k]);
                        assert(prev[4 * pi + 3] == old(self).buf[4 * pi + 3]);
                        assert(self.buf[4 * pi + k] == blended_byte(
                            prev, 4 * pi, c, (a as u64 * cov) as int, s_den as int, k));
                    } else {
                        assert(self.buf[i] == prev[i]);
                    }
                }
                assert forall|i: int| 0 <= i < self.buf.len() && i / 4 != pi
                    implies self.buf[i] == prev[i] by {
                    vstd::arithmetic::div_mod::lemma_fundamental_div_mod(i, 4);
                    if i / 4 < pi {
                        assert(i < 4 * pi);
                    } else {
                        assert(i >= 4 * pi + 4);
                    }
                }
            }
            p = p + 1;
        }
        proof {
            assert forall|i: int| 0 <= i < self.buf.len() implies self.buf[i] == res[i] by {
                vstd::arithmetic::div_mod::lemma_fundamental_div_mod(i, 4);
                assert(i / 4 < npix);
            }
            assert(self.buf@ =~= res);
        }
    }

    /// Composites an antialiased gradient-filled oval: every pixel's
    /// coverage is the fraction of the active sample pattern inside the
    /// ellipse, its color and alpha come from the active radial gradient
    /// (or from the documented opaque-black to transparent fallback when
    /// none is set), and the alpha is scaled by the coverage before
    /// source-over blending. Center and radii are in subpixel units;
    /// negative radii are taken by absolute value, and a zero radius is
    /// a no-op.
    #[verifier::loop_isolation(false)]
    pub fn draw_oval(&mut self, cx: i64, cy: i64, rx: i64, ry: i64)
        requires
            old(self).wf(),
            rx != 0 && ry != 0 ==> -COORD_LIMIT <= cx <= COORD_LIMIT && -COORD_LIMIT <= cy
                <= COORD_LIMIT && -COORD_LIMIT <= rx <= COORD_LIMIT && -COORD_LIMIT <= ry
                <= COORD_LIMIT,
        ensures
            final(self).wf(),
            final(self).same_config(*old(self)),
            rx == 0 || ry == 0 ==> final(self).buf@ == old(self).buf@,
            rx != 0 && ry != 0 ==> final(self).buf@ == oval_result(
                old(self).buf@,
                old(self).width as int,
                sample_pattern(old(self).aa_samples as int),
                cx as int,
                cy as int,
                abs_i(rx as int),
                abs_i(ry as int),
                effective_shader(
                    old(self).shader,
                    cx,
                    cy,
                    min_i64_spec(abs_spec_i64(rx), abs_spec_i64(ry)),
                ),
            ),
    {
        if rx == 0 || ry == 0 {
            return ;
        }
        let rxa: i64 = if rx < 0 {
            -rx
        } else {
            rx
        };
        let rya: i64 = if ry < 0 {
            -ry
        } else {
            ry
        };
        let rmin: i64 = if rxa < rya {
            rxa
        } else {
            rya
        };
        let shd: Radial = match &self.shader {
            Some(s) => *s,
            None => Radial {
                cx,
                cy,
                r: rmin,
                c0: Color { r: 0, g: 0, b: 0, a: 255 },
                c1: Color { r: 0, g: 0, b: 0, a: 0 },
            },
        };
        let pat = sample_pattern_vec(self.aa_samples);
        proof {
            crate::sample::lemma_sample_pattern_wf(self.aa_samples as int);
        }
        let n = pat.len();
        let sw = self.width;
        let sh = self.height;
        assert(sw * sh <= MAX_PIXELS);
        let npix: usize = sw * sh;
        let ghost res = oval_result(
            old(self).buf@,
            sw as int,
            pat@,
            cx as int,
            cy as int,
            rxa as int,
            rya as int,
            shd,
        );
        let mut p: usize = 0;
        while p < npix
            invariant
                p <= npix,
                self.buf.len() == old(self).buf.len(),
                self.same_config(*old(self)),
                forall|i: int| 0 <= i < self.buf.len() && i / 4 < p ==> self.buf[i] == res[i],
                forall|i: int|
                    0 <= i < self.buf.len() && i / 4 >= p ==> self.buf[i] == old(self).buf[i],
            decreases npix - p,
        {
            let px = p % sw;
            let py = p / sw;
            proof {
                vstd::arithmetic::div_mod::lemma_multiply_divide_lt(p as int, sw as int, sh as int);
            }
            let ghost prev = self.buf@;
            let cov = oval_coverage(&pat, cx, cy, rxa, rya, px as i64, py as i64);
            let ghost gcol = Color {
                r: grad_chan(shd, px as int, py as int, 0) as u8,
                g: grad_chan(shd, px as int, py as int, 1) as u8,
                b: grad_chan(shd, px as int, py as int, 2) as u8,
                a: 0,
            };
            let ghost gden = grad_t_den(shd) * (255 * pat@.len() as int);
            if cov > 0 {
                let (er, eg, eb, an, td) = crate::shader::grad_eval(&shd, px as i64, py as i64);
                assert(an * cov <= 255 * 0x1000_0000 * 8 && 255 <= td * (255 * (n as u64)) && td
                    * (255 * (n as u64)) <= 0x1000_0000 * 2040 && an * cov <= td * (255 * (
                n as u64))) by (nonlinear_arith)
                    requires
                        an <= 255 * td,
                        0 <= an,
                        cov <= n,
                        1 <= td <= 0x1000_0000,
                        1 <= n <= 8,
                ;
                let s_num: u64 = an * cov;
                let s_den: u64 = td * (255 * (n as u64));
                assert(4 * p + 4 <= self.buf.len());
                blend_src_over(
                    &mut self.buf,
                    4 * p,
                    Color { r: er, g: eg, b: eb, a: 0 },
                    s_num,
                    s_den,
                );
                assert(s_num as int == grad_alpha_num(shd, px as int, py as int) * cov
                    && s_den as int == gden) by (nonlinear_arith)
                    requires
                        s_num == an * cov,
                        s_den == td * (255 * (n as u64)),
                        an as int == grad_alpha_num(shd, px as int, py as int),
                        td as int == grad_t_den(shd),
                        n as int == pat@.len(),
                        gden == grad_t_den(shd) * (255 * pat@.len() as int),
                ;
            }
            proof {
                let pi = p as int;
                assert forall|i: int| 0 <= i < self.buf.len() && i / 4 == pi
                    implies self.buf[i] == res[i] by {
                    let k = i % 4;
                    vstd::arithmetic::div_mod::lemma_fundamental_div_mod(i, 4);
                    vstd::arithmetic::div_mod::lemma_fundamental_div_mod_converse(
                        4 * pi + k, 4, pi, k);
                    vstd::arithmetic::div_mod::lemma_fundamental_div_mod_converse(
                        4 * pi + 3, 4, pi, 3);
                    if cov > 0 {
                        assert(prev[4 * pi + k] == old(self).buf[4 * pi + k]);
                        assert(prev[4 * pi + 3] == old(self).buf[4 * pi + 3]);
                        assert(self.buf[4 * pi + k] == blended_byte(
                            prev,
                            4 * pi,
                            gcol,
                            grad_alpha_num(shd, pi % (sw as int), pi / (sw as int)) * cov,
                            gden,
                            k,
                        ));
                    } else {
                        assert(self.buf[i] == prev[i]);
                    }
                }
                assert forall|i: int| 0 <= i < self.buf.len() && i / 4 != pi
                    implies self.buf[i] == prev[i] by {
                    vstd::arithmetic::div_mod::lemma_fundamental_div_mod(i, 4);
                    if i / 4 < pi {
                        assert(i < 4 * pi);
                    } else {
                        assert(i >= 4 * pi + 4);
                    }
                }
            }
            p = p + 1;
        }
        proof {
            assert forall|i: int| 0 <= i < self.buf.len() implies self.buf[i] == res[i] by {
                vstd::arithmetic::div_mod::lemma_fundamental_div_mod(i, 4);
                assert(i / 4 < npix);
            }
            assert(self.buf@ =~= res);
        }
    }
}

/// Absolute value over the mathematical integers.
pub open spec fn abs_i(v: int) -> int {
    if v < 0 {
        -v
    } else {
        v
    }
}

/// Absolute value of an `i64` coordinate within the coordinate limit.
pub open spec fn abs_spec_i64(v: i64) -> i64 {
    if v < 0 {
        (-v) as i64
    } else {
        v
    }
}

/// The smaller of two `i64` values.
pub open spec fn min_i64_spec(a: i64, b: i64) -> i64 {
    if a < b {
        a
    } else {
        b
    }
}

/// The color of the first gradient stop, or transparent black for an
/// empty stop list.
pub open spec fn stops_first_color(stops: Seq<Stop>) -> Color {
    if stops.len() > 0 {
        stops[0].color
    } else {
        Color { r: 0, g: 0, b: 0, a: 0 }
    }
}

/// The color of the last gradient stop, or transparent black for an
/// empty stop list.
pub open spec fn stops_last_color(stops: Seq<Stop>) -> Color {
    if stops.len() > 0 {
        stops[stops.len() - 1].color
    } else {
        Color { r: 0, g: 0, b: 0, a: 0 }
    }
}

} // verus!
