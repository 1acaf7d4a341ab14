use vstd::prelude::*;
use crate::color::Color;
use crate::sample::COORD_LIMIT;
use crate::sqrt::{isqrt, sqrt_floor};

verus! {

/// A radial gradient: interpolates from `c0` at the center to `c1` at
/// distance `r` and beyond. Center and radius are in subpixel units
/// (8 per pixel).
#[derive(Clone, Copy, PartialEq, Eq, Structural, Debug)]
pub struct Radial {
    pub cx: i64,
    pub cy: i64,
    pub r: i64,
    pub c0: Color,
    pub c1: Color,
}

/// One gradient stop: an offset along the gradient (in thousandths of
/// the radius) and a color. Evaluation reads only the first and the last
/// stop's colors; interior stops are accepted and ignored.
#[derive(Clone, Copy, PartialEq, Eq, Structural, Debug)]
pub struct Stop {
    pub offset_milli: i64,
    pub color: Color,
}

/// The gradient's geometry stays inside the coordinate limit, so that its
/// evaluation cannot overflow.
pub open spec fn shader_wf(sh: Radial) -> bool {
    &&& -COORD_LIMIT <= sh.cx <= COORD_LIMIT
    &&& -COORD_LIMIT <= sh.cy <= COORD_LIMIT
    &&& -COORD_LIMIT <= sh.r <= COORD_LIMIT
}

/// The distance (floor of the Euclidean distance, subpixel units) from the
/// center of the pixel at `(x, y)` to the gradient's center.
pub open spec fn grad_dist(sh: Radial, x: int, y: int) -> int {
    let dx = 8 * x + 4 - sh.cx;
    let dy = 8 * y + 4 - sh.cy;
    sqrt_floor(dx * dx + dy * dy)
}

/// Denominator of the interpolation parameter `t`: the gradient radius,
/// or 1 when the radius is not positive.
pub open spec fn grad_t_den(sh: Radial) -> int {
    if sh.r > 0 {
        sh.r as int
    } else {
        1
    }
}

/// Numerator of the interpolation parameter `t = clamp(dist / r, 0, 1)`
/// over `grad_t_den`: the distance clamped to the radius. A non-positive
/// radius degenerates: `t = 1` (the end color everywhere) for a zero
/// radius, `t = 0` (the start color everywhere) for a negative one.
pub open spec fn grad_t_num(sh: Radial, x: int, y: int) -> int {
    if sh.r > 0 {
        if grad_dist(sh, x, y) > sh.r {
            sh.r as int
        } else {
            grad_dist(sh, x, y)
        }
    } else if sh.r == 0 {
        1
    } else {
        0
    }
}

/// Linear interpolation of a channel byte between `c0` and `c1` by
/// `tn / td`, truncated: `(c0 * (td - tn) + c1 * tn) / td`.
pub open spec fn lerp(c0: int, c1: int, tn: int, td: int) -> int {
    (c0 * (td - tn) + c1 * tn) / td
}

/// The gradient's color channel `k` (0 = red, 1 = green, 2 = blue) at the
/// pixel `(x, y)`, as a byte value.
pub open spec fn grad_chan(sh: Radial, x: int, y: int, k: int) -> int {
    lerp(sh.c0.chan(k) as int, sh.c1.chan(k) as int, grad_t_num(sh, x, y), grad_t_den(sh))
}

/// Numerator of the gradient's (unquantized) alpha at `(x, y)`, over the
/// denominator `grad_t_den(sh)`.
pub open spec fn grad_alpha_num(sh: Radial, x: int, y: int) -> int {
    sh.c0.a * (grad_t_den(sh) - grad_t_num(sh, x, y)) + sh.c1.a * grad_t_num(sh, x, y)
}

/// Numerator is at most `255 * denominator`: the gradient alpha is a valid
/// alpha fraction.
pub proof fn lemma_grad_alpha_bounds(sh: Radial, x: int, y: int)
    requires
        0 <= grad_t_num(sh, x, y) <= grad_t_den(sh),
    ensures
        0 <= grad_alpha_num(sh, x, y) <= 255 * grad_t_den(sh),
{
    let tn = grad_t_num(sh, x, y);
    let td = grad_t_den(sh);
    assert(0 <= sh.c0.a * (td - tn) + sh.c1.a * tn <= 255 * td) by (nonlinear_arith)
        requires 0 <= tn <= td, 0 <= sh.c0.a <= 255, 0 <= sh.c1.a <= 255;
}

/// Evaluates the gradient at the pixel `(x, y)`: the three color channel
/// bytes, the alpha numerator, and the shared denominator `grad_t_den`.
#[verifier::loop_isolation(false)]
pub fn grad_eval(sh: &Radial, x: i64, y: i64) -> (out: (u8, u8, u8, u64, u64))
    requires
        shader_wf(*sh),
        0 <= x < 0x400_0000,
        0 <= y < 0x400_0000,
    ensures
        out.0 as int == grad_chan(*sh, x as int, y as int, 0),
        out.1 as int == grad_chan(*sh, x as int, y as int, 1),
        out.2 as int == grad_chan(*sh, x as int, y as int, 2),
        out.3 as int == grad_alpha_num(*sh, x as int, y as int),
        out.4 as int == grad_t_den(*sh),
        1 <= out.4 <= COORD_LIMIT,
        out.3 <= 255 * out.4,
{
    let dx = 8 * x + 4 - sh.cx;
    let dy = 8 * y + 4 - sh.cy;
    assert(0 <= dx * dx <= 0x1000_0000_0000_0000 && 0 <= dy * dy <= 0x1000_0000_0000_0000)
        by (nonlinear_arith)
        requires
            -0x4000_0000 <= dx <= 0x4000_0000,
            -0x4000_0000 <= dy <= 0x4000_0000,
    ;
    let d2 = (dx * dx + dy * dy) as u64;
    let d = isqrt(d2);
    let (tn, td): (u64, u64) = if sh.r > 0 {
        let rr = sh.r as u64;
        (if d > rr { rr } else { d }, rr)
    } else if sh.r == 0 {
        (1, 1)
    } else {
        (0, 1)
    };
    let cr = lerp_byte(sh.c0.r, sh.c1.r, tn, td);
    let cg = lerp_byte(sh.c0.g, sh.c1.g, tn, td);
    let cb = lerp_byte(sh.c0.b, sh.c1.b, tn, td);
    assert((sh.c0.a as u64) * (td - tn) <= 255 * 0x1000_0000 && (sh.c1.a as u64) * tn <= 255
        * 0x1000_0000) by (nonlinear_arith)
        requires
            sh.c0.a <= 255,
            sh.c1.a <= 255,
            0 <= tn <= td,
            td <= 0x1000_0000,
    ;
    let an = (sh.c0.a as u64) * (td - tn) + (sh.c1.a as u64) * tn;
    proof {
        lemma_grad_alpha_bounds(*sh, x as int, y as int);
    }
    (cr, cg, cb, an, td)
}

/// Interpolates one channel byte by `tn / td`, truncating toward zero.
fn lerp_byte(c0: u8, c1: u8, tn: u64, td: u64) -> (r: u8)
    requires
        1 <= td <= COORD_LIMIT,
        tn <= td,
    ensures
        r as int == lerp(c0 as int, c1 as int, tn as int, td as int),
{
    assert((c0 as u64) * (td - tn) <= 255 * 0x1000_0000 && (c1 as u64) * tn <= 255 * 0x1000_0000
        && (c0 as u64) * (td - tn) + (c1 as u64) * tn <= 255 * td) by (nonlinear_arith)
        requires
            c0 <= 255,
            c1 <= 255,
            0 <= tn <= td,
            1 <= td <= 0x1000_0000,
    ;
    let num = (c0 as u64) * (td - tn) + (c1 as u64) * tn;
    let q = num / td;
    assert(q <= 255) by {
        vstd::arithmetic::div_mod::lemma_div_is_ordered(num as int, 255 * td, td as int);
        vstd::arithmetic::div_mod::lemma_div_by_multiple(255, td as int);
    }
    q as u8
}

} // verus!
