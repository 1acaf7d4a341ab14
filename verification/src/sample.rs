use vstd::prelude::*;

verus! {

/// Bound on the fixed-point coordinates and radii a draw call accepts; it
/// keeps every squared distance inside `i64` (and every ellipse product
/// inside `i128`).
pub const COORD_LIMIT: i64 = 0x1000_0000;

/// The fixed multi-sample pattern for an antialias level of `n` samples:
/// sub-pixel offsets in subpixel units (8 per pixel axis). `n == 1` tests
/// the pixel center alone, `n == 8` an 8-point pattern; every other value
/// selects the 4-sample grid.
pub open spec fn sample_pattern(n: int) -> Seq<(i64, i64)> {
    if n == 1 {
        seq![(4i64, 4i64)]
    } else if n == 8 {
        seq![
            (1i64, 1i64),
            (3i64, 1i64),
            (5i64, 1i64),
            (7i64, 1i64),
            (2i64, 3i64),
            (4i64, 4i64),
            (6i64, 5i64),
            (7i64, 7i64),
        ]
    } else {
        seq![(2i64, 2i64), (6i64, 2i64), (2i64, 6i64), (6i64, 6i64)]
    }
}

/// Every sample offset lies inside the unit pixel square, and a pattern is
/// never empty or longer than 8 points.
pub open spec fn pattern_wf(pat: Seq<(i64, i64)>) -> bool {
    &&& 1 <= pat.len() <= 8
    &&& forall|i: int|
        0 <= i < pat.len() ==> 0 <= (#[trigger] pat[i]).0 < 8 && 0 <= pat[i].1 < 8
}

pub proof fn lemma_sample_pattern_wf(n: int)
    ensures
        pattern_wf(sample_pattern(n)),
{
    if n == 1 {
        assert(forall|i: int|
            0 <= i < sample_pattern(n).len() ==> 0 <= (#[trigger] sample_pattern(n)[i]).0 < 8
                && 0 <= sample_pattern(n)[i].1 < 8);
    } else if n == 8 {
        assert(forall|i: int|
            0 <= i < sample_pattern(n).len() ==> 0 <= (#[trigger] sample_pattern(n)[i]).0 < 8
                && 0 <= sample_pattern(n)[i].1 < 8);
    } else {
        assert(forall|i: int|
            0 <= i < sample_pattern(n).len() ==> 0 <= (#[trigger] sample_pattern(n)[i]).0 < 8
                && 0 <= sample_pattern(n)[i].1 < 8);
    }
}

/// Builds the active sample pattern as a vector of subpixel offsets.
pub fn sample_pattern_vec(n: u8) -> (v: Vec<(i64, i64)>)
    ensures
        v@ == sample_pattern(n as int),
{
    let mut v: Vec<(i64, i64)> = Vec::new();
    if n == 1 {
        v.push((4, 4));
    } else if n == 8 {
        v.push((1, 1));
        v.push((3, 1));
        v.push((5, 1));
        v.push((7, 1));
        v.push((2, 3));
        v.push((4, 4));
        v.push((6, 5));
        v.push((7, 7));
    } else {
        v.push((2, 2));
        v.push((6, 2));
        v.push((2, 6));
        v.push((6, 6));
    }
    assert(v@ =~= sample_pattern(n as int));
    v
}

/// Whether the point `(sx, sy)` (subpixel units) lies inside the circle of
/// center `(cx, cy)` and radius `r` (subpixel units): `dx^2 + dy^2 <= r^2`.
pub open spec fn circle_inside(cx: int, cy: int, r: int, sx: int, sy: int) -> bool {
    (sx - cx) * (sx - cx) + (sy - cy) * (sy - cy) <= r * r
}

/// Whether `(sx, sy)` lies inside the axis-aligned ellipse of center
/// `(cx, cy)` and radii `rx`, `ry` (subpixel units): the normalized test
/// `(dx/rx)^2 + (dy/ry)^2 <= 1`, cleared of denominators.
pub open spec fn oval_inside(cx: int, cy: int, rx: int, ry: int, sx: int, sy: int) -> bool {
    (sx - cx) * (sx - cx) * (ry * ry) + (sy - cy) * (sy - cy) * (rx * rx) <= (rx * rx) * (ry * ry)
}

/// How many offsets of `pat`, translated into the pixel at `(x, y)`
/// (pixel coordinates), satisfy the circle test.
pub open spec fn circle_count(
    pat: Seq<(i64, i64)>,
    cx: int,
    cy: int,
    r: int,
    x: int,
    y: int,
) -> nat
    decreases pat.len(),
{
    if pat.len() == 0 {
        0
    } else {
        circle_count(pat.drop_last(), cx, cy, r, x, y) + if circle_inside(
            cx,
            cy,
            r,
            8 * x + pat.last().0,
            8 * y + pat.last().1,
        ) {
            1nat
        } else {
            0nat
        }
    }
}

/// How many offsets of `pat`, translated into the pixel at `(x, y)`,
/// satisfy the ellipse test.
pub open spec fn oval_count(
    pat: Seq<(i64, i64)>,
    cx: int,
    cy: int,
    rx: int,
    ry: int,
    x: int,
    y: int,
) -> nat
    decreases pat.len(),
{
    if pat.len() == 0 {
        0
    } else {
        oval_count(pat.drop_last(), cx, cy, rx, ry, x, y) + if oval_inside(
            cx,
            cy,
            rx,
            ry,
            8 * x + pat.last().0,
            8 * y + pat.last().1,
        ) {
            1nat
        } else {
            0nat
        }
    }
}

/// A coverage count never exceeds the number of samples.
pub proof fn lemma_circle_count_le(pat: Seq<(i64, i64)>, cx: int, cy: int, r: int, x: int, y: int)
    ensures
        circle_count(pat, cx, cy, r, x, y) <= pat.len(),
    decreases pat.len(),
{
    if pat.len() > 0 {
        lemma_circle_count_le(pat.drop_last(), cx, cy, r, x, y);
    }
}

pub proof fn lemma_oval_count_le(
    pat: Seq<(i64, i64)>,
    cx: int,
    cy: int,
    rx: int,
    ry: int,
    x: int,
    y: int,
)
    ensures
        oval_count(pat, cx, cy, rx, ry, x, y) <= pat.len(),
    decreases pat.len(),
{
    if pat.len() > 0 {
        lemma_oval_count_le(pat.drop_last(), cx, cy, rx, ry, x, y);
    }
}

/// Counts the samples of `pat` inside the circle, for the pixel at `(x, y)`.
#[verifier::loop_isolation(false)]
pub fn circle_coverage(pat: &Vec<(i64, i64)>, cx: i64, cy: i64, r: i64, x: i64, y: i64) -> (cnt:
    u64)
    requires
        pattern_wf(pat@),
        -COORD_LIMIT <= cx <= COORD_LIMIT,
        -COORD_LIMIT <= cy <= COORD_LIMIT,
        -COORD_LIMIT <= r <= COORD_LIMIT,
        0 <= x < 0x400_0000,
        0 <= y < 0x400_0000,
    ensures
        cnt == circle_count(pat@, cx as int, cy as int, r as int, x as int, y as int),
        cnt <= pat@.len(),
{
    let mut cnt: u64 = 0;
    let mut i: usize = 0;
    while i < pat.len()
        invariant
            i <= pat@.len(),
            cnt == circle_count(pat@.take(i as int), cx as int, cy as int, r as int, x as int, y as int),
            cnt <= i,
        decreases pat@.len() - i,
    {
        let (ox, oy) = pat[i];
        let sx = 8 * x + ox;
        let sy = 8 * y + oy;
        let dx = sx - cx;
        let dy = sy - cy;
        assert(0 <= dx * dx <= 0x1000_0000_0000_0000 && 0 <= dy * dy <= 0x1000_0000_0000_0000
            && 0 <= r * r <= 0x100_0000_0000_0000) by (nonlinear_arith)
            requires
                -0x4000_0000 <= dx <= 0x4000_0000,
                -0x4000_0000 <= dy <= 0x4000_0000,
                -0x1000_0000 <= r <= 0x1000_0000,
        ;
        let inside = dx * dx + dy * dy <= r * r;
        proof {
            assert(pat@.take(i + 1).drop_last() =~= pat@.take(i as int));
            assert(pat@.take(i + 1).last() == pat@[i as int]);
        }
        if inside {
            cnt = cnt + 1;
        }
        i = i + 1;
    }
    proof {
        assert(pat@.take(pat@.len() as int) =~= pat@);
        lemma_circle_count_le(pat@, cx as int, cy as int, r as int, x as int, y as int);
    }
    cnt
}

/// Counts the samples of `pat` inside the ellipse, for the pixel at `(x, y)`.
#[verifier::loop_isolation(false)]
pub fn oval_coverage(pat: &Vec<(i64, i64)>, cx: i64, cy: i64, rx: i64, ry: i64, x: i64, y: i64) -> (cnt: u64)
    requires
        pattern_wf(pat@),
        -COORD_LIMIT <= cx <= COORD_LIMIT,
        -COORD_LIMIT <= cy <= COORD_LIMIT,
        0 <= rx <= COORD_LIMIT,
        0 <= ry <= COORD_LIMIT,
        0 <= x < 0x400_0000,
        0 <= y < 0x400_0000,
    ensures
        cnt == oval_count(pat@, cx as int, cy as int, rx as int, ry as int, x as int, y as int),
        cnt <= pat@.len(),
{
    let mut cnt: u64 = 0;
    let mut i: usize = 0;
    while i < pat.len()
        invariant
            i <= pat@.len(),
            cnt == oval_count(pat@.take(i as int), cx as int, cy as int, rx as int, ry as int, x as int, y as int),
            cnt <= i,
        decreases pat@.len() - i,
    {
        let (ox, oy) = pat[i];
        let sx = 8 * x + ox;
        let sy = 8 * y + oy;
        let dx = (sx - cx) as i128;
        let dy = (sy - cy) as i128;
        assert(0 <= (rx as i128) * (rx as i128) <= 0x100_0000_0000_0000 && 0 <= (ry as i128) * (
        ry as i128) <= 0x100_0000_0000_0000) by (nonlinear_arith)
            requires
                0 <= rx <= 0x1000_0000,
                0 <= ry <= 0x1000_0000,
        ;
        let rx2 = (rx as i128) * (rx as i128);
        let ry2 = (ry as i128) * (ry as i128);
        assert(0 <= dx * dx <= 0x1000_0000_0000_0000 && 0 <= dy * dy <= 0x1000_0000_0000_0000
            && 0 <= dx * dx * ry2 && dx * dx * ry2 <= 0x10_0000_0000_0000_0000_0000_0000_0000 && 0
            <= dy * dy * rx2 && dy * dy * rx2 <= 0x10_0000_0000_0000_0000_0000_0000_0000 && 0
            <= rx2 * ry2 <= 0x1_0000_0000_0000_0000_0000_0000_0000) by (nonlinear_arith)
            requires
                -0x4000_0000 <= dx <= 0x4000_0000,
                -0x4000_0000 <= dy <= 0x4000_0000,
                0 <= rx2 <= 0x100_0000_0000_0000,
                0 <= ry2 <= 0x100_0000_0000_0000,
        ;
        let inside = dx * dx * ry2 + dy * dy * rx2 <= rx2 * ry2;
        proof {
            assert(pat@.take(i + 1).drop_last() =~= pat@.take(i as int));
            assert(pat@.take(i + 1).last() == pat@[i as int]);
        }
        if inside {
            cnt = cnt + 1;
        }
        i = i + 1;
    }
    proof {
        assert(pat@.take(pat@.len() as int) =~= pat@);
        lemma_oval_count_le(pat@, cx as int, cy as int, rx as int, ry as int, x as int, y as int);
    }
    cnt
}

} // verus!
