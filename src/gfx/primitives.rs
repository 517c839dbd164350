use vstd::prelude::*;

use crate::gfx::draw_target::{addressable_region, fits_isize, painted, point, DrawTarget};

verus! {

/// The smaller of `a` and `b`.
pub open spec fn lesser(a: int, b: int) -> int {
    if a <= b { a } else { b }
}

/// The larger of `a` and `b`.
pub open spec fn greater(a: int, b: int) -> int {
    if a <= b { b } else { a }
}

/// The horizontal segment from `x0` to `x1` (either order) on row `y`.
pub open spec fn hline_region(x0: int, x1: int, y: int) -> spec_fn((int, int)) -> bool {
    |q: (int, int)| q.1 == y && lesser(x0, x1) <= q.0 <= greater(x0, x1)
}

/// The vertical segment from `y0` to `y1` (either order) in column `x`.
pub open spec fn vline_region(x: int, y0: int, y1: int) -> spec_fn((int, int)) -> bool {
    |q: (int, int)| q.0 == x && lesser(y0, y1) <= q.1 <= greater(y0, y1)
}

/// The outline of the rectangle with corners `a` and `b`.
pub open spec fn rect_region(a: (int, int), b: (int, int)) -> spec_fn((int, int)) -> bool {
    |q: (int, int)|
        hline_region(a.0, b.0, a.1)(q) || hline_region(a.0, b.0, b.1)(q) || vline_region(a.0, a.1, b.1)(q)
            || vline_region(b.0, a.1, b.1)(q)
}

/// The rectangle with corners `a` and `b`, inside included.
pub open spec fn filled_rect_region(a: (int, int), b: (int, int)) -> spec_fn((int, int)) -> bool {
    |q: (int, int)| lesser(a.0, b.0) <= q.0 <= greater(a.0, b.0) && lesser(a.1, b.1) <= q.1 <= greater(a.1, b.1)
}

/// Painting `r1` and then `r2` in one color paints their union.
pub proof fn lemma_painted_union<T: DrawTarget>(
    a: T,
    b: T,
    c: T,
    r1: spec_fn((int, int)) -> bool,
    r2: spec_fn((int, int)) -> bool,
    color: bool,
)
    requires
        painted(a, b, r1, color),
        painted(b, c, r2, color),
    ensures
        painted(a, c, |q: (int, int)| r1(q) || r2(q), color),
{
    assert forall|q: (int, int)| #[trigger] c.pixel(q) == if (r1(q) || r2(q)) && a.paintable(q) {
        color
    } else {
        a.pixel(q)
    } by {
        assert(b.pixel(q) == if r1(q) && a.paintable(q) { color } else { a.pixel(q) });
        assert(b.paintable(q) == a.paintable(q));
    }
    assert forall|q: (int, int)| #[trigger] c.addressable(q) == a.addressable(q) by {
        assert(b.addressable(q) == a.addressable(q));
    }
    assert forall|q: (int, int)| #[trigger] c.paintable(q) == a.paintable(q) by {
        assert(b.paintable(q) == a.paintable(q));
    }
}

/// Painting a region that is the same point set as another is painting
/// that other region.
pub proof fn lemma_painted_same_region<T: DrawTarget>(
    a: T,
    b: T,
    r1: spec_fn((int, int)) -> bool,
    r2: spec_fn((int, int)) -> bool,
    color: bool,
)
    requires
        painted(a, b, r1, color),
        forall|q: (int, int)| #[trigger] r1(q) == r2(q),
    ensures
        painted(a, b, r2, color),
{
    assert forall|q: (int, int)| #[trigger] b.pixel(q) == if r2(q) && a.paintable(q) {
        color
    } else {
        a.pixel(q)
    } by {
        assert(r1(q) == r2(q));
    }
}

/// `a / b` as Rust computes it on signed integers: rounded toward zero.
pub open spec fn trunc_div(a: int, b: int) -> int {
    let m = size(a) / size(b);
    if (a < 0) != (b < 0) { -m } else { m }
}

/// Magnitude of `a`.
pub open spec fn size(a: int) -> int {
    if a < 0 { -a } else { a }
}

/// `n / d` rounded toward zero, computed with a positive divisor.
pub fn div_toward_zero(n: isize, d: isize) -> (r: isize)
    requires
        d != 0,
        d != isize::MIN,
        n != isize::MIN,
    ensures
        r == trunc_div(n as int, d as int),
{
    if d < 0 {
        (-n) / (-d)
    } else {
        n / d
    }
}

/// Point `t` of a stepped line through `start` with slope `dy / dx`:
/// stepping along x (`x_major`) or along y.
pub open spec fn step_point(t: int, start: (int, int), dx: int, dy: int, x_major: bool) -> (int, int) {
    if x_major {
        (t, start.1 + trunc_div(dy * (t - start.0), dx))
    } else {
        (start.0 + trunc_div(dx * (t - start.1), dy), t)
    }
}

/// The points `step_point(t, ..)` for `t` from `lo` to `hi`.
pub open spec fn steps_region(lo: int, hi: int, start: (int, int), dx: int, dy: int, x_major: bool) -> spec_fn(
    (int, int),
) -> bool {
    |q: (int, int)|
        if x_major {
            lo <= q.0 <= hi && q == step_point(q.0, start, dx, dy, x_major)
        } else {
            lo <= q.1 <= hi && q == step_point(q.1, start, dx, dy, x_major)
        }
}

/// Computing `step_point(t, ..)` in `isize` neither overflows nor divides
/// by zero.
pub open spec fn step_fits(t: int, start: (int, int), dx: int, dy: int, x_major: bool) -> bool {
    let (d, n, s0, s1) = if x_major { (dx, dy, start.0, start.1) } else { (dy, dx, start.1, start.0) };
    &&& d != 0
    &&& fits_isize(t - s0)
    &&& fits_isize(n * (t - s0))
    &&& d != isize::MIN
    &&& n * (t - s0) != isize::MIN
    &&& fits_isize(s1 + trunc_div(n * (t - s0), d))
}

/// Paints the points of a stepped line for `t` from `lo` to `hi`.
fn paint_steps<T: DrawTarget>(
    target: &mut T,
    lo: isize,
    hi: isize,
    start: (isize, isize),
    dx: isize,
    dy: isize,
    x_major: bool,
    color: bool,
)
    requires
        lo <= hi,
        forall|t: int| lo <= t <= hi ==> #[trigger] step_fits(t, point(start), dx as int, dy as int, x_major),
        addressable_region(*old(target), steps_region(lo as int, hi as int, point(start), dx as int, dy as int, x_major)),
    ensures
        painted(*old(target), *final(target), steps_region(lo as int, hi as int, point(start), dx as int, dy as int, x_major), color),
{
    let ghost region = steps_region(lo as int, hi as int, point(start), dx as int, dy as int, x_major);
    let mut t = lo;
    loop
        invariant_except_break
            painted(*old(target), *target, steps_region(lo as int, t - 1, point(start), dx as int, dy as int, x_major), color),
        invariant
            lo <= t <= hi,
            forall|u: int| lo <= u <= hi ==> #[trigger] step_fits(u, point(start), dx as int, dy as int, x_major),
            addressable_region(*old(target), region),
            region == steps_region(lo as int, hi as int, point(start), dx as int, dy as int, x_major),
        ensures
            painted(*old(target), *target, region, color),
        decreases hi - t,
    {
        let ghost before = *target;
        assert(step_fits(t as int, point(start), dx as int, dy as int, x_major));
        let p = if x_major {
            let q = div_toward_zero(dy * (t - start.0), dx);
            (t, start.1 + q)
        } else {
            let q = div_toward_zero(dx * (t - start.1), dy);
            (start.0 + q, t)
        };
        assert(point(p) == step_point(t as int, point(start), dx as int, dy as int, x_major));
        assert(region(point(p)));
        target.set_pixel(p, color);
        proof {
            let next = steps_region(lo as int, t as int, point(start), dx as int, dy as int, x_major);
            let prev = steps_region(lo as int, t - 1, point(start), dx as int, dy as int, x_major);
            assert forall|q: (int, int)| #[trigger] target.pixel(q) == if next(q) && old(target).paintable(q) {
                color
            } else {
                old(target).pixel(q)
            } by {
                assert(before.paintable(q) == old(target).paintable(q));
                assert(before.pixel(q) == if prev(q) && old(target).paintable(q) {
                    color
                } else {
                    old(target).pixel(q)
                });
                assert(next(q) == (prev(q) || q == point(p)));
            }
            assert forall|q: (int, int)| #[trigger] target.paintable(q) == old(target).paintable(q) by {
                assert(before.paintable(q) == old(target).paintable(q));
            }
            assert forall|q: (int, int)| #[trigger] target.addressable(q) == old(target).addressable(q) by {
                assert(before.addressable(q) == old(target).addressable(q));
            }
        }
        if t == hi {
            break;
        }
        t += 1;
    }
}


/// Draws the horizontal segment from `x_start` to `x_end` on row `y`.
pub fn draw_hline<Target: DrawTarget>(target: &mut Target, x_start: isize, x_end: isize, y: isize, color: bool)
    requires
        addressable_region(*old(target), hline_region(x_start as int, x_end as int, y as int)),
    ensures
        painted(*old(target), *final(target), hline_region(x_start as int, x_end as int, y as int), color),
{
    let (lo, hi) = if x_start <= x_end {
        (x_start, x_end)
    } else {
        (x_end, x_start)
    };
    let ghost region = hline_region(x_start as int, x_end as int, y as int);
    let ghost steps = steps_region(lo as int, hi as int, (0, y as int), 1, 0, true);
    assert forall|q: (int, int)| #[trigger] steps(q) == region(q) by {
        assert(trunc_div(0 * (q.0 - 0), 1) == 0);
    }
    assert forall|t: int| lo <= t <= hi implies #[trigger] step_fits(t, (0, y as int), 1, 0, true) by {
        assert(trunc_div(0 * (t - 0), 1) == 0);
    }
    paint_steps(target, lo, hi, (0, y), 1, 0, true, color);
    proof {
        lemma_painted_same_region(*old(target), *target, steps, region, color);
    }
}

/// Draws the vertical segment from `y_start` to `y_end` in column `x`.
pub fn draw_vline<Target: DrawTarget>(target: &mut Target, x: isize, y_start: isize, y_end: isize, color: bool)
    requires
        addressable_region(*old(target), vline_region(x as int, y_start as int, y_end as int)),
    ensures
        painted(*old(target), *final(target), vline_region(x as int, y_start as int, y_end as int), color),
{
    let (lo, hi) = if y_start <= y_end {
        (y_start, y_end)
    } else {
        (y_end, y_start)
    };
    let ghost region = vline_region(x as int, y_start as int, y_end as int);
    let ghost steps = steps_region(lo as int, hi as int, (x as int, 0), 0, 1, false);
    assert forall|q: (int, int)| #[trigger] steps(q) == region(q) by {
        assert(trunc_div(0 * (q.1 - 0), 1) == 0);
    }
    assert forall|t: int| lo <= t <= hi implies #[trigger] step_fits(t, (x as int, 0), 0, 1, false) by {
        assert(trunc_div(0 * (t - 0), 1) == 0);
    }
    paint_steps(target, lo, hi, (x, 0), 0, 1, false, color);
    proof {
        lemma_painted_same_region(*old(target), *target, steps, region, color);
    }
}

/// Draws the outline of the rectangle with corners `start` and `end`.
pub fn draw_rect<Target: DrawTarget>(target: &mut Target, start: (isize, isize), end: (isize, isize), color: bool)
    requires
        addressable_region(*old(target), rect_region(point(start), point(end))),
    ensures
        painted(*old(target), *final(target), rect_region(point(start), point(end)), color),
{
    let ghost t0 = *target;
    let ghost r1 = hline_region(start.0 as int, end.0 as int, start.1 as int);
    let ghost r2 = hline_region(start.0 as int, end.0 as int, end.1 as int);
    let ghost r3 = vline_region(start.0 as int, start.1 as int, end.1 as int);
    let ghost r4 = vline_region(end.0 as int, start.1 as int, end.1 as int);
    assert(addressable_region(t0, r1));
    draw_hline(target, start.0, end.0, start.1, color);
    let ghost t1 = *target;
    assert(addressable_region(t1, r2)) by {
        assert forall|q: (int, int)| r2(q) implies #[trigger] t1.addressable(q) by {
            assert(t0.addressable(q));
        }
    }
    draw_hline(target, start.0, end.0, end.1, color);
    let ghost t2 = *target;
    assert(addressable_region(t2, r3)) by {
        assert forall|q: (int, int)| r3(q) implies #[trigger] t2.addressable(q) by {
            assert(t0.addressable(q));
            assert(t1.addressable(q));
        }
    }
    draw_vline(target, start.0, start.1, end.1, color);
    let ghost t3 = *target;
    assert(addressable_region(t3, r4)) by {
        assert forall|q: (int, int)| r4(q) implies #[trigger] t3.addressable(q) by {
            assert(t0.addressable(q));
            assert(t1.addressable(q));
            assert(t2.addressable(q));
        }
    }
    draw_vline(target, end.0, start.1, end.1, color);
    proof {
        let u12 = |q: (int, int)| r1(q) || r2(q);
        let u123 = |q: (int, int)| u12(q) || r3(q);
        lemma_painted_union(t0, t1, t2, r1, r2, color);
        lemma_painted_union(t0, t2, t3, u12, r3, color);
        lemma_painted_union(t0, t3, *target, u123, r4, color);
        lemma_painted_same_region(
            t0,
            *target,
            |q: (int, int)| u123(q) || r4(q),
            rect_region(point(start), point(end)),
            color,
        );
    }
}

/// Fills the rectangle with corners `start` and `end`, edges included.
pub fn draw_filled_rect<Target: DrawTarget>(
    target: &mut Target,
    start: (isize, isize),
    end: (isize, isize),
    color: bool,
)
    requires
        addressable_region(*old(target), filled_rect_region(point(start), point(end))),
    ensures
        painted(*old(target), *final(target), filled_rect_region(point(start), point(end)), color),
{
    let x_min = if start.0 <= end.0 {
        start.0
    } else {
        end.0
    };
    let x_max = if start.0 <= end.0 {
        end.0
    } else {
        start.0
    };
    let y_min = if start.1 <= end.1 {
        start.1
    } else {
        end.1
    };
    let y_max = if start.1 <= end.1 {
        end.1
    } else {
        start.1
    };
    let ghost region = filled_rect_region(point(start), point(end));
    let mut y = y_min;
    loop
        invariant_except_break
            painted(
                *old(target),
                *target,
                |q: (int, int)| x_min <= q.0 <= x_max && y_min <= q.1 < y,
                color,
            ),
        invariant
            y_min <= y <= y_max,
            addressable_region(*old(target), region),
            region == filled_rect_region(point(start), point(end)),
            x_min as int == lesser(start.0 as int, end.0 as int),
            x_max as int == greater(start.0 as int, end.0 as int),
            y_min as int == lesser(start.1 as int, end.1 as int),
            y_max as int == greater(start.1 as int, end.1 as int),
        ensures
            painted(*old(target), *target, region, color),
        decreases y_max - y,
    {
        let ghost before = *target;
        let ghost done = |q: (int, int)| x_min <= q.0 <= x_max && y_min <= q.1 < y;
        let ghost row = hline_region(x_min as int, x_max as int, y as int);
        assert(addressable_region(before, row)) by {
            assert forall|q: (int, int)| row(q) implies #[trigger] before.addressable(q) by {
                assert(region(q));
                assert(old(target).addressable(q));
            }
        }
        draw_hline(target, x_min, x_max, y, color);
        proof {
            lemma_painted_union(*old(target), before, *target, done, row, color);
            lemma_painted_same_region(
                *old(target),
                *target,
                |q: (int, int)| done(q) || row(q),
                |q: (int, int)| x_min <= q.0 <= x_max && y_min <= q.1 <= y,
                color,
            );
        }
        if y == y_max {
            proof {
                lemma_painted_same_region(
                    *old(target),
                    *target,
                    |q: (int, int)| x_min <= q.0 <= x_max && y_min <= q.1 <= y,
                    region,
                    color,
                );
            }
            break;
        }
        y += 1;
        proof {
            lemma_painted_same_region(
                *old(target),
                *target,
                |q: (int, int)| x_min <= q.0 <= x_max && y_min <= q.1 <= y - 1,
                |q: (int, int)| x_min <= q.0 <= x_max && y_min <= q.1 < y,
                color,
            );
        }
    }
}


/// The pixels of the line from `a` to `b`: a single point, a horizontal or
/// vertical segment, or one point per step along the longer axis, the
/// other coordinate interpolated with division rounded toward zero.
pub open spec fn line_region(a: (int, int), b: (int, int)) -> spec_fn((int, int)) -> bool {
    let dx = b.0 - a.0;
    let dy = b.1 - a.1;
    if dx == 0 && dy == 0 {
        |q: (int, int)| q == a
    } else if dx == 0 {
        vline_region(a.0, a.1, b.1)
    } else if dy == 0 {
        hline_region(a.0, b.0, a.1)
    } else if size(dx) >= size(dy) {
        steps_region(lesser(a.0, b.0), greater(a.0, b.0), a, dx, dy, true)
    } else {
        steps_region(lesser(a.1, b.1), greater(a.1, b.1), a, dx, dy, false)
    }
}

/// The line from `a` to `b` can be computed in `isize`: both differences
/// and their negations fit, and so does the product of their magnitudes.
pub open spec fn line_fits(a: (int, int), b: (int, int)) -> bool {
    &&& fits_isize(b.0 - a.0) && fits_isize(a.0 - b.0)
    &&& fits_isize(b.1 - a.1) && fits_isize(a.1 - b.1)
    &&& size(b.0 - a.0) * size(b.1 - a.1) <= isize::MAX
}

/// Stepping `t` between `s0` and `s0 + d` (the long axis) keeps the other
/// coordinate between `s1` and `s1 + n`.
proof fn lemma_step_in_range(t: int, s0: int, s1: int, d: int, n: int)
    requires
        d != 0,
        lesser(s0, s0 + d) <= t <= greater(s0, s0 + d),
        size(d) * size(n) <= isize::MAX,
        fits_isize(d) && fits_isize(-d) && fits_isize(n) && fits_isize(-n),
        fits_isize(s0) && fits_isize(s1) && fits_isize(s0 + d) && fits_isize(s1 + n),
    ensures
        fits_isize(t - s0),
        fits_isize(n * (t - s0)),
        n * (t - s0) != isize::MIN,
        d != isize::MIN,
        lesser(s1, s1 + n) <= s1 + trunc_div(n * (t - s0), d) <= greater(s1, s1 + n),
{
    let k = t - s0;
    assert(size(k) <= size(d));
    assert(size(n * k) == size(n) * size(k)) by (nonlinear_arith);
    assert(size(n) * size(k) <= size(n) * size(d)) by (nonlinear_arith)
        requires
            size(k) <= size(d),
            size(n) >= 0,
    ;
    assert(size(n) * size(d) == size(d) * size(n)) by (nonlinear_arith);
    assert(size(n * k) <= isize::MAX);
    assert(-isize::MAX <= n * k <= isize::MAX);
    assert(n * (t - s0) == n * k);
    assert(size(n * k) / size(d) <= size(n)) by (nonlinear_arith)
        requires
            size(n * k) <= size(n) * size(d),
            size(d) > 0,
            size(n) >= 0,
    ;
    assert(size(n * k) / size(d) >= 0) by (nonlinear_arith)
        requires
            size(n * k) >= 0,
            size(d) > 0,
    ;
    let m = size(n * k) / size(d);
    // the interpolated step has the sign of `n`, or is zero
    if n * k != 0 {
        assert((n * k < 0) == ((n < 0) != (k < 0))) by (nonlinear_arith)
            requires
                n * k != 0,
        ;
        assert(k != 0) by (nonlinear_arith)
            requires
                n * k != 0,
        ;
        assert((k < 0) == (d < 0));
        assert(trunc_div(n * k, d) == if n < 0 { -m } else { m });
    } else {
        assert(m == 0) by (nonlinear_arith)
            requires
                m == size(n * k) / size(d),
                n * k == 0,
                size(d) > 0,
        ;
    }
}

/// Draws a straight line from `start` to `end`, both ends included.
pub fn draw_line<Target: DrawTarget>(target: &mut Target, start: (isize, isize), end: (isize, isize), color: bool)
    requires
        line_fits(point(start), point(end)),
        addressable_region(*old(target), line_region(point(start), point(end))),
    ensures
        painted(*old(target), *final(target), line_region(point(start), point(end)), color),
{
    let dx = end.0 - start.0;
    let dy = end.1 - start.1;
    let adx = if dx < 0 {
        -dx
    } else {
        dx
    };
    let ady = if dy < 0 {
        -dy
    } else {
        dy
    };
    let ghost region = line_region(point(start), point(end));
    if adx == 0 && ady == 0 {
        assert(region(point(start)));
        target.set_pixel(start, color);
        proof {
            assert forall|q: (int, int)| #[trigger] target.pixel(q) == if region(q) && old(target).paintable(q) {
                color
            } else {
                old(target).pixel(q)
            } by {}
        }
    } else if adx == 0 {
        draw_vline(target, start.0, start.1, end.1, color);
    } else if ady == 0 {
        draw_hline(target, start.0, end.0, start.1, color);
    } else if adx >= ady {
        let (lo, hi) = if start.0 < end.0 {
            (start.0, end.0)
        } else {
            (end.0, start.0)
        };
        assert forall|t: int| lo <= t <= hi implies #[trigger] step_fits(t, point(start), dx as int, dy as int, true) by {
            lemma_step_in_range(t, start.0 as int, start.1 as int, dx as int, dy as int);
        }
        paint_steps(target, lo, hi, start, dx, dy, true, color);
    } else {
        let (lo, hi) = if start.1 < end.1 {
            (start.1, end.1)
        } else {
            (end.1, start.1)
        };
        assert(size(dy as int) * size(dx as int) <= isize::MAX) by (nonlinear_arith)
            requires
                size(dx as int) * size(dy as int) <= isize::MAX,
        ;
        assert forall|t: int| lo <= t <= hi implies #[trigger] step_fits(t, point(start), dx as int, dy as int, false) by {
            lemma_step_in_range(t, start.1 as int, start.0 as int, dy as int, dx as int);
        }
        paint_steps(target, lo, hi, start, dx, dy, false, color);
    }
}

} // verus!
