use vstd::prelude::*;
use vstd::arithmetic::div_mod::lemma_fundamental_div_mod_converse;
use crate::image::{CanvasView, Color, Image};

verus! {

/// A line in the coordinates it is walked in: along `a` from `a0` to `a1`
/// (with `a0 <= a1`), stepping `b` from `b0` toward `b1`.  When `transposed`,
/// `a` is the image's `y` axis and `b` its `x` axis.
pub struct LinePlan {
    pub transposed: bool,
    pub a0: int,
    pub b0: int,
    pub a1: int,
    pub b1: int,
}

pub open spec fn abs_int(v: int) -> int {
    if v < 0 { -v } else { v }
}

/// The walk of the line from `(x0, y0)` to `(x1, y1)`: axes are swapped when
/// the line is steep, then the endpoints are ordered by ascending `a`.
pub open spec fn plan(x0: int, y0: int, x1: int, y1: int) -> LinePlan {
    let transposed = abs_int(y1 - y0) > abs_int(x1 - x0);
    let (a0, b0, a1, b1) = if transposed { (y0, x0, y1, x1) } else { (x0, y0, x1, y1) };
    if a0 > a1 {
        LinePlan { transposed, a0: a1, b0: b1, a1: a0, b1: b0 }
    } else {
        LinePlan { transposed, a0, b0, a1, b1 }
    }
}

/// How far `b` has moved after `k` steps along `a`: `k * db / da` rounded to
/// the nearest integer, halves rounded down.
pub open spec fn offset(p: LinePlan, k: int) -> int {
    let da = p.a1 - p.a0;
    let db = abs_int(p.b1 - p.b0);
    if da == 0 {
        0
    } else {
        (2 * k * db + da - 1) / (2 * da)
    }
}

/// The `b` coordinate drawn at `a = p.a0 + k`.
pub open spec fn b_at(p: LinePlan, k: int) -> int {
    if p.b1 >= p.b0 {
        p.b0 + offset(p, k)
    } else {
        p.b0 - offset(p, k)
    }
}

/// Pixel `(x, y)` is drawn by the walk `p` for some `a` below `limit`.
pub open spec fn drawn_before(p: LinePlan, x: int, y: int, limit: int) -> bool {
    let (a, b) = if p.transposed { (y, x) } else { (x, y) };
    p.a0 <= a <= p.a1 && a < limit && b == b_at(p, a - p.a0)
}

/// Pixel `(x, y)` belongs to the line from `(x0, y0)` to `(x1, y1)`.
pub open spec fn on_line(x0: int, y0: int, x1: int, y1: int, x: int, y: int) -> bool {
    let p = plan(x0, y0, x1, y1);
    drawn_before(p, x, y, p.a1 + 1)
}

/// The pixels of the line from `(x0, y0)` to `(x1, y1)`.
pub open spec fn line_pixels(x0: int, y0: int, x1: int, y1: int) -> Set<(int, int)> {
    Set::new(|q: (int, int)| on_line(x0, y0, x1, y1, q.0, q.1))
}

/// A line is the same set of pixels whichever endpoint it is drawn from.
pub proof fn lemma_line_symmetric(x0: int, y0: int, x1: int, y1: int)
    ensures
        line_pixels(x0, y0, x1, y1) == line_pixels(x1, y1, x0, y0),
{
    let p = plan(x0, y0, x1, y1);
    let q = plan(x1, y1, x0, y0);
    if p.a0 == p.a1 {
        assert(x0 == x1 && y0 == y1);
    } else {
        assert(p == q);
    }
    assert(line_pixels(x0, y0, x1, y1) =~= line_pixels(x1, y1, x0, y0));
}

/// Draws the line from `(x0, y0)` to `(x1, y1)` in `color`, endpoints
/// included, with integer arithmetic only.  Pixels outside the image are
/// dropped.
pub fn draw_line(x0: i32, y0: i32, x1: i32, y1: i32, color: &Color, image: &mut Image)
    requires
        old(image).wf(),
    ensures
        final(image).wf(),
        final(image)@.width == old(image)@.width,
        final(image)@.height == old(image)@.height,
        final(image)@.depths == old(image)@.depths,
        forall|x: int, y: int|
            old(image)@.in_bounds(x, y) ==> #[trigger] final(image)@.pixel(x, y) == if line_pixels(
                x0 as int,
                y0 as int,
                x1 as int,
                y1 as int,
            ).contains((x, y)) {
                *color
            } else {
                old(image)@.pixel(x, y)
            },
{
    let ghost p = plan(x0 as int, y0 as int, x1 as int, y1 as int);
    let dx0: i64 = if x1 >= x0 { x1 as i64 - x0 as i64 } else { x0 as i64 - x1 as i64 };
    let dy0: i64 = if y1 >= y0 { y1 as i64 - y0 as i64 } else { y0 as i64 - y1 as i64 };
    let transposed = dy0 > dx0;
    let (mut a0, mut b0, mut a1, mut b1): (i64, i64, i64, i64) = if transposed {
        (y0 as i64, x0 as i64, y1 as i64, x1 as i64)
    } else {
        (x0 as i64, y0 as i64, x1 as i64, y1 as i64)
    };
    if a0 > a1 {
        let (ta, tb) = (a0, b0);
        a0 = a1;
        b0 = b1;
        a1 = ta;
        b1 = tb;
    }
    assert(p == LinePlan { transposed, a0: a0 as int, b0: b0 as int, a1: a1 as int, b1: b1 as int });
    let da: i64 = a1 - a0;
    let db: i64 = if b1 >= b0 { b1 - b0 } else { b0 - b1 };
    let step: i64 = if b1 >= b0 { 1 } else { -1 };
    let ghost start = image@;
    proof {
        image.lemma_wf();
    }
    let mut err: i64 = 0;
    let mut b: i64 = b0;
    let mut a: i64 = a0;
    let ghost mut m: int = 0;
    let ghost mut t: int = 0;
    proof {
        if da > 0 {
            lemma_fundamental_div_mod_converse(da - 1, 2 * da, 0, da - 1);
        }
        assert(2 * (a - a0) * db == 0) by (nonlinear_arith)
            requires
                a == a0,
        ;
        assert(2 * da * m == 0) by (nonlinear_arith)
            requires
                m == 0,
        ;
    }
    while a <= a1
        invariant
            image.wf(),
            image@.well_formed(),
            start.well_formed(),
            image@.width == start.width,
            image@.height == start.height,
            image@.depths == start.depths,
            p == (LinePlan { transposed, a0: a0 as int, b0: b0 as int, a1: a1 as int, b1: b1 as int }),
            i32::MIN <= a0 <= a1 <= i32::MAX,
            i32::MIN <= b0 <= i32::MAX,
            i32::MIN <= b1 <= i32::MAX,
            da == a1 - a0,
            db == abs_int(b1 - b0),
            db <= da,
            step == (if b1 >= b0 { 1int } else { -1int }),
            a0 <= a <= a1 + 1,
            0 <= m <= a - a0,
            t == 2 * (a - a0) * db,
            err == t - 2 * da * m,
            a <= a1 && da > 0 ==> -da < err <= da,
            a <= a1 ==> m == offset(p, a - a0),
            b == (if b1 >= b0 { b0 + m } else { b0 - m }),
            forall|x: int, y: int|
                start.in_bounds(x, y) ==> #[trigger] image@.pixel(x, y) == if drawn_before(
                    p,
                    x,
                    y,
                    a as int,
                ) {
                    *color
                } else {
                    start.pixel(x, y)
                },
        decreases a1 + 1 - a,
    {
        proof {
            if da > 0 {
                assert((a - a0) * db <= da * db) by (nonlinear_arith)
                    requires
                        0 <= a - a0 <= da,
                        db >= 0,
                ;
                assert(m <= db) by (nonlinear_arith)
                    requires
                        2 * da * m < 2 * (a - a0) * db + da,
                        (a - a0) * db <= da * db,
                        da > 0,
                ;
            }
        }
        let (px, py) = if transposed { (b, a) } else { (a, b) };
        let ghost before = image@;
        if px >= 0 && py >= 0 {
            image.set_pixel(px as usize, py as usize, color);
        }
        proof {
            image.lemma_wf();
            assert forall|x: int, y: int| start.in_bounds(x, y) implies #[trigger] image@.pixel(x, y)
                == if drawn_before(p, x, y, a + 1) {
                *color
            } else {
                start.pixel(x, y)
            } by {
                crate::image::lemma_put_at(before, px as int, py as int, *color, x, y);
            }
        }
        let ghost a_before = a;
        let ghost m_before = m;
        err = err + 2 * db;
        if err > da {
            b = b + step;
            err = err - 2 * da;
            proof {
                assert(2 * da * (m + 1) == 2 * da * m + 2 * da) by (nonlinear_arith);
                m = m + 1;
            }
        }
        a = a + 1;
        proof {
            t = t + 2 * db;
            assert(t == 2 * (a - a0) * db) by (nonlinear_arith)
                requires
                    t == 2 * (a_before - a0) * db + 2 * db,
                    a == a_before + 1,
            ;
            if a <= a1 {
                assert(m * (2 * da) == 2 * da * m) by (nonlinear_arith);
                lemma_fundamental_div_mod_converse(t + da - 1, 2 * da, m, err + da - 1);
            }
        }
    }
}

} // verus!
