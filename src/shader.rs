use vstd::prelude::*;
use vstd::arithmetic::div_mod::{lemma_div_by_multiple, lemma_div_is_ordered};
use crate::image::{CanvasView, Color, Image};
use crate::vec::{Vec2, Vec3};

verus! {

/// Barycentric weights of a point against a triangle, held exactly: the
/// weight of each vertex is its numerator over the common denominator `den`.
#[derive(Clone, Copy, PartialEq, Eq, Structural, Debug)]
pub struct Barycentric {
    /// Numerator of the first vertex's weight.
    pub u: i128,
    /// Numerator of the second vertex's weight.
    pub v: i128,
    /// Numerator of the third vertex's weight.
    pub w: i128,
    pub den: i128,
}

/// The cross product used for barycentric weights: of
/// `(c.x - a.x, b.x - a.x, a.x - p.x)` and `(c.y - a.y, b.y - a.y, a.y - p.y)`.
pub open spec fn edge_cross(p: Vec2<i32>, a: Vec2<i32>, b: Vec2<i32>, c: Vec2<i32>) -> (int, int, int) {
    let ux = c.x - a.x;
    let uy = b.x - a.x;
    let uz = a.x - p.x;
    let vx = c.y - a.y;
    let vy = b.y - a.y;
    let vz = a.y - p.y;
    (uy * vz - uz * vy, uz * vx - ux * vz, ux * vy - uy * vx)
}

/// Weights `(1 - (c.x + c.y) / c.z, c.y / c.z, c.x / c.z)` of `p` for the
/// triangle `pts[0], pts[1], pts[2]`, where `c` is `edge_cross`, written over
/// a positive denominator; `None` when the triangle has no area (`c.z == 0`).
pub open spec fn barycentric_spec(p: Vec2<i32>, pts: Seq<Vec2<i32>>) -> Option<Barycentric> {
    let c = edge_cross(p, pts[0], pts[1], pts[2]);
    if c.2 == 0 {
        None
    } else if c.2 > 0 {
        Some(Barycentric { u: (c.2 - c.0 - c.1) as i128, v: c.1 as i128, w: c.0 as i128, den: c.2 as i128 })
    } else {
        Some(Barycentric { u: (c.0 + c.1 - c.2) as i128, v: (-c.1) as i128, w: (-c.0) as i128, den: (-c.2) as i128 })
    }
}

/// The point lies in the closed triangle: no weight is negative.
pub open spec fn inside(b: Barycentric) -> bool {
    b.u >= 0 && b.v >= 0 && b.w >= 0
}

/// The depth at a point with weights `b`, truncated toward zero.
pub open spec fn interpolated_depth(b: Barycentric, d0: i32, d1: i32, d2: i32) -> int {
    let num = b.u * d0 + b.v * d1 + b.w * d2;
    if num >= 0 {
        num / (b.den as int)
    } else {
        -((-num) / (b.den as int))
    }
}

proof fn lemma_mul_bounded(a: int, b: int, ba: int, bb: int)
    requires
        -ba <= a <= ba,
        -bb <= b <= bb,
    ensures
        -(ba * bb) <= a * b <= ba * bb,
{
    assert(-(ba * bb) <= a * b <= ba * bb) by (nonlinear_arith)
        requires
            -ba <= a <= ba,
            -bb <= b <= bb,
    ;
}

/// The barycentric weights of `point` against the first three points of
/// `verts`; `None` for a triangle without area.
pub fn barycentric(point: Vec2<i32>, verts: &Vec<Vec2<i32>>) -> (r: Option<Barycentric>)
    requires
        verts.len() >= 3,
    ensures
        r == barycentric_spec(point, verts@),
{
    let a = verts[0];
    let b = verts[1];
    let c = verts[2];
    let u = Vec3::<i128> {
        x: c.x as i128 - a.x as i128,
        y: b.x as i128 - a.x as i128,
        z: a.x as i128 - point.x as i128,
    };
    let v = Vec3::<i128> {
        x: c.y as i128 - a.y as i128,
        y: b.y as i128 - a.y as i128,
        z: a.y as i128 - point.y as i128,
    };
    proof {
        let m: int = 0x1_0000_0000;
        lemma_mul_bounded(u.y as int, v.z as int, m, m);
        lemma_mul_bounded(u.z as int, v.y as int, m, m);
        lemma_mul_bounded(u.z as int, v.x as int, m, m);
        lemma_mul_bounded(u.x as int, v.z as int, m, m);
        lemma_mul_bounded(u.x as int, v.y as int, m, m);
        lemma_mul_bounded(u.y as int, v.x as int, m, m);
    }
    let cr = u.cross(v);
    if cr.z == 0 {
        None
    } else if cr.z > 0 {
        Some(Barycentric { u: cr.z - cr.x - cr.y, v: cr.y, w: cr.x, den: cr.z })
    } else {
        Some(Barycentric { u: cr.x + cr.y - cr.z, v: -cr.y, w: -cr.x, den: -cr.z })
    }
}

pub open spec fn min_int(a: int, b: int) -> int {
    if a < b { a } else { b }
}

pub open spec fn max_int(a: int, b: int) -> int {
    if a > b { a } else { b }
}

/// The smallest and largest coordinates over `pts`, one axis at a time.
pub fn bounding_box(pts: &Vec<Vec2<i32>>) -> (r: (Vec2<i32>, Vec2<i32>))
    requires
        pts.len() > 0,
    ensures
        forall|i: int|
            0 <= i < pts.len() ==> r.0.x <= #[trigger] pts@[i].x <= r.1.x && r.0.y <= pts@[i].y
                <= r.1.y,
        exists|i: int| 0 <= i < pts.len() && r.0.x == #[trigger] pts@[i].x,
        exists|i: int| 0 <= i < pts.len() && r.0.y == #[trigger] pts@[i].y,
        exists|i: int| 0 <= i < pts.len() && r.1.x == #[trigger] pts@[i].x,
        exists|i: int| 0 <= i < pts.len() && r.1.y == #[trigger] pts@[i].y,
{
    let mut min: Vec2<i32> = pts[0];
    let mut max: Vec2<i32> = pts[0];
    let ghost mut wit: (int, int, int, int) = (0, 0, 0, 0);
    let mut k: usize = 0;
    while k < pts.len()
        invariant
            0 <= k <= pts.len(),
            forall|i: int|
                0 <= i < k ==> min.x <= #[trigger] pts@[i].x <= max.x && min.y <= pts@[i].y
                    <= max.y,
            0 <= wit.0 < pts.len() && min.x == pts@[wit.0].x,
            0 <= wit.1 < pts.len() && min.y == pts@[wit.1].y,
            0 <= wit.2 < pts.len() && max.x == pts@[wit.2].x,
            0 <= wit.3 < pts.len() && max.y == pts@[wit.3].y,
        decreases pts.len() - k,
    {
        let pt = pts[k];
        if pt.x < min.x {
            min.x = pt.x;
            proof {
                wit.0 = k as int;
            }
        }
        if pt.y < min.y {
            min.y = pt.y;
            proof {
                wit.1 = k as int;
            }
        }
        if pt.x > max.x {
            max.x = pt.x;
            proof {
                wit.2 = k as int;
            }
        }
        if pt.y > max.y {
            max.y = pt.y;
            proof {
                wit.3 = k as int;
            }
        }
        k = k + 1;
    }
    (min, max)
}

proof fn lemma_scaled_between(u: int, d: int, lo: int, hi: int)
    requires
        0 <= u,
        lo <= d <= hi,
    ensures
        u * lo <= u * d <= u * hi,
{
    assert(u * lo <= u * d <= u * hi) by (nonlinear_arith)
        requires
            0 <= u,
            lo <= d <= hi,
    ;
}

/// The depth at weights `b`, interpolated between the vertex depths.
fn interpolate_depth(b: Barycentric, d0: i32, d1: i32, d2: i32) -> (r: isize)
    requires
        inside(b),
        b.den > 0,
        b.u + b.v + b.w == b.den,
        b.den <= 0x4_0000_0000_0000_0000,
    ensures
        r == interpolated_depth(b, d0, d1, d2),
{
    let ghost lo: int = -0x8000_0000;
    let ghost hi: int = 0x7fff_ffff;
    proof {
        lemma_scaled_between(b.u as int, d0 as int, lo, hi);
        lemma_scaled_between(b.v as int, d1 as int, lo, hi);
        lemma_scaled_between(b.w as int, d2 as int, lo, hi);
        assert(b.u * lo + b.v * lo + b.w * lo == b.den * lo) by (nonlinear_arith)
            requires
                b.u + b.v + b.w == b.den,
        ;
        assert(b.u * hi + b.v * hi + b.w * hi == b.den * hi) by (nonlinear_arith)
            requires
                b.u + b.v + b.w == b.den,
        ;
    }
    let num: i128 = b.u * (d0 as i128) + b.v * (d1 as i128) + b.w * (d2 as i128);
    let q: i128 = if num >= 0 {
        num / b.den
    } else {
        -((-num) / b.den)
    };
    proof {
        if num >= 0 {
            lemma_div_is_ordered(num as int, hi * b.den, b.den as int);
            lemma_div_by_multiple(hi, b.den as int);
        } else {
            lemma_div_is_ordered(-num, -lo * b.den, b.den as int);
            lemma_div_by_multiple(-lo, b.den as int);
        }
    }
    q as isize
}

/// Interpolation of per-vertex attributes across a triangle.
///
/// `interpolate` states the interpolated attributes and `vary` returns them;
/// an implementation whose `interpolate` is executable can define `vary` as
/// `Self::interpolate(*a, *b, *c, bary)`.
pub trait Vary: Sized {
    /// The attributes at the point with weights `bary` between `a`, `b`, `c`.
    spec fn interpolate(a: Self, b: Self, c: Self, bary: Barycentric) -> Self;

    fn vary(a: &Self, b: &Self, c: &Self, bary: Barycentric) -> (r: Self)
        ensures
            r == Self::interpolate(*a, *b, *c, bary),
    ;
}

/// Attributes that carry nothing.
#[derive(Clone, Copy, PartialEq, Eq, Structural, Debug)]
pub struct NoVary;

impl Vary for NoVary {
    open spec fn interpolate(a: NoVary, b: NoVary, c: NoVary, bary: Barycentric) -> NoVary {
        NoVary
    }

    fn vary(a: &NoVary, b: &NoVary, c: &NoVary, bary: Barycentric) -> (r: NoVary) {
        NoVary
    }
}

/// The fragment stage: the color of a covered pixel, or `None` to discard it.
///
/// `shade` states the color and `fragment` returns it; an implementation whose
/// `shade` is executable can define `fragment` as `self.shade(pt, attrs)`.
pub trait Shader<V: Vary> {
    /// The color given to pixel `pt` with interpolated attributes `attrs`.
    spec fn shade(&self, pt: Vec2<isize>, attrs: V) -> Option<Color>;

    fn fragment(&self, pt: Vec2<isize>, attrs: V) -> (r: Option<Color>)
        ensures
            r == self.shade(pt, attrs),
    ;
}

/// A shader that fills every covered pixel with one color.
#[derive(Clone, Copy, PartialEq, Eq, Structural, Debug)]
pub struct FlatShader {
    pub color: Color,
}

impl<V: Vary> Shader<V> for FlatShader {
    open spec fn shade(&self, pt: Vec2<isize>, attrs: V) -> Option<Color> {
        Some(self.color)
    }

    fn fragment(&self, pt: Vec2<isize>, attrs: V) -> (r: Option<Color>) {
        Some(self.color)
    }
}

/// A projected vertex: its pixel position, its depth, and its attributes.
pub struct ScreenVertex<V> {
    pub pos: Vec2<i32>,
    pub depth: i32,
    pub attrs: V,
}

/// The pixel positions of the vertices.
pub open spec fn screen_points<V>(verts: Seq<ScreenVertex<V>>) -> Seq<Vec2<i32>> {
    seq![verts[0].pos, verts[1].pos, verts[2].pos]
}

/// The pixel lies in the half-open bounding box of the three points.
pub open spec fn in_box(pts: Seq<Vec2<i32>>, x: int, y: int) -> bool {
    &&& min_int(min_int(pts[0].x as int, pts[1].x as int), pts[2].x as int) <= x
    &&& x < max_int(max_int(pts[0].x as int, pts[1].x as int), pts[2].x as int)
    &&& min_int(min_int(pts[0].y as int, pts[1].y as int), pts[2].y as int) <= y
    &&& y < max_int(max_int(pts[0].y as int, pts[1].y as int), pts[2].y as int)
}

/// What the triangle contributes at pixel `(x, y)`: the shaded color and the
/// interpolated depth, or `None` where the pixel is outside the bounding box,
/// outside the triangle, the triangle has no area, or the shader discards.
pub open spec fn fragment_at<V: Vary, S: Shader<V>>(
    shader: S,
    verts: Seq<ScreenVertex<V>>,
    x: int,
    y: int,
) -> Option<(Color, int)> {
    let pts = screen_points(verts);
    if in_box(pts, x, y) {
        match barycentric_spec(Vec2 { x: x as i32, y: y as i32 }, pts) {
            Some(b) => if inside(b) {
                match shader.shade(
                    Vec2 { x: x as isize, y: y as isize },
                    V::interpolate(verts[0].attrs, verts[1].attrs, verts[2].attrs, b),
                ) {
                    Some(c) => Some((c, interpolated_depth(b, verts[0].depth, verts[1].depth, verts[2].depth))),
                    None => None,
                }
            } else {
                None
            },
            None => None,
        }
    } else {
        None
    }
}

/// The canvas after offering fragment `f` to pixel `(x, y)`.
pub open spec fn apply_fragment(v: CanvasView, x: int, y: int, f: Option<(Color, int)>) -> CanvasView {
    match f {
        Some(cd) => v.put_with_depth(x, y, cd.0, cd.1),
        None => v,
    }
}

proof fn lemma_barycentric_bounds(p: Vec2<i32>, pts: Seq<Vec2<i32>>)
    requires
        pts.len() >= 3,
    ensures
        barycentric_spec(p, pts) matches Some(b) ==> {
            &&& b.u + b.v + b.w == b.den
            &&& 0 < b.den <= 0x4_0000_0000_0000_0000
        },
        ({
            let c = edge_cross(p, pts[0], pts[1], pts[2]);
            &&& -0x4_0000_0000_0000_0000 <= c.0 <= 0x4_0000_0000_0000_0000
            &&& -0x4_0000_0000_0000_0000 <= c.1 <= 0x4_0000_0000_0000_0000
            &&& -0x4_0000_0000_0000_0000 <= c.2 <= 0x4_0000_0000_0000_0000
        }),
{
    let m: int = 0x1_0000_0000;
    let a = pts[0];
    let b = pts[1];
    let c = pts[2];
    lemma_mul_bounded(c.x - a.x, b.y - a.y, m, m);
    lemma_mul_bounded(b.x - a.x, c.y - a.y, m, m);
    lemma_mul_bounded(b.x - a.x, a.y - p.y, m, m);
    lemma_mul_bounded(a.x - p.x, b.y - a.y, m, m);
    lemma_mul_bounded(a.x - p.x, c.y - a.y, m, m);
    lemma_mul_bounded(c.x - a.x, a.y - p.y, m, m);
}

/// `l0`, `l1`, `l2` are non-negative weights, not all zero, under which the
/// vertices `pts[0], pts[1], pts[2]` average to `p`.
pub open spec fn convex_weights(p: Vec2<i32>, pts: Seq<Vec2<i32>>, l0: int, l1: int, l2: int) -> bool {
    &&& 0 <= l0 &&& 0 <= l1 &&& 0 <= l2
    &&& l0 + l1 + l2 > 0
    &&& l0 * pts[0].x + l1 * pts[1].x + l2 * pts[2].x == (l0 + l1 + l2) * p.x
    &&& l0 * pts[0].y + l1 * pts[1].y + l2 * pts[2].y == (l0 + l1 + l2) * p.y
}

/// `p` lies in the closed triangle `pts[0], pts[1], pts[2]`.
pub open spec fn in_triangle(p: Vec2<i32>, pts: Seq<Vec2<i32>>) -> bool {
    exists|l0: int, l1: int, l2: int| #[trigger] convex_weights(p, pts, l0, l1, l2)
}

proof fn lemma_cross_orthogonal(ux: int, uy: int, uz: int, vx: int, vy: int, vz: int)
    ensures
        (uy * vz - uz * vy) * ux + (uz * vx - ux * vz) * uy + (ux * vy - uy * vx) * uz == 0,
        (uy * vz - uz * vy) * vx + (uz * vx - ux * vz) * vy + (ux * vy - uy * vx) * vz == 0,
{
    assert((uy * vz - uz * vy) * ux + (uz * vx - ux * vz) * uy + (ux * vy - uy * vx) * uz == 0)
        by (nonlinear_arith);
    assert((uy * vz - uz * vy) * vx + (uz * vx - ux * vz) * vy + (ux * vy - uy * vx) * vz == 0)
        by (nonlinear_arith);
}

proof fn lemma_expand_difference(v: int, l: int, l1: int, d: int, e: int)
    ensures
        (v * l - l1 * d) * e == l * (v * e) - d * (l1 * e),
{
    assert((v * l - l1 * d) * e == l * (v * e) - d * (l1 * e)) by (nonlinear_arith);
}

proof fn lemma_factor_sum(k: int, x: int, y: int)
    ensures
        k * (x + y) == k * x + k * y,
{
    assert(k * (x + y) == k * x + k * y) by (nonlinear_arith);
}

/// Two weightings of the same point against a triangle with area are
/// proportional.
proof fn lemma_weights_proportional(
    v: int, w: int, d: int, l1: int, l2: int, l: int,
    ex1: int, ex2: int, ey1: int, ey2: int, qx: int, qy: int,
)
    requires
        v * ex1 + w * ex2 == d * qx,
        v * ey1 + w * ey2 == d * qy,
        l1 * ex1 + l2 * ex2 == l * qx,
        l1 * ey1 + l2 * ey2 == l * qy,
        ex1 * ey2 - ex2 * ey1 != 0,
    ensures
        v * l == l1 * d,
        w * l == l2 * d,
{
    let a1 = v * l - l1 * d;
    let a2 = w * l - l2 * d;
    assert(l * (v * ex1 + w * ex2) == l * (d * qx));
    assert(d * (l1 * ex1 + l2 * ex2) == d * (l * qx));
    assert(l * (v * ey1 + w * ey2) == l * (d * qy));
    assert(d * (l1 * ey1 + l2 * ey2) == d * (l * qy));
    lemma_expand_difference(v, l, l1, d, ex1);
    lemma_expand_difference(w, l, l2, d, ex2);
    lemma_expand_difference(v, l, l1, d, ey1);
    lemma_expand_difference(w, l, l2, d, ey2);
    lemma_factor_sum(l, v * ex1, w * ex2);
    lemma_factor_sum(d, l1 * ex1, l2 * ex2);
    lemma_factor_sum(l, v * ey1, w * ey2);
    lemma_factor_sum(d, l1 * ey1, l2 * ey2);
    assert(l * (d * qx) == d * (l * qx)) by (nonlinear_arith);
    assert(l * (d * qy) == d * (l * qy)) by (nonlinear_arith);
    assert(a1 * ex1 + a2 * ex2 == 0);
    assert(a1 * ey1 + a2 * ey2 == 0);
    assert(a1 * (ex1 * ey2 - ex2 * ey1) == 0) by (nonlinear_arith)
        requires
            a1 * ex1 + a2 * ex2 == 0,
            a1 * ey1 + a2 * ey2 == 0,
    ;
    assert(a2 * (ex1 * ey2 - ex2 * ey1) == 0) by (nonlinear_arith)
        requires
            a1 * ex1 + a2 * ex2 == 0,
            a1 * ey1 + a2 * ey2 == 0,
    ;
    assert(a1 == 0) by (nonlinear_arith)
        requires
            a1 * (ex1 * ey2 - ex2 * ey1) == 0,
            ex1 * ey2 - ex2 * ey1 != 0,
    ;
    assert(a2 == 0) by (nonlinear_arith)
        requires
            a2 * (ex1 * ey2 - ex2 * ey1) == 0,
            ex1 * ey2 - ex2 * ey1 != 0,
    ;
}

proof fn lemma_sign_from_ratio(v: int, l: int, l1: int, d: int)
    requires
        v * l == l1 * d,
        l > 0,
        d > 0,
        l1 >= 0,
    ensures
        v >= 0,
{
    assert(v >= 0) by (nonlinear_arith)
        requires
            v * l == l1 * d,
            l > 0,
            d > 0,
            l1 >= 0,
    ;
}

/// Barycentric weights partition unity: for a triangle with area the weights
/// sum to one (the numerators to the denominator) and weighting the vertices
/// by them gives back the point; they are all non-negative exactly when the
/// point lies in the closed triangle, so a point outside it has a negative
/// weight.
pub proof fn lemma_barycentric_partition(p: Vec2<i32>, pts: Seq<Vec2<i32>>)
    requires
        pts.len() >= 3,
        edge_cross(p, pts[0], pts[1], pts[2]).2 != 0,
    ensures
        barycentric_spec(p, pts) is Some,
        barycentric_spec(p, pts) matches Some(b) ==> {
            &&& b.den > 0
            &&& b.u + b.v + b.w == b.den
            &&& b.u * pts[0].x + b.v * pts[1].x + b.w * pts[2].x == b.den * p.x
            &&& b.u * pts[0].y + b.v * pts[1].y + b.w * pts[2].y == b.den * p.y
            &&& (inside(b) <==> in_triangle(p, pts))
        },
{
    lemma_barycentric_bounds(p, pts);
    let a = pts[0];
    let bv = pts[1];
    let c = pts[2];
    let ux = c.x - a.x;
    let uy = bv.x - a.x;
    let uz = a.x - p.x;
    let vx = c.y - a.y;
    let vy = bv.y - a.y;
    let vz = a.y - p.y;
    let cr = edge_cross(p, a, bv, c);
    lemma_cross_orthogonal(ux, uy, uz, vx, vy, vz);
    let b = barycentric_spec(p, pts)->Some_0;
    // b.v, b.w weight the edges from pts[0]; b.den the offset of p from it.
    assert(b.v * uy + b.w * ux == b.den * (p.x - a.x)) by (nonlinear_arith)
        requires
            cr.2 > 0 ==> b.v == cr.1 && b.w == cr.0 && b.den == cr.2,
            cr.2 < 0 ==> b.v == -cr.1 && b.w == -cr.0 && b.den == -cr.2,
            cr.2 != 0,
            cr.2 * uz + cr.1 * uy + cr.0 * ux == 0,
            uz == a.x - p.x,
    ;
    assert(b.v * vy + b.w * vx == b.den * (p.y - a.y)) by (nonlinear_arith)
        requires
            cr.2 > 0 ==> b.v == cr.1 && b.w == cr.0 && b.den == cr.2,
            cr.2 < 0 ==> b.v == -cr.1 && b.w == -cr.0 && b.den == -cr.2,
            cr.2 != 0,
            cr.2 * vz + cr.1 * vy + cr.0 * vx == 0,
            vz == a.y - p.y,
    ;
    assert(b.u * a.x + b.v * bv.x + b.w * c.x == b.den * p.x) by (nonlinear_arith)
        requires
            b.u + b.v + b.w == b.den,
            b.v * uy + b.w * ux == b.den * (p.x - a.x),
            uy == bv.x - a.x,
            ux == c.x - a.x,
    ;
    assert(b.u * a.y + b.v * bv.y + b.w * c.y == b.den * p.y) by (nonlinear_arith)
        requires
            b.u + b.v + b.w == b.den,
            b.v * vy + b.w * vx == b.den * (p.y - a.y),
            vy == bv.y - a.y,
            vx == c.y - a.y,
    ;
    if inside(b) {
        assert(convex_weights(p, pts, b.u as int, b.v as int, b.w as int));
    }
    if in_triangle(p, pts) {
        let (l0, l1, l2) = choose|l0: int, l1: int, l2: int| #[trigger] convex_weights(p, pts, l0, l1, l2);
        let l = l0 + l1 + l2;
        assert(l1 * uy + l2 * ux == l * (p.x - a.x)) by (nonlinear_arith)
            requires
                l0 * a.x + l1 * bv.x + l2 * c.x == l * p.x,
                l == l0 + l1 + l2,
                uy == bv.x - a.x,
                ux == c.x - a.x,
        ;
        assert(l1 * vy + l2 * vx == l * (p.y - a.y)) by (nonlinear_arith)
            requires
                l0 * a.y + l1 * bv.y + l2 * c.y == l * p.y,
                l == l0 + l1 + l2,
                vy == bv.y - a.y,
                vx == c.y - a.y,
        ;
        lemma_weights_proportional(
            b.v as int, b.w as int, b.den as int, l1, l2, l,
            uy, ux, vy, vx, p.x - a.x, p.y - a.y,
        );
        lemma_sign_from_ratio(b.v as int, l, l1, b.den as int);
        lemma_sign_from_ratio(b.w as int, l, l2, b.den as int);
        assert(b.u * l == l0 * b.den) by (nonlinear_arith)
            requires
                b.u + b.v + b.w == b.den,
                b.v * l == l1 * b.den,
                b.w * l == l2 * b.den,
                l == l0 + l1 + l2,
        ;
        lemma_sign_from_ratio(b.u as int, l, l0, b.den as int);
    }
}

/// Offers the triangle's fragment at `(x, y)` to the canvas.
fn draw_fragment<V: Vary, S: Shader<V>>(
    verts: &Vec<ScreenVertex<V>>,
    pts: &Vec<Vec2<i32>>,
    shader: &S,
    image: &mut Image,
    x: usize,
    y: usize,
)
    requires
        verts.len() == 3,
        pts@ == screen_points(verts@),
        old(image).wf(),
        in_box(pts@, x as int, y as int),
    ensures
        final(image).wf(),
        final(image)@ == apply_fragment(old(image)@, x as int, y as int, fragment_at(*shader, verts@, x as int, y as int)),
{
    let pt = Vec2 { x: x as i32, y: y as i32 };
    proof {
        lemma_barycentric_bounds(pt, pts@);
    }
    match barycentric(pt, pts) {
        Some(b) => {
            if b.u >= 0 && b.v >= 0 && b.w >= 0 {
                let varied = V::vary(&verts[0].attrs, &verts[1].attrs, &verts[2].attrs, b);
                match shader.fragment(Vec2 { x: x as isize, y: y as isize }, varied) {
                    Some(color) => {
                        let depth = interpolate_depth(b, verts[0].depth, verts[1].depth, verts[2].depth);
                        image.set_pixel_with_depth(x, y, &color, depth);
                    },
                    None => {},
                }
            }
        },
        None => {},
    }
}

/// The canvas after drawing the triangle, pixel by pixel.
pub open spec fn drawn<V: Vary, S: Shader<V>>(
    v: CanvasView,
    shader: S,
    verts: Seq<ScreenVertex<V>>,
    x: int,
    y: int,
) -> CanvasView {
    apply_fragment(v, x, y, fragment_at(shader, verts, x, y))
}

/// Rasterizes a projected triangle: every pixel of the image inside the
/// triangle's half-open bounding box whose weights are all non-negative is
/// shaded with the attributes interpolated there, and the shader's color is
/// written through the depth test at the interpolated depth.  A triangle
/// without area draws nothing.
pub fn draw_triangle<V: Vary, S: Shader<V>>(verts: &Vec<ScreenVertex<V>>, shader: &S, image: &mut Image)
    requires
        verts.len() == 3,
        old(image).wf(),
    ensures
        final(image).wf(),
        final(image)@.width == old(image)@.width,
        final(image)@.height == old(image)@.height,
        forall|x: int, y: int|
            old(image)@.in_bounds(x, y) ==> #[trigger] final(image)@.pixel(x, y) == drawn(
                old(image)@,
                *shader,
                verts@,
                x,
                y,
            ).pixel(x, y),
        forall|x: int, y: int|
            old(image)@.in_bounds(x, y) ==> #[trigger] final(image)@.depth(x, y) == drawn(
                old(image)@,
                *shader,
                verts@,
                x,
                y,
            ).depth(x, y),
{
    let mut pts: Vec<Vec2<i32>> = Vec::new();
    pts.push(verts[0].pos);
    pts.push(verts[1].pos);
    pts.push(verts[2].pos);
    assert(pts@ =~= screen_points(verts@));
    let (min_bb, max_bb) = bounding_box(&pts);
    proof {
        let (q0, q1, q2) = (pts@[0], pts@[1], pts@[2]);
        assert(min_bb.x == min_int(min_int(q0.x as int, q1.x as int), q2.x as int));
        assert(min_bb.y == min_int(min_int(q0.y as int, q1.y as int), q2.y as int));
        assert(max_bb.x == max_int(max_int(q0.x as int, q1.x as int), q2.x as int));
        assert(max_bb.y == max_int(max_int(q0.y as int, q1.y as int), q2.y as int));
    }
    let width = image.width();
    let height = image.height();
    let x_lo: usize = if min_bb.x < 0 { 0 } else { min_bb.x as usize };
    let x_hi: usize = if max_bb.x <= 0 {
        0
    } else if (max_bb.x as usize) < width {
        max_bb.x as usize
    } else {
        width
    };
    let y_lo: usize = if min_bb.y < 0 { 0 } else { min_bb.y as usize };
    let y_hi: usize = if max_bb.y <= 0 {
        0
    } else if (max_bb.y as usize) < height {
        max_bb.y as usize
    } else {
        height
    };
    let ghost start = image@;
    proof {
        image.lemma_wf();
        assert forall|px: int, py: int| start.in_bounds(px, py) implies (x_lo <= px < x_hi && y_lo
            <= py < y_hi <==> in_box(pts@, px, py)) by {}
    }
    let mut x: usize = x_lo;
    while x < x_hi
        invariant
            verts.len() == 3,
            pts@ == screen_points(verts@),
            image.wf(),
            image@.well_formed(),
            image@.width == start.width,
            image@.height == start.height,
            start.well_formed(),
            width == start.width,
            height == start.height,
            x_lo <= x,
            x_lo <= x_hi ==> x <= x_hi,
            x_hi <= width,
            y_hi <= height,
            forall|px: int, py: int|
                #![trigger in_box(pts@, px, py)]
                start.in_bounds(px, py) ==> (x_lo <= px < x_hi && y_lo <= py < y_hi <==> in_box(
                    pts@,
                    px,
                    py,
                )),
            forall|px: int, py: int|
                start.in_bounds(px, py) && px < x ==> #[trigger] image@.pixel(px, py) == drawn(
                    start,
                    *shader,
                    verts@,
                    px,
                    py,
                ).pixel(px, py),
            forall|px: int, py: int|
                start.in_bounds(px, py) && px < x ==> #[trigger] image@.depth(px, py) == drawn(
                    start,
                    *shader,
                    verts@,
                    px,
                    py,
                ).depth(px, py),
            forall|px: int, py: int|
                start.in_bounds(px, py) && px >= x ==> #[trigger] image@.pixel(px, py) == start.pixel(
                    px,
                    py,
                ),
            forall|px: int, py: int|
                start.in_bounds(px, py) && px >= x ==> #[trigger] image@.depth(px, py) == start.depth(
                    px,
                    py,
                ),
        decreases x_hi - x,
    {
        let mut y: usize = y_lo;
        while y < y_hi
            invariant
                verts.len() == 3,
                pts@ == screen_points(verts@),
                image.wf(),
                image@.well_formed(),
                image@.width == start.width,
                image@.height == start.height,
                start.well_formed(),
                width == start.width,
                height == start.height,
                x_lo <= x < x_hi,
                x_hi <= width,
                y_hi <= height,
                y_lo <= y,
                y_lo <= y_hi ==> y <= y_hi,
                forall|px: int, py: int|
                    #![trigger in_box(pts@, px, py)]
                    start.in_bounds(px, py) ==> (x_lo <= px < x_hi && y_lo <= py < y_hi <==> in_box(
                        pts@,
                        px,
                        py,
                    )),
                forall|px: int, py: int|
                    start.in_bounds(px, py) && (px < x || (px == x && py < y)) ==> #[trigger] image@.pixel(
                        px,
                        py,
                    ) == drawn(start, *shader, verts@, px, py).pixel(px, py),
                forall|px: int, py: int|
                    start.in_bounds(px, py) && (px < x || (px == x && py < y)) ==> #[trigger] image@.depth(
                        px,
                        py,
                    ) == drawn(start, *shader, verts@, px, py).depth(px, py),
                forall|px: int, py: int|
                    start.in_bounds(px, py) && !(px < x || (px == x && py < y)) ==> #[trigger] image@.pixel(
                        px,
                        py,
                    ) == start.pixel(px, py),
                forall|px: int, py: int|
                    start.in_bounds(px, py) && !(px < x || (px == x && py < y)) ==> #[trigger] image@.depth(
                        px,
                        py,
                    ) == start.depth(px, py),
            decreases y_hi - y,
        {
            let ghost before = image@;
            assert(start.in_bounds(x as int, y as int));
            assert(in_box(pts@, x as int, y as int));
            draw_fragment(verts, &pts, shader, image, x, y);
            proof {
                image.lemma_wf();
                assert forall|px: int, py: int| start.in_bounds(px, py) implies {
                    &&& (px < x || (px == x && py < y + 1)) ==> image@.pixel(px, py) == drawn(start, *shader, verts@, px, py).pixel(px, py)
                        && image@.depth(px, py) == drawn(start, *shader, verts@, px, py).depth(px, py)
                    &&& !(px < x || (px == x && py < y + 1)) ==> image@.pixel(px, py) == start.pixel(px, py)
                        && image@.depth(px, py) == start.depth(px, py)
                } by {
                    match fragment_at(*shader, verts@, x as int, y as int) {
                        Some(cd) => {
                            crate::image::lemma_put_with_depth_at(before, x as int, y as int, cd.0, cd.1, px, py);
                            crate::image::lemma_put_with_depth_at(start, x as int, y as int, cd.0, cd.1, px, py);
                        },
                        None => {},
                    }
                }
            }
            y = y + 1;
        }
        proof {
            assert forall|px: int, py: int| start.in_bounds(px, py) && px == x && py >= y implies
                drawn(start, *shader, verts@, px, py) == start by {
                assert(!in_box(pts@, px, py));
            }
        }
        x = x + 1;
    }
    proof {
        assert forall|px: int, py: int| start.in_bounds(px, py) && px >= x implies
            drawn(start, *shader, verts@, px, py) == start by {
            assert(!in_box(pts@, px, py));
        }
    }
}

} // verus!
