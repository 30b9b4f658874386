use vstd::prelude::*;
use vstd::arithmetic::div_mod::lemma_fundamental_div_mod_converse;
use crate::color::Color;

verus! {

/// Largest magnitude of a coordinate difference between two pixels.
pub const COORD_SPAN: i64 = 0xffff_ffff;

/// Largest magnitude of a cross product of two pixel differences.
pub const CROSS_SPAN: i128 = 0x2_0000_0000_0000_0000;

/// A pixel coordinate.
#[derive(Clone, Copy, Debug, PartialEq, Eq, Structural)]
pub struct Point {
    pub x: u32,
    pub y: u32,
}

/// The exact difference of two points.
#[derive(Clone, Copy, Debug, PartialEq, Eq, Structural)]
pub struct Vector {
    pub u: i64,
    pub v: i64,
}

/// The difference `a - b` as a pair of integers.
pub open spec fn diff(a: Point, b: Point) -> (int, int) {
    (a.x - b.x, a.y - b.y)
}

pub open spec fn dot(a: (int, int), b: (int, int)) -> int {
    a.0 * b.0 + a.1 * b.1
}

/// The z component of the cross product of two plane vectors.
pub open spec fn cross(a: (int, int), b: (int, int)) -> int {
    a.0 * b.1 - a.1 * b.0
}

pub open spec fn min3(a: u32, b: u32, c: u32) -> u32 {
    if a <= b && a <= c {
        a
    } else if b <= c {
        b
    } else {
        c
    }
}

pub open spec fn max3(a: u32, b: u32, c: u32) -> u32 {
    if a >= b && a >= c {
        a
    } else if b >= c {
        b
    } else {
        c
    }
}

proof fn lemma_mul_bound(a: int, b: int, m: int)
    requires
        -m <= a <= m,
        -m <= b <= m,
    ensures
        -(m * m) <= a * b <= m * m,
{
    assert(-(m * m) <= a * b <= m * m) by (nonlinear_arith)
        requires
            -m <= a <= m,
            -m <= b <= m,
    ;
}

proof fn lemma_expand(p: int, q: int, r: int, s: int)
    ensures
        (p + q) * (r + s) == p * r + p * s + q * r + q * s,
        (p - q) * (r - s) == p * r - p * s - q * r + q * s,
{
    assert((p + q) * (r + s) == p * r + p * s + q * r + q * s) by (nonlinear_arith);
    assert((p - q) * (r - s) == p * r - p * s - q * r + q * s) by (nonlinear_arith);
}

proof fn lemma_dot_commutes(a: (int, int), b: (int, int))
    ensures
        dot(a, b) == dot(b, a),
{
    assert(a.0 * b.0 + a.1 * b.1 == b.0 * a.0 + b.1 * a.1) by (nonlinear_arith);
}

/// Lagrange's identity in the plane.
proof fn lemma_lagrange(a: (int, int), b: (int, int), c: (int, int), d: (int, int))
    ensures
        dot(a, c) * dot(b, d) - dot(a, d) * dot(b, c) == cross(a, b) * cross(c, d),
{
    let (a0, a1, b0, b1, c0, c1, d0, d1) = (a.0, a.1, b.0, b.1, c.0, c.1, d.0, d.1);
    lemma_expand(a0 * c0, a1 * c1, b0 * d0, b1 * d1);
    lemma_expand(a0 * d0, a1 * d1, b0 * c0, b1 * c1);
    lemma_expand(a0 * b1, a1 * b0, c0 * d1, c1 * d0);
    // the mixed terms are those of the product of the cross products
    assert((a0 * c0) * (b1 * d1) == (a0 * b1) * (c0 * d1)) by (nonlinear_arith);
    assert((a1 * c1) * (b0 * d0) == (a1 * b0) * (c1 * d0)) by (nonlinear_arith);
    assert((a0 * d0) * (b1 * c1) == (a0 * b1) * (c1 * d0)) by (nonlinear_arith);
    assert((a1 * d1) * (b0 * c0) == (a1 * b0) * (c0 * d1)) by (nonlinear_arith);
    // the remaining terms cancel pairwise
    assert((a0 * c0) * (b0 * d0) == (a0 * d0) * (b0 * c0)) by (nonlinear_arith);
    assert((a1 * c1) * (b1 * d1) == (a1 * d1) * (b1 * c1)) by (nonlinear_arith);
}

impl Point {
    pub fn new(x: u32, y: u32) -> (p: Point)
        ensures
            p == (Point { x, y }),
    {
        Point { x, y }
    }

    /// `self - rhs`, exactly.
    pub fn sub(&self, rhs: &Self) -> (d: Vector)
        ensures
            (d.u as int, d.v as int) == diff(*self, *rhs),
            d.is_pixel_difference(),
    {
        Vector { u: self.x as i64 - rhs.x as i64, v: self.y as i64 - rhs.y as i64 }
    }
}

impl Vector {
    pub open spec fn as_pair(self) -> (int, int) {
        (self.u as int, self.v as int)
    }

    /// Both components lie within what a difference of two pixels can span.
    pub open spec fn is_pixel_difference(self) -> bool {
        -COORD_SPAN <= self.u <= COORD_SPAN && -COORD_SPAN <= self.v <= COORD_SPAN
    }

    /// The dot product `self · rhs`, exactly.
    pub fn dot(&self, rhs: &Self) -> (r: i128)
        requires
            self.is_pixel_difference(),
            rhs.is_pixel_difference(),
        ensures
            r == dot(self.as_pair(), rhs.as_pair()),
    {
        proof {
            lemma_mul_bound(self.u as int, rhs.u as int, COORD_SPAN as int);
            lemma_mul_bound(self.v as int, rhs.v as int, COORD_SPAN as int);
        }
        self.u as i128 * rhs.u as i128 + self.v as i128 * rhs.v as i128
    }

    /// The z component of `self × rhs`, exactly.
    pub fn cross(&self, rhs: &Self) -> (r: i128)
        requires
            self.is_pixel_difference(),
            rhs.is_pixel_difference(),
        ensures
            r == cross(self.as_pair(), rhs.as_pair()),
            -CROSS_SPAN <= r <= CROSS_SPAN,
    {
        proof {
            lemma_mul_bound(self.u as int, rhs.v as int, COORD_SPAN as int);
            lemma_mul_bound(self.v as int, rhs.u as int, COORD_SPAN as int);
        }
        self.u as i128 * rhs.v as i128 - self.v as i128 * rhs.u as i128
    }
}

/// A triangle with a colour at each vertex: `c1` at `p1`, `c2` at `p2`,
/// `c3` at `p3`.
pub struct Triangle {
    pub p1: Point,
    pub p2: Point,
    pub p3: Point,
    pub c1: Color,
    pub c2: Color,
    pub c3: Color,
}

/// Barycentric coordinates as fractions `u / denom`, `v / denom` and
/// `w / denom` over one denominator. A zero denominator marks a degenerate
/// triangle, for which no coordinates exist.
#[derive(Clone, Copy, Debug, PartialEq, Eq, Structural)]
pub struct Barycentric {
    pub u: i128,
    pub v: i128,
    pub w: i128,
    pub denom: i128,
}

/// The inclusive ranges `x0..=x1` and `y0..=y1` of pixel coordinates.
#[derive(Clone, Copy, Debug, PartialEq, Eq, Structural)]
pub struct BoundingBox {
    pub x0: u32,
    pub x1: u32,
    pub y0: u32,
    pub y1: u32,
}

impl BoundingBox {
    /// The columns of the box, both ends included.
    pub fn x(&self) -> (r: std::ops::RangeInclusive<u32>)
        ensures
            r@.start == self.x0,
            r@.end == self.x1,
            !r@.exhausted,
    {
        std::ops::RangeInclusive::new(self.x0, self.x1)
    }

    /// The rows of the box, both ends included.
    pub fn y(&self) -> (r: std::ops::RangeInclusive<u32>)
        ensures
            r@.start == self.y0,
            r@.end == self.y1,
            !r@.exhausted,
    {
        std::ops::RangeInclusive::new(self.y0, self.y1)
    }
}

impl Triangle {
    /// `p2 - p1`
    pub open spec fn edge0(self) -> (int, int) {
        diff(self.p2, self.p1)
    }

    /// `p3 - p1`
    pub open spec fn edge1(self) -> (int, int) {
        diff(self.p3, self.p1)
    }

    /// The denominator of the edge-projection method:
    /// `d00 * d11 - d01 * d01`, with `dij` the dot products of the edges.
    pub open spec fn proj_denom(self) -> int {
        let (v0, v1) = (self.edge0(), self.edge1());
        dot(v0, v0) * dot(v1, v1) - dot(v0, v1) * dot(v0, v1)
    }

    /// The numerator of the weight of `p2` at `p`: `d11 * d20 - d01 * d21`.
    pub open spec fn proj_v(self, p: Point) -> int {
        let (v0, v1, v2) = (self.edge0(), self.edge1(), diff(p, self.p1));
        dot(v1, v1) * dot(v2, v0) - dot(v0, v1) * dot(v2, v1)
    }

    /// The numerator of the weight of `p3` at `p`: `d00 * d21 - d01 * d20`.
    pub open spec fn proj_w(self, p: Point) -> int {
        let (v0, v1, v2) = (self.edge0(), self.edge1(), diff(p, self.p1));
        dot(v0, v0) * dot(v2, v1) - dot(v0, v1) * dot(v2, v0)
    }

    /// The numerator of the weight of `p1` at `p`, so that the three weights
    /// sum to one.
    pub open spec fn proj_u(self, p: Point) -> int {
        self.proj_denom() - self.proj_v(p) - self.proj_w(p)
    }

    /// The vertices are collinear or coincide.
    pub open spec fn is_degenerate(self) -> bool {
        self.proj_denom() == 0
    }

    /// `p` lies inside the triangle or on its boundary: every weight is in
    /// `[0, 1]`.
    pub open spec fn covers(self, p: Point) -> bool {
        let d = self.proj_denom();
        &&& d != 0
        &&& 0 <= self.proj_u(p) <= d
        &&& 0 <= self.proj_v(p) <= d
        &&& 0 <= self.proj_w(p) <= d
    }

    /// One channel blended by the weights at `p`, rounded toward zero.
    pub open spec fn blend(self, a: u8, b: u8, c: u8, p: Point) -> int {
        (a * self.proj_u(p) + b * self.proj_v(p) + c * self.proj_w(p)) / self.proj_denom()
    }

    pub open spec fn interpolated(self, p: Point) -> Color {
        Color {
            r: self.blend(self.c1.r, self.c2.r, self.c3.r, p) as u8,
            g: self.blend(self.c1.g, self.c2.g, self.c3.g, p) as u8,
            b: self.blend(self.c1.b, self.c2.b, self.c3.b, p) as u8,
        }
    }

    /// The colour the triangle gives to `p`: the interpolated colour where it
    /// covers `p`, the background elsewhere.
    pub open spec fn color_at(self, p: Point) -> Color {
        if self.covers(p) {
            self.interpolated(p)
        } else {
            Color::background()
        }
    }

    pub open spec fn bounding_box_spec(self) -> BoundingBox {
        BoundingBox {
            x0: min3(self.p1.x, self.p2.x, self.p3.x),
            x1: max3(self.p1.x, self.p2.x, self.p3.x),
            y0: min3(self.p1.y, self.p2.y, self.p3.y),
            y1: max3(self.p1.y, self.p2.y, self.p3.y),
        }
    }

    /// The projection numerators are those of the cross-product form,
    /// scaled by twice the signed area.
    pub proof fn lemma_projection_by_cross(self, p: Point)
        ensures
            self.proj_denom() == cross(self.edge0(), self.edge1()) * cross(self.edge0(), self.edge1()),
            self.proj_v(p) == cross(diff(p, self.p1), self.edge1()) * cross(self.edge0(), self.edge1()),
            self.proj_w(p) == cross(self.edge0(), diff(p, self.p1)) * cross(self.edge0(), self.edge1()),
    {
        let (v0, v1, v2) = (self.edge0(), self.edge1(), diff(p, self.p1));
        lemma_lagrange(v0, v1, v0, v1);
        lemma_lagrange(v2, v1, v0, v1);
        lemma_lagrange(v0, v2, v0, v1);
        lemma_dot_commutes(v0, v1);
        let (d00, d01, d11, d20, d21) = (dot(v0, v0), dot(v0, v1), dot(v1, v1), dot(v2, v0), dot(v2, v1));
        assert(d11 * d20 == d20 * d11 && d01 * d21 == d21 * d01) by (nonlinear_arith);
    }

    pub fn new(p1: Point, p2: Point, p3: Point, c1: Color, c2: Color, c3: Color) -> (t: Triangle)
        ensures
            t == (Triangle { p1, p2, p3, c1, c2, c3 }),
    {
        Triangle { p1, p2, p3, c1, c2, c3 }
    }

    /// The smallest box of pixels that holds the three vertices.
    pub fn get_bounding_box(&self) -> (b: BoundingBox)
        ensures
            b == self.bounding_box_spec(),
    {
        BoundingBox {
            x0: min_of_three(self.p1.x, self.p2.x, self.p3.x),
            x1: max_of_three(self.p1.x, self.p2.x, self.p3.x),
            y0: min_of_three(self.p1.y, self.p2.y, self.p3.y),
            y1: max_of_three(self.p1.y, self.p2.y, self.p3.y),
        }
    }

    /// Whether `point` is exactly one of the vertices.
    pub fn is_vertex(&self, point: Point) -> (r: bool)
        ensures
            r == (point == self.p1 || point == self.p2 || point == self.p3),
    {
        self.p1 == point || self.p2 == point || self.p3 == point
    }

    /// The barycentric coordinates of `point`, exact, as fractions whose
    /// scaling by the denominator gives the projection numerators.
    pub fn barycentric(&self, point: &Point) -> (b: Barycentric)
        ensures
            0 <= b.denom <= CROSS_SPAN,
            b.denom * b.denom == self.proj_denom(),
            b.u * b.denom == self.proj_u(*point),
            b.v * b.denom == self.proj_v(*point),
            b.w * b.denom == self.proj_w(*point),
            b.u + b.v + b.w == b.denom,
            b.denom == 0 ==> b.u == 0 && b.v == 0 && b.w == 0,
    {
        let v0 = self.p2.sub(&self.p1);
        let v1 = self.p3.sub(&self.p1);
        let v2 = point.sub(&self.p1);
        let area = v0.cross(&v1);
        let cv = v2.cross(&v1);
        let cw = v0.cross(&v2);
        let ghost (pd, pu, pv, pw) = (
            self.proj_denom(),
            self.proj_u(*point),
            self.proj_v(*point),
            self.proj_w(*point),
        );
        proof {
            self.lemma_projection_by_cross(*point);
            assert(pu == (area - cv - cw) * area) by (nonlinear_arith)
                requires
                    pd == area * area,
                    pv == cv * area,
                    pw == cw * area,
                    pu == pd - pv - pw,
            ;
        }
        if area == 0 {
            proof {
                assert(pd == 0 && pu == 0 && pv == 0 && pw == 0) by (nonlinear_arith)
                    requires
                        area == 0,
                        pd == area * area,
                        pu == (area - cv - cw) * area,
                        pv == cv * area,
                        pw == cw * area,
                ;
            }
            Barycentric { u: 0, v: 0, w: 0, denom: 0 }
        } else if area > 0 {
            Barycentric { u: area - cv - cw, v: cv, w: cw, denom: area }
        } else {
            proof {
                assert((cv + cw - area) * (-area) == (area - cv - cw) * area) by (nonlinear_arith);
                assert((-cv) * (-area) == cv * area) by (nonlinear_arith);
                assert((-cw) * (-area) == cw * area) by (nonlinear_arith);
                assert((-area) * (-area) == area * area) by (nonlinear_arith);
            }
            Barycentric { u: cv + cw - area, v: -cv, w: -cw, denom: -area }
        }
    }

    /// The colour of `point`: its three vertex colours blended by its
    /// barycentric weights where the triangle covers it, the background
    /// elsewhere and everywhere for a degenerate triangle.
    pub fn get_color(&self, point: &Point) -> (c: Color)
        ensures
            c == self.color_at(*point),
    {
        let b = self.barycentric(point);
        proof {
            lemma_scaled_range(b.u as int, b.denom as int);
            lemma_scaled_range(b.v as int, b.denom as int);
            lemma_scaled_range(b.w as int, b.denom as int);
        }
        if b.denom == 0 || b.u < 0 || b.u > b.denom || b.v < 0 || b.v > b.denom || b.w < 0
            || b.w > b.denom {
            return Color { r: 0, g: 0, b: 0 };
        }
        let r = blend_channel(self.c1.r, self.c2.r, self.c3.r, &b);
        let g = blend_channel(self.c1.g, self.c2.g, self.c3.g, &b);
        let bl = blend_channel(self.c1.b, self.c2.b, self.c3.b, &b);
        proof {
            self.lemma_blend_scaled(self.c1.r, self.c2.r, self.c3.r, *point, b);
            self.lemma_blend_scaled(self.c1.g, self.c2.g, self.c3.g, *point, b);
            self.lemma_blend_scaled(self.c1.b, self.c2.b, self.c3.b, *point, b);
        }
        Color::new(r, g, bl)
    }

    proof fn lemma_blend_scaled(self, a: u8, b: u8, c: u8, p: Point, w: Barycentric)
        requires
            w.denom > 0,
            w.denom * w.denom == self.proj_denom(),
            w.u * w.denom == self.proj_u(p),
            w.v * w.denom == self.proj_v(p),
            w.w * w.denom == self.proj_w(p),
        ensures
            self.blend(a, b, c, p) == (a * w.u + b * w.v + c * w.w) / (w.denom as int),
    {
        let x = a * w.u + b * w.v + c * w.w;
        let d = w.denom as int;
        lemma_scale(a as int, w.u as int, d, self.proj_u(p));
        lemma_scale(b as int, w.v as int, d, self.proj_v(p));
        lemma_scale(c as int, w.w as int, d, self.proj_w(p));
        assert(a * self.proj_u(p) + b * self.proj_v(p) + c * self.proj_w(p) == x * d) by (nonlinear_arith)
            requires
                a * self.proj_u(p) == (a * w.u) * d,
                b * self.proj_v(p) == (b * w.v) * d,
                c * self.proj_w(p) == (c * w.w) * d,
                x == a * w.u + b * w.v + c * w.w,
        ;
        lemma_div_cancel(x, d);
    }
}

proof fn lemma_scale(a: int, x: int, d: int, y: int)
    requires
        x * d == y,
    ensures
        a * y == (a * x) * d,
{
    assert(a * y == (a * x) * d) by (nonlinear_arith)
        requires
            x * d == y,
    ;
}

/// `(x * d) / (d * d) == x / d` for a positive `d`.
proof fn lemma_div_cancel(x: int, d: int)
    requires
        d > 0,
    ensures
        (x * d) / (d * d) == x / d,
{
    let q = x / d;
    let r = x % d;
    assert(x == q * d + r && 0 <= r < d) by (nonlinear_arith)
        requires
            d > 0,
            q == x / d,
            r == x % d,
    ;
    assert(x * d == q * (d * d) + r * d && 0 <= r * d < d * d) by (nonlinear_arith)
        requires
            d > 0,
            x == q * d + r,
            0 <= r < d,
    ;
    lemma_fundamental_div_mod_converse(x * d, d * d, q, r * d);
}

/// For a positive `d`, `0 <= x * d <= d * d` exactly when `0 <= x <= d`.
proof fn lemma_scaled_range(x: int, d: int)
    ensures
        d > 0 ==> ((0 <= x * d && x * d <= d * d) <==> (0 <= x && x <= d)),
        d * d == 0 <==> d == 0,
{
    assert(d > 0 ==> ((0 <= x * d && x * d <= d * d) <==> (0 <= x && x <= d))) by (nonlinear_arith);
    assert(d * d == 0 <==> d == 0) by (nonlinear_arith);
}

/// `(a * u + b * v + c * w) / denom`, for weights that lie in `[0, 1]` and
/// sum to one.
fn blend_channel(a: u8, b: u8, c: u8, wt: &Barycentric) -> (r: u8)
    requires
        0 < wt.denom <= CROSS_SPAN,
        0 <= wt.u <= wt.denom,
        0 <= wt.v <= wt.denom,
        0 <= wt.w <= wt.denom,
        wt.u + wt.v + wt.w == wt.denom,
    ensures
        r == (a * wt.u + b * wt.v + c * wt.w) / (wt.denom as int),
{
    let ghost d = wt.denom as int;
    proof {
        assert(0 <= a * wt.u <= 255 * wt.u) by (nonlinear_arith)
            requires 0 <= wt.u, 0 <= a <= 255;
        assert(0 <= b * wt.v <= 255 * wt.v) by (nonlinear_arith)
            requires 0 <= wt.v, 0 <= b <= 255;
        assert(0 <= c * wt.w <= 255 * wt.w) by (nonlinear_arith)
            requires 0 <= wt.w, 0 <= c <= 255;
    }
    let n = a as i128 * wt.u + b as i128 * wt.v + c as i128 * wt.w;
    proof {
        assert((n as int) / d <= 255) by (nonlinear_arith)
            requires 0 <= n <= 255 * d, d > 0;
        assert((n as int) / d >= 0) by (nonlinear_arith)
            requires 0 <= n, d > 0;
    }
    (n / wt.denom) as u8
}

fn min_of_three(a: u32, b: u32, c: u32) -> (m: u32)
    ensures
        m == min3(a, b, c),
{
    if a <= b && a <= c {
        a
    } else if b <= c {
        b
    } else {
        c
    }
}

fn max_of_three(a: u32, b: u32, c: u32) -> (m: u32)
    ensures
        m == max3(a, b, c),
{
    if a >= b && a >= c {
        a
    } else if b >= c {
        b
    } else {
        c
    }
}

/// A blend whose whole weight sits on one channel value gives that value.
proof fn lemma_blend_unit(a: int, b: int, c: int, d: int)
    requires
        d > 0,
    ensures
        (a * d + b * 0 + c * 0) / d == a,
        (a * 0 + b * d + c * 0) / d == b,
        (a * 0 + b * 0 + c * d) / d == c,
{
    assert((a * d + b * 0 + c * 0) / d == a) by (nonlinear_arith) requires d > 0;
    assert((a * 0 + b * d + c * 0) / d == b) by (nonlinear_arith) requires d > 0;
    assert((a * 0 + b * 0 + c * d) / d == c) by (nonlinear_arith) requires d > 0;
}

impl Triangle {
    /// A triangle is degenerate exactly when its vertices are collinear or
    /// coincide, and otherwise its projection denominator is positive.
    pub proof fn lemma_degenerate_iff_collinear(self)
        ensures
            self.is_degenerate() <==> cross(self.edge0(), self.edge1()) == 0,
            self.proj_denom() >= 0,
    {
        self.lemma_projection_by_cross(self.p1);
        let a = cross(self.edge0(), self.edge1());
        assert(a * a >= 0 && (a * a == 0 <==> a == 0)) by (nonlinear_arith);
    }

    /// Every vertex of a non-degenerate triangle gets its own colour, with no
    /// blending error.
    pub proof fn lemma_vertex_colors(self)
        requires
            !self.is_degenerate(),
        ensures
            self.color_at(self.p1) == self.c1,
            self.color_at(self.p2) == self.c2,
            self.color_at(self.p3) == self.c3,
    {
        self.lemma_degenerate_iff_collinear();
        let d = self.proj_denom();
        let (v0, v1) = (self.edge0(), self.edge1());
        lemma_dot_commutes(v0, v1);
        let (d00, d01, d11) = (dot(v0, v0), dot(v0, v1), dot(v1, v1));
        assert(diff(self.p1, self.p1) == (0int, 0int));
        assert(self.proj_v(self.p1) == 0 && self.proj_w(self.p1) == 0) by (nonlinear_arith)
            requires
                self.proj_v(self.p1) == d11 * dot((0int, 0int), v0) - d01 * dot((0int, 0int), v1),
                self.proj_w(self.p1) == d00 * dot((0int, 0int), v1) - d01 * dot((0int, 0int), v0),
        ;
        assert(diff(self.p2, self.p1) == v0);
        assert(self.proj_v(self.p2) == d && self.proj_w(self.p2) == 0) by (nonlinear_arith)
            requires
                self.proj_v(self.p2) == d11 * d00 - d01 * d01,
                self.proj_w(self.p2) == d00 * d01 - d01 * d00,
                d == d00 * d11 - d01 * d01,
        ;
        assert(diff(self.p3, self.p1) == v1);
        assert(self.proj_v(self.p3) == 0 && self.proj_w(self.p3) == d) by (nonlinear_arith)
            requires
                self.proj_v(self.p3) == d11 * d01 - d01 * d11,
                self.proj_w(self.p3) == d00 * d11 - d01 * d01,
                d == d00 * d11 - d01 * d01,
        ;
        let (c1, c2, c3) = (self.c1, self.c2, self.c3);
        lemma_blend_unit(c1.r as int, c2.r as int, c3.r as int, d);
        lemma_blend_unit(c1.g as int, c2.g as int, c3.g as int, d);
        lemma_blend_unit(c1.b as int, c2.b as int, c3.b as int, d);
    }

    /// The three barycentric weights of any point sum to one.
    pub proof fn lemma_weights_sum_to_one(self, p: Point)
        requires
            !self.is_degenerate(),
        ensures
            self.proj_u(p) + self.proj_v(p) + self.proj_w(p) == self.proj_denom(),
    {
    }

    /// A triangle whose vertices are collinear or coincide colours no point.
    pub proof fn lemma_collinear_is_background(self, p: Point)
        requires
            cross(self.edge0(), self.edge1()) == 0,
        ensures
            self.color_at(p) == Color::background(),
    {
        self.lemma_degenerate_iff_collinear();
    }

    /// A point on the edge from `p1` to `p2` passes the inside test and is
    /// given the blended colour, not the background.
    pub proof fn lemma_edge_point_covered(self, p: Point)
        requires
            !self.is_degenerate(),
            cross(self.edge0(), diff(p, self.p1)) == 0,
            0 <= dot(diff(p, self.p1), self.edge0()) <= dot(self.edge0(), self.edge0()),
        ensures
            self.covers(p),
            self.color_at(p) == self.interpolated(p),
    {
        self.lemma_degenerate_iff_collinear();
        self.lemma_projection_by_cross(p);
        let d = self.proj_denom();
        let (v0, v1, v2) = (self.edge0(), self.edge1(), diff(p, self.p1));
        let area = cross(v0, v1);
        let cv = cross(v2, v1);
        let (d00, d20) = (dot(v0, v0), dot(v2, v0));
        assert(d00 > 0) by (nonlinear_arith)
            requires
                area != 0,
                area == v0.0 * v1.1 - v0.1 * v1.0,
                d00 == v0.0 * v0.0 + v0.1 * v0.1,
        ;
        assert(d00 * v2.0 == d20 * v0.0 && d00 * v2.1 == d20 * v0.1) by (nonlinear_arith)
            requires
                v0.0 * v2.1 - v0.1 * v2.0 == 0,
                d00 == v0.0 * v0.0 + v0.1 * v0.1,
                d20 == v2.0 * v0.0 + v2.1 * v0.1,
        ;
        assert(d00 * cv == (d00 * v2.0) * v1.1 - (d00 * v2.1) * v1.0) by (nonlinear_arith)
            requires
                cv == v2.0 * v1.1 - v2.1 * v1.0,
        ;
        assert((d20 * v0.0) * v1.1 - (d20 * v0.1) * v1.0 == d20 * area) by (nonlinear_arith)
            requires
                area == v0.0 * v1.1 - v0.1 * v1.0,
        ;
        let pv = self.proj_v(p);
        assert(d00 * pv == d20 * d) by (nonlinear_arith)
            requires
                pv == cv * area,
                d == area * area,
                d00 * cv == d20 * area,
        ;
        assert(0 <= pv <= d) by (nonlinear_arith)
            requires
                d00 > 0,
                d > 0,
                0 <= d20 <= d00,
                d00 * pv == d20 * d,
        ;
    }
}

} // verus!
