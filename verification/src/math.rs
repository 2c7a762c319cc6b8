//! Plane geometry over fixed-point numbers: vectors, segments, the
//! intersection of two lines and the swept test of a moving box against a
//! resting one.

use crate::fixed::fx;
use crate::fixed::int_sqrt;
use crate::fixed::isqrt;
use crate::fixed::lemma_product_bound;
use crate::fixed::lemma_product_bounds;
use crate::fixed::limit;
use crate::fixed::ONE_RAW;
use crate::fixed::quot_raw;
use crate::fixed::quotient;
use crate::fixed::sat;
use crate::fixed::saturate;
use crate::fixed::scale;
use crate::fixed::trunc_div;
use crate::fixed::Fixed;
use core::ops::Neg;
use vstd::prelude::*;
use vstd::std_specs::cmp::PartialOrdIs;
use vstd::std_specs::cmp::PartialOrdSpec;
use vstd::std_specs::ops::AddSpecImpl;
use vstd::std_specs::ops::DivSpecImpl;
use vstd::std_specs::ops::MulSpecImpl;
use vstd::std_specs::ops::NegSpecImpl;
use vstd::std_specs::ops::SubSpecImpl;

verus! {

/// A vector, or a point, of the plane.
#[derive(Copy, Clone, Debug, PartialEq, Eq, Structural, PartialOrd, Hash)]
pub struct Vec2 {
    pub x: Fixed,
    pub y: Fixed,
}

impl Vec2 {
    /// The vector with the given raw coordinates.
    pub open spec fn of(x: int, y: int) -> Vec2 {
        Vec2 { x: fx(x), y: fx(y) }
    }

    /// The zero vector.
    pub open spec fn origin() -> Vec2 {
        Vec2::of(0, 0)
    }

    /// Componentwise saturated sum.
    pub open spec fn plus(self, rhs: Vec2) -> Vec2 {
        Vec2 { x: self.x.plus(rhs.x), y: self.y.plus(rhs.y) }
    }

    /// Componentwise saturated difference.
    pub open spec fn minus(self, rhs: Vec2) -> Vec2 {
        Vec2 { x: self.x.minus(rhs.x), y: self.y.minus(rhs.y) }
    }

    /// Both components multiplied by `k`.
    pub open spec fn scaled(self, k: Fixed) -> Vec2 {
        Vec2 { x: self.x.times(k), y: self.y.times(k) }
    }

    /// Both components divided by `k`.
    pub open spec fn divided(self, k: Fixed) -> Vec2 {
        Vec2 { x: self.x.over(k), y: self.y.over(k) }
    }

    /// Both components negated.
    pub open spec fn negated(self) -> Vec2 {
        Vec2 { x: self.x.negated(), y: self.y.negated() }
    }

    /// The dot product: the exact sum of products, rounded once.
    pub open spec fn dot(self, rhs: Vec2) -> Fixed {
        fx(sat(trunc_div(self.x@ * rhs.x@ + self.y@ * rhs.y@, scale())))
    }

    /// The cross product: the exact difference of products, rounded once.
    pub open spec fn crossed(self, rhs: Vec2) -> Fixed {
        fx(sat(trunc_div(self.x@ * rhs.y@ - self.y@ * rhs.x@, scale())))
    }

    /// The squared length.
    pub open spec fn length2(self) -> Fixed {
        self.dot(self)
    }

    /// The length: the integer square root of the exact sum of squares.
    pub open spec fn length(self) -> Fixed {
        fx(sat(isqrt(self.x@ * self.x@ + self.y@ * self.y@)))
    }

    /// The vector divided by its length, or the zero vector if that length
    /// is zero.
    pub open spec fn unit(self) -> Vec2 {
        if self.length()@ == 0 {
            Vec2::origin()
        } else {
            self.divided(self.length())
        }
    }

    /// The vector turned by a quarter turn counterclockwise.
    pub open spec fn turned(self) -> Vec2 {
        Vec2 { x: self.y.negated(), y: self.x }
    }

    /// One component of the mirror image of a vector across the line with
    /// normal `n`: `v - 2 n (n . v)`, computed exactly and rounded once.
    /// Here `v` and `n` are the raw values of that component of the vector
    /// and of the normal, and `along` is the exact sum of the products of
    /// the raw components of the two.
    pub open spec fn mirrored(v: int, n: int, along: int) -> Fixed {
        fx(quot_raw(v * (scale() * scale()) - 2 * n * along, scale() * scale()))
    }

    /// The mirror image of the vector across the line with normal `n`:
    /// `v - 2 n (n . v)`, computed exactly and rounded once at the end.
    pub open spec fn reflected(self, n: Vec2) -> Vec2 {
        let along = n.x@ * self.x@ + n.y@ * self.y@;
        Vec2 {
            x: Vec2::mirrored(self.x@, n.x@, along),
            y: Vec2::mirrored(self.y@, n.y@, along),
        }
    }

    /// Whether both components are zero.
    pub open spec fn is_origin(self) -> bool {
        self.x@ == 0 && self.y@ == 0
    }

    /// The vector with the given components.
    #[inline(always)]
    pub fn new(x: Fixed, y: Fixed) -> (r: Vec2)
        ensures
            r == (Vec2 { x, y }),
    {
        Vec2 { x, y }
    }

    /// The zero vector.
    #[inline(always)]
    pub fn zero() -> (r: Vec2)
        ensures
            r == Vec2::origin(),
    {
        Vec2 { x: Fixed::zero(), y: Fixed::zero() }
    }

    /// Whether this is the zero vector.
    pub fn is_zero(&self) -> (r: bool)
        ensures
            r == self.is_origin(),
    {
        self.x.value() == 0 && self.y.value() == 0
    }

    /// The length.
    pub fn len(&self) -> (r: Fixed)
        ensures
            r == self.length(),
    {
        let x: i128 = self.x.value() as i128;
        let y: i128 = self.y.value() as i128;
        proof {
            lemma_product_bound(x as int, x as int, limit());
            lemma_product_bound(y as int, y as int, limit());
            assert(x * x >= 0 && y * y >= 0) by (nonlinear_arith);
        }
        let sum: i128 = x * x + y * y;
        let root: u64 = int_sqrt(sum as u128);
        saturate(root as i128)
    }

    /// The squared length.
    pub fn len2(&self) -> (r: Fixed)
        ensures
            r == self.length2(),
    {
        self.dot_with(*self)
    }

    /// The dot product with `rhs`.
    pub fn dot_with(&self, rhs: Vec2) -> (r: Fixed)
        ensures
            r == self.dot(rhs),
    {
        let x1: i128 = self.x.value() as i128;
        let y1: i128 = self.y.value() as i128;
        let x2: i128 = rhs.x.value() as i128;
        let y2: i128 = rhs.y.value() as i128;
        proof {
            lemma_product_bound(x1 as int, x2 as int, limit());
            lemma_product_bound(y1 as int, y2 as int, limit());
        }
        saturate((x1 * x2 + y1 * y2) / 0x40_0000)
    }

    /// The vector divided by its length; the zero vector if the length is
    /// zero.
    pub fn normalized(&self) -> (r: Vec2)
        ensures
            r == self.unit(),
    {
        let len = self.len();

        if len.value() == 0 {
            return Vec2::zero();
        }

        Vec2::new(self.x / len, self.y / len)
    }

    /// The vector turned by a quarter turn counterclockwise.
    pub fn perp(&self) -> (r: Vec2)
        ensures
            r == self.turned(),
    {
        Vec2::new(self.y.neg(), self.x)
    }

    /// The cross product with `other`.
    pub fn cross(&self, other: &Vec2) -> (r: Fixed)
        ensures
            r == self.crossed(*other),
    {
        let x1: i128 = self.x.value() as i128;
        let y1: i128 = self.y.value() as i128;
        let x2: i128 = other.x.value() as i128;
        let y2: i128 = other.y.value() as i128;
        proof {
            lemma_product_bound(x1 as int, y2 as int, limit());
            lemma_product_bound(y1 as int, x2 as int, limit());
        }
        saturate((x1 * y2 - y1 * x2) / 0x40_0000)
    }

    /// The mirror image across the line with the given normal.
    pub fn reflect(&self, normal: &Vec2) -> (r: Vec2)
        ensures
            r == self.reflected(*normal),
    {
        let vx: i128 = self.x.value() as i128;
        let vy: i128 = self.y.value() as i128;
        let nx: i128 = normal.x.value() as i128;
        let ny: i128 = normal.y.value() as i128;
        proof {
            lemma_product_bound(nx as int, vx as int, limit());
            lemma_product_bound(ny as int, vy as int, limit());
        }
        let along: i128 = nx * vx + ny * vy;
        proof {
            lemma_product_bounds(2 * nx, along as int, 2 * limit(), 2 * (limit() * limit()));
            lemma_product_bounds(2 * ny, along as int, 2 * limit(), 2 * (limit() * limit()));
        }
        let unit: i128 = 0x1000_0000_0000;
        Vec2::new(
            quotient(vx * unit - (2 * nx) * along, unit),
            quotient(vy * unit - (2 * ny) * along, unit),
        )
    }
}

impl Default for Vec2 {
    fn default() -> (r: Vec2)
        ensures
            r == Vec2::origin(),
    {
        Vec2::zero()
    }
}

impl NegSpecImpl for Vec2 {
    open spec fn obeys_neg_spec() -> bool {
        true
    }

    open spec fn neg_req(self) -> bool {
        true
    }

    open spec fn neg_spec(self) -> Vec2 {
        self.negated()
    }
}

impl core::ops::Neg for Vec2 {
    type Output = Vec2;

    fn neg(self) -> Vec2 {
        Vec2::new(self.x.neg(), self.y.neg())
    }
}

impl AddSpecImpl for Vec2 {
    open spec fn obeys_add_spec() -> bool {
        true
    }

    open spec fn add_req(self, rhs: Vec2) -> bool {
        true
    }

    open spec fn add_spec(self, rhs: Vec2) -> Vec2 {
        self.plus(rhs)
    }
}

impl core::ops::Add for Vec2 {
    type Output = Vec2;

    #[inline(always)]
    fn add(self, rhs: Vec2) -> Vec2 {
        Vec2::new(self.x + rhs.x, self.y + rhs.y)
    }
}

impl SubSpecImpl for Vec2 {
    open spec fn obeys_sub_spec() -> bool {
        true
    }

    open spec fn sub_req(self, rhs: Vec2) -> bool {
        true
    }

    open spec fn sub_spec(self, rhs: Vec2) -> Vec2 {
        self.minus(rhs)
    }
}

impl core::ops::Sub for Vec2 {
    type Output = Vec2;

    #[inline(always)]
    fn sub(self, rhs: Vec2) -> Vec2 {
        Vec2::new(self.x - rhs.x, self.y - rhs.y)
    }
}

impl SubSpecImpl<Vec2> for &Vec2 {
    open spec fn obeys_sub_spec() -> bool {
        true
    }

    open spec fn sub_req(self, rhs: Vec2) -> bool {
        true
    }

    open spec fn sub_spec(self, rhs: Vec2) -> Vec2 {
        self.minus(rhs)
    }
}

impl core::ops::Sub<Vec2> for &Vec2 {
    type Output = Vec2;

    #[inline(always)]
    fn sub(self, rhs: Vec2) -> Vec2 {
        Vec2::new(self.x - rhs.x, self.y - rhs.y)
    }
}

impl SubSpecImpl for &Vec2 {
    open spec fn obeys_sub_spec() -> bool {
        true
    }

    open spec fn sub_req(self, rhs: &Vec2) -> bool {
        true
    }

    open spec fn sub_spec(self, rhs: &Vec2) -> Vec2 {
        self.minus(*rhs)
    }
}

impl core::ops::Sub for &Vec2 {
    type Output = Vec2;

    #[inline(always)]
    fn sub(self, rhs: &Vec2) -> Vec2 {
        Vec2::new(self.x - rhs.x, self.y - rhs.y)
    }
}

impl MulSpecImpl<Fixed> for Vec2 {
    open spec fn obeys_mul_spec() -> bool {
        true
    }

    open spec fn mul_req(self, rhs: Fixed) -> bool {
        true
    }

    open spec fn mul_spec(self, rhs: Fixed) -> Vec2 {
        self.scaled(rhs)
    }
}

impl core::ops::Mul<Fixed> for Vec2 {
    type Output = Vec2;

    #[inline(always)]
    fn mul(self, rhs: Fixed) -> Vec2 {
        Vec2::new(self.x * rhs, self.y * rhs)
    }
}

impl MulSpecImpl<Fixed> for &Vec2 {
    open spec fn obeys_mul_spec() -> bool {
        true
    }

    open spec fn mul_req(self, rhs: Fixed) -> bool {
        true
    }

    open spec fn mul_spec(self, rhs: Fixed) -> Vec2 {
        self.scaled(rhs)
    }
}

impl core::ops::Mul<Fixed> for &Vec2 {
    type Output = Vec2;

    #[inline(always)]
    fn mul(self, rhs: Fixed) -> Vec2 {
        Vec2::new(self.x * rhs, self.y * rhs)
    }
}

impl MulSpecImpl<&Vec2> for Fixed {
    open spec fn obeys_mul_spec() -> bool {
        true
    }

    open spec fn mul_req(self, rhs: &Vec2) -> bool {
        true
    }

    open spec fn mul_spec(self, rhs: &Vec2) -> Vec2 {
        Vec2 { x: self.times(rhs.x), y: self.times(rhs.y) }
    }
}

impl core::ops::Mul<&Vec2> for Fixed {
    type Output = Vec2;

    #[inline(always)]
    fn mul(self, rhs: &Vec2) -> Vec2 {
        Vec2::new(self * rhs.x, self * rhs.y)
    }
}

impl DivSpecImpl<Fixed> for Vec2 {
    open spec fn obeys_div_spec() -> bool {
        true
    }

    open spec fn div_req(self, rhs: Fixed) -> bool {
        true
    }

    open spec fn div_spec(self, rhs: Fixed) -> Vec2 {
        self.divided(rhs)
    }
}

impl core::ops::Div<Fixed> for Vec2 {
    type Output = Vec2;

    #[inline(always)]
    fn div(self, rhs: Fixed) -> Vec2 {
        Vec2::new(self.x / rhs, self.y / rhs)
    }
}

impl MulSpecImpl for Vec2 {
    open spec fn obeys_mul_spec() -> bool {
        true
    }

    open spec fn mul_req(self, rhs: Vec2) -> bool {
        true
    }

    open spec fn mul_spec(self, rhs: Vec2) -> Fixed {
        self.dot(rhs)
    }
}

impl core::ops::Mul for Vec2 {
    type Output = Fixed;

    #[inline(always)]
    fn mul(self, rhs: Vec2) -> Fixed {
        self.dot_with(rhs)
    }
}

impl MulSpecImpl for &Vec2 {
    open spec fn obeys_mul_spec() -> bool {
        true
    }

    open spec fn mul_req(self, rhs: &Vec2) -> bool {
        true
    }

    open spec fn mul_spec(self, rhs: &Vec2) -> Fixed {
        self.dot(*rhs)
    }
}

impl core::ops::Mul for &Vec2 {
    type Output = Fixed;

    #[inline(always)]
    fn mul(self, rhs: &Vec2) -> Fixed {
        self.dot_with(*rhs)
    }
}

/// An axis-aligned box given by its center and its half extents.
#[derive(Copy, Clone, Debug, PartialEq, Eq, Structural)]
pub struct Rect2 {
    pub center: Vec2,
    pub radius: Vec2,
}

impl Rect2 {
    /// The box of no size at the origin.
    pub fn zero() -> (r: Rect2)
        ensures
            r == (Rect2 { center: Vec2::origin(), radius: Vec2::origin() }),
    {
        Rect2 { center: Vec2::zero(), radius: Vec2::zero() }
    }

    /// This box grown by the half extents of `other`.
    pub fn minkowski_sum(&self, other: &Rect2) -> (r: Rect2)
        ensures
            r == (Rect2 { center: self.center, radius: self.radius.plus(other.radius) }),
    {
        Rect2 { center: self.center, radius: self.radius + other.radius }
    }
}

/// A directed segment from `start` to `end`.
#[derive(Copy, Clone, Debug, PartialEq, Eq, Structural)]
pub struct Line2 {
    pub start: Vec2,
    pub end: Vec2,
}

impl Line2 {
    /// The point at parameter `t`: `start + (end - start) t`.
    pub open spec fn at(self, t: Fixed) -> Vec2 {
        self.start.plus(self.end.minus(self.start).scaled(t))
    }

    /// The displacement from `start` to `end`.
    pub open spec fn span(self) -> Vec2 {
        self.end.minus(self.start)
    }

    /// The segment between two points.
    pub fn new(start: Vec2, end: Vec2) -> (r: Line2)
        ensures
            r == (Line2 { start, end }),
    {
        Line2 { start, end }
    }

    /// The point at parameter `t`, which is `start` at zero and `end` at one.
    pub fn point(&self, t: Fixed) -> (r: Vec2)
        ensures
            r == self.at(t),
    {
        self.start + (self.end - self.start) * t
    }

    /// Cuts the segment off at parameter `t`.
    pub fn truncate(&mut self, t: Fixed)
        ensures
            *final(self) == (Line2 { start: old(self).start, end: old(self).at(t) }),
    {
        self.end = self.point(t);
    }

    /// The displacement from `start` to `end`.
    pub fn vec(&self) -> (r: Vec2)
        ensures
            r == self.span(),
    {
        self.end - self.start
    }
}

/// The determinant of the directions of the lines through `(x1, y1)`,
/// `(x2, y2)` and through `(x3, y3)`, `(x4, y4)`; zero exactly when the two
/// are parallel.
pub open spec fn det(x1: int, y1: int, x2: int, y2: int, x3: int, y3: int, x4: int, y4: int) -> int {
    (x1 - x2) * (y3 - y4) - (y1 - y2) * (x3 - x4)
}

/// The numerator of the parameter of the crossing point on the first line.
pub open spec fn t_num(x1: int, y1: int, x2: int, y2: int, x3: int, y3: int, x4: int, y4: int) -> int {
    (x1 - x3) * (y3 - y4) - (y1 - y3) * (x3 - x4)
}

/// The numerator of the parameter of the crossing point on the second line.
pub open spec fn u_num(x1: int, y1: int, x2: int, y2: int, x3: int, y3: int, x4: int, y4: int) -> int {
    -((x1 - x2) * (y1 - y3) - (y1 - y2) * (x1 - x3))
}

/// Where the line through the first two points crosses the line through the
/// last two, as the pair of parameters `(t, u)` along each: nothing if the
/// lines are parallel, otherwise the exact quotients rounded once.
pub open spec fn crossing(
    x1: int,
    y1: int,
    x2: int,
    y2: int,
    x3: int,
    y3: int,
    x4: int,
    y4: int,
) -> Option<(Fixed, Fixed)> {
    let d = det(x1, y1, x2, y2, x3, y3, x4, y4);
    if d == 0 {
        None
    } else {
        Some(
            (
                fx(quot_raw(t_num(x1, y1, x2, y2, x3, y3, x4, y4) * scale(), d)),
                fx(quot_raw(u_num(x1, y1, x2, y2, x3, y3, x4, y4) * scale(), d)),
            ),
        )
    }
}

/// Intersects the line through `(x1, y1)` and `(x2, y2)` with the line
/// through `(x3, y3)` and `(x4, y4)`.
pub fn line_intersection(
    x1: Fixed,
    y1: Fixed,
    x2: Fixed,
    y2: Fixed,
    x3: Fixed,
    y3: Fixed,
    x4: Fixed,
    y4: Fixed,
) -> (r: Option<(Fixed, Fixed)>)
    ensures
        r == crossing(x1@, y1@, x2@, y2@, x3@, y3@, x4@, y4@),
{
    let a: i128 = x1.value() as i128 - x2.value() as i128;
    let b: i128 = y3.value() as i128 - y4.value() as i128;
    let c: i128 = y1.value() as i128 - y2.value() as i128;
    let d: i128 = x3.value() as i128 - x4.value() as i128;
    let e: i128 = x1.value() as i128 - x3.value() as i128;
    let f: i128 = y1.value() as i128 - y3.value() as i128;
    proof {
        lemma_product_bound(a as int, b as int, 2 * limit());
        lemma_product_bound(c as int, d as int, 2 * limit());
        lemma_product_bound(e as int, b as int, 2 * limit());
        lemma_product_bound(f as int, d as int, 2 * limit());
        lemma_product_bound(a as int, f as int, 2 * limit());
        lemma_product_bound(c as int, e as int, 2 * limit());
    }
    let det: i128 = a * b - c * d;
    if det == 0 {
        return None;
    }
    let t: i128 = e * b - f * d;
    let u: i128 = -(a * f - c * e);

    Some((quotient(t * 0x40_0000, det), quotient(u * 0x40_0000, det)))
}

/// The outcome of a swept test: the fraction `t` of the movement after which
/// the boxes touch, and the outward normal of the side that was hit.
#[derive(Copy, Clone, Debug, PartialEq, Eq, Structural)]
pub struct Collision2 {
    pub t: Fixed,
    pub normal: Vec2,
}

/// The four sides of the box with the given center and half extents, as
/// directed segments: top, bottom, left, right.
pub open spec fn box_edges(center: Vec2, radius: Vec2) -> Seq<Line2> {
    let left = center.x.minus(radius.x);
    let right = center.x.plus(radius.x);
    let bottom = center.y.minus(radius.y);
    let top = center.y.plus(radius.y);
    seq![
        Line2 { start: Vec2 { x: left, y: top }, end: Vec2 { x: right, y: top } },
        Line2 { start: Vec2 { x: right, y: bottom }, end: Vec2 { x: left, y: bottom } },
        Line2 { start: Vec2 { x: left, y: bottom }, end: Vec2 { x: left, y: top } },
        Line2 { start: Vec2 { x: right, y: top }, end: Vec2 { x: right, y: bottom } },
    ]
}

/// Whether a parameter lies between zero and one, both included.
pub open spec fn in_unit(t: Fixed) -> bool {
    0 <= t@ <= scale()
}

/// The parameter along `movement` at which it crosses `edge`, if the two
/// segments do cross: both parameters lie between zero and one.
pub open spec fn edge_hit(movement: Line2, edge: Line2) -> Option<Fixed> {
    match crossing(
        movement.start.x@,
        movement.start.y@,
        movement.end.x@,
        movement.end.y@,
        edge.start.x@,
        edge.start.y@,
        edge.end.x@,
        edge.end.y@,
    ) {
        Some((t, u)) => if in_unit(t) && in_unit(u) {
            Some(t)
        } else {
            None
        },
        None => None,
    }
}

/// The index of the edge, among the first `n` of `edges`, that `movement`
/// crosses first; among edges crossed at the same parameter, the one that
/// comes first in `edges`.
pub open spec fn earliest(movement: Line2, edges: Seq<Line2>, n: int) -> Option<int>
    decreases n,
{
    if n <= 0 {
        None
    } else {
        let before = earliest(movement, edges, n - 1);
        match edge_hit(movement, edges[n - 1]) {
            None => before,
            Some(t) => match before {
                None => Some(n - 1),
                Some(i) => if t@ < edge_hit(movement, edges[i]).unwrap()@ {
                    Some(n - 1)
                } else {
                    before
                },
            },
        }
    }
}

/// The outward normal of a side of a box.
pub open spec fn edge_normal(edge: Line2) -> Vec2 {
    edge.span().unit().turned()
}

/// The swept test: a box with half extents `move_radius` whose center moves
/// along `movement` against a resting box. The resting box is grown by
/// `move_radius`, and the result is the first of its sides that the
/// movement crosses.
pub open spec fn sweep(
    movement: Line2,
    move_radius: Vec2,
    obstacle_center: Vec2,
    obstacle_radius: Vec2,
) -> Option<Collision2> {
    let edges = box_edges(obstacle_center, move_radius.plus(obstacle_radius));
    match earliest(movement, edges, 4) {
        None => None,
        Some(i) => Some(
            Collision2 { t: edge_hit(movement, edges[i]).unwrap(), normal: edge_normal(edges[i]) },
        ),
    }
}

/// The `k`-th side of a box.
fn box_edge(center: Vec2, radius: Vec2, k: usize) -> (r: Line2)
    requires
        k < 4,
    ensures
        r == box_edges(center, radius)[k as int],
{
    let left = center.x - radius.x;
    let right = center.x + radius.x;
    let bottom = center.y - radius.y;
    let top = center.y + radius.y;
    if k == 0 {
        Line2::new(Vec2::new(left, top), Vec2::new(right, top))
    } else if k == 1 {
        Line2::new(Vec2::new(right, bottom), Vec2::new(left, bottom))
    } else if k == 2 {
        Line2::new(Vec2::new(left, bottom), Vec2::new(left, top))
    } else {
        Line2::new(Vec2::new(right, top), Vec2::new(right, bottom))
    }
}

/// Crosses `movement` with one side of a box.
fn hit_edge(movement: &Line2, edge: &Line2) -> (r: Option<Fixed>)
    ensures
        r == edge_hit(*movement, *edge),
{
    if let Some((t, u)) = line_intersection(
        movement.start.x,
        movement.start.y,
        movement.end.x,
        movement.end.y,
        edge.start.x,
        edge.start.y,
        edge.end.x,
        edge.end.y,
    ) {
        if t.value() >= 0 && t.value() <= ONE_RAW && u.value() >= 0 && u.value() <= ONE_RAW {
            return Some(t);
        }
    }
    None
}

/// Sweeps a box with the half extents `move_radius`, whose center moves
/// along `movement`, against a resting box: the fraction of the movement after
/// which the two first touch, and the outward normal of the side that is
/// touched, or nothing if they do not touch during the movement.
pub fn swept_aabb2(
    movement: &Line2,
    move_radius: Vec2,
    obstacle_center: Vec2,
    obstacle_radius: Vec2,
) -> (r: Option<Collision2>)
    ensures
        r == sweep(*movement, move_radius, obstacle_center, obstacle_radius),
{
    // Minkowski sum
    let obstacle_radius = move_radius + obstacle_radius;
    let ghost edges = box_edges(obstacle_center, obstacle_radius);
    let mut best: Option<(usize, Fixed)> = None;
    let mut k: usize = 0;
    while k < 4
        invariant
            k <= 4,
            edges == box_edges(obstacle_center, obstacle_radius),
            match best {
                None => earliest(*movement, edges, k as int) is None,
                Some((i, t)) => i < k && earliest(*movement, edges, k as int) == Some(i as int)
                    && edge_hit(*movement, edges[i as int]) == Some(t),
            },
        decreases 4 - k,
    {
        let edge = box_edge(obstacle_center, obstacle_radius, k);
        if let Some(t) = hit_edge(movement, &edge) {
            match best {
                None => {
                    best = Some((k, t));
                },
                Some((_, first)) => {
                    if t.lt(first) {
                        best = Some((k, t));
                    }
                },
            }
        }
        k += 1;
    }
    match best {
        None => None,
        Some((i, t)) => {
            let edge = box_edge(obstacle_center, obstacle_radius, i);
            Some(Collision2 { t, normal: (edge.end - edge.start).normalized().perp() })
        },
    }
}

/// Keeps `val` between `min` and `max`.
pub fn clamp<T>(min: T, val: T, max: T) -> (r: T) where T: PartialOrd
    ensures
        T::obeys_partial_cmp_spec() ==> r == if val.is_lt(&min) {
            min
        } else if val.is_gt(&max) {
            max
        } else {
            val
        },
{
    if val < min {
        min
    } else if val > max {
        max
    } else {
        val
    }
}

/// Whether the closed intervals `[left1, right1]` and `[left2, right2]`
/// meet.
pub open spec fn intervals_meet(left1: Fixed, right1: Fixed, left2: Fixed, right2: Fixed) -> bool {
    !(left2@ > right1@ || right2@ < left1@)
}

/// Whether two boxes, each given by its center and half extents, overlap or
/// touch.
pub open spec fn boxes_meet(p1: Vec2, half_size1: Vec2, p2: Vec2, half_size2: Vec2) -> bool {
    &&& intervals_meet(
        p1.x.minus(half_size1.x),
        p1.x.plus(half_size1.x),
        p2.x.minus(half_size2.x),
        p2.x.plus(half_size2.x),
    )
    &&& intervals_meet(
        p1.y.minus(half_size1.y),
        p1.y.plus(half_size1.y),
        p2.y.minus(half_size2.y),
        p2.y.plus(half_size2.y),
    )
}

/// Whether two boxes, each given by its center and half extents, overlap
/// or touch.
pub fn aabb_vs_aabb(p1: Vec2, half_size1: Vec2, p2: Vec2, half_size2: Vec2) -> (r: bool)
    ensures
        r == boxes_meet(p1, half_size1, p2, half_size2),
{
    intersect(
        p1.x - half_size1.x,
        p1.x + half_size1.x,
        p2.x - half_size2.x,
        p2.x + half_size2.x,
    ) && intersect(
        p1.y - half_size1.y,
        p1.y + half_size1.y,
        p2.y - half_size2.y,
        p2.y + half_size2.y,
    )
}

/// Whether two closed intervals meet.
#[inline(always)]
fn intersect(left1: Fixed, right1: Fixed, left2: Fixed, right2: Fixed) -> (r: bool)
    ensures
        r == intervals_meet(left1, right1, left2, right2),
{
    !(left2.value() > right1.value() || right2.value() < left1.value())
}

} // verus!
