//! What holds of the swept test and of reflection for all inputs.

use crate::fixed::fx;
use crate::fixed::scale;
use crate::fixed::Fixed;
use crate::math::box_edges;
use crate::math::det;
use crate::math::t_num;
use crate::math::u_num;
use crate::math::earliest;
use crate::math::edge_hit;
use crate::math::edge_normal;
use crate::math::in_unit;
use crate::math::sweep;
use crate::math::Line2;
use crate::math::Vec2;
use vstd::prelude::*;

verus! {

/// Two lines that are not parallel cross where their parameters say: the
/// point at `t_num / det` along the first is the point at `u_num / det`
/// along the second. Cleared of the division, for each coordinate.
pub proof fn lemma_crossing_is_on_both_lines(
    x1: int,
    y1: int,
    x2: int,
    y2: int,
    x3: int,
    y3: int,
    x4: int,
    y4: int,
)
    ensures
        det(x1, y1, x2, y2, x3, y3, x4, y4) * x1 + t_num(x1, y1, x2, y2, x3, y3, x4, y4) * (x2
            - x1) == det(x1, y1, x2, y2, x3, y3, x4, y4) * x3 + u_num(
            x1,
            y1,
            x2,
            y2,
            x3,
            y3,
            x4,
            y4,
        ) * (x4 - x3),
        det(x1, y1, x2, y2, x3, y3, x4, y4) * y1 + t_num(x1, y1, x2, y2, x3, y3, x4, y4) * (y2
            - y1) == det(x1, y1, x2, y2, x3, y3, x4, y4) * y3 + u_num(
            x1,
            y1,
            x2,
            y2,
            x3,
            y3,
            x4,
            y4,
        ) * (y4 - y3),
{
    lemma_crossing(x1 - x2, y3 - y4, y1 - y2, x3 - x4, x1 - x3, y1 - y3);
    let d = det(x1, y1, x2, y2, x3, y3, x4, y4);
    let t = t_num(x1, y1, x2, y2, x3, y3, x4, y4);
    let u = u_num(x1, y1, x2, y2, x3, y3, x4, y4);
    assert(d * x1 - d * x3 == d * (x1 - x3)) by (nonlinear_arith);
    assert(t * (x2 - x1) == -(t * (x1 - x2))) by (nonlinear_arith);
    assert(u * (x4 - x3) == -(u * (x3 - x4))) by (nonlinear_arith);
    assert(d * y1 - d * y3 == d * (y1 - y3)) by (nonlinear_arith);
    assert(t * (y2 - y1) == -(t * (y1 - y2))) by (nonlinear_arith);
    assert(u * (y4 - y3) == -(u * (y3 - y4))) by (nonlinear_arith);
}

/// The same, for the differences of the coordinates.
proof fn lemma_crossing(a: int, b: int, c: int, e: int, p: int, q: int)
    ensures
        (a * b - c * e) * p - (p * b - q * e) * a + (c * p - a * q) * e == 0,
        (a * b - c * e) * q - (p * b - q * e) * c + (c * p - a * q) * b == 0,
{
    assert((a * b - c * e) * p == a * b * p - c * e * p) by (nonlinear_arith);
    assert((p * b - q * e) * a == p * b * a - q * e * a) by (nonlinear_arith);
    assert((c * p - a * q) * e == c * p * e - a * q * e) by (nonlinear_arith);
    assert(a * b * p == p * b * a) by (nonlinear_arith);
    assert(c * e * p == c * p * e) by (nonlinear_arith);
    assert(q * e * a == a * q * e) by (nonlinear_arith);
    assert((a * b - c * e) * q == a * b * q - c * e * q) by (nonlinear_arith);
    assert((p * b - q * e) * c == p * b * c - q * e * c) by (nonlinear_arith);
    assert((c * p - a * q) * b == c * p * b - a * q * b) by (nonlinear_arith);
    assert(a * b * q == a * q * b) by (nonlinear_arith);
    assert(c * e * q == q * e * c) by (nonlinear_arith);
    assert(p * b * c == c * p * b) by (nonlinear_arith);
}

/// Among the first `n` edges, `earliest` finds nothing exactly if the
/// movement crosses none of them; what it finds is crossed no later than
/// any other, and comes first among those crossed at the same parameter.
pub proof fn lemma_earliest(movement: Line2, edges: Seq<Line2>, n: int)
    requires
        0 <= n <= edges.len(),
    ensures
        match earliest(movement, edges, n) {
            None => forall|j: int| 0 <= j < n ==> edge_hit(movement, #[trigger] edges[j]) is None,
            Some(i) => {
                &&& 0 <= i < n
                &&& edge_hit(movement, edges[i]) is Some
                &&& forall|j: int|
                    0 <= j < n && edge_hit(movement, #[trigger] edges[j]) is Some ==> {
                        let first = edge_hit(movement, edges[i]).unwrap();
                        let other = edge_hit(movement, edges[j]).unwrap();
                        first@ < other@ || (first@ == other@ && i <= j)
                    }
            },
        },
    decreases n,
{
    if n > 0 {
        lemma_earliest(movement, edges, n - 1);
    }
}

/// The swept test finds nothing exactly if the movement crosses no side of
/// the grown box. Otherwise it reports a side that the movement crosses no
/// later than any other side, the first in the order top, bottom, left,
/// right among those crossed at the same parameter, with that parameter,
/// which lies between zero and one, and with that side's normal.
pub proof fn lemma_sweep_is_earliest(
    movement: Line2,
    move_radius: Vec2,
    obstacle_center: Vec2,
    obstacle_radius: Vec2,
)
    ensures
        ({
            let edges = box_edges(obstacle_center, move_radius.plus(obstacle_radius));
            match sweep(movement, move_radius, obstacle_center, obstacle_radius) {
                None => forall|j: int|
                    0 <= j < 4 ==> edge_hit(movement, #[trigger] edges[j]) is None,
                Some(collision) => {
                    &&& in_unit(collision.t)
                    &&& exists|i: int|
                        {
                            &&& 0 <= i < 4
                            &&& #[trigger] edge_hit(movement, edges[i]) == Some(collision.t)
                            &&& collision.normal == edge_normal(edges[i])
                            &&& forall|j: int|
                                0 <= j < 4 && edge_hit(movement, #[trigger] edges[j]) is Some ==> {
                                    let other = edge_hit(movement, edges[j]).unwrap();
                                    collision.t@ < other@ || (collision.t@ == other@ && i <= j)
                                }
                        }
                },
            }
        }),
{
    let edges = box_edges(obstacle_center, move_radius.plus(obstacle_radius));
    lemma_earliest(movement, edges, 4);
}

/// The length of a vector along an axis is the size of its one component,
/// as far as that can be held.
proof fn lemma_length_along_axis(v: Vec2)
    requires
        v.x@ == 0 || v.y@ == 0,
    ensures
        v.length()@ == crate::fixed::sat(
            if v.x@ + v.y@ >= 0 {
                v.x@ + v.y@
            } else {
                -(v.x@ + v.y@)
            },
        ),
{
    let s = v.x@ + v.y@;
    let a = if s >= 0 { s } else { -s };
    assert(v.x@ * v.x@ + v.y@ * v.y@ == a * a) by (nonlinear_arith)
        requires
            v.x@ == 0 || v.y@ == 0,
            a == v.x@ + v.y@ || a == -(v.x@ + v.y@),
    ;
    assert(crate::fixed::is_sqrt(a * a, a)) by (nonlinear_arith)
        requires
            a >= 0,
    ;
    crate::fixed::lemma_sqrt_unique(a * a, a, crate::fixed::isqrt(a * a));
}

/// A number divided by its own size is one, with the number's sign.
proof fn lemma_unit_ratio(x: Fixed)
    ensures
        x@ > 0 ==> x.over(fx(crate::fixed::sat(x@)))@ == scale(),
        x@ < 0 ==> x.over(fx(crate::fixed::sat(-x@)))@ == -scale(),
{
    let a = if x@ >= 0 { x@ } else { -x@ };
    if x@ != 0 {
        assert((a * 0x40_0000) / a == 0x40_0000) by (nonlinear_arith)
            requires
                a > 0,
        ;
    }
}

/// The normals of the sides of a box of positive extent point outward: up
/// from the top, down from the bottom, and away to the left and to the
/// right.
pub proof fn lemma_normals_point_outward(center: Vec2, radius: Vec2)
    requires
        radius.x@ > 0,
        radius.y@ > 0,
    ensures
        edge_normal(box_edges(center, radius)[0]) == Vec2::of(0, scale()),
        edge_normal(box_edges(center, radius)[1]) == Vec2::of(0, -scale()),
        edge_normal(box_edges(center, radius)[2]) == Vec2::of(-scale(), 0),
        edge_normal(box_edges(center, radius)[3]) == Vec2::of(scale(), 0),
{
    let edges = box_edges(center, radius);
    lemma_length_along_axis(edges[0].span());
    lemma_length_along_axis(edges[1].span());
    lemma_length_along_axis(edges[2].span());
    lemma_length_along_axis(edges[3].span());
    lemma_unit_ratio(edges[0].span().x);
    lemma_unit_ratio(edges[1].span().x);
    lemma_unit_ratio(edges[2].span().y);
    lemma_unit_ratio(edges[3].span().y);
}

/// One component of a mirror image, for a normal that is a unit vector
/// along an axis: along the normal the component changes its sign, across
/// it the component stays.
proof fn lemma_mirrored(v: int, n: int, along: int)
    requires
        -crate::fixed::limit() <= v <= crate::fixed::limit(),
    ensures
        (n == scale() || n == -scale()) && along == n * v ==> Vec2::mirrored(v, n, along)@ == -v,
        n == 0 ==> Vec2::mirrored(v, n, along)@ == v,
{
    let unit = scale() * scale();
    assert(unit == 0x1000_0000_0000);
    if (n == scale() || n == -scale()) && along == n * v {
        assert(2 * n * along == 2 * unit * v) by (nonlinear_arith)
            requires
                n == 0x40_0000 || n == -0x40_0000,
                along == n * v,
                unit == 0x1000_0000_0000,
        ;
        assert(v * unit - 2 * n * along == (-v) * unit) by (nonlinear_arith)
            requires
                2 * n * along == 2 * unit * v,
        ;
        if v <= 0 {
            assert(((-v) * unit) / unit == -v) by (nonlinear_arith)
                requires
                    unit == 0x1000_0000_0000,
            ;
            assert((-v) * unit >= 0) by (nonlinear_arith)
                requires
                    v <= 0,
                    unit == 0x1000_0000_0000,
            ;
        } else {
            assert(-((-v) * unit) == v * unit) by (nonlinear_arith);
            assert((v * unit) / unit == v) by (nonlinear_arith)
                requires
                    unit == 0x1000_0000_0000,
            ;
            assert((-v) * unit < 0) by (nonlinear_arith)
                requires
                    v > 0,
                    unit == 0x1000_0000_0000,
            ;
        }
    }
    if n == 0 {
        assert(2 * n * along == 0) by (nonlinear_arith)
            requires
                n == 0,
        ;
        if v >= 0 {
            assert((v * unit) / unit == v) by (nonlinear_arith)
                requires
                    unit == 0x1000_0000_0000,
            ;
            assert(v * unit >= 0) by (nonlinear_arith)
                requires
                    v >= 0,
                    unit == 0x1000_0000_0000,
            ;
        } else {
            assert(-(v * unit) == (-v) * unit) by (nonlinear_arith);
            assert(((-v) * unit) / unit == -v) by (nonlinear_arith)
                requires
                    unit == 0x1000_0000_0000,
            ;
            assert(v * unit < 0) by (nonlinear_arith)
                requires
                    v < 0,
                    unit == 0x1000_0000_0000,
            ;
        }
    }
}

/// Specular bounce: off a surface whose normal is a unit vector along an
/// axis, whichever way it points, every vector has its component along the
/// normal reversed and keeps the other.
pub proof fn lemma_reflect_off_axis(velocity: Vec2, normal: Vec2)
    requires
        normal.x@ == scale() || normal.x@ == -scale() || normal.x@ == 0,
        normal.y@ == scale() || normal.y@ == -scale() || normal.y@ == 0,
        (normal.x@ == 0) != (normal.y@ == 0),
    ensures
        normal.y@ == 0 ==> velocity.reflected(normal).x@ == -velocity.x@ && velocity.reflected(
            normal,
        ).y@ == velocity.y@,
        normal.x@ == 0 ==> velocity.reflected(normal).x@ == velocity.x@ && velocity.reflected(
            normal,
        ).y@ == -velocity.y@,
{
    let along = normal.x@ * velocity.x@ + normal.y@ * velocity.y@;
    if normal.y@ == 0 {
        assert(normal.y@ * velocity.y@ == 0) by (nonlinear_arith)
            requires
                normal.y@ == 0,
        ;
    } else {
        assert(normal.x@ * velocity.x@ == 0) by (nonlinear_arith)
            requires
                normal.x@ == 0,
        ;
    }
    lemma_mirrored(velocity.x@, normal.x@, along);
    lemma_mirrored(velocity.y@, normal.y@, along);
}

/// Reflecting twice off the same surface along an axis gives the vector
/// back.
pub proof fn lemma_reflect_twice(velocity: Vec2, normal: Vec2)
    requires
        normal.x@ == scale() || normal.x@ == -scale() || normal.x@ == 0,
        normal.y@ == scale() || normal.y@ == -scale() || normal.y@ == 0,
        (normal.x@ == 0) != (normal.y@ == 0),
    ensures
        velocity.reflected(normal).reflected(normal).x@ == velocity.x@,
        velocity.reflected(normal).reflected(normal).y@ == velocity.y@,
{
    lemma_reflect_off_axis(velocity, normal);
    lemma_reflect_off_axis(velocity.reflected(normal), normal);
}

/// Without a normal nothing is mirrored.
pub proof fn lemma_reflect_off_nothing(velocity: Vec2)
    ensures
        velocity.reflected(Vec2::origin()).x@ == velocity.x@,
        velocity.reflected(Vec2::origin()).y@ == velocity.y@,
{
    lemma_mirrored(velocity.x@, 0, 0);
    lemma_mirrored(velocity.y@, 0, 0);
}

} // verus!
