//! The pixels of a straight line between two pixels.

use crate::fixed::trunc_div;
use vstd::prelude::*;

verus! {

/// A pixel position.
#[derive(Copy, Clone, Debug, PartialEq, Eq, Structural)]
pub struct Point {
    pub x: i32,
    pub y: i32,
}

/// The size of a number.
pub open spec fn size(a: int) -> int {
    if a >= 0 {
        a
    } else {
        -a
    }
}

/// The number of steps of the line from `(x0, y0)` to `(x1, y1)`: the
/// larger of the two distances along the axes.
pub open spec fn steps(x0: int, y0: int, x1: int, y1: int) -> int {
    if size(x1 - x0) >= size(y1 - y0) {
        size(x1 - x0)
    } else {
        size(y1 - y0)
    }
}

/// The quotient of `a` by a positive `n`, rounded to the nearest whole
/// number, a half away from zero.
pub open spec fn round_div(a: int, n: int) -> int {
    trunc_div(
        2 * a + if a >= 0 {
            n
        } else {
            -n
        },
        2 * n,
    )
}

/// The `k`-th pixel of the line from `(x0, y0)` to `(x1, y1)`, for `k` from
/// zero to the number of steps: the point that far along the line, each
/// coordinate rounded to the nearest pixel.
pub open spec fn line_point(x0: int, y0: int, x1: int, y1: int, k: int) -> (int, int) {
    let n = steps(x0, y0, x1, y1);
    if n == 0 {
        (x0, y0)
    } else {
        (x0 + round_div(k * (x1 - x0), n), y0 + round_div(k * (y1 - y0), n))
    }
}

/// A part `k` of `n` of a distance `d`, rounded, is no more than `d` and
/// goes the same way.
pub proof fn lemma_round_div_within(k: int, d: int, n: int)
    requires
        0 <= k <= n,
        0 < n,
    ensures
        d >= 0 ==> 0 <= round_div(k * d, n) <= d,
        d <= 0 ==> d <= round_div(k * d, n) <= 0,
        round_div(0 * d, n) == 0,
        round_div(n * d, n) == d,
{
    let m = size(d);
    assert(0 <= k * m <= n * m) by (nonlinear_arith)
        requires
            0 <= k <= n,
            0 <= m,
    ;
    assert(k * d == if d >= 0 { k * m } else { -(k * m) }) by (nonlinear_arith)
        requires
            m == d || m == -d,
            d >= 0 ==> m == d,
            d < 0 ==> m == -d,
    ;
    let a = k * m;
    assert(0 <= (2 * a + n) / (2 * n) <= m) by (nonlinear_arith)
        requires
            0 <= a <= n * m,
            0 < n,
            0 <= m,
    ;
    assert(0 * d == 0) by (nonlinear_arith);
    assert(n / (2 * n) == 0) by (nonlinear_arith)
        requires
            0 < n,
    ;
    assert(n * d == if d >= 0 { n * m } else { -(n * m) }) by (nonlinear_arith)
        requires
            d >= 0 ==> m == d,
            d < 0 ==> m == -d,
    ;
    assert((2 * (n * m) + n) / (2 * n) == m) by (nonlinear_arith)
        requires
            0 < n,
            0 <= m,
    ;
}

/// Every pixel of a line lies in the box spanned by its two ends; the first
/// is the one end and the last the other.
pub proof fn lemma_line_within(x0: int, y0: int, x1: int, y1: int, k: int)
    requires
        0 <= k <= steps(x0, y0, x1, y1),
    ensures
        x0 <= x1 ==> x0 <= line_point(x0, y0, x1, y1, k).0 <= x1,
        x1 <= x0 ==> x1 <= line_point(x0, y0, x1, y1, k).0 <= x0,
        y0 <= y1 ==> y0 <= line_point(x0, y0, x1, y1, k).1 <= y1,
        y1 <= y0 ==> y1 <= line_point(x0, y0, x1, y1, k).1 <= y0,
        line_point(x0, y0, x1, y1, 0) == (x0, y0),
        line_point(x0, y0, x1, y1, steps(x0, y0, x1, y1)) == (x1, y1),
{
    let n = steps(x0, y0, x1, y1);
    if n > 0 {
        lemma_round_div_within(k, x1 - x0, n);
        lemma_round_div_within(k, y1 - y0, n);
    }
}

/// Walks the pixels of a line from its first to its last.
pub struct LineIter {
    x0: i32,
    y0: i32,
    x1: i32,
    y1: i32,
    k: u64,
}

impl LineIter {
    /// The two ends of the line.
    pub closed spec fn ends(&self) -> (Point, Point) {
        (Point { x: self.x0, y: self.y0 }, Point { x: self.x1, y: self.y1 })
    }

    /// How many pixels were handed out.
    pub closed spec fn done(&self) -> int {
        self.k as int
    }

    /// The number of steps of the line.
    pub open spec fn count(&self) -> int {
        steps(
            self.ends().0.x as int,
            self.ends().0.y as int,
            self.ends().1.x as int,
            self.ends().1.y as int,
        )
    }

    /// The `k`-th pixel of the line.
    pub open spec fn point(&self, k: int) -> Point {
        let p = line_point(
            self.ends().0.x as int,
            self.ends().0.y as int,
            self.ends().1.x as int,
            self.ends().1.y as int,
            k,
        );
        Point { x: p.0 as i32, y: p.1 as i32 }
    }

    /// The next pixel, until the last was handed out.
    pub fn next(&mut self) -> (r: Option<Point>)
        ensures
            final(self).ends() == old(self).ends(),
            old(self).done() <= old(self).count() ==> r == Some(old(self).point(old(self).done()))
                && final(self).done() == old(self).done() + 1,
            old(self).done() > old(self).count() ==> r is None && final(self).done() == old(
                self,
            ).done(),
    {
        let dx: i128 = self.x1 as i128 - self.x0 as i128;
        let dy: i128 = self.y1 as i128 - self.y0 as i128;
        let ax: i128 = if dx >= 0 {
            dx
        } else {
            -dx
        };
        let ay: i128 = if dy >= 0 {
            dy
        } else {
            -dy
        };
        let n: i128 = if ax >= ay {
            ax
        } else {
            ay
        };
        let k: i128 = self.k as i128;
        if k > n {
            return None;
        }
        self.k = self.k + 1;
        if n == 0 {
            return Some(Point { x: self.x0, y: self.y0 });
        }
        proof {
            lemma_line_within(self.x0 as int, self.y0 as int, self.x1 as int, self.y1 as int, k as int);
            crate::fixed::lemma_product_bound(k as int, dx as int, 0x1_0000_0000);
            crate::fixed::lemma_product_bound(k as int, dy as int, 0x1_0000_0000);
        }
        let px: i128 = (2 * (k * dx) + if k * dx >= 0 {
            n
        } else {
            -n
        }) / (2 * n);
        let py: i128 = (2 * (k * dy) + if k * dy >= 0 {
            n
        } else {
            -n
        }) / (2 * n);
        Some(Point { x: (self.x0 as i128 + px) as i32, y: (self.y0 as i128 + py) as i32 })
    }
}

/// The pixels of the line from `(x0, y0)` to `(x1, y1)`, both included.
pub fn line_iter(x0: i32, y0: i32, x1: i32, y1: i32) -> (r: LineIter)
    ensures
        r.ends() == (Point { x: x0, y: y0 }, Point { x: x1, y: y1 }),
        r.done() == 0,
{
    LineIter { x0, y0, x1, y1, k: 0 }
}

} // verus!
