//! Drawing into a buffer of pixels: filled boxes and lines, given in pixels
//! or in world units.

use crate::fixed::frac;
use crate::fixed::scale;
use crate::fixed::trunc_div;
use crate::fixed::whole;
use crate::fixed::Fixed;
use crate::line::line_iter;
use crate::line::line_point;
use crate::line::lemma_line_within;
use crate::line::steps;
use crate::math::clamp;
use crate::math::Vec2;
use vstd::prelude::*;

verus! {

/// A number kept between two bounds: what `clamp` makes of it.
pub open spec fn clamped(min: int, val: int, max: int) -> int {
    if val < min {
        min
    } else if val > max {
        max
    } else {
        val
    }
}

/// The pixels after the box from `(x0, y0)`, included, to `(x1, y1)`,
/// excluded, was filled with `color`, in a buffer with rows of `width`
/// pixels.
pub open spec fn filled(
    pixels: Seq<u32>,
    width: int,
    x0: int,
    y0: int,
    x1: int,
    y1: int,
    color: u32,
) -> Seq<u32> {
    Seq::new(
        pixels.len(),
        |i: int|
            if width > 0 && x0 <= i % width < x1 && y0 <= i / width < y1 {
                color
            } else {
                pixels[i]
            },
    )
}

/// Whether the pixel with the number `i`, in a buffer with rows of `width`
/// pixels, is one of the first `n` pixels of the line from `(x0, y0)` to
/// `(x1, y1)`.
pub open spec fn on_line(i: int, width: int, x0: int, y0: int, x1: int, y1: int, n: int) -> bool {
    exists|k: int|
        0 <= k < n && i == (#[trigger] line_point(x0, y0, x1, y1, k)).1 * width + line_point(
            x0,
            y0,
            x1,
            y1,
            k,
        ).0
}

/// The pixels after the first `n` pixels of the line from `(x0, y0)` to
/// `(x1, y1)` were set to `color`.
pub open spec fn lined(
    pixels: Seq<u32>,
    width: int,
    x0: int,
    y0: int,
    x1: int,
    y1: int,
    n: int,
    color: u32,
) -> Seq<u32> {
    Seq::new(
        pixels.len(),
        |i: int|
            if on_line(i, width, x0, y0, x1, y1, n) {
                color
            } else {
                pixels[i]
            },
    )
}

/// How many pixels high the part of the world is shown that is one hundred
/// units high: the height of the buffer, or less if the buffer is narrower
/// than 1.77 times its height.
pub open spec fn aspect(width: int, height: int) -> Fixed {
    if whole(width).over(whole(height))@ < frac(177, 100)@ {
        whole(width).over(frac(177, 100))
    } else {
        whole(height)
    }
}

/// The number of pixels to a unit of the world.
pub open spec fn zoom(width: int, height: int) -> Fixed {
    aspect(width, height).over(whole(100))
}

/// Where in the buffer a point of the world is shown: the origin of the
/// world in the middle.
pub open spec fn to_screen(width: int, height: int, p: Vec2) -> Vec2 {
    Vec2 {
        x: p.x.times(zoom(width, height)).plus(whole(width).times(frac(1, 2))),
        y: p.y.times(zoom(width, height)).plus(whole(height).times(frac(1, 2))),
    }
}

/// The point of the world that is shown at a place of the buffer.
pub open spec fn to_world(width: int, height: int, pixels: Vec2) -> Vec2 {
    Vec2 {
        x: pixels.x.minus(whole(width).times(frac(1, 2))).over(zoom(width, height)),
        y: pixels.y.minus(whole(height).times(frac(1, 2))).over(zoom(width, height)),
    }
}

/// The whole part of a number, rounded toward zero.
pub open spec fn whole_part(value: Fixed) -> int {
    trunc_div(value@, scale())
}

/// The pixels `(x0, y0, x1, y1)` between which the box with the center `p`
/// and the half extents `half_size`, in world units, is shown.
pub open spec fn corners(width: int, height: int, p: Vec2, half_size: Vec2) -> (int, int, int, int) {
    let center = to_screen(width, height, p);
    let reach = Vec2 {
        x: half_size.x.times(zoom(width, height)),
        y: half_size.y.times(zoom(width, height)),
    };
    (
        whole_part(center.x.minus(reach.x)),
        whole_part(center.y.minus(reach.y)),
        whole_part(center.x.plus(reach.x)),
        whole_part(center.y.plus(reach.y)),
    )
}

/// The pixels after the box between the given corners, cut to the buffer,
/// was filled.
pub open spec fn boxed(
    pixels: Seq<u32>,
    width: int,
    height: int,
    at: (int, int, int, int),
    color: u32,
) -> Seq<u32> {
    filled(
        pixels,
        width,
        clamped(0, at.0, width),
        clamped(0, at.1, height),
        clamped(0, at.2, width),
        clamped(0, at.3, height),
        color,
    )
}

/// The pixels after the box between the given corners was filled with
/// `color` and what lies to its left, to its right, below and above it
/// with `clear_color`.
pub open spec fn framed(
    pixels: Seq<u32>,
    width: int,
    height: int,
    at: (int, int, int, int),
    color: u32,
    clear_color: u32,
) -> Seq<u32> {
    let inner = boxed(pixels, width, height, at, color);
    let left = boxed(inner, width, height, (0, 0, at.0, height), clear_color);
    let right = boxed(left, width, height, (at.2, 0, width, height), clear_color);
    let below = boxed(right, width, height, (at.0, 0, at.2, at.1), clear_color);
    boxed(below, width, height, (at.0, at.3, at.2, height), clear_color)
}

/// The pixels after the line between two points of the world was drawn,
/// its ends moved into the buffer.
pub open spec fn stroked(
    pixels: Seq<u32>,
    width: int,
    height: int,
    start: Vec2,
    end: Vec2,
    color: u32,
) -> Seq<u32> {
    let from = to_screen(width, height, start);
    let to = to_screen(width, height, end);
    let (x0, y0) = (
        clamped(0, whole_part(from.x), width - 1),
        clamped(0, whole_part(from.y), height - 1),
    );
    let (x1, y1) = (clamped(0, whole_part(to.x), width - 1), clamped(0, whole_part(to.y), height - 1));
    lined(pixels, width, x0, y0, x1, y1, steps(x0, y0, x1, y1) + 1, color)
}

/// The number of the pixel in column `x` of row `y` of a buffer `width`
/// pixels wide and `height` pixels high.
fn offset(width: i32, height: i32, x: i32, y: i32) -> (r: usize)
    requires
        0 <= x < width,
        0 <= y < height,
        width * height <= usize::MAX,
    ensures
        r == y * width + x,
        r < width * height,
        (r as int) % (width as int) == x,
        (r as int) / (width as int) == y,
{
    proof {
        lemma_offset(width as int, height as int, x as int, y as int);
    }
    let w: usize = width as usize;
    let row: usize = y as usize;
    let column: usize = x as usize;
    row * w + column
}

/// The pixels of a row follow those of the rows before it.
proof fn lemma_offset(width: int, height: int, x: int, y: int)
    requires
        0 <= x < width,
        0 <= y < height,
    ensures
        0 <= y * width <= y * width + x < width * height,
        y * width + x < (y + 1) * width <= width * height,
        (y * width + x) % width == x,
        (y * width + x) / width == y,
{
    assert(0 <= y * width <= y * width + x < width * height) by (nonlinear_arith)
        requires
            0 <= x < width,
            0 <= y < height,
    ;
    assert(y * width + x < (y + 1) * width <= width * height) by (nonlinear_arith)
        requires
            0 <= x < width,
            0 <= y < height,
    ;
    vstd::arithmetic::div_mod::lemma_fundamental_div_mod_converse(y * width + x, width, y, x);
}

/// A buffer of pixels, row by row from the bottom.
pub struct RenderBuffer<'a> {
    pub pixels: &'a mut [u32],
    pub width: i32,
    pub height: i32,
}

impl<'a> RenderBuffer<'a> {
    /// The buffer has as many pixels as its width and height say.
    pub open spec fn wf(&self) -> bool {
        &&& 0 <= self.width
        &&& 0 <= self.height
        &&& self.pixels@.len() == self.width * self.height
    }

    /// Sets every pixel to `color`.
    pub fn clear(&mut self, color: u32)
        requires
            old(self).wf(),
        ensures
            final(self).wf(),
            final(self).width == old(self).width,
            final(self).height == old(self).height,
            final(self).pixels@ == Seq::new(old(self).pixels@.len(), |i: int| color),
    {
        let total: usize = self.pixels.len();
        let mut y: i32 = 0;
        while y < self.height
            invariant
                self.wf(),
                self.width == old(self).width,
                self.height == old(self).height,
                0 <= y <= self.height,
                self.pixels@.len() == total,
                total == old(self).pixels@.len(),
                forall|i: int|
                    0 <= i < total && i < y * self.width ==> #[trigger] self.pixels@[i] == color,
            decreases self.height - y,
        {
            let mut x: i32 = 0;
            while x < self.width
                invariant
                    self.wf(),
                    self.width == old(self).width,
                    self.height == old(self).height,
                    0 <= y < self.height,
                    0 <= x <= self.width,
                    self.pixels@.len() == total,
                    total == old(self).pixels@.len(),
                    forall|i: int|
                        0 <= i < total && i < y * self.width + x ==> #[trigger] self.pixels@[i]
                            == color,
                decreases self.width - x,
            {
                let at = offset(self.width, self.height, x, y);
                self.pixels[at] = color;
                x += 1;
            }
            assert((y + 1) * self.width == y * self.width + self.width) by (nonlinear_arith);
            y += 1;
        }
        assert(self.height * self.width == self.width * self.height) by (nonlinear_arith);
        assert(self.pixels@ =~= Seq::new(old(self).pixels@.len(), |i: int| color));
    }

    /// Draws the line from `(x0, y0)` to `(x1, y1)`, both first moved into
    /// the buffer.
    pub fn draw_line_in_pixels(&mut self, x0: i32, y0: i32, x1: i32, y1: i32, color: u32)
        requires
            old(self).wf(),
            old(self).width > 0,
            old(self).height > 0,
        ensures
            final(self).wf(),
            final(self).width == old(self).width,
            final(self).height == old(self).height,
            ({
                let w = old(self).width as int;
                let h = old(self).height as int;
                let (cx0, cy0) = (clamped(0, x0 as int, w - 1), clamped(0, y0 as int, h - 1));
                let (cx1, cy1) = (clamped(0, x1 as int, w - 1), clamped(0, y1 as int, h - 1));
                final(self).pixels@ == lined(
                    old(self).pixels@,
                    w,
                    cx0,
                    cy0,
                    cx1,
                    cy1,
                    steps(cx0, cy0, cx1, cy1) + 1,
                    color,
                )
            }),
    {
        let x0 = clamp(0, x0, self.width - 1);
        let x1 = clamp(0, x1, self.width - 1);
        let y0 = clamp(0, y0, self.height - 1);
        let y1 = clamp(0, y1, self.height - 1);
        let total: usize = self.pixels.len();
        let ghost before = self.pixels@;
        let ghost w = self.width as int;
        let ghost count = steps(x0 as int, y0 as int, x1 as int, y1 as int);

        let mut points = line_iter(x0, y0, x1, y1);
        let mut next = points.next();
        assert(self.pixels@ =~= lined(before, w, x0 as int, y0 as int, x1 as int, y1 as int, 0, color));
        while next.is_some()
            invariant
                self.wf(),
                self.width == old(self).width,
                self.height == old(self).height,
                self.width == w,
                0 <= x0 < self.width,
                0 <= x1 < self.width,
                0 <= y0 < self.height,
                0 <= y1 < self.height,
                self.pixels@.len() == total,
                before.len() == total,
                count == steps(x0 as int, y0 as int, x1 as int, y1 as int),
                points.count() == count,
                points.ends() == (
                    crate::line::Point { x: x0, y: y0 },
                    crate::line::Point { x: x1, y: y1 },
                ),
                match next {
                    Some(p) => {
                        &&& 1 <= points.done() <= count + 1
                        &&& p == points.point(points.done() - 1)
                        &&& self.pixels@ == lined(
                            before,
                            w,
                            x0 as int,
                            y0 as int,
                            x1 as int,
                            y1 as int,
                            points.done() - 1,
                            color,
                        )
                    },
                    None => self.pixels@ == lined(
                        before,
                        w,
                        x0 as int,
                        y0 as int,
                        x1 as int,
                        y1 as int,
                        count + 1,
                        color,
                    ),
                },
            decreases
                    count + 1 - points.done() + if next.is_some() {
                        1int
                    } else {
                        0int
                    },
        {
            let p = next.unwrap();
            let ghost k = points.done() - 1;
            proof {
                lemma_line_within(x0 as int, y0 as int, x1 as int, y1 as int, k);
            }
            let at = offset(self.width, self.height, p.x, p.y);
            let ghost painted = self.pixels@;
            self.pixels[at] = color;
            proof {
                let after = lined(
                    before,
                    w,
                    x0 as int,
                    y0 as int,
                    x1 as int,
                    y1 as int,
                    k + 1,
                    color,
                );
                assert forall|i: int| 0 <= i < total implies self.pixels@[i] == after[i] by {
                    if on_line(i, w, x0 as int, y0 as int, x1 as int, y1 as int, k + 1) {
                        let j = choose|j: int|
                            0 <= j < k + 1 && i == (#[trigger] line_point(
                                x0 as int,
                                y0 as int,
                                x1 as int,
                                y1 as int,
                                j,
                            )).1 * w + line_point(x0 as int, y0 as int, x1 as int, y1 as int, j).0;
                        if j < k {
                            assert(on_line(i, w, x0 as int, y0 as int, x1 as int, y1 as int, k));
                        }
                    } else {
                        if on_line(i, w, x0 as int, y0 as int, x1 as int, y1 as int, k) {
                            let j = choose|j: int|
                                0 <= j < k && i == (#[trigger] line_point(
                                    x0 as int,
                                    y0 as int,
                                    x1 as int,
                                    y1 as int,
                                    j,
                                )).1 * w + line_point(
                                    x0 as int,
                                    y0 as int,
                                    x1 as int,
                                    y1 as int,
                                    j,
                                ).0;
                            assert(false);
                        }
                        assert(i != at) by {
                            let q = line_point(x0 as int, y0 as int, x1 as int, y1 as int, k);
                            assert(at == q.1 * w + q.0);
                        }
                    }
                }
                assert(self.pixels@ =~= after);
            }
            next = points.next();
        }
    }

    /// Fills the box from `(x0, y0)`, included, to `(x1, y1)`, excluded, as
    /// far as it lies in the buffer.
    pub fn draw_rect_in_pixels(&mut self, x0: i32, y0: i32, x1: i32, y1: i32, color: u32)
        requires
            old(self).wf(),
        ensures
            final(self).wf(),
            final(self).width == old(self).width,
            final(self).height == old(self).height,
            final(self).pixels@ == filled(
                old(self).pixels@,
                old(self).width as int,
                clamped(0, x0 as int, old(self).width as int),
                clamped(0, y0 as int, old(self).height as int),
                clamped(0, x1 as int, old(self).width as int),
                clamped(0, y1 as int, old(self).height as int),
                color,
            ),
    {
        let x0 = clamp(0, x0, self.width);
        let x1 = clamp(0, x1, self.width);
        let y0 = clamp(0, y0, self.height);
        let y1 = clamp(0, y1, self.height);
        let total: usize = self.pixels.len();
        let ghost before = self.pixels@;
        let ghost w = self.width as int;

        let mut y: i32 = y0;
        assert(self.pixels@ =~= filled(before, w, x0 as int, y0 as int, x1 as int, y0 as int, color));
        while y < y1
            invariant
                self.wf(),
                self.width == old(self).width,
                self.height == old(self).height,
                self.width == w,
                0 <= x0 <= self.width,
                0 <= x1 <= self.width,
                0 <= y0 <= self.height,
                0 <= y1 <= self.height,
                y0 <= y,
                y <= y1 || (y1 < y0 && y == y0),
                self.pixels@.len() == total,
                before.len() == total,
                self.pixels@ == filled(before, w, x0 as int, y0 as int, x1 as int, y as int, color),
            decreases y1 - y,
        {
            let mut x: i32 = x0;
            while x < x1
                invariant
                    self.wf(),
                    self.width == old(self).width,
                    self.height == old(self).height,
                    self.width == w,
                    0 <= x0 <= self.width,
                    0 <= x1 <= self.width,
                    0 <= y0 <= y < y1 <= self.height,
                    x0 <= x,
                    x <= x1 || (x1 < x0 && x == x0),
                    self.pixels@.len() == total,
                    before.len() == total,
                    forall|i: int|
                        0 <= i < total ==> #[trigger] self.pixels@[i] == if w > 0 && ((x0 <= i % w
                            < x1 && y0 <= i / w < y) || (i / w == y && x0 <= i % w < x)) {
                            color
                        } else {
                            before[i]
                        },
                decreases x1 - x,
            {
                let at = offset(self.width, self.height, x, y);
                self.pixels[at] = color;
                proof {
                    assert forall|i: int| 0 <= i < total implies #[trigger] self.pixels@[i] == if w
                        > 0 && ((x0 <= i % w < x1 && y0 <= i / w < y) || (i / w == y && x0 <= i % w
                        < x + 1)) {
                        color
                    } else {
                        before[i]
                    } by {
                        if i / w == y && i % w == x {
                            vstd::arithmetic::div_mod::lemma_fundamental_div_mod(i, w);
                            assert(w * (i / w) == (i / w) * w) by (nonlinear_arith);
                            assert(i == at);
                        }
                    }
                }
                x += 1;
            }
            y += 1;
            proof {
                let after = filled(before, w, x0 as int, y0 as int, x1 as int, y as int, color);
                assert forall|i: int| 0 <= i < total implies #[trigger] self.pixels@[i]
                    == after[i] by {}
                assert(self.pixels@ =~= after);
            }
        }
        proof {
            let reached = filled(before, w, x0 as int, y0 as int, x1 as int, y as int, color);
            let after = filled(before, w, x0 as int, y0 as int, x1 as int, y1 as int, color);
            assert forall|i: int| 0 <= i < total implies #[trigger] reached[i] == after[i] by {}
            assert(reached =~= after);
        }
    }

    /// Fills the box with the center `p` and the half extents `half_size`,
    /// given in world units.
    pub fn draw_rect(&mut self, p: Vec2, half_size: Vec2, color: u32)
        requires
            old(self).wf(),
        ensures
            final(self).wf(),
            final(self).width == old(self).width,
            final(self).height == old(self).height,
            final(self).pixels@ == boxed(
                old(self).pixels@,
                old(self).width as int,
                old(self).height as int,
                corners(old(self).width as int, old(self).height as int, p, half_size),
                color,
            ),
    {
        let zoom = self.calc_aspect_multiplier() / Fixed::from_int(100);
        let half = Fixed::ratio(1, 2);
        let mut p = p;
        let mut half_size = half_size;

        half_size.x = half_size.x * zoom;
        half_size.y = half_size.y * zoom;

        p.x = p.x * zoom;
        p.y = p.y * zoom;

        p.x = p.x + Fixed::from_int(self.width) * half;
        p.y = p.y + Fixed::from_int(self.height) * half;

        let x0 = (p.x - half_size.x).trunc();
        let y0 = (p.y - half_size.y).trunc();
        let x1 = (p.x + half_size.x).trunc();
        let y1 = (p.y + half_size.y).trunc();

        self.draw_rect_in_pixels(x0, y0, x1, y1, color);
    }

    /// Draws the line between two points of the world.
    pub fn draw_line(&mut self, start: Vec2, end: Vec2, color: u32)
        requires
            old(self).wf(),
            old(self).width > 0,
            old(self).height > 0,
        ensures
            final(self).wf(),
            final(self).width == old(self).width,
            final(self).height == old(self).height,
            final(self).pixels@ == stroked(
                old(self).pixels@,
                old(self).width as int,
                old(self).height as int,
                start,
                end,
                color,
            ),
    {
        let zoom = self.calc_aspect_multiplier() / Fixed::from_int(100);
        let half = Fixed::ratio(1, 2);
        let mut start = start;
        let mut end = end;

        start.x = start.x * zoom;
        start.y = start.y * zoom;
        start.x = start.x + Fixed::from_int(self.width) * half;
        start.y = start.y + Fixed::from_int(self.height) * half;

        end.x = end.x * zoom;
        end.y = end.y * zoom;
        end.x = end.x + Fixed::from_int(self.width) * half;
        end.y = end.y + Fixed::from_int(self.height) * half;

        let x0 = start.x.trunc();
        let y0 = start.y.trunc();
        let x1 = end.x.trunc();
        let y1 = end.y.trunc();

        self.draw_line_in_pixels(x0, y0, x1, y1, color);
    }

    /// Fills the box with the center `p` and the half extents `half_size`,
    /// given in world units, with `color`, and all around it with
    /// `clear_color`.
    pub fn clear_and_draw_rect(&mut self, p: Vec2, half_size: Vec2, color: u32, clear_color: u32)
        requires
            old(self).wf(),
        ensures
            final(self).wf(),
            final(self).width == old(self).width,
            final(self).height == old(self).height,
            final(self).pixels@ == framed(
                old(self).pixels@,
                old(self).width as int,
                old(self).height as int,
                corners(old(self).width as int, old(self).height as int, p, half_size),
                color,
                clear_color,
            ),
    {
        let zoom = self.calc_aspect_multiplier() / Fixed::from_int(100);
        let half = Fixed::ratio(1, 2);
        let mut p = p;
        let mut half_size = half_size;

        half_size.x = half_size.x * zoom;
        half_size.y = half_size.y * zoom;

        p.x = p.x * zoom;
        p.y = p.y * zoom;

        p.x = p.x + Fixed::from_int(self.width) * half;
        p.y = p.y + Fixed::from_int(self.height) * half;

        let x0 = (p.x - half_size.x).trunc();
        let y0 = (p.y - half_size.y).trunc();
        let x1 = (p.x + half_size.x).trunc();
        let y1 = (p.y + half_size.y).trunc();

        self.draw_rect_in_pixels(x0, y0, x1, y1, color);

        let width = self.width;
        let height = self.height;
        self.draw_rect_in_pixels(0, 0, x0, height, clear_color);
        self.draw_rect_in_pixels(x1, 0, width, height, clear_color);
        self.draw_rect_in_pixels(x0, 0, x1, y0, clear_color);
        self.draw_rect_in_pixels(x0, y1, x1, height, clear_color);
    }

    /// The point of the world that is shown at the given place of the
    /// buffer.
    pub fn pixels_to_world(&self, pixels: Vec2) -> (r: Vec2)
        ensures
            r == to_world(self.width as int, self.height as int, pixels),
    {
        let zoom = self.calc_aspect_multiplier() / Fixed::from_int(100);
        let half = Fixed::ratio(1, 2);

        let mut result = Vec2::zero();
        result.x = pixels.x - Fixed::from_int(self.width) * half;
        result.y = pixels.y - Fixed::from_int(self.height) * half;

        result.x = result.x / zoom;
        result.y = result.y / zoom;

        result
    }

    /// How many pixels high the part of the world is shown that is one
    /// hundred units high.
    fn calc_aspect_multiplier(&self) -> (r: Fixed)
        ensures
            r == aspect(self.width as int, self.height as int),
    {
        if (Fixed::from_int(self.width) / Fixed::from_int(self.height)).lt(Fixed::ratio(177, 100)) {
            Fixed::from_int(self.width) / Fixed::ratio(177, 100)
        } else {
            Fixed::from_int(self.height)
        }
    }
}

} // verus!
