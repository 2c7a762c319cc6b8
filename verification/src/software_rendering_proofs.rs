//! What holds of drawing for all buffers.

use crate::software_rendering::boxed;
use crate::software_rendering::clamped;
use crate::software_rendering::framed;
use vstd::prelude::*;

verus! {

/// Whether the pixel with the number `i`, in a buffer `width` pixels wide
/// and `height` pixels high, lies in the box between the given corners, cut
/// to the buffer.
pub open spec fn in_box(i: int, width: int, height: int, at: (int, int, int, int)) -> bool {
    &&& width > 0
    &&& clamped(0, at.0, width) <= i % width < clamped(0, at.2, width)
    &&& clamped(0, at.1, height) <= i / width < clamped(0, at.3, height)
}

/// Filling a box sets the pixels in the box and no others.
pub proof fn lemma_boxed(
    pixels: Seq<u32>,
    width: int,
    height: int,
    at: (int, int, int, int),
    color: u32,
)
    ensures
        boxed(pixels, width, height, at, color).len() == pixels.len(),
        forall|i: int|
            0 <= i < pixels.len() ==> #[trigger] boxed(pixels, width, height, at, color)[i] == if in_box(
                i,
                width,
                height,
                at,
            ) {
                color
            } else {
                pixels[i]
            },
{
}

/// Drawing a box and clearing around it leaves no pixel as it was: every
/// pixel in the box has the colour of the box, and every other pixel the
/// colour of what is around it.
pub proof fn lemma_framed(
    pixels: Seq<u32>,
    width: int,
    height: int,
    at: (int, int, int, int),
    color: u32,
    clear_color: u32,
)
    requires
        0 <= width,
        0 <= height,
        pixels.len() == width * height,
        at.0 <= at.2,
        at.1 <= at.3,
    ensures
        framed(pixels, width, height, at, color, clear_color).len() == pixels.len(),
        forall|i: int|
            0 <= i < pixels.len() ==> #[trigger] framed(
                pixels,
                width,
                height,
                at,
                color,
                clear_color,
            )[i] == if in_box(i, width, height, at) {
                color
            } else {
                clear_color
            },
{
    let inner = boxed(pixels, width, height, at, color);
    let left = boxed(inner, width, height, (0, 0, at.0, height), clear_color);
    let right = boxed(left, width, height, (at.2, 0, width, height), clear_color);
    let below = boxed(right, width, height, (at.0, 0, at.2, at.1), clear_color);
    let all = boxed(below, width, height, (at.0, at.3, at.2, height), clear_color);
    lemma_boxed(pixels, width, height, at, color);
    lemma_boxed(inner, width, height, (0, 0, at.0, height), clear_color);
    lemma_boxed(left, width, height, (at.2, 0, width, height), clear_color);
    lemma_boxed(right, width, height, (at.0, 0, at.2, at.1), clear_color);
    lemma_boxed(below, width, height, (at.0, at.3, at.2, height), clear_color);
    assert forall|i: int| 0 <= i < pixels.len() implies #[trigger] all[i] == if in_box(
        i,
        width,
        height,
        at,
    ) {
        color
    } else {
        clear_color
    } by {
        assert(width > 0) by (nonlinear_arith)
            requires
                0 <= i < width * height,
                0 <= width,
                0 <= height,
        ;
        vstd::arithmetic::div_mod::lemma_fundamental_div_mod(i, width);
        vstd::arithmetic::div_mod::lemma_mod_bound(i, width);
        let row = i / width;
        let column = i % width;
        assert(0 <= row < height) by (nonlinear_arith)
            requires
                0 <= i < width * height,
                i == width * row + column,
                0 <= column < width,
                0 < width,
        ;
        assert(inner[i] == if in_box(i, width, height, at) { color } else { pixels[i] });
        assert(left[i] == if in_box(i, width, height, (0, 0, at.0, height)) {
            clear_color
        } else {
            inner[i]
        });
        assert(right[i] == if in_box(i, width, height, (at.2, 0, width, height)) {
            clear_color
        } else {
            left[i]
        });
        assert(below[i] == if in_box(i, width, height, (at.0, 0, at.2, at.1)) {
            clear_color
        } else {
            right[i]
        });
    }
}

} // verus!
