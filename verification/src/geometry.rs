//! Page geometry. A document measures a page from its bottom edge upwards;
//! a caller measures from the top edge downwards. Both use the same height,
//! that of the page's box.

use vstd::prelude::*;
use crate::fixed::{clamp, half_again, sat_add, sat_half_again, sat_sub};

verus! {

/// The height of a page that states none: that of A4, in thousandths.
pub const DEFAULT_PAGE_HEIGHT: i64 = 842_000;

/// The width of the box of a note, in thousandths.
pub const NOTE_WIDTH: i64 = 200_000;

/// The caller's `y` of a point whose height above the bottom edge is
/// `native_top`.
pub open spec fn caller_space(page_height: int, native_top: int) -> int {
    clamp(page_height - native_top)
}

/// The height above the bottom edge of a point whose caller's `y` is
/// `caller_y`.
pub open spec fn native_space(page_height: int, caller_y: int) -> int {
    clamp(page_height - caller_y)
}

/// The box of a note: left, bottom, right and top edge. The top edge is the
/// caller's `y`; the box is as wide as `NOTE_WIDTH` and one and a half font
/// sizes high.
pub open spec fn note_box(page_height: int, x: int, y: int, size: int) -> (int, int, int, int) {
    let top = native_space(page_height, y);
    (x, clamp(top - clamp(half_again(size))), clamp(x + NOTE_WIDTH), top)
}

/// From a height above the bottom edge to the caller's `y`.
pub fn to_caller_space(page_height: i64, native_top: i64) -> (caller_y: i64)
    ensures
        caller_y == caller_space(page_height as int, native_top as int),
{
    sat_sub(page_height, native_top)
}

/// From the caller's `y` to a height above the bottom edge.
pub fn to_native_space(page_height: i64, caller_y: i64) -> (native_top: i64)
    ensures
        native_top == native_space(page_height as int, caller_y as int),
{
    sat_sub(page_height, caller_y)
}

/// The four edges of the box of a note.
pub fn note_edges(page_height: i64, x: i64, y: i64, size: i64) -> (edges: (i64, i64, i64, i64))
    ensures
        (edges.0 as int, edges.1 as int, edges.2 as int, edges.3 as int) == note_box(
            page_height as int,
            x as int,
            y as int,
            size as int,
        ),
{
    let top = to_native_space(page_height, y);
    (x, sat_sub(top, sat_half_again(size)), sat_add(x, NOTE_WIDTH), top)
}

/// Taking a height above the bottom edge to the caller's side and back gives
/// it again, wherever the caller's `y` is within the range of `i64`.
pub proof fn lemma_round_trip(page_height: int, native_top: int)
    requires
        i64::MIN <= native_top <= i64::MAX,
        i64::MIN <= page_height - native_top <= i64::MAX,
    ensures
        native_space(page_height, caller_space(page_height, native_top)) == native_top,
{
}

/// The same from the caller's side.
pub proof fn lemma_round_trip_caller(page_height: int, caller_y: int)
    requires
        i64::MIN <= caller_y <= i64::MAX,
        i64::MIN <= page_height - caller_y <= i64::MAX,
    ensures
        caller_space(page_height, native_space(page_height, caller_y)) == caller_y,
{
}

} // verus!
