//! Integer points, sizes and rectangles in logical coordinates.
use vstd::prelude::*;

verus! {

#[derive(Debug, Clone, Copy, PartialEq, Eq, Structural, Default)]
pub struct Point {
    pub x: i32,
    pub y: i32,
}

#[derive(Debug, Clone, Copy, PartialEq, Eq, Structural, Default)]
pub struct Size {
    pub w: i32,
    pub h: i32,
}

#[derive(Debug, Clone, Copy, PartialEq, Eq, Structural, Default)]
pub struct Rectangle {
    pub loc: Point,
    pub size: Size,
}

/// Rust's `/` on integers: the quotient rounded toward zero.
pub open spec fn div_toward_zero(a: int, b: int) -> int
    recommends
        b > 0,
{
    if a >= 0 {
        a / b
    } else {
        -((-a) / b)
    }
}

/// The coordinate that centers a length `len` within a span starting at
/// `start` of length `span`.
pub open spec fn centered(start: int, span: int, len: int) -> int {
    start + div_toward_zero(span, 2) - div_toward_zero(len, 2)
}

/// The location that centers `size` within `rect`, when it fits in `i32`.
pub open spec fn centered_loc_fits(rect: Rectangle, size: Size) -> bool {
    &&& i32::MIN <= rect.loc.x + div_toward_zero(rect.size.w as int, 2) <= i32::MAX
    &&& i32::MIN <= centered(rect.loc.x as int, rect.size.w as int, size.w as int) <= i32::MAX
    &&& i32::MIN <= rect.loc.y + div_toward_zero(rect.size.h as int, 2) <= i32::MAX
    &&& i32::MIN <= centered(rect.loc.y as int, rect.size.h as int, size.h as int) <= i32::MAX
}

/// Returns the location that centers the given `size` within a `rect`.
pub fn centered_loc(rect: Rectangle, size: Size) -> (r: Point)
    requires
        centered_loc_fits(rect, size),
    ensures
        r.x == centered(rect.loc.x as int, rect.size.w as int, size.w as int),
        r.y == centered(rect.loc.y as int, rect.size.h as int, size.h as int),
{
    Point {
        x: rect.loc.x + rect.size.w / 2 - size.w / 2,
        y: rect.loc.y + rect.size.h / 2 - size.h / 2,
    }
}

} // verus!
