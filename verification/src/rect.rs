//! Rectangles in pixels.
use vstd::prelude::*;

verus! {

/// A rectangle by its edges; the right and the bottom edge lie outside.
#[derive(Clone, Copy, Debug, PartialEq, Eq, Structural)]
pub struct Rect {
    pub left: i32,
    pub top: i32,
    pub right: i32,
    pub bottom: i32,
}

pub open spec fn fits_i32(value: int) -> bool {
    i32::MIN <= value <= i32::MAX
}

impl Rect {
    pub open spec fn spec_width(self) -> int {
        self.right - self.left
    }

    pub open spec fn spec_height(self) -> int {
        self.bottom - self.top
    }

    /// Whether the rectangle has the corner, width and height; a negative extent counts as none.
    pub open spec fn is_at(self, x: int, y: int, width: int, height: int) -> bool {
        &&& self.left == x
        &&& self.top == y
        &&& self.right == x + max_of(width, 0)
        &&& self.bottom == y + max_of(height, 0)
    }

    pub fn new(left: i32, top: i32, right: i32, bottom: i32) -> (rect: Rect)
        ensures
            rect == (Rect { left, top, right, bottom }),
    {
        Rect { left, top, right, bottom }
    }

    pub fn empty() -> (rect: Rect)
        ensures
            rect == (Rect { left: 0, top: 0, right: 0, bottom: 0 }),
    {
        Rect { left: 0, top: 0, right: 0, bottom: 0 }
    }

    pub fn width(self) -> (width: i64)
        ensures
            width == self.spec_width(),
    {
        self.right as i64 - self.left as i64
    }

    pub fn height(self) -> (height: i64)
        ensures
            height == self.spec_height(),
    {
        self.bottom as i64 - self.top as i64
    }
}

pub open spec fn max_of(a: int, b: int) -> int {
    if a >= b {
        a
    } else {
        b
    }
}

pub open spec fn min_of(a: int, b: int) -> int {
    if a <= b {
        a
    } else {
        b
    }
}

/// The value in `low..=high` that is nearest to `value`.
pub open spec fn clamped(value: int, low: int, high: int) -> int {
    if value < low {
        low
    } else if value > high {
        high
    } else {
        value
    }
}

pub fn max_i64(a: i64, b: i64) -> (larger: i64)
    ensures
        larger == max_of(a as int, b as int),
{
    if a >= b {
        a
    } else {
        b
    }
}

pub fn min_i64(a: i64, b: i64) -> (smaller: i64)
    ensures
        smaller == min_of(a as int, b as int),
{
    if a <= b {
        a
    } else {
        b
    }
}

/// Whether a rectangle at the corner with the extent can be represented.
pub open spec fn can_place(x: int, y: int, width: int, height: int) -> bool {
    fits_i32(x) && fits_i32(y) && fits_i32(x + max_of(width, 0)) && fits_i32(y + max_of(height, 0))
}

pub fn rect_xywh(x: i64, y: i64, width: i64, height: i64) -> (rect: Rect)
    requires
        can_place(x as int, y as int, width as int, height as int),
    ensures
        rect.is_at(x as int, y as int, width as int, height as int),
{
    let width: i64 = max_i64(width, 0);
    let height: i64 = max_i64(height, 0);
    Rect { left: x as i32, top: y as i32, right: (x + width) as i32, bottom: (y + height) as i32 }
}

/// Division that rounds toward zero, as division of machine integers does.
pub open spec fn quotient(a: int, b: int) -> int
    recommends
        b != 0,
{
    if a >= 0 {
        if b > 0 {
            a / b
        } else {
            -(a / -b)
        }
    } else if b > 0 {
        -(-a / b)
    } else {
        -a / -b
    }
}

/// Divides with rounding toward zero.
pub fn divide(a: i64, b: i64) -> (result: i64)
    requires
        b != 0,
        -0x4000_0000_0000_0000 <= a <= 0x4000_0000_0000_0000,
        -0x4000_0000_0000_0000 <= b <= 0x4000_0000_0000_0000,
    ensures
        result == quotient(a as int, b as int),
        a >= 0 ==> -a <= result <= a && 0 <= result * b <= a,
        a < 0 ==> a <= result <= -a && a <= result * b <= 0,
{
    let dividend: i64 = if a >= 0 {
        a
    } else {
        -a
    };
    let divisor: i64 = if b > 0 {
        b
    } else {
        -b
    };
    assert(0 <= dividend / divisor <= dividend) by (nonlinear_arith)
        requires
            dividend >= 0,
            divisor >= 1,
    ;
    let magnitude: i64 = dividend / divisor;
    assert(0 <= magnitude * divisor <= dividend) by (nonlinear_arith)
        requires
            dividend >= 0,
            divisor >= 1,
            magnitude == dividend as int / divisor as int,
    ;
    proof {
        let (m, d) = (magnitude as int, divisor as int);
        assert(-m * d == -(m * d) && m * -d == -(m * d) && -m * -d == m * d) by (nonlinear_arith);
    }
    if (a >= 0) == (b > 0) {
        magnitude
    } else {
        -magnitude
    }
}

} // verus!
