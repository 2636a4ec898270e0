//! Physical-pixel rectangles of UI elements, windows and displays.
//!
//! A rectangle covers the half-open area `[left, right) x [top, bottom)`; it
//! is built from any two opposite corners and kept normalized
//! (`left <= right`, `top <= bottom`). Coordinates are the integer physical
//! pixels the platform reports.
use vstd::prelude::*;

verus! {

/// A normalized rectangle in physical pixels.
#[derive(Clone, Copy, Debug, PartialEq, Eq, Structural)]
pub struct PhysicalRect {
    left: i32,
    top: i32,
    right: i32,
    bottom: i32,
}

pub open spec fn min_i32(a: i32, b: i32) -> i32 {
    if a <= b { a } else { b }
}

pub open spec fn max_i32(a: i32, b: i32) -> i32 {
    if a >= b { a } else { b }
}

fn min_of(a: i32, b: i32) -> (r: i32)
    ensures
        r == min_i32(a, b),
{
    if a <= b { a } else { b }
}

fn max_of(a: i32, b: i32) -> (r: i32)
    ensures
        r == max_i32(a, b),
{
    if a >= b { a } else { b }
}

/// The overlap of two areas, when it has positive width and height.
pub open spec fn overlap(a: (i32, i32, i32, i32), b: (i32, i32, i32, i32)) -> Option<(i32, i32, i32, i32)> {
    let l = max_i32(a.0, b.0);
    let t = max_i32(a.1, b.1);
    let r = min_i32(a.2, b.2);
    let bt = min_i32(a.3, b.3);
    if l < r && t < bt {
        Some((l, t, r, bt))
    } else {
        None
    }
}

/// The normalized area with corners `(x0, y0)` and `(x1, y1)`.
pub open spec fn normalized_area(x0: i32, y0: i32, x1: i32, y1: i32) -> (i32, i32, i32, i32) {
    (min_i32(x0, x1), min_i32(y0, y1), max_i32(x0, x1), max_i32(y0, y1))
}

/// A point `(x, y)` lies in the half-open area `[l, r) x [t, b)`.
pub open spec fn area_contains(area: (i32, i32, i32, i32), x: i32, y: i32) -> bool {
    area.0 <= x && x < area.2 && area.1 <= y && y < area.3
}

impl View for PhysicalRect {
    /// The rectangle as `(left, top, right, bottom)`.
    type V = (i32, i32, i32, i32);

    closed spec fn view(&self) -> (i32, i32, i32, i32) {
        (self.left, self.top, self.right, self.bottom)
    }
}

impl PhysicalRect {
    #[verifier::type_invariant]
    spec fn normalized(self) -> bool {
        self.left <= self.right && self.top <= self.bottom
    }

    /// The rectangle with corners `(x0, y0)` and `(x1, y1)`, in either order.
    pub fn new(x0: i32, y0: i32, x1: i32, y1: i32) -> (r: Self)
        ensures
            r@ == normalized_area(x0, y0, x1, y1),
    {
        PhysicalRect { left: min_of(x0, x1), top: min_of(y0, y1), right: max_of(x0, x1), bottom: max_of(y0, y1) }
    }

    pub fn left(&self) -> (r: i32)
        ensures
            r == self@.0,
    {
        self.left
    }

    pub fn top(&self) -> (r: i32)
        ensures
            r == self@.1,
    {
        self.top
    }

    pub fn right(&self) -> (r: i32)
        ensures
            r == self@.2,
    {
        self.right
    }

    pub fn bottom(&self) -> (r: i32)
        ensures
            r == self@.3,
    {
        self.bottom
    }

    /// Horizontal extent; never negative.
    pub fn width(&self) -> (r: i64)
        ensures
            r == self@.2 - self@.0,
            r >= 0,
    {
        proof {
            use_type_invariant(self);
        }
        self.right as i64 - self.left as i64
    }

    /// Vertical extent; never negative.
    pub fn height(&self) -> (r: i64)
        ensures
            r == self@.3 - self@.1,
            r >= 0,
    {
        proof {
            use_type_invariant(self);
        }
        self.bottom as i64 - self.top as i64
    }

    /// Whether the point `(x, y)` lies in the rectangle.
    pub fn contains(&self, x: i32, y: i32) -> (r: bool)
        ensures
            r == area_contains(self@, x, y),
    {
        x >= self.left && x < self.right && y >= self.top && y < self.bottom
    }

    /// The overlap of two rectangles, when it has positive width and height.
    pub fn intersect(&self, other: &Self) -> (r: Option<Self>)
        ensures
            ({
                let l = max_i32(self@.0, other@.0);
                let t = max_i32(self@.1, other@.1);
                let rr = min_i32(self@.2, other@.2);
                let b = min_i32(self@.3, other@.3);
                &&& (r is Some) <==> (l < rr && t < b)
                &&& r matches Some(x) ==> x@ == (l, t, rr, b)
            }),
            (r is Some) == (overlap(self@, other@) is Some),
            r matches Some(x) ==> overlap(self@, other@) == Some(x@),
    {
        let left = max_of(self.left, other.left);
        let top = max_of(self.top, other.top);
        let right = min_of(self.right, other.right);
        let bottom = min_of(self.bottom, other.bottom);
        if left < right && top < bottom {
            Some(PhysicalRect { left, top, right, bottom })
        } else {
            None
        }
    }
}

/// A point lies in the overlap of two rectangles exactly when it lies in both;
/// when they do not overlap, no point lies in both.
pub proof fn intersection_contains_exactly_common_points(
    a: (i32, i32, i32, i32),
    b: (i32, i32, i32, i32),
    x: i32,
    y: i32,
)
    ensures
        ({
            let l = max_i32(a.0, b.0);
            let t = max_i32(a.1, b.1);
            let r = min_i32(a.2, b.2);
            let bt = min_i32(a.3, b.3);
            &&& area_contains((l, t, r, bt), x, y) <==> (area_contains(a, x, y) && area_contains(b, x, y))
            &&& (area_contains(a, x, y) && area_contains(b, x, y)) ==> (l < r && t < bt)
        }),
{
}

/// Overlap does not depend on the order of the two rectangles.
pub proof fn intersection_is_commutative(a: (i32, i32, i32, i32), b: (i32, i32, i32, i32))
    ensures
        (max_i32(a.0, b.0), max_i32(a.1, b.1), min_i32(a.2, b.2), min_i32(a.3, b.3)) == (
            max_i32(b.0, a.0),
            max_i32(b.1, a.1),
            min_i32(b.2, a.2),
            min_i32(b.3, a.3),
        ),
{
}

/// The overlap lies within each of the two rectangles.
pub proof fn intersection_lies_within_both(a: (i32, i32, i32, i32), b: (i32, i32, i32, i32))
    ensures
        a.0 <= max_i32(a.0, b.0) && b.0 <= max_i32(a.0, b.0),
        a.1 <= max_i32(a.1, b.1) && b.1 <= max_i32(a.1, b.1),
        min_i32(a.2, b.2) <= a.2 && min_i32(a.2, b.2) <= b.2,
        min_i32(a.3, b.3) <= a.3 && min_i32(a.3, b.3) <= b.3,
{
}

/// Building a rectangle from its own corners, or from its corners given in
/// the other order, gives it back.
pub proof fn normalization_is_idempotent(l: i32, t: i32, r: i32, b: i32)
    requires
        l <= r,
        t <= b,
    ensures
        (min_i32(l, r), min_i32(t, b), max_i32(l, r), max_i32(t, b)) == (l, t, r, b),
        (min_i32(r, l), min_i32(b, t), max_i32(r, l), max_i32(b, t)) == (l, t, r, b),
{
}

/// A rectangle clipped to a display, in physical pixels relative to the
/// display's top-left corner.
#[derive(Clone, Copy, Debug, PartialEq, Eq, Structural)]
pub struct DisplayRelativeRect {
    pub x: i64,
    pub y: i64,
    pub width: i64,
    pub height: i64,
}

/// The part of `bounds` on `display`, relative to the display's origin; `None`
/// when they do not overlap.
pub fn clip_to_display(bounds: &PhysicalRect, display: &PhysicalRect) -> (r: Option<DisplayRelativeRect>)
    ensures
        ({
            let l = max_i32(bounds@.0, display@.0);
            let t = max_i32(bounds@.1, display@.1);
            let rr = min_i32(bounds@.2, display@.2);
            let b = min_i32(bounds@.3, display@.3);
            &&& (r is Some) <==> (l < rr && t < b)
            &&& r matches Some(c) ==> c.x == l - display@.0 && c.y == t - display@.1 && c.width == rr - l
                && c.height == b - t
        }),
{
    match bounds.intersect(display) {
        Some(clipped) => Some(
            DisplayRelativeRect {
                x: clipped.left() as i64 - display.left() as i64,
                y: clipped.top() as i64 - display.top() as i64,
                width: clipped.width(),
                height: clipped.height(),
            },
        ),
        None => None,
    }
}

/// A clipped rectangle lies within its display.
pub proof fn clipped_rect_lies_within_display(bounds: (i32, i32, i32, i32), display: (i32, i32, i32, i32))
    requires
        display.0 <= display.2,
        display.1 <= display.3,
        max_i32(bounds.0, display.0) < min_i32(bounds.2, display.2),
        max_i32(bounds.1, display.1) < min_i32(bounds.3, display.3),
    ensures
        ({
            let l = max_i32(bounds.0, display.0);
            let t = max_i32(bounds.1, display.1);
            let rr = min_i32(bounds.2, display.2);
            let b = min_i32(bounds.3, display.3);
            &&& 0 <= l - display.0
            &&& 0 <= t - display.1
            &&& 0 < rr - l
            &&& 0 < b - t
            &&& (l - display.0) + (rr - l) <= display.2 - display.0
            &&& (t - display.1) + (b - t) <= display.3 - display.1
        }),
{
}

/// `min_i32` and `max_i32` pick the smaller and the larger argument.
pub proof fn min_max_pick_an_argument(a: i32, b: i32)
    ensures
        min_i32(a, b) <= a && min_i32(a, b) <= b && (min_i32(a, b) == a || min_i32(a, b) == b),
        max_i32(a, b) >= a && max_i32(a, b) >= b && (max_i32(a, b) == a || max_i32(a, b) == b),
{
}

/// A point lies in an area exactly when it is at or right of its left edge,
/// left of its right edge, at or below its top and above its bottom; the
/// overlap of two areas exists exactly when some point lies in both.
pub proof fn area_and_overlap_meaning(a: (i32, i32, i32, i32), b: (i32, i32, i32, i32), x: i32, y: i32)
    ensures
        area_contains(a, x, y) <==> (a.0 <= x && x < a.2 && a.1 <= y && y < a.3),
        area_contains(a, x, y) && area_contains(b, x, y) ==> overlap(a, b) is Some,
        overlap(a, b) matches Some(c) ==> area_contains(a, c.0, c.1) && area_contains(b, c.0, c.1)
            && area_contains(c, x, y) == (area_contains(a, x, y) && area_contains(b, x, y)),
{
    intersection_contains_exactly_common_points(a, b, x, y);
    if let Some(c) = overlap(a, b) {
        intersection_contains_exactly_common_points(a, b, c.0, c.1);
    }
}

/// A normalized area's left edge is no right of its right edge, its top no
/// lower than its bottom, and it has the given corners as corners.
pub proof fn normalized_area_orders_corners(x0: i32, y0: i32, x1: i32, y1: i32)
    ensures
        normalized_area(x0, y0, x1, y1).0 <= normalized_area(x0, y0, x1, y1).2,
        normalized_area(x0, y0, x1, y1).1 <= normalized_area(x0, y0, x1, y1).3,
        normalized_area(x0, y0, x1, y1) == normalized_area(x1, y1, x0, y0),
        (normalized_area(x0, y0, x1, y1).0 == x0 && normalized_area(x0, y0, x1, y1).2 == x1) || (normalized_area(
            x0,
            y0,
            x1,
            y1,
        ).0 == x1 && normalized_area(x0, y0, x1, y1).2 == x0),
        (normalized_area(x0, y0, x1, y1).1 == y0 && normalized_area(x0, y0, x1, y1).3 == y1) || (normalized_area(
            x0,
            y0,
            x1,
            y1,
        ).1 == y1 && normalized_area(x0, y0, x1, y1).3 == y0),
{
}

} // verus!
