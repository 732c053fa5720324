//! Rectangles and squares of the integer plane, and the quadrant of a point in
//! one.

use vstd::prelude::*;

verus! {

/// A point of the plane. `x` grows to the right, `y` grows downwards.
#[derive(Clone, Copy, Debug, PartialEq, Eq, Structural)]
pub struct Point {
    pub x: i64,
    pub y: i64,
}

/// A rectangle: its top-left corner, its width and its height.
#[derive(Clone, Copy, Debug, PartialEq, Eq, Structural)]
pub struct Rect {
    pub x: i64,
    pub y: i64,
    pub w: i64,
    pub h: i64,
}

/// A rectangle whose width and height are equal.
#[derive(Clone, Copy, Debug, PartialEq, Eq, Structural)]
pub struct Square(pub Rect);

/// One quarter of a rectangle.
#[derive(Clone, Copy, Debug, PartialEq, Eq, Structural)]
pub enum Quadrant {
    TopLeft,
    TopRight,
    BottomLeft,
    BottomRight,
}

/// Whether coordinate `at` lies before the middle of the side that starts at
/// `start` and is `size` long. The middle is taken exactly, halves included.
pub open spec fn before_middle(at: int, start: int, size: int) -> bool {
    2 * (at - start) < size
}

/// The quadrant of `region` that `pos` falls in: left of the centre or not,
/// above it or not. A point on a centre line counts to the right, or below.
pub open spec fn quadrant_of(region: Rect, pos: Point) -> Quadrant {
    if before_middle(pos.x as int, region.x as int, region.w as int) {
        if before_middle(pos.y as int, region.y as int, region.h as int) {
            Quadrant::TopLeft
        } else {
            Quadrant::BottomLeft
        }
    } else {
        if before_middle(pos.y as int, region.y as int, region.h as int) {
            Quadrant::TopRight
        } else {
            Quadrant::BottomRight
        }
    }
}

/// Whether `at` lies before the middle of a side.
fn is_before_middle(at: i64, start: i64, size: i64) -> (before: bool)
    ensures
        before == before_middle(at as int, start as int, size as int),
{
    2 * (at as i128 - start as i128) < size as i128
}

impl Quadrant {
    /// The quadrant of `region` that `pos` falls in.
    pub fn new(region: &Rect, pos: Point) -> (q: Quadrant)
        ensures
            q == quadrant_of(*region, pos),
    {
        if is_before_middle(pos.x, region.x, region.w) {
            if is_before_middle(pos.y, region.y, region.h) {
                Quadrant::TopLeft
            } else {
                Quadrant::BottomLeft
            }
        } else {
            if is_before_middle(pos.y, region.y, region.h) {
                Quadrant::TopRight
            } else {
                Quadrant::BottomRight
            }
        }
    }

    /// The place of the quadrant among a rectangle's four quarters: top row
    /// first, left before right.
    pub fn index(self) -> (i: usize)
        ensures
            i == match self {
                Quadrant::TopLeft => 0usize,
                Quadrant::TopRight => 1usize,
                Quadrant::BottomLeft => 2usize,
                Quadrant::BottomRight => 3usize,
            },
    {
        match self {
            Quadrant::TopLeft => 0,
            Quadrant::TopRight => 1,
            Quadrant::BottomLeft => 2,
            Quadrant::BottomRight => 3,
        }
    }
}

impl Square {
    /// The invariant of a square: width and height are equal.
    pub open spec fn wf(&self) -> bool {
        self.0.w == self.0.h
    }

    /// The square with top-left corner `(x, y)` and side `size`.
    pub fn new(x: i64, y: i64, size: i64) -> (s: Square)
        ensures
            s.0 == (Rect { x, y, w: size, h: size }),
            s.wf(),
    {
        Square(Rect { x, y, w: size, h: size })
    }

    /// The empty square at `pos`.
    pub fn zero(pos: Point) -> (s: Square)
        ensures
            s.0 == (Rect { x: pos.x, y: pos.y, w: 0, h: 0 }),
            s.wf(),
    {
        Square::new(pos.x, pos.y, 0)
    }

    /// The square moved by `diff` and given the side `size`; `None` when the
    /// moved corner leaves the plane.
    pub fn modify(&self, diff: Point, size: i64) -> (s: Option<Square>)
        ensures
            s == if i64::MIN <= self.0.x + diff.x <= i64::MAX && i64::MIN <= self.0.y + diff.y
                <= i64::MAX {
                Some(
                    Square(
                        Rect {
                            x: (self.0.x + diff.x) as i64,
                            y: (self.0.y + diff.y) as i64,
                            w: size,
                            h: size,
                        },
                    ),
                )
            } else {
                None
            },
    {
        match (self.0.x.checked_add(diff.x), self.0.y.checked_add(diff.y)) {
            (Some(x), Some(y)) => Some(Square::new(x, y, size)),
            _ => None,
        }
    }

    /// The square as a rectangle.
    pub fn rect(&self) -> (r: &Rect)
        ensures
            *r == self.0,
    {
        &self.0
    }
}

} // verus!
