//! Points and line segments over ordinates.
//!
//! An ordinate is a 32-bit integer that stands for a coordinate. Ordinates
//! are ordered as the coordinates they stand for, and the ordinate 0 stands
//! for the coordinate 0. The library compares ordinates and moves them about,
//! and does no arithmetic on them; so any integers that are ordered as the
//! coordinates will do. For coordinates in IEEE 754 single precision,
//! `ordinate_from_bits` gives such integers.

use vstd::prelude::*;

verus! {

/// The bit of a single-precision bit pattern that holds the sign.
pub const SIGN_BIT: u32 = 0x8000_0000;

/// The ordinate that stands for the number with the bit pattern `bits`, a
/// pattern of IEEE 754 single precision: the pattern without its sign bit,
/// negated where the sign bit is set. So the two zeros have the ordinate 0,
/// a number with the greater magnitude has the ordinate with the greater
/// magnitude, and the sign of the ordinate is that of the number.
pub open spec fn ordinate_of(bits: u32) -> int {
    if bits >= SIGN_BIT {
        -(bits - SIGN_BIT)
    } else {
        bits as int
    }
}

/// The bit pattern of the number that the ordinate stands for; for the
/// ordinate 0, that of the zero without sign.
pub open spec fn bits_of_ordinate(ordinate: i32) -> int {
    if ordinate < 0 {
        SIGN_BIT - ordinate
    } else {
        ordinate as int
    }
}

/// The ordinate that stands for the number with the bit pattern `bits`.
pub fn ordinate_from_bits(bits: u32) -> (ordinate: i32)
    ensures
        ordinate == ordinate_of(bits),
        ordinate > i32::MIN,
{
    if bits >= SIGN_BIT {
        -((bits - SIGN_BIT) as i32)
    } else {
        bits as i32
    }
}

/// The bit pattern of the number that the ordinate stands for.
pub fn ordinate_to_bits(ordinate: i32) -> (bits: u32)
    requires
        ordinate > i32::MIN,
    ensures
        bits == bits_of_ordinate(ordinate),
{
    if ordinate < 0 {
        SIGN_BIT + ((-ordinate) as u32)
    } else {
        ordinate as u32
    }
}

/// Every bit pattern but that of the zero with the sign comes back from its
/// ordinate, and every ordinate but the least integer comes back from its
/// bit pattern.
pub proof fn lemma_ordinate_round_trip(bits: u32, ordinate: i32)
    ensures
        i32::MIN < ordinate_of(bits) <= i32::MAX,
        bits != SIGN_BIT ==> bits_of_ordinate(ordinate_of(bits) as i32) == bits,
        bits == SIGN_BIT ==> ordinate_of(bits) == 0,
        ordinate > i32::MIN ==> 0 <= bits_of_ordinate(ordinate) <= u32::MAX && ordinate_of(
            bits_of_ordinate(ordinate) as u32,
        ) == ordinate,
{
}

/// Ordinates are ordered as the numbers of their bit patterns are: of two
/// patterns without the sign bit the greater has the greater ordinate, of
/// two with the sign bit the lesser has, and a pattern with the sign bit
/// never has the greater ordinate.
pub proof fn lemma_ordinate_order(a: u32, b: u32)
    ensures
        a < SIGN_BIT && b < SIGN_BIT ==> (ordinate_of(a) < ordinate_of(b) <==> a < b),
        a >= SIGN_BIT && b >= SIGN_BIT ==> (ordinate_of(a) < ordinate_of(b) <==> a > b),
        a >= SIGN_BIT && b < SIGN_BIT ==> ordinate_of(a) <= ordinate_of(b),
        ordinate_of(a) == ordinate_of(b) <==> (a == b || (a % SIGN_BIT == 0 && b % SIGN_BIT
            == 0)),
{
}

/// A point of the plane, by its two ordinates.
#[derive(Clone, Copy, Debug, PartialEq, Eq, Structural)]
pub struct Point {
    pub x: i32,
    pub y: i32,
}

/// The lesser of two ordinates.
pub open spec fn min_of(a: i32, b: i32) -> i32 {
    if a < b {
        a
    } else {
        b
    }
}

/// The greater of two ordinates.
pub open spec fn max_of(a: i32, b: i32) -> i32 {
    if a > b {
        a
    } else {
        b
    }
}

impl Point {
    /// The point with the given ordinates.
    pub fn new(x: i32, y: i32) -> (point: Point)
        ensures
            point == (Point { x, y }),
    {
        Point { x, y }
    }

    /// The origin.
    pub fn origin() -> (point: Point)
        ensures
            point == (Point { x: 0, y: 0 }),
    {
        Point { x: 0, y: 0 }
    }

    /// The point that has of each ordinate the lesser of the two points'.
    pub fn min(self, other: Point) -> (point: Point)
        ensures
            point == (Point { x: min_of(self.x, other.x), y: min_of(self.y, other.y) }),
    {
        Point {
            x: if self.x < other.x {
                self.x
            } else {
                other.x
            },
            y: if self.y < other.y {
                self.y
            } else {
                other.y
            },
        }
    }

    /// The point that has of each ordinate the greater of the two points'.
    pub fn max(self, other: Point) -> (point: Point)
        ensures
            point == (Point { x: max_of(self.x, other.x), y: max_of(self.y, other.y) }),
    {
        Point {
            x: if self.x > other.x {
                self.x
            } else {
                other.x
            },
            y: if self.y > other.y {
                self.y
            } else {
                other.y
            },
        }
    }
}

/// A directed line segment.
#[derive(Clone, Copy, Debug, PartialEq, Eq, Structural)]
pub struct LineSegment {
    pub from: Point,
    pub to: Point,
}

impl LineSegment {
    /// The end with the lesser `y`, and `to` where both have the same.
    pub open spec fn upper(self) -> Point {
        if self.from.y < self.to.y {
            self.from
        } else {
            self.to
        }
    }

    /// +1 for a segment that runs towards greater `y`, -1 for any other.
    pub open spec fn winding(self) -> int {
        if self.from.y < self.to.y {
            1
        } else {
            -1
        }
    }

    /// The segment with its ends exchanged.
    pub open spec fn flipped(self) -> LineSegment {
        LineSegment { from: self.to, to: self.from }
    }

    /// The segment from `from` to `to`.
    pub fn new(from: &Point, to: &Point) -> (segment: LineSegment)
        ensures
            segment == (LineSegment { from: *from, to: *to }),
    {
        LineSegment { from: *from, to: *to }
    }

    /// The segment from the origin to the origin.
    pub fn zero() -> (segment: LineSegment)
        ensures
            segment == (LineSegment { from: Point { x: 0, y: 0 }, to: Point { x: 0, y: 0 } }),
    {
        LineSegment { from: Point::origin(), to: Point::origin() }
    }

    /// The lesser of the two `y`.
    pub fn min_y(&self) -> (y: i32)
        ensures
            y == min_of(self.from.y, self.to.y),
    {
        if self.from.y < self.to.y {
            self.from.y
        } else {
            self.to.y
        }
    }

    /// The greater of the two `y`.
    pub fn max_y(&self) -> (y: i32)
        ensures
            y == max_of(self.from.y, self.to.y),
    {
        if self.from.y > self.to.y {
            self.from.y
        } else {
            self.to.y
        }
    }

    /// The end that the sweep meets first.
    pub fn upper_point(&self) -> (point: Point)
        ensures
            point == self.upper(),
    {
        if self.from.y < self.to.y {
            self.from
        } else {
            self.to
        }
    }

    /// The sign that the segment adds to the winding number of what lies to
    /// its right.
    pub fn y_winding(&self) -> (winding: i32)
        ensures
            winding == self.winding(),
    {
        if self.from.y < self.to.y {
            1
        } else {
            -1
        }
    }

    /// The segment with its ends exchanged.
    pub fn reversed(&self) -> (segment: LineSegment)
        ensures
            segment == self.flipped(),
    {
        LineSegment { from: self.to, to: self.from }
    }

    /// The segment itself for a winding that is not negative, and the
    /// reversed segment for a negative one.
    pub fn orient(&self, y_winding: i32) -> (segment: LineSegment)
        ensures
            segment == if y_winding >= 0 {
                *self
            } else {
                self.flipped()
            },
    {
        if y_winding >= 0 {
            *self
        } else {
            self.reversed()
        }
    }
}

/// What `orient` gives for a winding.
pub open spec fn oriented(segment: LineSegment, y_winding: int) -> LineSegment {
    if y_winding >= 0 {
        segment
    } else {
        segment.flipped()
    }
}

/// Orienting a segment twice by the same winding gives the segment.
pub proof fn lemma_orient_twice(segment: LineSegment, y_winding: int)
    ensures
        oriented(oriented(segment, y_winding), y_winding) == segment,
{
}

/// A segment that is oriented by its own winding runs towards greater `y`,
/// unless it is level.
pub proof fn lemma_oriented_runs_down(segment: LineSegment)
    ensures
        oriented(segment, segment.winding()).from.y <= oriented(segment, segment.winding()).to.y
            || segment.from.y == segment.to.y,
{
}

} // verus!
