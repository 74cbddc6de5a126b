//! Path segments: lines and Bézier curves of degree two and three.

use vstd::prelude::*;
use crate::geometry::{LineSegment, Point};

verus! {

/// What a segment is. `Empty` is the kind of the segment that is no segment.
#[derive(Clone, Copy, Debug, PartialEq, Eq, Structural)]
pub enum SegmentKind {
    Empty,
    Line,
    Quadratic,
    Cubic,
}

/// Where a segment stands in its subpath.
#[derive(Clone, Copy, Debug, PartialEq, Eq, Structural)]
pub struct SegmentFlags {
    pub first_in_subpath: bool,
    pub closes_subpath: bool,
}

impl SegmentFlags {
    /// No flag.
    pub fn empty() -> (flags: SegmentFlags)
        ensures
            flags == (SegmentFlags { first_in_subpath: false, closes_subpath: false }),
    {
        SegmentFlags { first_in_subpath: false, closes_subpath: false }
    }
}

/// A segment of a path. `baseline` runs from its first point to its last;
/// `ctrl` holds the control points: none for a line, `ctrl.from` for a
/// quadratic curve, both for a cubic one.
#[derive(Clone, Copy, Debug, PartialEq, Eq, Structural)]
pub struct Segment {
    pub baseline: LineSegment,
    pub ctrl: LineSegment,
    pub kind: SegmentKind,
    pub flags: SegmentFlags,
}

impl Segment {
    /// The segment run backwards: the baseline reversed, and the control
    /// points exchanged unless the segment is quadratic.
    pub open spec fn flipped(self) -> Segment {
        Segment {
            baseline: self.baseline.flipped(),
            ctrl: if self.kind == SegmentKind::Quadratic {
                self.ctrl
            } else {
                self.ctrl.flipped()
            },
            kind: self.kind,
            flags: self.flags,
        }
    }

    /// The segment that is no segment.
    pub fn none() -> (segment: Segment)
        ensures
            segment.kind == SegmentKind::Empty,
            segment.baseline == (LineSegment {
                from: Point { x: 0, y: 0 },
                to: Point { x: 0, y: 0 },
            }),
            segment.ctrl == segment.baseline,
            segment.flags == (SegmentFlags { first_in_subpath: false, closes_subpath: false }),
    {
        Segment {
            baseline: LineSegment::zero(),
            ctrl: LineSegment::zero(),
            kind: SegmentKind::Empty,
            flags: SegmentFlags::empty(),
        }
    }

    /// The line along `line`.
    pub fn line(line: &LineSegment) -> (segment: Segment)
        ensures
            segment == (Segment {
                baseline: *line,
                ctrl: LineSegment { from: Point { x: 0, y: 0 }, to: Point { x: 0, y: 0 } },
                kind: SegmentKind::Line,
                flags: SegmentFlags { first_in_subpath: false, closes_subpath: false },
            }),
    {
        Segment {
            baseline: *line,
            ctrl: LineSegment::zero(),
            kind: SegmentKind::Line,
            flags: SegmentFlags::empty(),
        }
    }

    /// The quadratic curve over `baseline` with the control point `ctrl`.
    pub fn quadratic(baseline: &LineSegment, ctrl: &Point) -> (segment: Segment)
        ensures
            segment == (Segment {
                baseline: *baseline,
                ctrl: LineSegment { from: *ctrl, to: Point { x: 0, y: 0 } },
                kind: SegmentKind::Quadratic,
                flags: SegmentFlags { first_in_subpath: false, closes_subpath: false },
            }),
    {
        Segment {
            baseline: *baseline,
            ctrl: LineSegment::new(ctrl, &Point::origin()),
            kind: SegmentKind::Quadratic,
            flags: SegmentFlags::empty(),
        }
    }

    /// The cubic curve over `baseline` with the control points of `ctrl`.
    pub fn cubic(baseline: &LineSegment, ctrl: &LineSegment) -> (segment: Segment)
        ensures
            segment == (Segment {
                baseline: *baseline,
                ctrl: *ctrl,
                kind: SegmentKind::Cubic,
                flags: SegmentFlags { first_in_subpath: false, closes_subpath: false },
            }),
    {
        Segment {
            baseline: *baseline,
            ctrl: *ctrl,
            kind: SegmentKind::Cubic,
            flags: SegmentFlags::empty(),
        }
    }

    /// The baseline of a line.
    pub fn as_line_segment(&self) -> (line: LineSegment)
        requires
            self.kind == SegmentKind::Line,
        ensures
            line == self.baseline,
    {
        self.baseline
    }

    /// Tells whether this is the segment that is no segment.
    pub fn is_none(&self) -> (is: bool)
        ensures
            is == (self.kind == SegmentKind::Empty),
    {
        self.kind == SegmentKind::Empty
    }

    /// Tells whether the segment is a line.
    pub fn is_line(&self) -> (is: bool)
        ensures
            is == (self.kind == SegmentKind::Line),
    {
        self.kind == SegmentKind::Line
    }

    /// Tells whether the segment is a quadratic curve.
    pub fn is_quadratic(&self) -> (is: bool)
        ensures
            is == (self.kind == SegmentKind::Quadratic),
    {
        self.kind == SegmentKind::Quadratic
    }

    /// Tells whether the segment is a cubic curve.
    pub fn is_cubic(&self) -> (is: bool)
        ensures
            is == (self.kind == SegmentKind::Cubic),
    {
        self.kind == SegmentKind::Cubic
    }

    /// The segment run backwards.
    pub fn reversed(&self) -> (segment: Segment)
        ensures
            segment == self.flipped(),
    {
        Segment {
            baseline: self.baseline.reversed(),
            ctrl: if self.is_quadratic() {
                self.ctrl
            } else {
                self.ctrl.reversed()
            },
            kind: self.kind,
            flags: self.flags,
        }
    }

    /// The segment itself for a winding that is not negative, and the
    /// reversed segment for a negative one.
    pub fn orient(&self, y_winding: i32) -> (segment: Segment)
        ensures
            segment == if y_winding >= 0 {
                *self
            } else {
                self.flipped()
            },
    {
        if y_winding >= 0 {
            *self
        } else {
            self.reversed()
        }
    }
}

/// Reversing a segment twice gives the segment.
pub proof fn lemma_reversed_twice(segment: Segment)
    ensures
        segment.flipped().flipped() == segment,
{
}

} // verus!
