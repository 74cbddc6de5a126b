//! Contours: closed paths as a ring of endpoints and control points.

use vstd::prelude::*;
use crate::geometry::{LineSegment, Point};
use crate::path_event::PathEvent;
use crate::segment::{Segment, SegmentFlags, SegmentKind};

verus! {

/// What a point of a contour is: an endpoint where neither flag is set, else
/// the first or the second control point of a curve.
#[derive(Clone, Copy, Debug, PartialEq, Eq, Structural)]
pub struct PointFlags {
    pub control_point_0: bool,
    pub control_point_1: bool,
}

impl PointFlags {
    /// Whether these are the flags of an endpoint.
    pub open spec fn is_endpoint(self) -> bool {
        !self.control_point_0 && !self.control_point_1
    }

    /// The flags of an endpoint.
    pub fn empty() -> (flags: PointFlags)
        ensures
            flags == (PointFlags { control_point_0: false, control_point_1: false }),
    {
        PointFlags { control_point_0: false, control_point_1: false }
    }

    /// The flags of the first control point of a curve.
    pub fn control_point_0() -> (flags: PointFlags)
        ensures
            flags == (PointFlags { control_point_0: true, control_point_1: false }),
    {
        PointFlags { control_point_0: true, control_point_1: false }
    }

    /// The flags of the second control point of a cubic curve.
    pub fn control_point_1() -> (flags: PointFlags)
        ensures
            flags == (PointFlags { control_point_0: false, control_point_1: true }),
    {
        PointFlags { control_point_0: false, control_point_1: true }
    }
}

/// Tells whether flags are those of an endpoint.
pub fn is_endpoint(flags: PointFlags) -> (is: bool)
    ensures
        is == flags.is_endpoint(),
{
    !flags.control_point_0 && !flags.control_point_1
}

/// Whether a sequence of flags is that of a closed path: it begins and ends
/// with an endpoint, a first control point is followed by an endpoint or by
/// a second control point, and a second control point stands between a first
/// one and an endpoint. So between two endpoints that follow one another,
/// round the ring too, there are no, one or two control points.
pub open spec fn flags_form_path(flags: Seq<PointFlags>) -> bool {
    &&& flags.len() > 0 ==> flags[0].is_endpoint() && flags.last().is_endpoint()
    &&& forall|i: int|
        0 <= i < flags.len() ==> !((#[trigger] flags[i]).control_point_0
            && flags[i].control_point_1)
    &&& forall|i: int|
        0 <= i < flags.len() && (#[trigger] flags[i]).control_point_0 ==> i + 1 < flags.len() && (
        flags[i + 1].is_endpoint() || flags[i + 1].control_point_1)
    &&& forall|i: int|
        0 <= i < flags.len() && (#[trigger] flags[i]).control_point_1 ==> i > 0 && flags[i
            - 1].control_point_0 && i + 1 < flags.len() && flags[i + 1].is_endpoint()
}

/// The largest number of points that the sweep can address in one contour.
pub const MAX_CONTOUR_LENGTH: usize = 0x10_0000;

/// One closed path: its points in the order of the path, and for each point
/// what it is. The last endpoint is joined to the first.
#[derive(Debug)]
pub struct Contour {
    pub points: Vec<Point>,
    pub flags: Vec<PointFlags>,
}

impl Contour {
    /// Every point has its flags.
    pub open spec fn wf(self) -> bool {
        self.points@.len() == self.flags@.len()
    }

    /// The contour is proper and not longer than the sweep can address.
    pub open spec fn addressable(self) -> bool {
        &&& self.wf()
        &&& self.points@.len() <= MAX_CONTOUR_LENGTH
    }

    /// The contour is proper and has the shape of a closed path.
    pub open spec fn is_path(self) -> bool {
        &&& self.wf()
        &&& flags_form_path(self.flags@)
    }

    /// The number of points.
    pub open spec fn length(self) -> int {
        self.points@.len() as int
    }

    /// Whether the point at `index` is an endpoint.
    pub open spec fn endpoint_at(self, index: int) -> bool {
        self.flags@[index].is_endpoint()
    }

    /// The index `addend` places behind `index`, round the ring once.
    pub open spec fn index_plus(self, index: int, addend: int) -> int {
        if index + addend >= self.length() {
            index + addend - self.length()
        } else {
            index + addend
        }
    }

    /// The index before `index` on the ring.
    pub open spec fn index_before(self, index: int) -> int {
        if index == 0 {
            self.length() - 1
        } else {
            index - 1
        }
    }

    /// The index behind `index` on the ring.
    pub open spec fn index_behind(self, index: int) -> int {
        if index == self.length() - 1 {
            0
        } else {
            index + 1
        }
    }

    /// The first endpoint that is met going forward from `index`, itself not
    /// counted, within `steps` steps; after that many steps, the point reached.
    pub open spec fn endpoint_behind_within(self, index: int, steps: nat) -> int
        decreases steps,
    {
        let next = self.index_behind(index);
        if steps <= 1 || self.endpoint_at(next) {
            next
        } else {
            self.endpoint_behind_within(next, (steps - 1) as nat)
        }
    }

    /// The first endpoint that is met going backward from `index`, itself not
    /// counted, within `steps` steps; after that many steps, the point reached.
    pub open spec fn endpoint_before_within(self, index: int, steps: nat) -> int
        decreases steps,
    {
        let previous = self.index_before(index);
        if steps <= 1 || self.endpoint_at(previous) {
            previous
        } else {
            self.endpoint_before_within(previous, (steps - 1) as nat)
        }
    }

    /// The endpoint that follows the point at `index` on the ring.
    pub open spec fn endpoint_behind(self, index: int) -> int {
        self.endpoint_behind_within(index, self.length() as nat)
    }

    /// The endpoint that precedes the point at `index` on the ring.
    pub open spec fn endpoint_before(self, index: int) -> int {
        self.endpoint_before_within(index, self.length() as nat)
    }

    /// How many steps forward lead from `from` to `to`, round the ring; a
    /// whole round where the two are the same.
    pub open spec fn steps_between(self, from: int, to: int) -> int {
        if to > from {
            to - from
        } else {
            to - from + self.length()
        }
    }

    /// Whether the point at `e` is an endpoint that the sweep meets before
    /// the endpoints on either side of it.
    pub open spec fn is_local_minimum(self, e: int) -> bool {
        &&& self.endpoint_at(e)
        &&& self.logically_above(e, self.endpoint_before(e))
        &&& self.logically_above(e, self.endpoint_behind(e))
    }

    /// Whether the point at `a` comes before the point at `b` in the order of
    /// the sweep: it has the lesser `y`, or the same `y` and the lesser index.
    pub open spec fn logically_above(self, a: int, b: int) -> bool {
        self.points@[a].y < self.points@[b].y || (self.points@[a].y == self.points@[b].y && a
            < b)
    }

    /// The segment that begins at the endpoint at `index`: a line where the
    /// next point is an endpoint, a quadratic curve where the one after that
    /// is, else a cubic curve.
    pub open spec fn segment_behind(self, index: int) -> Segment {
        let origin = Point { x: 0, y: 0 };
        let flags = SegmentFlags { first_in_subpath: false, closes_subpath: false };
        let from = self.points@[index];
        let index1 = self.index_plus(index, 1);
        let index2 = self.index_plus(index, 2);
        let index3 = self.index_plus(index, 3);
        if self.endpoint_at(index1) {
            Segment {
                baseline: LineSegment { from, to: self.points@[index1] },
                ctrl: LineSegment { from: origin, to: origin },
                kind: SegmentKind::Line,
                flags,
            }
        } else if self.endpoint_at(index2) {
            Segment {
                baseline: LineSegment { from, to: self.points@[index2] },
                ctrl: LineSegment { from: self.points@[index1], to: origin },
                kind: SegmentKind::Quadratic,
                flags,
            }
        } else {
            Segment {
                baseline: LineSegment { from, to: self.points@[index3] },
                ctrl: LineSegment { from: self.points@[index1], to: self.points@[index2] },
                kind: SegmentKind::Cubic,
                flags,
            }
        }
    }

    /// The path events that tell the contour from the point at `index` on:
    /// a move to the first point, a drawing event for each segment, and a
    /// close at the end. `index` is where a segment's points begin.
    pub open spec fn events_from(self, index: int) -> Seq<PathEvent>
        decreases self.length() + 4 - index,
    {
        if index < 0 || index > self.length() {
            Seq::empty()
        } else if index == self.length() {
            seq![PathEvent::Close]
        } else if index == 0 {
            seq![PathEvent::MoveTo(self.points@[0])] + self.events_from(1)
        } else if self.endpoint_at(index) {
            seq![PathEvent::LineTo(self.points@[index])] + self.events_from(index + 1)
        } else if self.endpoint_at(index + 1) {
            seq![PathEvent::QuadraticTo(self.points@[index], self.points@[index + 1])]
                + self.events_from(index + 2)
        } else {
            seq![
                PathEvent::CubicTo(
                    self.points@[index],
                    self.points@[index + 1],
                    self.points@[index + 2],
                ),
            ] + self.events_from(index + 3)
        }
    }

    /// The path events that tell the contour.
    pub open spec fn events(self) -> Seq<PathEvent> {
        self.events_from(0)
    }

    /// Tells whether the sweep can go over the contour: it has a point, is
    /// not longer than the sweep can address, and has the shape of a closed
    /// path.
    pub fn can_be_swept(&self) -> (ok: bool)
        ensures
            ok == (self.addressable() && self.is_path() && self.length() > 0),
    {
        let count: usize = self.points.len();
        if count != self.flags.len() || count == 0 || count > MAX_CONTOUR_LENGTH {
            return false;
        }
        let ghost flags = self.flags@;
        if !is_endpoint(self.flags[0]) || !is_endpoint(self.flags[count - 1]) {
            return false;
        }
        let mut i: usize = 0;
        while i < count
            invariant
                count == flags.len(),
                flags == self.flags@,
                i <= count,
                forall|k: int|
                    0 <= k < i ==> !((#[trigger] flags[k]).control_point_0
                        && flags[k].control_point_1),
                forall|k: int|
                    0 <= k < i && (#[trigger] flags[k]).control_point_0 ==> k + 1 < flags.len() && (
                    flags[k + 1].is_endpoint() || flags[k + 1].control_point_1),
                forall|k: int|
                    0 <= k < i && (#[trigger] flags[k]).control_point_1 ==> k > 0 && flags[k
                        - 1].control_point_0 && k + 1 < flags.len() && flags[k + 1].is_endpoint(),
            decreases count - i,
        {
            let here = self.flags[i];
            if here.control_point_0 && here.control_point_1 {
                return false;
            }
            if here.control_point_0 {
                if i + 1 >= count {
                    return false;
                }
                let next = self.flags[i + 1];
                if !(is_endpoint(next) || next.control_point_1) {
                    return false;
                }
            }
            if here.control_point_1 {
                if i == 0 || i + 1 >= count {
                    return false;
                }
                if !self.flags[i - 1].control_point_0 || !is_endpoint(self.flags[i + 1]) {
                    return false;
                }
            }
            i += 1;
        }
        true
    }

    /// A contour without points.
    pub fn new() -> (contour: Contour)
        ensures
            contour.points@.len() == 0,
            contour.flags@.len() == 0,
            contour.wf(),
    {
        Contour { points: Vec::new(), flags: Vec::new() }
    }

    /// Tells whether the contour has no point.
    pub fn is_empty(&self) -> (empty: bool)
        ensures
            empty == (self.points@.len() == 0),
    {
        self.points.len() == 0
    }

    /// A stream of the path events that tell the contour.
    pub fn iter(&self) -> (stream: ContourIter<'_>)
        requires
            self.addressable(),
            self.is_path(),
        ensures
            stream.remaining() == self.events(),
    {
        ContourIter { contour: self, index: 0 }
    }

    /// The number of points.
    pub fn len(&self) -> (len: u32)
        requires
            self.addressable(),
        ensures
            len == self.length(),
    {
        self.points.len() as u32
    }

    /// The point at `index`.
    pub fn position_of(&self, index: u32) -> (point: Point)
        requires
            index < self.length(),
        ensures
            point == self.points@[index as int],
    {
        self.points[index as usize]
    }

    /// Appends a point with its flags, and widens the bounds to hold it:
    /// `bounding_points` holds the least and the greatest ordinates met so
    /// far, once a point was met.
    pub fn push_point(
        &mut self,
        point: Point,
        flags: PointFlags,
        bounding_points: &mut Option<(Point, Point)>,
    )
        ensures
            final(self).points@ == old(self).points@.push(point),
            final(self).flags@ == old(self).flags@.push(flags),
            *final(bounding_points) == Some(widened(*old(bounding_points), point)),
    {
        self.points.push(point);
        self.flags.push(flags);
        match *bounding_points {
            Some((upper_left, lower_right)) => {
                *bounding_points = Some((upper_left.min(point), lower_right.max(point)));
            },
            None => {
                *bounding_points = Some((point, point));
            },
        }
    }

    /// The segment that begins at the endpoint at `point_index`.
    pub fn segment_after(&self, point_index: u32) -> (segment: Segment)
        requires
            self.addressable(),
            point_index < self.length(),
            self.endpoint_at(point_index as int),
        ensures
            segment == self.segment_behind(point_index as int),
    {
        let mut segment = Segment::none();
        segment.baseline.from = self.position_of(point_index);
        let point1_index = self.add_to_point_index(point_index, 1);
        if self.point_is_endpoint(point1_index) {
            segment.baseline.to = self.position_of(point1_index);
            segment.kind = SegmentKind::Line;
        } else {
            segment.ctrl.from = self.position_of(point1_index);
            let point2_index = self.add_to_point_index(point_index, 2);
            if self.point_is_endpoint(point2_index) {
                segment.baseline.to = self.position_of(point2_index);
                segment.kind = SegmentKind::Quadratic;
            } else {
                segment.ctrl.to = self.position_of(point2_index);
                segment.kind = SegmentKind::Cubic;
                let point3_index = self.add_to_point_index(point_index, 3);
                segment.baseline.to = self.position_of(point3_index);
            }
        }
        segment
    }

    /// Tells whether the point at `point_index` is an endpoint.
    pub fn point_is_endpoint(&self, point_index: u32) -> (is: bool)
        requires
            self.wf(),
            point_index < self.length(),
        ensures
            is == self.endpoint_at(point_index as int),
    {
        let flags = self.flags[point_index as usize];
        !(flags.control_point_0 || flags.control_point_1)
    }

    /// The index `addend` places behind `point_index`, round the ring once.
    pub fn add_to_point_index(&self, point_index: u32, addend: u32) -> (index: u32)
        requires
            self.addressable(),
            point_index + addend <= u32::MAX,
        ensures
            index == self.index_plus(point_index as int, addend as int),
    {
        let index: u32 = point_index + addend;
        let limit: u32 = self.len();
        if index >= limit {
            index - limit
        } else {
            index
        }
    }

    /// Tells whether the point at `a` comes before the point at `b` in the
    /// order of the sweep.
    pub fn point_is_logically_above(&self, a: u32, b: u32) -> (above: bool)
        requires
            a < self.length(),
            b < self.length(),
        ensures
            above == self.logically_above(a as int, b as int),
    {
        let a_y: i32 = self.points[a as usize].y;
        let b_y: i32 = self.points[b as usize].y;
        a_y < b_y || (a_y == b_y && a < b)
    }

    /// The endpoint that precedes the point at `point_index` on the ring.
    pub fn prev_endpoint_index_of(&self, point_index: u32) -> (index: u32)
        requires
            self.addressable(),
            point_index < self.length(),
            exists|i: int| 0 <= i < self.length() && self.endpoint_at(i),
        ensures
            index == self.endpoint_before(point_index as int),
            index < self.length(),
            self.endpoint_at(index as int),
    {
        let mut current: u32 = point_index;
        let ghost target = choose|i: int| 0 <= i < self.length() && self.endpoint_at(i);
        let ghost mut steps: nat = self.length() as nat;
        loop
            invariant
                self.addressable(),
                current < self.length(),
                0 <= target < self.length(),
                self.endpoint_at(target),
                1 <= (if current > target {
                    current - target
                } else {
                    current - target + self.length()
                }) <= steps,
                self.endpoint_before_within(current as int, steps) == self.endpoint_before(
                    point_index as int,
                ),
            decreases steps,
        {
            current = self.prev_point_index_of(current);
            if self.point_is_endpoint(current) {
                return current;
            }
            proof {
                steps = (steps - 1) as nat;
            }
        }
    }

    /// The endpoint that follows the point at `point_index` on the ring.
    pub fn next_endpoint_index_of(&self, point_index: u32) -> (index: u32)
        requires
            self.addressable(),
            point_index < self.length(),
            exists|i: int| 0 <= i < self.length() && self.endpoint_at(i),
        ensures
            index == self.endpoint_behind(point_index as int),
            index < self.length(),
            self.endpoint_at(index as int),
    {
        let mut current: u32 = point_index;
        let ghost target = choose|i: int| 0 <= i < self.length() && self.endpoint_at(i);
        let ghost mut steps: nat = self.length() as nat;
        loop
            invariant
                self.addressable(),
                current < self.length(),
                0 <= target < self.length(),
                self.endpoint_at(target),
                1 <= (if target > current {
                    target - current
                } else {
                    target - current + self.length()
                }) <= steps,
                self.endpoint_behind_within(current as int, steps) == self.endpoint_behind(
                    point_index as int,
                ),
            decreases steps,
        {
            current = self.next_point_index_of(current);
            if self.point_is_endpoint(current) {
                return current;
            }
            proof {
                steps = (steps - 1) as nat;
            }
        }
    }

    /// The index before `point_index` on the ring.
    pub fn prev_point_index_of(&self, point_index: u32) -> (index: u32)
        requires
            self.addressable(),
            self.length() > 0,
        ensures
            index == self.index_before(point_index as int),
    {
        if point_index == 0 {
            self.len() - 1
        } else {
            point_index - 1
        }
    }

    /// The index behind `point_index` on the ring.
    pub fn next_point_index_of(&self, point_index: u32) -> (index: u32)
        requires
            self.addressable(),
            self.length() > 0,
            point_index < u32::MAX,
        ensures
            index == self.index_behind(point_index as int),
    {
        if point_index == self.len() - 1 {
            0
        } else {
            point_index + 1
        }
    }
}

impl Contour {
    /// Going forward from a point, the walk stops at the first endpoint it
    /// meets: where an endpoint lies within `steps` steps, the point reached
    /// is an endpoint, not farther than that one, and none lies on the way.
    pub proof fn lemma_endpoint_behind_within(self, index: int, steps: nat, target: int)
        requires
            self.wf(),
            0 <= index < self.length(),
            0 <= target < self.length(),
            self.endpoint_at(target),
            self.steps_between(index, target) <= steps,
        ensures
            0 <= self.endpoint_behind_within(index, steps) < self.length(),
            self.endpoint_at(self.endpoint_behind_within(index, steps)),
            self.steps_between(index, self.endpoint_behind_within(index, steps))
                <= self.steps_between(index, target),
            forall|d: int|
                1 <= d < self.steps_between(index, self.endpoint_behind_within(index, steps))
                    ==> !self.endpoint_at(#[trigger] self.index_plus(index, d)),
        decreases steps,
    {
        let next = self.index_behind(index);
        if steps <= 1 || self.endpoint_at(next) {
        } else {
            self.lemma_endpoint_behind_within(next, (steps - 1) as nat, target);
            let reached = self.endpoint_behind_within(index, steps);
            assert(reached == self.endpoint_behind_within(next, (steps - 1) as nat));
            assert forall|d: int| 1 <= d < self.steps_between(index, reached) implies !self.endpoint_at(
                #[trigger] self.index_plus(index, d),
            ) by {
                if d > 1 {
                    assert(self.index_plus(index, d) == self.index_plus(next, d - 1));
                }
            }
        }
    }

    /// In a contour that has an endpoint, the endpoint that follows a point
    /// is the first endpoint behind it on the ring. Where it has the greater
    /// index, none of the indices between is an endpoint; where it has not,
    /// none of the greater indices is, and none of the lesser ones before it.
    pub proof fn lemma_endpoint_behind(self, index: int)
        requires
            self.wf(),
            0 <= index < self.length(),
            exists|i: int| 0 <= i < self.length() && self.endpoint_at(i),
        ensures
            0 <= self.endpoint_behind(index) < self.length(),
            self.endpoint_at(self.endpoint_behind(index)),
            forall|j: int|
                index < j < self.length() && (j < self.endpoint_behind(index)
                    || self.endpoint_behind(index) <= index) ==> !#[trigger] self.endpoint_at(j),
            forall|j: int|
                0 <= j < self.endpoint_behind(index) <= index ==> !#[trigger] self.endpoint_at(j),
    {
        let target = choose|i: int| 0 <= i < self.length() && self.endpoint_at(i);
        self.lemma_endpoint_behind_within(index, self.length() as nat, target);
        let reached = self.endpoint_behind(index);
        assert forall|j: int|
            index < j < self.length() && (j < reached || reached <= index) implies !#[trigger] self.endpoint_at(
            j,
        ) by {
            assert(self.index_plus(index, j - index) == j);
        }
        assert forall|j: int| 0 <= j < reached <= index implies !#[trigger] self.endpoint_at(j) by {
            assert(self.index_plus(index, j - index + self.length()) == j);
        }
    }

    /// The index `subtrahend` places before `index`, round the ring once.
    pub open spec fn index_minus(self, index: int, subtrahend: int) -> int {
        if index - subtrahend < 0 {
            index - subtrahend + self.length()
        } else {
            index - subtrahend
        }
    }

    /// Going backward from a point, the walk stops at the first endpoint it
    /// meets: where an endpoint lies within `steps` steps, the point reached
    /// is an endpoint, not farther than that one, and none lies on the way.
    pub proof fn lemma_endpoint_before_within(self, index: int, steps: nat, target: int)
        requires
            self.wf(),
            0 <= index < self.length(),
            0 <= target < self.length(),
            self.endpoint_at(target),
            self.steps_between(target, index) <= steps,
        ensures
            0 <= self.endpoint_before_within(index, steps) < self.length(),
            self.endpoint_at(self.endpoint_before_within(index, steps)),
            self.steps_between(self.endpoint_before_within(index, steps), index)
                <= self.steps_between(target, index),
            forall|d: int|
                1 <= d < self.steps_between(self.endpoint_before_within(index, steps), index)
                    ==> !self.endpoint_at(#[trigger] self.index_minus(index, d)),
        decreases steps,
    {
        let previous = self.index_before(index);
        if steps <= 1 || self.endpoint_at(previous) {
        } else {
            self.lemma_endpoint_before_within(previous, (steps - 1) as nat, target);
            let reached = self.endpoint_before_within(index, steps);
            assert(reached == self.endpoint_before_within(previous, (steps - 1) as nat));
            assert forall|d: int| 1 <= d < self.steps_between(reached, index) implies !self.endpoint_at(
                #[trigger] self.index_minus(index, d),
            ) by {
                if d > 1 {
                    assert(self.index_minus(index, d) == self.index_minus(previous, d - 1));
                }
            }
        }
    }

    /// In a contour that has an endpoint, the endpoint that precedes a point
    /// is the first endpoint before it on the ring. Where it has the lesser
    /// index, none of the indices between is an endpoint; where it has not,
    /// none of the lesser indices is, and none of the greater ones behind it.
    pub proof fn lemma_endpoint_before(self, index: int)
        requires
            self.wf(),
            0 <= index < self.length(),
            exists|i: int| 0 <= i < self.length() && self.endpoint_at(i),
        ensures
            0 <= self.endpoint_before(index) < self.length(),
            self.endpoint_at(self.endpoint_before(index)),
            forall|j: int|
                0 <= j < index && (self.endpoint_before(index) < j || index
                    <= self.endpoint_before(index)) ==> !#[trigger] self.endpoint_at(j),
            forall|j: int|
                index <= self.endpoint_before(index) < j < self.length() ==> !#[trigger] self.endpoint_at(
                    j,
                ),
    {
        let target = choose|i: int| 0 <= i < self.length() && self.endpoint_at(i);
        self.lemma_endpoint_before_within(index, self.length() as nat, target);
        let reached = self.endpoint_before(index);
        assert forall|j: int|
            0 <= j < index && (reached < j || index <= reached) implies !#[trigger] self.endpoint_at(
            j,
        ) by {
            assert(self.index_minus(index, index - j) == j);
        }
        assert forall|j: int| index <= reached < j < self.length() implies !#[trigger] self.endpoint_at(
            j,
        ) by {
            assert(self.index_minus(index, index - j + self.length()) == j);
        }
    }
}

/// In a closed path the segment that begins at an endpoint ends at the
/// endpoint behind it, and that one is one, two or three places away: no, one
/// or two control points lie between two endpoints that follow one another.
pub proof fn lemma_segment_ends_at_next_endpoint(contour: Contour, e: int)
    requires
        contour.is_path(),
        0 <= e < contour.length(),
        contour.endpoint_at(e),
    ensures
        contour.segment_behind(e).baseline.from == contour.points@[e],
        contour.segment_behind(e).baseline.to == contour.points@[contour.endpoint_behind(e)],
        1 <= contour.steps_between(e, contour.endpoint_behind(e)) <= 3,
        contour.segment_behind(e).kind == (if contour.endpoint_behind(e) == contour.index_plus(
            e,
            1,
        ) {
            SegmentKind::Line
        } else if contour.endpoint_behind(e) == contour.index_plus(e, 2) {
            SegmentKind::Quadratic
        } else {
            SegmentKind::Cubic
        }),
{
    let flags = contour.flags@;
    let len = contour.length();
    assert(flags[0].is_endpoint());
    assert(flags.last().is_endpoint());
    reveal_with_fuel(Contour::endpoint_behind_within, 4);
    if e == len - 1 {
        assert(contour.index_plus(e, 1) == 0);
        assert(contour.index_behind(e) == 0);
    } else if flags[e + 1].is_endpoint() {
        assert(contour.index_plus(e, 1) == e + 1);
    } else {
        assert(flags[e + 1].control_point_0) by {
            if flags[e + 1].control_point_1 {
                assert(flags[e + 1 - 1].control_point_0);
            }
        }
        assert(e + 2 < len);
        assert(contour.index_plus(e, 1) == e + 1);
        assert(contour.index_plus(e, 2) == e + 2);
        assert(contour.index_behind(e + 1) == e + 2);
        if !flags[e + 2].is_endpoint() {
            assert(flags[e + 2].control_point_1);
            assert(e + 3 < len && flags[e + 2 + 1].is_endpoint());
            assert(contour.index_plus(e, 3) == e + 3);
            assert(contour.index_behind(e + 2) == e + 3);
        }
    }
}

/// The bounds that hold `point` besides what `bounds` held.
pub open spec fn widened(bounds: Option<(Point, Point)>, point: Point) -> (Point, Point) {
    match bounds {
        Some((upper_left, lower_right)) => (
            Point {
                x: crate::geometry::min_of(upper_left.x, point.x),
                y: crate::geometry::min_of(upper_left.y, point.y),
            },
            Point {
                x: crate::geometry::max_of(lower_right.x, point.x),
                y: crate::geometry::max_of(lower_right.y, point.y),
            },
        ),
        None => (point, point),
    }
}

/// A stream of the path events that tell a contour.
pub struct ContourIter<'a> {
    contour: &'a Contour,
    index: u32,
}

impl<'a> ContourIter<'a> {
    #[verifier::type_invariant]
    spec fn inv(self) -> bool {
        &&& self.contour.addressable()
        &&& self.contour.is_path()
        &&& self.index <= self.contour.length() + 1
        &&& 0 < self.index <= self.contour.length() ==> self.contour.endpoint_at(self.index - 1)
    }

    /// The events that the stream has yet to give.
    pub closed spec fn remaining(self) -> Seq<PathEvent> {
        self.contour.events_from(self.index as int)
    }

    /// Gives the next event, and `None` when the contour is told.
    pub fn next(&mut self) -> (event: Option<PathEvent>)
        ensures
            match event {
                Some(e) => old(self).remaining().len() > 0 && e == old(self).remaining()[0]
                    && final(self).remaining() == old(self).remaining().drop_first(),
                None => old(self).remaining().len() == 0 && final(self).remaining().len() == 0,
            },
    {
        proof {
            use_type_invariant(&*self);
        }
        let contour = self.contour;
        let ghost before = self.remaining();
        let ghost flags = contour.flags@;
        if self.index == contour.len() + 1 {
            return None;
        }
        if self.index == contour.len() {
            self.index += 1;
            assert(before.drop_first() =~= self.remaining());
            return Some(PathEvent::Close);
        }
        let point0_index: u32 = self.index;
        let point0 = contour.position_of(point0_index);
        if point0_index == 0 || contour.point_is_endpoint(point0_index) {
            self.index += 1;
            assert(before.drop_first() =~= self.remaining());
            if point0_index == 0 {
                return Some(PathEvent::MoveTo(point0));
            }
            return Some(PathEvent::LineTo(point0));
        }
        assert(flags[point0_index as int].control_point_0) by {
            assert(flags[point0_index - 1].is_endpoint());
        }
        let point1_index: u32 = point0_index + 1;
        let point1 = contour.position_of(point1_index);
        if contour.point_is_endpoint(point1_index) {
            self.index += 2;
            assert(before.drop_first() =~= self.remaining());
            return Some(PathEvent::QuadraticTo(point0, point1));
        }
        assert(flags[point1_index as int].control_point_1);
        let point2_index: u32 = point1_index + 1;
        let point2 = contour.position_of(point2_index);
        self.index += 3;
        assert(before.drop_first() =~= self.remaining());
        Some(PathEvent::CubicTo(point0, point1, point2))
    }
}

} // verus!
