//! What the sweep keeps in its two ordered containers, and in what order.

use vstd::prelude::*;
use std::cmp::Ordering;
use vstd::std_specs::cmp::PartialOrdSpecImpl;
use crate::geometry::Point;
use crate::point_index::PointIndex;
use crate::segment::Segment;
use crate::sorted_vector::{comparison_is_specified, is_total_preorder, le};

verus! {

/// An endpoint that the sweep has yet to reach: where it is in the outline,
/// and its `y`.
#[derive(Clone, Copy, Debug, PartialEq, Eq, Structural)]
pub struct QueuedEndpoint {
    pub point_index: PointIndex,
    pub y: i32,
}

impl QueuedEndpoint {
    /// Whether the sweep reaches `self` before `other`: it has the lesser
    /// `y`, or the same `y` and the lesser place in the outline.
    pub open spec fn comes_before(self, other: QueuedEndpoint) -> bool {
        self.y < other.y || (self.y == other.y && self.point_index.0 < other.point_index.0)
    }
}

/// The place of a queued endpoint in the order of the sweep, as a number:
/// the greater the number, the later the sweep reaches the endpoint.
pub open spec fn sweep_key(entry: QueuedEndpoint) -> int {
    (entry.y - i32::MIN) * 0x1_0000_0000 + entry.point_index.0
}

/// No sweep key reaches this number.
pub open spec fn sweep_key_bound() -> int {
    0x1_0000_0000_0000_0000
}

/// The sweep reaches one endpoint before another exactly where it has the
/// lesser sweep key, and two entries with the same key are the same entry.
pub proof fn lemma_sweep_key(a: QueuedEndpoint, b: QueuedEndpoint)
    ensures
        0 <= sweep_key(a) < sweep_key_bound(),
        a.comes_before(b) <==> sweep_key(a) < sweep_key(b),
        a == b <==> sweep_key(a) == sweep_key(b),
{
}

/// Queued endpoints are ordered backwards: the one that the sweep reaches
/// first is the greatest, so that a sorted container has it at its end.
impl PartialOrd for QueuedEndpoint {
    fn partial_cmp(&self, other: &QueuedEndpoint) -> (order: Option<Ordering>) {
        if other.y < self.y {
            Some(Ordering::Less)
        } else if other.y > self.y {
            Some(Ordering::Greater)
        } else if other.point_index.0 < self.point_index.0 {
            Some(Ordering::Less)
        } else if other.point_index.0 > self.point_index.0 {
            Some(Ordering::Greater)
        } else {
            Some(Ordering::Equal)
        }
    }
}

impl PartialOrdSpecImpl for QueuedEndpoint {
    open spec fn obeys_partial_cmp_spec() -> bool {
        true
    }

    open spec fn partial_cmp_spec(&self, other: &QueuedEndpoint) -> Option<Ordering> {
        if other.comes_before(*self) {
            Some(Ordering::Less)
        } else if self.comes_before(*other) {
            Some(Ordering::Greater)
        } else {
            Some(Ordering::Equal)
        }
    }
}

/// An edge that crosses the strip that the sweep is in, or is about to:
/// what is left of its segment, and the point where it enters the strip.
#[derive(Clone, Copy, Debug, PartialEq, Eq, Structural)]
pub struct ActiveEdge {
    pub segment: Segment,
    pub crossing: Point,
}

impl ActiveEdge {
    /// The edge of a segment that the sweep has just met: it enters at the
    /// segment's upper end.
    pub fn from_segment(segment: &Segment) -> (edge: ActiveEdge)
        ensures
            edge == (ActiveEdge { segment: *segment, crossing: segment.baseline.upper() }),
    {
        let crossing = if segment.baseline.from.y < segment.baseline.to.y {
            segment.baseline.from
        } else {
            segment.baseline.to
        };
        ActiveEdge::from_segment_and_crossing(segment, &crossing)
    }

    /// The edge of `segment` that enters the strip at `crossing`.
    pub fn from_segment_and_crossing(segment: &Segment, crossing: &Point) -> (edge: ActiveEdge)
        ensures
            edge == (ActiveEdge { segment: *segment, crossing: *crossing }),
    {
        ActiveEdge { segment: *segment, crossing: *crossing }
    }
}

/// Active edges are ordered by the `x` at which they enter the strip.
impl PartialOrd for ActiveEdge {
    fn partial_cmp(&self, other: &ActiveEdge) -> (order: Option<Ordering>) {
        if self.crossing.x < other.crossing.x {
            Some(Ordering::Less)
        } else if self.crossing.x > other.crossing.x {
            Some(Ordering::Greater)
        } else {
            Some(Ordering::Equal)
        }
    }
}

impl PartialOrdSpecImpl for ActiveEdge {
    open spec fn obeys_partial_cmp_spec() -> bool {
        true
    }

    open spec fn partial_cmp_spec(&self, other: &ActiveEdge) -> Option<Ordering> {
        if self.crossing.x < other.crossing.x {
            Some(Ordering::Less)
        } else if self.crossing.x > other.crossing.x {
            Some(Ordering::Greater)
        } else {
            Some(Ordering::Equal)
        }
    }
}

/// The order of queued endpoints is total: `a <= b` holds exactly where the
/// sweep does not reach `a` before `b`.
pub proof fn lemma_queued_endpoints_are_ordered()
    ensures
        comparison_is_specified::<QueuedEndpoint>(),
        is_total_preorder::<QueuedEndpoint>(),
        forall|a: QueuedEndpoint, b: QueuedEndpoint| #[trigger] le(a, b) <==> !a.comes_before(b),
{
    assert forall|a: QueuedEndpoint, b: QueuedEndpoint| #[trigger]
        le(a, b) <==> !a.comes_before(b) by {}
    assert forall|a: QueuedEndpoint, b: QueuedEndpoint| #[trigger] le(a, b) || le(b, a) by {}
    assert forall|a: QueuedEndpoint, b: QueuedEndpoint, c: QueuedEndpoint| #[trigger]
        le(a, b) && #[trigger] le(b, c) implies le(a, c) by {}
}

/// The order of active edges is total: `a <= b` holds exactly where `a`
/// enters the strip at an `x` that is not greater than that of `b`.
pub proof fn lemma_active_edges_are_ordered()
    ensures
        comparison_is_specified::<ActiveEdge>(),
        is_total_preorder::<ActiveEdge>(),
        forall|a: ActiveEdge, b: ActiveEdge| #[trigger] le(a, b) <==> a.crossing.x <= b.crossing.x,
{
    assert forall|a: ActiveEdge, b: ActiveEdge| #[trigger]
        le(a, b) <==> a.crossing.x <= b.crossing.x by {}
    assert forall|a: ActiveEdge, b: ActiveEdge| #[trigger] le(a, b) || le(b, a) by {}
    assert forall|a: ActiveEdge, b: ActiveEdge, c: ActiveEdge| #[trigger]
        le(a, b) && #[trigger] le(b, c) implies le(a, c) by {}
}

} // verus!
