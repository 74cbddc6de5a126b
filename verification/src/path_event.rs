//! Path events, and the two streams that turn events into segments and
//! segments into events.

use vstd::prelude::*;
use crate::geometry::{LineSegment, Point};
use crate::segment::{Segment, SegmentFlags, SegmentKind};

verus! {

/// One step of a path as its source tells it. A path has no other steps:
/// an arc has to be turned into curves before it gets here.
#[derive(Clone, Copy, Debug, PartialEq, Eq, Structural)]
pub enum PathEvent {
    MoveTo(Point),
    LineTo(Point),
    QuadraticTo(Point, Point),
    CubicTo(Point, Point, Point),
    Close,
}

/// What a stream of events has to remember of the subpath it is in: where the
/// subpath began, where the pen is, and whether the pen was just moved there.
#[derive(Clone, Copy, Debug, PartialEq, Eq, Structural)]
pub struct Subpath {
    pub first: Point,
    pub last: Point,
    pub just_moved: bool,
}

impl Subpath {
    /// The state before any event: the pen at the origin, not just moved.
    pub open spec fn start() -> Subpath {
        Subpath { first: Point { x: 0, y: 0 }, last: Point { x: 0, y: 0 }, just_moved: false }
    }

    /// The flags of a segment that is drawn in this state.
    pub open spec fn drawn_flags(self) -> SegmentFlags {
        SegmentFlags { first_in_subpath: self.just_moved, closes_subpath: false }
    }

    /// The state after `event`.
    pub open spec fn after(self, event: PathEvent) -> Subpath {
        match event {
            PathEvent::MoveTo(to) => Subpath { first: to, last: to, just_moved: true },
            PathEvent::LineTo(to) => Subpath { first: self.first, last: to, just_moved: false },
            PathEvent::QuadraticTo(_, to) => Subpath {
                first: self.first,
                last: to,
                just_moved: false,
            },
            PathEvent::CubicTo(_, _, to) => Subpath {
                first: self.first,
                last: to,
                just_moved: false,
            },
            PathEvent::Close => Subpath {
                first: self.first,
                last: self.first,
                just_moved: false,
            },
        }
    }

    /// The segment that `event` gives in this state. A move gives none. A
    /// drawing event gives the segment from the pen to its last point, first
    /// in its subpath if the pen was just moved. A close gives the line from
    /// the pen back to where the subpath began, marked as closing.
    pub open spec fn segment_of(self, event: PathEvent) -> Option<Segment> {
        let origin = Point { x: 0, y: 0 };
        let no_ctrl = LineSegment { from: origin, to: origin };
        match event {
            PathEvent::MoveTo(_) => None,
            PathEvent::LineTo(to) => Some(
                Segment {
                    baseline: LineSegment { from: self.last, to },
                    ctrl: no_ctrl,
                    kind: SegmentKind::Line,
                    flags: self.drawn_flags(),
                },
            ),
            PathEvent::QuadraticTo(ctrl, to) => Some(
                Segment {
                    baseline: LineSegment { from: self.last, to },
                    ctrl: LineSegment { from: ctrl, to: origin },
                    kind: SegmentKind::Quadratic,
                    flags: self.drawn_flags(),
                },
            ),
            PathEvent::CubicTo(ctrl0, ctrl1, to) => Some(
                Segment {
                    baseline: LineSegment { from: self.last, to },
                    ctrl: LineSegment { from: ctrl0, to: ctrl1 },
                    kind: SegmentKind::Cubic,
                    flags: self.drawn_flags(),
                },
            ),
            PathEvent::Close => Some(
                Segment {
                    baseline: LineSegment { from: self.last, to: self.first },
                    ctrl: no_ctrl,
                    kind: SegmentKind::Line,
                    flags: SegmentFlags { first_in_subpath: false, closes_subpath: true },
                },
            ),
        }
    }
}

/// The segments that the events give, one after another, when the first
/// event is met in the state `state`.
pub open spec fn segments_of(events: Seq<PathEvent>, state: Subpath) -> Seq<Segment>
    decreases events.len(),
{
    if events.len() == 0 {
        Seq::empty()
    } else {
        let rest = segments_of(events.drop_first(), state.after(events[0]));
        match state.segment_of(events[0]) {
            Some(segment) => seq![segment] + rest,
            None => rest,
        }
    }
}

/// A stream that reads path events and gives the segments they draw.
pub struct PathEventsToSegments {
    events: Vec<PathEvent>,
    position: usize,
    first_subpath_point: Point,
    last_subpath_point: Point,
    just_moved: bool,
}

impl PathEventsToSegments {
    #[verifier::type_invariant]
    spec fn inv(self) -> bool {
        self.position <= self.events@.len()
    }

    spec fn state(self) -> Subpath {
        Subpath {
            first: self.first_subpath_point,
            last: self.last_subpath_point,
            just_moved: self.just_moved,
        }
    }

    /// The segments that the stream has yet to give.
    pub closed spec fn remaining(self) -> Seq<Segment> {
        segments_of(self.events@.skip(self.position as int), self.state())
    }

    /// A stream over `events`.
    pub fn new(events: Vec<PathEvent>) -> (stream: PathEventsToSegments)
        ensures
            stream.remaining() == segments_of(events@, Subpath::start()),
    {
        assert(events@.skip(0) =~= events@);
        PathEventsToSegments {
            events,
            position: 0,
            first_subpath_point: Point::origin(),
            last_subpath_point: Point::origin(),
            just_moved: false,
        }
    }

    /// Gives the next segment, and `None` when the events are used up.
    pub fn next(&mut self) -> (segment: Option<Segment>)
        ensures
            match segment {
                Some(s) => old(self).remaining().len() > 0 && s == old(self).remaining()[0]
                    && final(self).remaining() == old(self).remaining().drop_first(),
                None => old(self).remaining().len() == 0 && final(self).remaining().len() == 0,
            },
    {
        loop
            invariant
                self.remaining() == old(self).remaining(),
            decreases self.events@.len() - self.position,
        {
            proof {
                use_type_invariant(&*self);
            }
            if self.position >= self.events.len() {
                return None;
            }
            let event = self.events[self.position];
            proof {
                let pending = self.events@.skip(self.position as int);
                assert(pending[0] == event);
                assert(pending.drop_first() =~= self.events@.skip(self.position + 1));
            }
            let ghost before = self.remaining();
            let ghost state = self.state();
            self.position += 1;
            match event {
                PathEvent::MoveTo(to) => {
                    self.first_subpath_point = to;
                    self.last_subpath_point = to;
                    self.just_moved = true;
                },
                PathEvent::LineTo(to) => {
                    let mut segment = Segment::line(&LineSegment::new(&self.last_subpath_point, &to));
                    if self.just_moved {
                        segment.flags.first_in_subpath = true;
                    }
                    self.last_subpath_point = to;
                    self.just_moved = false;
                    assert(Some(segment) == state.segment_of(event));
                    assert(before =~= seq![segment] + self.remaining());
                    assert(before.drop_first() =~= self.remaining());
                    return Some(segment);
                },
                PathEvent::QuadraticTo(ctrl, to) => {
                    let mut segment = Segment::quadratic(
                        &LineSegment::new(&self.last_subpath_point, &to),
                        &ctrl,
                    );
                    if self.just_moved {
                        segment.flags.first_in_subpath = true;
                    }
                    self.last_subpath_point = to;
                    self.just_moved = false;
                    assert(Some(segment) == state.segment_of(event));
                    assert(before =~= seq![segment] + self.remaining());
                    assert(before.drop_first() =~= self.remaining());
                    return Some(segment);
                },
                PathEvent::CubicTo(ctrl0, ctrl1, to) => {
                    let mut segment = Segment::cubic(
                        &LineSegment::new(&self.last_subpath_point, &to),
                        &LineSegment::new(&ctrl0, &ctrl1),
                    );
                    if self.just_moved {
                        segment.flags.first_in_subpath = true;
                    }
                    self.last_subpath_point = to;
                    self.just_moved = false;
                    assert(Some(segment) == state.segment_of(event));
                    assert(before =~= seq![segment] + self.remaining());
                    assert(before.drop_first() =~= self.remaining());
                    return Some(segment);
                },
                PathEvent::Close => {
                    let mut segment = Segment::line(
                        &LineSegment::new(&self.last_subpath_point, &self.first_subpath_point),
                    );
                    segment.flags.closes_subpath = true;
                    self.just_moved = false;
                    self.last_subpath_point = self.first_subpath_point;
                    assert(Some(segment) == state.segment_of(event));
                    assert(before =~= seq![segment] + self.remaining());
                    assert(before.drop_first() =~= self.remaining());
                    return Some(segment);
                },
            }
        }
    }
}

/// The events that tell `segment`: a close for a segment that closes its
/// subpath; nothing for the segment that is none; else the drawing event of
/// its kind, behind a move to its first point if it is first in its subpath.
pub open spec fn events_of(segment: Segment) -> Seq<PathEvent> {
    if segment.flags.closes_subpath {
        seq![PathEvent::Close]
    } else if segment.kind == SegmentKind::Empty {
        Seq::empty()
    } else {
        let event = match segment.kind {
            SegmentKind::Quadratic => PathEvent::QuadraticTo(
                segment.ctrl.from,
                segment.baseline.to,
            ),
            SegmentKind::Cubic => PathEvent::CubicTo(
                segment.ctrl.from,
                segment.ctrl.to,
                segment.baseline.to,
            ),
            _ => PathEvent::LineTo(segment.baseline.to),
        };
        if segment.flags.first_in_subpath {
            seq![PathEvent::MoveTo(segment.baseline.from), event]
        } else {
            seq![event]
        }
    }
}

/// The events that tell the segments, one after another.
pub open spec fn events_of_all(segments: Seq<Segment>) -> Seq<PathEvent>
    decreases segments.len(),
{
    if segments.len() == 0 {
        Seq::empty()
    } else {
        events_of(segments[0]) + events_of_all(segments.drop_first())
    }
}

/// A stream that reads segments and gives the path events that tell them.
pub struct SegmentsToPathEvents {
    segments: Vec<Segment>,
    position: usize,
    buffer: Option<PathEvent>,
}

impl SegmentsToPathEvents {
    #[verifier::type_invariant]
    spec fn inv(self) -> bool {
        self.position <= self.segments@.len()
    }

    /// The events that the stream has yet to give.
    pub closed spec fn remaining(self) -> Seq<PathEvent> {
        let pending = events_of_all(self.segments@.skip(self.position as int));
        match self.buffer {
            Some(event) => seq![event] + pending,
            None => pending,
        }
    }

    /// A stream over `segments`.
    pub fn new(segments: Vec<Segment>) -> (stream: SegmentsToPathEvents)
        ensures
            stream.remaining() == events_of_all(segments@),
    {
        assert(segments@.skip(0) =~= segments@);
        SegmentsToPathEvents { segments, position: 0, buffer: None }
    }

    /// Gives the next event, and `None` when the segments are used up.
    pub fn next(&mut self) -> (event: Option<PathEvent>)
        ensures
            match event {
                Some(e) => old(self).remaining().len() > 0 && e == old(self).remaining()[0]
                    && final(self).remaining() == old(self).remaining().drop_first(),
                None => old(self).remaining().len() == 0 && final(self).remaining().len() == 0,
            },
    {
        proof {
            use_type_invariant(&*self);
        }
        if let Some(event) = self.buffer {
            self.buffer = None;
            assert(old(self).remaining().drop_first() =~= self.remaining());
            return Some(event);
        }
        loop
            invariant
                self.buffer.is_none(),
                self.remaining() == old(self).remaining(),
            decreases self.segments@.len() - self.position,
        {
            proof {
                use_type_invariant(&*self);
            }
            if self.position >= self.segments.len() {
                return None;
            }
            let segment = self.segments[self.position];
            proof {
                let pending = self.segments@.skip(self.position as int);
                assert(pending[0] == segment);
                assert(pending.drop_first() =~= self.segments@.skip(self.position + 1));
            }
            let ghost before = self.remaining();
            self.position += 1;
            let ghost rest = events_of_all(self.segments@.skip(self.position as int));
            assert(before == events_of(segment) + rest);
            if segment.flags.closes_subpath {
                assert(before.drop_first() =~= self.remaining());
                return Some(PathEvent::Close);
            }
            let event = match segment.kind {
                SegmentKind::Empty => {
                    assert(before =~= self.remaining());
                    continue ;
                },
                SegmentKind::Line => PathEvent::LineTo(segment.baseline.to),
                SegmentKind::Quadratic => PathEvent::QuadraticTo(
                    segment.ctrl.from,
                    segment.baseline.to,
                ),
                SegmentKind::Cubic => PathEvent::CubicTo(
                    segment.ctrl.from,
                    segment.ctrl.to,
                    segment.baseline.to,
                ),
            };
            if segment.flags.first_in_subpath {
                self.buffer = Some(event);
                assert(before.drop_first() =~= self.remaining());
                return Some(PathEvent::MoveTo(segment.baseline.from));
            } else {
                assert(before.drop_first() =~= self.remaining());
                return Some(event);
            }
        }
    }
}

} // verus!
