//! Outlines: the contours of one path, with their bounds.

use vstd::prelude::*;
use crate::contour::{flags_form_path, widened, Contour, PointFlags};
use crate::geometry::Point;
use crate::segment::{Segment, SegmentKind};

verus! {

/// The least and the greatest ordinates of a set of points.
#[derive(Clone, Copy, Debug, PartialEq, Eq, Structural)]
pub struct Bounds {
    pub upper_left: Point,
    pub lower_right: Point,
}

impl Bounds {
    /// The bounds of no point: both corners at the origin.
    pub open spec fn zero() -> Bounds {
        Bounds { upper_left: Point { x: 0, y: 0 }, lower_right: Point { x: 0, y: 0 } }
    }
}

/// A point of a contour with its flags.
pub type Entry = (Point, PointFlags);

/// The flags of an endpoint.
pub open spec fn endpoint_flags() -> PointFlags {
    PointFlags { control_point_0: false, control_point_1: false }
}

/// The points that a segment that draws adds to its contour behind its first
/// point: its control points, as many as its kind has, and its last point.
pub open spec fn entries_of(segment: Segment) -> Seq<Entry> {
    let end = (segment.baseline.to, endpoint_flags());
    let ctrl0 = (segment.ctrl.from, PointFlags { control_point_0: true, control_point_1: false });
    let ctrl1 = (segment.ctrl.to, PointFlags { control_point_0: false, control_point_1: true });
    if segment.kind == SegmentKind::Line {
        seq![end]
    } else if segment.kind == SegmentKind::Quadratic {
        seq![ctrl0, end]
    } else {
        seq![ctrl0, ctrl1, end]
    }
}

/// Whether a segment adds points behind its first point: it does unless it
/// closes its subpath or is no segment.
pub open spec fn draws(segment: Segment) -> bool {
    !segment.flags.closes_subpath && segment.kind != SegmentKind::Empty
}

/// Contours in the making: those that are done, and the one that the next
/// points go to.
pub struct Assembly {
    pub finished: Seq<Seq<Entry>>,
    pub current: Seq<Entry>,
}

impl Assembly {
    /// Nothing done, nothing begun.
    pub open spec fn start() -> Assembly {
        Assembly { finished: Seq::empty(), current: Seq::empty() }
    }

    /// The current contour is done, if it has a point.
    pub open spec fn closed(self) -> Assembly {
        if self.current.len() > 0 {
            Assembly { finished: self.finished.push(self.current), current: Seq::empty() }
        } else {
            self
        }
    }

    /// What `segment` makes of the assembly. A segment that is first in its
    /// subpath ends the current contour and begins one with its first point.
    /// A segment that closes its subpath ends the current contour; any other
    /// adds its points to it.
    pub open spec fn after(self, segment: Segment) -> Assembly {
        let begun = if segment.flags.first_in_subpath {
            Assembly {
                finished: self.closed().finished,
                current: seq![(segment.baseline.from, endpoint_flags())],
            }
        } else {
            self
        };
        if segment.flags.closes_subpath {
            begun.closed()
        } else if segment.kind == SegmentKind::Empty {
            begun
        } else {
            Assembly { finished: begun.finished, current: begun.current + entries_of(segment) }
        }
    }
}

/// The assembly after the segments, taken one after another.
pub open spec fn assembled(segments: Seq<Segment>) -> Assembly
    decreases segments.len(),
{
    if segments.len() == 0 {
        Assembly::start()
    } else {
        assembled(segments.drop_last()).after(segments.last())
    }
}

/// The contours that the segments make.
pub open spec fn contours_of(segments: Seq<Segment>) -> Seq<Seq<Entry>> {
    assembled(segments).closed().finished
}

/// The least and the greatest ordinates of the points, if there is a point.
pub open spec fn bounding(points: Seq<Point>) -> Option<(Point, Point)>
    decreases points.len(),
{
    if points.len() == 0 {
        None
    } else {
        Some(widened(bounding(points.drop_last()), points.last()))
    }
}

/// The points of the contours, one contour after another.
pub open spec fn all_points(contours: Seq<Contour>) -> Seq<Point>
    decreases contours.len(),
{
    if contours.len() == 0 {
        Seq::empty()
    } else {
        all_points(contours.drop_last()) + contours.last().points@
    }
}

/// The flags of the entries.
pub open spec fn flags_of(entries: Seq<Entry>) -> Seq<PointFlags> {
    Seq::new(entries.len(), |i: int| entries[i].1)
}

/// Whether every segment that adds points to a contour finds one begun:
/// it is first in its subpath itself, or the contour it adds to has a point.
pub open spec fn begins_subpaths(segments: Seq<Segment>) -> bool {
    forall|i: int|
        0 <= i < segments.len() && draws(#[trigger] segments[i])
            && !segments[i].flags.first_in_subpath ==> assembled(segments.take(i)).current.len()
            > 0
}

impl Contour {
    /// The points of the contour, each with its flags.
    pub open spec fn entries(self) -> Seq<Entry> {
        Seq::new(self.points@.len(), |i: int| (self.points@[i], self.flags@[i]))
    }
}

/// The contours of one path.
#[derive(Debug)]
pub struct Outline {
    pub contours: Vec<Contour>,
    pub bounds: Bounds,
}

impl Outline {
    /// Whether the outline holds exactly the contours `contours`.
    pub open spec fn holds(self, contours: Seq<Seq<Entry>>) -> bool {
        hold(self.contours@, contours)
    }

    /// Whether the bounds of the outline are those of its points.
    pub open spec fn is_bounded(self) -> bool {
        self.bounds == match bounding(all_points(self.contours@)) {
            Some((upper_left, lower_right)) => Bounds { upper_left, lower_right },
            None => Bounds::zero(),
        }
    }

    /// An outline without contours.
    pub fn new() -> (outline: Outline)
        ensures
            outline.contours@.len() == 0,
            outline.bounds == Bounds::zero(),
    {
        Outline {
            contours: Vec::new(),
            bounds: Bounds { upper_left: Point::origin(), lower_right: Point::origin() },
        }
    }

    /// Assembles the contours that the segments make. The bounds of the
    /// outline are the least and the greatest ordinates of all its points.
    /// Where every segment that adds points finds a contour begun, every
    /// contour has the shape of a closed path.
    pub fn from_segments(segments: &Vec<Segment>) -> (outline: Outline)
        ensures
            outline.holds(contours_of(segments@)),
            outline.is_bounded(),
            forall|k: int|
                0 <= k < outline.contours@.len() ==> (#[trigger] outline.contours@[k]).length() > 0,
            begins_subpaths(segments@) ==> forall|k: int|
                0 <= k < outline.contours@.len() ==> (#[trigger] outline.contours@[k]).is_path(),
    {
        let mut contours: Vec<Contour> = Vec::new();
        let mut current_contour = Contour::new();
        let mut bounding_points: Option<(Point, Point)> = None;
        let mut i: usize = 0;
        assert(segments@.take(0) =~= Seq::<Segment>::empty());
        assert(current_contour.entries() =~= Seq::<Entry>::empty());
        assert(all_points(contours@) + current_contour.points@ =~= Seq::<Point>::empty());
        while i < segments.len()
            invariant
                i <= segments@.len(),
                hold(contours@, assembled(segments@.take(i as int)).finished),
                current_contour.wf(),
                current_contour.entries() == assembled(segments@.take(i as int)).current,
                bounding_points == bounding(all_points(contours@) + current_contour.points@),
            decreases segments@.len() - i,
        {
            proof {
                let next = segments@.take(i + 1);
                assert(next.drop_last() =~= segments@.take(i as int));
                assert(next.last() == segments@[i as int]);
            }
            add_segment(
                &mut contours,
                &mut current_contour,
                &mut bounding_points,
                &segments[i],
                Ghost(assembled(segments@.take(i as int))),
            );
            i += 1;
        }
        assert(segments@.take(i as int) =~= segments@);
        finish_contour(&mut contours, &mut current_contour, Ghost(assembled(segments@)));
        assert(all_points(contours@) + current_contour.points@ =~= all_points(contours@));
        let bounds = match bounding_points {
            Some((upper_left, lower_right)) => Bounds { upper_left, lower_right },
            None => Bounds { upper_left: Point::origin(), lower_right: Point::origin() },
        };
        let outline = Outline { contours, bounds };
        proof {
            lemma_contours_have_points(segments@);
            assert forall|k: int| 0 <= k < outline.contours@.len() implies (
            #[trigger] outline.contours@[k]).length() > 0 by {
                assert(outline.contours@[k].entries().len() == contours_of(segments@)[k].len());
            }
            if begins_subpaths(segments@) {
                lemma_contours_are_paths(segments@);
                assert forall|k: int| 0 <= k < outline.contours@.len() implies (
                #[trigger] outline.contours@[k]).is_path() by {
                    let contour = outline.contours@[k];
                    assert(flags_of(contour.entries()) =~= contour.flags@);
                }
            }
        }
        outline
    }
}

/// Whether the contours are proper and hold exactly what `finished` tells.
pub open spec fn hold(contours: Seq<Contour>, finished: Seq<Seq<Entry>>) -> bool {
    &&& contours.len() == finished.len()
    &&& forall|k: int|
        0 <= k < finished.len() ==> (#[trigger] contours[k]).wf() && contours[k].entries()
            == finished[k]
}

/// Ends the current contour, if it has a point: it joins the contours that
/// are done, and a new one without points takes its place.
fn finish_contour(
    contours: &mut Vec<Contour>,
    current_contour: &mut Contour,
    Ghost(assembly): Ghost<Assembly>,
)
    requires
        hold(old(contours)@, assembly.finished),
        old(current_contour).wf(),
        old(current_contour).entries() == assembly.current,
    ensures
        hold(final(contours)@, assembly.closed().finished),
        final(current_contour).wf(),
        final(current_contour).points@.len() == 0,
        final(current_contour).entries() == assembly.closed().current,
        all_points(final(contours)@) == all_points(old(contours)@) + old(current_contour).points@,
{
    if !current_contour.is_empty() {
        let mut finished = Contour::new();
        std::mem::swap(&mut finished, current_contour);
        proof {
            lemma_all_points_push(contours@, finished);
        }
        contours.push(finished);
    } else {
        assert(all_points(contours@) + current_contour.points@ =~= all_points(contours@));
    }
    assert(current_contour.entries() =~= Seq::<Entry>::empty());
}

/// Appends a point to the current contour and widens the bounds by it.
fn add_point(
    current_contour: &mut Contour,
    point: Point,
    flags: PointFlags,
    bounding_points: &mut Option<(Point, Point)>,
    Ghost(stored): Ghost<Seq<Point>>,
)
    requires
        old(current_contour).wf(),
        *old(bounding_points) == bounding(stored + old(current_contour).points@),
    ensures
        final(current_contour).wf(),
        final(current_contour).points@ == old(current_contour).points@.push(point),
        final(current_contour).entries() == old(current_contour).entries().push((point, flags)),
        *final(bounding_points) == bounding(stored + final(current_contour).points@),
{
    let ghost points = current_contour.points@;
    current_contour.push_point(point, flags, bounding_points);
    proof {
        lemma_bounding_push(stored + points, point);
        assert(stored + current_contour.points@ =~= (stored + points).push(point));
        assert(current_contour.entries() =~= old(current_contour).entries().push((point, flags)));
    }
}

/// Takes one segment into the assembly.
fn add_segment(
    contours: &mut Vec<Contour>,
    current_contour: &mut Contour,
    bounding_points: &mut Option<(Point, Point)>,
    segment: &Segment,
    Ghost(assembly): Ghost<Assembly>,
)
    requires
        hold(old(contours)@, assembly.finished),
        old(current_contour).wf(),
        old(current_contour).entries() == assembly.current,
        *old(bounding_points) == bounding(
            all_points(old(contours)@) + old(current_contour).points@,
        ),
    ensures
        hold(final(contours)@, assembly.after(*segment).finished),
        final(current_contour).wf(),
        final(current_contour).entries() == assembly.after(*segment).current,
        *final(bounding_points) == bounding(
            all_points(final(contours)@) + final(current_contour).points@,
        ),
{
    let ghost mut begun = assembly;
    if segment.flags.first_in_subpath {
        finish_contour(contours, current_contour, Ghost(assembly));
        assert(all_points(contours@) + current_contour.points@ =~= all_points(contours@));
        add_point(
            current_contour,
            segment.baseline.from,
            PointFlags::empty(),
            bounding_points,
            Ghost(all_points(contours@)),
        );
        proof {
            begun = Assembly {
                finished: assembly.closed().finished,
                current: seq![(segment.baseline.from, endpoint_flags())],
            };
            assert(current_contour.entries() =~= begun.current);
        }
    }
    if segment.flags.closes_subpath {
        let ghost before = all_points(contours@) + current_contour.points@;
        finish_contour(contours, current_contour, Ghost(begun));
        assert(all_points(contours@) + current_contour.points@ =~= before);
        return ;
    }
    if segment.is_none() {
        return ;
    }
    let ghost entries = current_contour.entries();
    let ghost stored = all_points(contours@);
    if !segment.is_line() {
        add_point(
            current_contour,
            segment.ctrl.from,
            PointFlags::control_point_0(),
            bounding_points,
            Ghost(stored),
        );
        if !segment.is_quadratic() {
            add_point(
                current_contour,
                segment.ctrl.to,
                PointFlags::control_point_1(),
                bounding_points,
                Ghost(stored),
            );
        }
    }
    add_point(
        current_contour,
        segment.baseline.to,
        PointFlags::empty(),
        bounding_points,
        Ghost(stored),
    );
    assert(current_contour.entries() =~= entries + entries_of(*segment));
}

/// The largest number of contours that the sweep can address.
pub const MAX_CONTOURS: usize = 0x1000;

impl Outline {
    /// Whether the sweep can go over the outline: it can address every
    /// point, and every contour has a point and the shape of a closed path.
    pub open spec fn is_sweepable(self) -> bool {
        &&& self.contours@.len() <= MAX_CONTOURS
        &&& forall|c: int|
            0 <= c < self.contours@.len() ==> {
                let contour = #[trigger] self.contours@[c];
                &&& contour.addressable()
                &&& contour.is_path()
                &&& contour.length() > 0
            }
    }

    /// Tells whether the sweep can go over the outline.
    pub fn can_be_swept(&self) -> (ok: bool)
        ensures
            ok == self.is_sweepable(),
    {
        if self.contours.len() > MAX_CONTOURS {
            return false;
        }
        let mut c: usize = 0;
        while c < self.contours.len()
            invariant
                c <= self.contours@.len(),
                self.contours@.len() <= MAX_CONTOURS,
                forall|k: int|
                    0 <= k < c ==> {
                        let contour = #[trigger] self.contours@[k];
                        &&& contour.addressable()
                        &&& contour.is_path()
                        &&& contour.length() > 0
                    },
            decreases self.contours@.len() - c,
        {
            if !self.contours[c].can_be_swept() {
                return false;
            }
            c += 1;
        }
        true
    }
}

/// The points of the contours with one more contour are the points of the
/// contours and then those of that one.
pub proof fn lemma_all_points_push(contours: Seq<Contour>, contour: Contour)
    ensures
        all_points(contours.push(contour)) == all_points(contours) + contour.points@,
{
    assert(contours.push(contour).drop_last() =~= contours);
}

/// One more point widens the bounds by that point.
pub proof fn lemma_bounding_push(points: Seq<Point>, point: Point)
    ensures
        bounding(points.push(point)) == Some(widened(bounding(points), point)),
{
    assert(points.push(point).drop_last() =~= points);
}

/// The corner of the bounds of the points that has their least ordinates.
pub open spec fn least_corner(points: Seq<Point>) -> Point {
    match bounding(points) {
        Some((upper_left, _)) => upper_left,
        None => Point { x: 0, y: 0 },
    }
}

/// The corner of the bounds of the points that has their greatest ordinates.
pub open spec fn greatest_corner(points: Seq<Point>) -> Point {
    match bounding(points) {
        Some((_, lower_right)) => lower_right,
        None => Point { x: 0, y: 0 },
    }
}

/// The bounds hold every point, and each of their four ordinates is that of
/// some point.
pub proof fn lemma_bounding_is_least_and_greatest(points: Seq<Point>)
    requires
        points.len() > 0,
    ensures
        bounding(points) is Some,
        forall|i: int|
            0 <= i < points.len() ==> least_corner(points).x <= (#[trigger] points[i]).x
                <= greatest_corner(points).x && least_corner(points).y <= points[i].y
                <= greatest_corner(points).y,
        exists|i: int| 0 <= i < points.len() && points[i].x == least_corner(points).x,
        exists|i: int| 0 <= i < points.len() && points[i].y == least_corner(points).y,
        exists|i: int| 0 <= i < points.len() && points[i].x == greatest_corner(points).x,
        exists|i: int| 0 <= i < points.len() && points[i].y == greatest_corner(points).y,
    decreases points.len(),
{
    let front = points.drop_last();
    let last = points.len() - 1;
    let least = least_corner(points);
    let greatest = greatest_corner(points);
    if front.len() > 0 {
        lemma_bounding_is_least_and_greatest(front);
        let a = choose|i: int| 0 <= i < front.len() && front[i].x == least_corner(front).x;
        let c = choose|i: int| 0 <= i < front.len() && front[i].y == least_corner(front).y;
        let d = choose|i: int| 0 <= i < front.len() && front[i].x == greatest_corner(front).x;
        let e = choose|i: int| 0 <= i < front.len() && front[i].y == greatest_corner(front).y;
        assert(points[a] == front[a] && points[c] == front[c] && points[d] == front[d]
            && points[e] == front[e]);
        assert(points[last].x == least.x || points[a].x == least.x);
        assert(points[last].y == least.y || points[c].y == least.y);
        assert(points[last].x == greatest.x || points[d].x == greatest.x);
        assert(points[last].y == greatest.y || points[e].y == greatest.y);
        assert forall|i: int| 0 <= i < points.len() implies least.x <= (#[trigger] points[i]).x
            <= greatest.x && least.y <= points[i].y <= greatest.y by {
            if i < last {
                assert(points[i] == front[i]);
            }
        }
    } else {
        assert(bounding(front) is None);
        assert(points[last] == least);
        assert(points[last] == greatest);
    }
}

/// Every contour that the segments make has a point.
pub proof fn lemma_contours_have_points(segments: Seq<Segment>)
    ensures
        forall|k: int|
            0 <= k < assembled(segments).finished.len() ==> (#[trigger] assembled(
                segments,
            ).finished[k]).len() > 0,
        forall|k: int|
            0 <= k < contours_of(segments).len() ==> (#[trigger] contours_of(segments)[k]).len()
                > 0,
    decreases segments.len(),
{
    if segments.len() > 0 {
        lemma_contours_have_points(segments.drop_last());
        let before = assembled(segments.drop_last());
        let segment = segments.last();
        let after = assembled(segments);
        assert forall|k: int| 0 <= k < after.finished.len() implies (#[trigger] after.finished[k]).len()
            > 0 by {
            if k < before.finished.len() {
                assert(after.finished[k] == before.finished[k]);
            }
        }
    }
    let last = assembled(segments);
    assert forall|k: int| 0 <= k < contours_of(segments).len() implies (#[trigger] contours_of(
        segments,
    )[k]).len() > 0 by {
        if k < last.finished.len() {
            assert(contours_of(segments)[k] == last.finished[k]);
        }
    }
}

/// What holds of an assembly at every step where each segment that adds
/// points finds a contour begun: every contour that is done has a point and
/// the shape of a closed path, and so has the current one if it has a point.
pub open spec fn assembly_is_sound(assembly: Assembly) -> bool {
    &&& forall|k: int|
        0 <= k < assembly.finished.len() ==> flags_form_path(
            flags_of(#[trigger] assembly.finished[k]),
        )
    &&& flags_form_path(flags_of(assembly.current))
}

proof fn lemma_closed_is_sound(assembly: Assembly)
    requires
        assembly_is_sound(assembly),
    ensures
        assembly_is_sound(assembly.closed()),
{
    let closed = assembly.closed();
    assert(flags_of(closed.current) =~= flags_of(Seq::<Entry>::empty()) || closed == assembly);
    assert forall|k: int| 0 <= k < closed.finished.len() implies flags_form_path(
        flags_of(#[trigger] closed.finished[k]),
    ) by {
        if k < assembly.finished.len() {
            assert(closed.finished[k] == assembly.finished[k]);
        }
    }
}

proof fn lemma_after_is_sound(assembly: Assembly, segment: Segment)
    requires
        assembly_is_sound(assembly),
        draws(segment) && !segment.flags.first_in_subpath ==> assembly.current.len() > 0,
    ensures
        assembly_is_sound(assembly.after(segment)),
{
    lemma_closed_is_sound(assembly);
    let begun = if segment.flags.first_in_subpath {
        Assembly {
            finished: assembly.closed().finished,
            current: seq![(segment.baseline.from, endpoint_flags())],
        }
    } else {
        assembly
    };
    assert(assembly_is_sound(begun)) by {
        if segment.flags.first_in_subpath {
            assert(flags_of(begun.current) =~= seq![endpoint_flags()]);
        }
    }
    lemma_closed_is_sound(begun);
    if draws(segment) {
        let old_flags = flags_of(begun.current);
        let added = entries_of(segment);
        let new_flags = flags_of(begun.current + added);
        let n = old_flags.len() as int;
        assert(n > 0);
        assert(old_flags.last().is_endpoint());
        assert forall|i: int| 0 <= i < n implies new_flags[i] == old_flags[i] by {}
        assert forall|i: int| 0 <= i < added.len() implies new_flags[n + i] == added[i].1 by {}
        assert(new_flags.len() == n + added.len());
        assert(flags_form_path(new_flags)) by {
            assert(new_flags[0] == old_flags[0]);
            assert(new_flags.last() == added.last().1);
            assert forall|i: int| 0 <= i < new_flags.len() implies !((
            #[trigger] new_flags[i]).control_point_0 && new_flags[i].control_point_1) by {
                if i < n {
                    assert(new_flags[i] == old_flags[i]);
                } else {
                    assert(new_flags[i] == added[i - n].1);
                }
            }
            assert forall|i: int|
                0 <= i < new_flags.len() && (#[trigger] new_flags[i]).control_point_0 implies i
                + 1 < new_flags.len() && (new_flags[i + 1].is_endpoint() || new_flags[i
                + 1].control_point_1) by {
                if i < n {
                    assert(new_flags[i] == old_flags[i]);
                    assert(i + 1 < n);
                    assert(new_flags[i + 1] == old_flags[i + 1]);
                } else {
                    assert(new_flags[i] == added[i - n].1);
                    assert(new_flags[i + 1] == added[i + 1 - n].1);
                }
            }
            assert forall|i: int|
                0 <= i < new_flags.len() && (#[trigger] new_flags[i]).control_point_1 implies i
                > 0 && new_flags[i - 1].control_point_0 && i + 1 < new_flags.len() && new_flags[i
                + 1].is_endpoint() by {
                if i < n {
                    assert(new_flags[i] == old_flags[i]);
                    assert(i + 1 < n);
                    assert(new_flags[i + 1] == old_flags[i + 1]);
                    assert(new_flags[i - 1] == old_flags[i - 1]);
                } else {
                    assert(new_flags[i] == added[i - n].1);
                    assert(i - n == 1);
                    assert(new_flags[i - 1] == added[i - 1 - n].1);
                    assert(new_flags[i + 1] == added[i + 1 - n].1);
                }
            }
        }
    }
}

/// Where every segment that adds points finds a contour begun, every contour
/// that the segments make has the shape of a closed path: it begins with an
/// endpoint, and between two endpoints that follow one another there are no,
/// one or two control points.
pub proof fn lemma_contours_are_paths(segments: Seq<Segment>)
    requires
        begins_subpaths(segments),
    ensures
        assembly_is_sound(assembled(segments)),
        forall|k: int|
            0 <= k < contours_of(segments).len() ==> flags_form_path(
                flags_of(#[trigger] contours_of(segments)[k]),
            ),
    decreases segments.len(),
{
    if segments.len() == 0 {
        assert(flags_of(assembled(segments).current) =~= Seq::<PointFlags>::empty());
    } else {
        let front = segments.drop_last();
        assert forall|i: int|
            0 <= i < front.len() && draws(#[trigger] front[i])
                && !front[i].flags.first_in_subpath implies assembled(front.take(i)).current.len()
            > 0 by {
            assert(front[i] == segments[i]);
            assert(front.take(i) =~= segments.take(i));
        }
        lemma_contours_are_paths(front);
        assert(segments.take(segments.len() - 1) =~= front);
        assert(segments[segments.len() - 1] == segments.last());
        lemma_after_is_sound(assembled(front), segments.last());
    }
    lemma_closed_is_sound(assembled(segments));
}

} // verus!
