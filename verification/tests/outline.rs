use tile_svg::contour::{Contour, PointFlags};
use tile_svg::geometry::{LineSegment, Point};
use tile_svg::outline::{Bounds, Outline};
use tile_svg::path_event::{PathEvent, PathEventsToSegments, SegmentsToPathEvents};
use tile_svg::segment::{Segment, SegmentFlags, SegmentKind};

fn p(x: i32, y: i32) -> Point {
    Point::new(x, y)
}

fn no_flags() -> SegmentFlags {
    SegmentFlags { first_in_subpath: false, closes_subpath: false }
}

fn first() -> SegmentFlags {
    SegmentFlags { first_in_subpath: true, closes_subpath: false }
}

fn closes() -> SegmentFlags {
    SegmentFlags { first_in_subpath: false, closes_subpath: true }
}

fn line(from: Point, to: Point, flags: SegmentFlags) -> Segment {
    Segment {
        baseline: LineSegment { from, to },
        ctrl: LineSegment { from: p(0, 0), to: p(0, 0) },
        kind: SegmentKind::Line,
        flags,
    }
}

fn segments_of(events: Vec<PathEvent>) -> Vec<Segment> {
    let mut stream = PathEventsToSegments::new(events);
    let mut segments = vec![];
    while let Some(segment) = stream.next() {
        segments.push(segment);
    }
    assert_eq!(stream.next(), None);
    segments
}

fn events_of(segments: Vec<Segment>) -> Vec<PathEvent> {
    let mut stream = SegmentsToPathEvents::new(segments);
    let mut events = vec![];
    while let Some(event) = stream.next() {
        events.push(event);
    }
    assert_eq!(stream.next(), None);
    events
}

fn rectangle() -> Vec<PathEvent> {
    vec![
        PathEvent::MoveTo(p(0, 0)),
        PathEvent::LineTo(p(100, 0)),
        PathEvent::LineTo(p(100, 100)),
        PathEvent::LineTo(p(0, 100)),
        PathEvent::Close,
    ]
}

fn endpoint() -> PointFlags {
    PointFlags { control_point_0: false, control_point_1: false }
}

fn ctrl0() -> PointFlags {
    PointFlags { control_point_0: true, control_point_1: false }
}

fn ctrl1() -> PointFlags {
    PointFlags { control_point_0: false, control_point_1: true }
}

#[test]
fn point_flags_have_their_constructors() {
    assert_eq!(PointFlags::empty(), endpoint());
    assert_eq!(PointFlags::control_point_0(), ctrl0());
    assert_eq!(PointFlags::control_point_1(), ctrl1());
    assert_eq!(SegmentFlags::empty(), no_flags());
}

#[test]
fn points_take_least_and_greatest_ordinates() {
    assert_eq!(p(1, 9).min(p(4, 2)), p(1, 2));
    assert_eq!(p(1, 9).max(p(4, 2)), p(4, 9));
    assert_eq!(Point::origin(), p(0, 0));
}

#[test]
fn line_segments_know_their_upper_end_and_winding() {
    let down = LineSegment::new(&p(3, 1), &p(7, 5));
    let up = down.reversed();
    let level = LineSegment::new(&p(3, 4), &p(7, 4));
    assert_eq!(up, LineSegment { from: p(7, 5), to: p(3, 1) });
    assert_eq!((down.min_y(), down.max_y()), (1, 5));
    assert_eq!((up.min_y(), up.max_y()), (1, 5));
    assert_eq!(down.upper_point(), p(3, 1));
    assert_eq!(up.upper_point(), p(3, 1));
    assert_eq!(level.upper_point(), p(7, 4));
    assert_eq!((down.y_winding(), up.y_winding(), level.y_winding()), (1, -1, -1));
    assert_eq!(down.orient(1), down);
    assert_eq!(down.orient(0), down);
    assert_eq!(down.orient(-1), up);
    assert_eq!(down.orient(-1).orient(-1), down);
    assert_eq!(LineSegment::zero(), LineSegment { from: p(0, 0), to: p(0, 0) });
}

#[test]
fn segments_are_made_by_kind() {
    let baseline = LineSegment::new(&p(1, 2), &p(3, 4));
    let ctrl = LineSegment::new(&p(5, 6), &p(7, 8));
    let none = Segment::none();
    assert!(none.is_none() && !none.is_line() && !none.is_quadratic() && !none.is_cubic());
    assert_eq!(none.flags, no_flags());
    let line = Segment::line(&baseline);
    assert!(line.is_line() && !line.is_none());
    assert_eq!(line.as_line_segment(), baseline);
    let quadratic = Segment::quadratic(&baseline, &p(5, 6));
    assert!(quadratic.is_quadratic() && !quadratic.is_cubic());
    assert_eq!(quadratic.kind, SegmentKind::Quadratic);
    assert_eq!(quadratic.ctrl.from, p(5, 6));
    let cubic = Segment::cubic(&baseline, &ctrl);
    assert!(cubic.is_cubic());
    assert_eq!((cubic.baseline, cubic.ctrl), (baseline, ctrl));
}

#[test]
fn reversing_a_segment_exchanges_its_control_points_unless_quadratic() {
    let baseline = LineSegment::new(&p(1, 2), &p(3, 4));
    let ctrl = LineSegment::new(&p(5, 6), &p(7, 8));
    let cubic = Segment::cubic(&baseline, &ctrl);
    let reversed = cubic.reversed();
    assert_eq!(reversed.baseline, LineSegment { from: p(3, 4), to: p(1, 2) });
    assert_eq!(reversed.ctrl, LineSegment { from: p(7, 8), to: p(5, 6) });
    assert_eq!(reversed.reversed(), cubic);
    let quadratic = Segment::quadratic(&baseline, &p(5, 6));
    assert_eq!(quadratic.reversed().ctrl, quadratic.ctrl);
    assert_eq!(quadratic.reversed().baseline, baseline.reversed());
    assert_eq!(cubic.orient(3), cubic);
    assert_eq!(cubic.orient(-3), reversed);
}

#[test]
fn events_give_segments_with_their_place_in_the_subpath() {
    let segments = segments_of(rectangle());
    assert_eq!(
        segments,
        vec![
            line(p(0, 0), p(100, 0), first()),
            line(p(100, 0), p(100, 100), no_flags()),
            line(p(100, 100), p(0, 100), no_flags()),
            line(p(0, 100), p(0, 0), closes()),
        ]
    );
}

#[test]
fn curves_carry_their_control_points() {
    let segments = segments_of(vec![
        PathEvent::MoveTo(p(0, 50)),
        PathEvent::CubicTo(p(100, 0), p(0, 100), p(100, 50)),
        PathEvent::QuadraticTo(p(120, 70), p(100, 90)),
        PathEvent::MoveTo(p(1, 1)),
        PathEvent::MoveTo(p(2, 2)),
        PathEvent::QuadraticTo(p(3, 3), p(4, 4)),
    ]);
    assert_eq!(segments.len(), 3);
    assert_eq!(segments[0].kind, SegmentKind::Cubic);
    assert_eq!(segments[0].baseline, LineSegment { from: p(0, 50), to: p(100, 50) });
    assert_eq!(segments[0].ctrl, LineSegment { from: p(100, 0), to: p(0, 100) });
    assert_eq!(segments[0].flags, first());
    assert_eq!(segments[1].kind, SegmentKind::Quadratic);
    assert_eq!(segments[1].baseline, LineSegment { from: p(100, 50), to: p(100, 90) });
    assert_eq!(segments[1].ctrl.from, p(120, 70));
    assert_eq!(segments[1].flags, no_flags());
    assert_eq!(segments[2].baseline, LineSegment { from: p(2, 2), to: p(4, 4) });
    assert_eq!(segments[2].flags, first());
}

#[test]
fn close_joins_the_pen_to_the_start_of_the_subpath() {
    let segments = segments_of(vec![
        PathEvent::MoveTo(p(5, 5)),
        PathEvent::Close,
        PathEvent::LineTo(p(9, 9)),
        PathEvent::Close,
    ]);
    assert_eq!(
        segments,
        vec![
            line(p(5, 5), p(5, 5), closes()),
            line(p(5, 5), p(9, 9), no_flags()),
            line(p(9, 9), p(5, 5), closes()),
        ]
    );
    assert!(segments_of(vec![]).is_empty());
    assert!(segments_of(vec![PathEvent::MoveTo(p(1, 1))]).is_empty());
}

#[test]
fn segments_give_back_the_events_that_told_them() {
    let events = vec![
        PathEvent::MoveTo(p(0, 50)),
        PathEvent::CubicTo(p(100, 0), p(0, 100), p(100, 50)),
        PathEvent::QuadraticTo(p(120, 70), p(100, 90)),
        PathEvent::LineTo(p(0, 90)),
        PathEvent::Close,
        PathEvent::MoveTo(p(7, 7)),
        PathEvent::LineTo(p(8, 8)),
    ];
    assert_eq!(events_of(segments_of(events.clone())), events);
    assert_eq!(events_of(segments_of(rectangle())), rectangle());
}

#[test]
fn segments_that_are_none_tell_no_event() {
    let mut skipped = Segment::none();
    skipped.flags.first_in_subpath = true;
    let events =
        events_of(vec![Segment::none(), skipped, line(p(1, 1), p(2, 2), no_flags())]);
    assert_eq!(events, vec![PathEvent::LineTo(p(2, 2))]);
}

#[test]
fn outline_of_a_rectangle_has_one_contour_of_four_endpoints() {
    let outline = Outline::from_segments(&segments_of(rectangle()));
    assert_eq!(outline.contours.len(), 1);
    let contour = &outline.contours[0];
    assert_eq!(contour.points, vec![p(0, 0), p(100, 0), p(100, 100), p(0, 100)]);
    assert_eq!(contour.flags, vec![endpoint(); 4]);
    assert_eq!(outline.bounds, Bounds { upper_left: p(0, 0), lower_right: p(100, 100) });
}

#[test]
fn outline_interleaves_endpoints_and_control_points() {
    let outline = Outline::from_segments(&segments_of(vec![
        PathEvent::MoveTo(p(0, 50)),
        PathEvent::CubicTo(p(100, -3), p(-8, 100), p(100, 50)),
        PathEvent::QuadraticTo(p(120, 70), p(100, 90)),
        PathEvent::LineTo(p(0, 90)),
        PathEvent::Close,
        PathEvent::MoveTo(p(7, 7)),
        PathEvent::LineTo(p(8, 8)),
        PathEvent::MoveTo(p(9, 9)),
        PathEvent::LineTo(p(10, 200)),
    ]));
    assert_eq!(outline.contours.len(), 3);
    assert_eq!(
        outline.contours[0].points,
        vec![p(0, 50), p(100, -3), p(-8, 100), p(100, 50), p(120, 70), p(100, 90), p(0, 90)]
    );
    assert_eq!(
        outline.contours[0].flags,
        vec![endpoint(), ctrl0(), ctrl1(), endpoint(), ctrl0(), endpoint(), endpoint()]
    );
    assert_eq!(outline.contours[1].points, vec![p(7, 7), p(8, 8)]);
    assert_eq!(outline.contours[2].points, vec![p(9, 9), p(10, 200)]);
    assert_eq!(outline.bounds, Bounds { upper_left: p(-8, -3), lower_right: p(120, 200) });
}

#[test]
fn every_contour_begins_with_an_endpoint_and_has_at_most_two_control_points_in_a_row() {
    let outline = Outline::from_segments(&segments_of(vec![
        PathEvent::MoveTo(p(0, 0)),
        PathEvent::QuadraticTo(p(1, 1), p(2, 0)),
        PathEvent::CubicTo(p(3, 1), p(4, 1), p(5, 0)),
        PathEvent::CubicTo(p(6, 1), p(7, 1), p(8, 0)),
        PathEvent::Close,
        PathEvent::MoveTo(p(0, 0)),
        PathEvent::LineTo(p(2, 0)),
        PathEvent::QuadraticTo(p(1, 1), p(2, 5)),
    ]));
    assert_eq!(outline.contours.len(), 2);
    for contour in &outline.contours {
        assert_eq!(contour.points.len(), contour.flags.len());
        assert_eq!(contour.flags[0], endpoint());
        assert_eq!(*contour.flags.last().unwrap(), endpoint());
        let mut run = 0;
        for flags in &contour.flags {
            if *flags == endpoint() {
                run = 0;
            } else {
                run += 1;
                assert!(run <= 2);
            }
        }
    }
}

#[test]
fn outline_of_nothing_is_empty() {
    let outline = Outline::from_segments(&vec![]);
    assert!(outline.contours.is_empty());
    assert_eq!(outline.bounds, Bounds { upper_left: p(0, 0), lower_right: p(0, 0) });
    let new = Outline::new();
    assert!(new.contours.is_empty());
    assert_eq!(new.bounds, outline.bounds);
}

#[test]
fn a_curve_without_a_move_begins_its_contour_with_a_control_point() {
    // After a close no contour is begun, so the curve that follows adds its
    // points to an empty one.
    let outline = Outline::from_segments(&segments_of(vec![
        PathEvent::MoveTo(p(0, 0)),
        PathEvent::LineTo(p(1, 0)),
        PathEvent::Close,
        PathEvent::QuadraticTo(p(5, 5), p(9, 0)),
    ]));
    assert_eq!(outline.contours.len(), 2);
    assert_eq!(outline.contours[1].flags, vec![ctrl0(), endpoint()]);
}

#[test]
fn contour_walks_its_ring() {
    let mut contour = Contour::new();
    assert!(contour.is_empty());
    let mut bounds = None;
    contour.push_point(p(0, 50), endpoint(), &mut bounds);
    assert_eq!(bounds, Some((p(0, 50), p(0, 50))));
    contour.push_point(p(100, 0), ctrl0(), &mut bounds);
    contour.push_point(p(0, 100), ctrl1(), &mut bounds);
    contour.push_point(p(100, 50), endpoint(), &mut bounds);
    contour.push_point(p(120, 70), ctrl0(), &mut bounds);
    contour.push_point(p(100, 90), endpoint(), &mut bounds);
    contour.push_point(p(0, 90), endpoint(), &mut bounds);
    assert_eq!(bounds, Some((p(0, 0), p(120, 100))));
    assert!(!contour.is_empty());
    assert_eq!(contour.len(), 7);
    assert_eq!(contour.position_of(4), p(120, 70));

    let endpoints: Vec<bool> = (0..7).map(|index| contour.point_is_endpoint(index)).collect();
    assert_eq!(endpoints, vec![true, false, false, true, false, true, true]);

    assert_eq!(contour.next_point_index_of(0), 1);
    assert_eq!(contour.next_point_index_of(6), 0);
    assert_eq!(contour.prev_point_index_of(0), 6);
    assert_eq!(contour.prev_point_index_of(4), 3);
    assert_eq!(contour.add_to_point_index(5, 1), 6);
    assert_eq!(contour.add_to_point_index(5, 2), 0);
    assert_eq!(contour.add_to_point_index(6, 3), 2);

    let next: Vec<u32> = (0..7).map(|index| contour.next_endpoint_index_of(index)).collect();
    assert_eq!(next, vec![3, 3, 3, 5, 5, 6, 0]);
    let prev: Vec<u32> = (0..7).map(|index| contour.prev_endpoint_index_of(index)).collect();
    assert_eq!(prev, vec![6, 0, 0, 0, 3, 3, 5]);
}

#[test]
fn contour_gives_the_segment_behind_an_endpoint() {
    let outline = Outline::from_segments(&segments_of(vec![
        PathEvent::MoveTo(p(0, 50)),
        PathEvent::CubicTo(p(100, 0), p(0, 100), p(100, 50)),
        PathEvent::QuadraticTo(p(120, 70), p(100, 90)),
        PathEvent::LineTo(p(0, 90)),
        PathEvent::Close,
    ]));
    let contour = &outline.contours[0];
    let cubic = contour.segment_after(0);
    assert_eq!(cubic.kind, SegmentKind::Cubic);
    assert_eq!(cubic.baseline, LineSegment { from: p(0, 50), to: p(100, 50) });
    assert_eq!(cubic.ctrl, LineSegment { from: p(100, 0), to: p(0, 100) });
    let quadratic = contour.segment_after(3);
    assert_eq!(quadratic.kind, SegmentKind::Quadratic);
    assert_eq!(quadratic.baseline, LineSegment { from: p(100, 50), to: p(100, 90) });
    assert_eq!(quadratic.ctrl.from, p(120, 70));
    let line = contour.segment_after(5);
    assert_eq!(line.kind, SegmentKind::Line);
    assert_eq!(line.baseline, LineSegment { from: p(100, 90), to: p(0, 90) });
    // The last endpoint is joined to the first.
    let closing = contour.segment_after(6);
    assert_eq!(closing.kind, SegmentKind::Line);
    assert_eq!(closing.baseline, LineSegment { from: p(0, 90), to: p(0, 50) });
    assert_eq!(closing.flags, no_flags());
}

#[test]
fn points_are_ordered_by_y_and_then_by_index() {
    let outline = Outline::from_segments(&segments_of(vec![
        PathEvent::MoveTo(p(0, 5)),
        PathEvent::LineTo(p(9, 5)),
        PathEvent::LineTo(p(4, 1)),
    ]));
    let contour = &outline.contours[0];
    assert!(contour.point_is_logically_above(2, 0));
    assert!(!contour.point_is_logically_above(0, 2));
    assert!(contour.point_is_logically_above(0, 1));
    assert!(!contour.point_is_logically_above(1, 0));
    assert!(!contour.point_is_logically_above(1, 1));
}

#[test]
fn contour_tells_its_path_events() {
    let events = vec![
        PathEvent::MoveTo(p(0, 50)),
        PathEvent::CubicTo(p(100, 0), p(0, 100), p(100, 50)),
        PathEvent::QuadraticTo(p(120, 70), p(100, 90)),
        PathEvent::LineTo(p(0, 90)),
        PathEvent::Close,
    ];
    let outline = Outline::from_segments(&segments_of(events.clone()));
    let mut stream = outline.contours[0].iter();
    let mut told = vec![];
    while let Some(event) = stream.next() {
        told.push(event);
    }
    assert_eq!(told, events);
    assert_eq!(stream.next(), None);

    let empty = Contour::new();
    let mut stream = empty.iter();
    assert_eq!(stream.next(), Some(PathEvent::Close));
    assert_eq!(stream.next(), None);
}
