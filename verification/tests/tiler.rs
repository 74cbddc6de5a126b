use tile_svg::built_object::BuiltObject;
use tile_svg::geometry::{LineSegment, Point};
use tile_svg::contour::{Contour, PointFlags};
use tile_svg::outline::{Bounds, Outline};
use tile_svg::path_event::{PathEvent, PathEventsToSegments};
use tile_svg::point_index::PointIndex;
use tile_svg::primitives::{
    FillObjectPrimitive, LineSegmentU4, LineSegmentU8, RectBits, ShaderId, TileRect,
};
use tile_svg::segment::{Segment, SegmentKind};
use tile_svg::sorted_vector::SortedVector;
use tile_svg::strip::StripCursor;
use tile_svg::sweep_order::{ActiveEdge, QueuedEndpoint};
use tile_svg::tiler::{NewActiveEdges, Tiler};

fn p(x: i32, y: i32) -> Point {
    Point::new(x, y)
}

fn no_bounds() -> RectBits {
    RectBits { x: 0, y: 0, width: 0, height: 0 }
}

fn outline_of(events: Vec<PathEvent>) -> Outline {
    let mut stream = PathEventsToSegments::new(events);
    let mut segments = vec![];
    while let Some(segment) = stream.next() {
        segments.push(segment);
    }
    Outline::from_segments(&segments)
}

/// Two contours: a diamond whose top is its point 1, and a rectangle whose
/// top edge lies level.
fn diamond_and_rectangle() -> Outline {
    outline_of(vec![
        PathEvent::MoveTo(p(0, 20)),
        PathEvent::LineTo(p(10, 5)),
        PathEvent::LineTo(p(20, 20)),
        PathEvent::LineTo(p(10, 40)),
        PathEvent::Close,
        PathEvent::MoveTo(p(30, 8)),
        PathEvent::LineTo(p(50, 8)),
        PathEvent::LineTo(p(50, 30)),
        PathEvent::LineTo(p(30, 30)),
        PathEvent::Close,
    ])
}

fn queued(contour: u32, point: u32, y: i32) -> QueuedEndpoint {
    QueuedEndpoint { point_index: PointIndex::new(contour, point), y }
}

fn line_edge(from: Point, to: Point, crossing: Point) -> ActiveEdge {
    ActiveEdge {
        segment: Segment::line(&LineSegment { from, to }),
        crossing,
    }
}

fn rect() -> TileRect {
    TileRect { origin_x: 0, origin_y: 0, width: 4, height: 3 }
}

#[test]
fn queued_endpoints_are_ordered_backwards_by_y_and_index() {
    let upper = queued(0, 1, 5);
    let lower = queued(0, 0, 20);
    let same_y_later = queued(1, 0, 5);
    assert!(lower < upper);
    assert!(upper > lower);
    assert!(same_y_later < upper);
    assert!(upper >= upper && upper <= upper);
    assert_eq!(upper.partial_cmp(&upper), Some(std::cmp::Ordering::Equal));
    assert_eq!(lower.partial_cmp(&upper), Some(std::cmp::Ordering::Less));
    assert_eq!(upper.partial_cmp(&same_y_later), Some(std::cmp::Ordering::Greater));
    // The ordering is that of the pairs (y, index), reversed.
    for (a, b) in [(upper, lower), (upper, same_y_later), (lower, same_y_later), (lower, lower)] {
        assert_eq!(
            a.partial_cmp(&b),
            (b.y, b.point_index.0).partial_cmp(&(a.y, a.point_index.0))
        );
    }
}

#[test]
fn active_edges_are_ordered_by_the_x_of_their_crossing() {
    let left = line_edge(p(9, 0), p(9, 9), p(1, 7));
    let right = line_edge(p(0, 0), p(0, 9), p(2, 3));
    assert!(left < right);
    assert!(left <= right);
    assert!(right > left);
    let mut edges = SortedVector::new();
    edges.push(right);
    edges.push(left);
    edges.push(line_edge(p(5, 5), p(6, 6), p(-4, 0)));
    let xs: Vec<i32> = edges.array.iter().map(|edge| edge.crossing.x).collect();
    assert_eq!(xs, vec![-4, 1, 2]);
}

#[test]
fn an_edge_enters_at_the_upper_end_of_its_segment() {
    let down = Segment::line(&LineSegment { from: p(3, 1), to: p(7, 5) });
    assert_eq!(ActiveEdge::from_segment(&down), ActiveEdge { segment: down, crossing: p(3, 1) });
    let up = down.reversed();
    assert_eq!(ActiveEdge::from_segment(&up), ActiveEdge { segment: up, crossing: p(3, 1) });
    let level = Segment::line(&LineSegment { from: p(3, 4), to: p(7, 4) });
    assert_eq!(ActiveEdge::from_segment(&level).crossing, p(7, 4));
    assert_eq!(
        ActiveEdge::from_segment_and_crossing(&down, &p(9, 9)),
        ActiveEdge { segment: down, crossing: p(9, 9) }
    );
}

#[test]
fn new_tiler_has_a_fresh_object_and_empty_containers() {
    let outline = diamond_and_rectangle();
    let tiler = Tiler::new(&outline, &no_bounds(), rect(), 3, ShaderId(8));
    assert_eq!(tiler.object_index, 3);
    assert_eq!(tiler.built_object.tile_rect, rect());
    assert_eq!(tiler.built_object.shader, ShaderId(8));
    assert_eq!(tiler.built_object.tiles.len(), 12);
    assert!(tiler.point_queue.is_empty());
    assert!(tiler.active_edges.is_empty());
}

#[test]
fn the_queue_begins_with_the_local_minima() {
    let outline = diamond_and_rectangle();
    let mut tiler = Tiler::new(&outline, &no_bounds(), rect(), 0, ShaderId(0));
    tiler.point_queue.push(queued(7, 7, 7));
    tiler.init_point_queue();
    // The top of the diamond, and of the two upper corners of the rectangle
    // the one with the lesser index. The one that the sweep meets first is
    // last.
    assert_eq!(tiler.point_queue.array, vec![queued(1, 0, 8), queued(0, 1, 5)]);
    assert_eq!(tiler.point_queue.peek(), Some(&queued(0, 1, 5)));
}

#[test]
fn a_contour_of_one_point_has_no_local_minimum() {
    let mut contour = Contour::new();
    contour.push_point(p(1, 1), PointFlags::empty(), &mut None);
    let outline = Outline {
        contours: vec![contour],
        bounds: Bounds { upper_left: p(1, 1), lower_right: p(1, 1) },
    };
    let mut tiler = Tiler::new(&outline, &no_bounds(), rect(), 0, ShaderId(0));
    tiler.init_point_queue();
    assert!(tiler.point_queue.is_empty());
    assert!(!tiler.next_endpoint_is_above(1000));
}

#[test]
fn the_sweep_meets_the_endpoints_from_the_top() {
    let outline = diamond_and_rectangle();
    let mut tiler = Tiler::new(&outline, &no_bounds(), rect(), 0, ShaderId(0));
    tiler.init_point_queue();

    assert!(!tiler.next_endpoint_is_above(5));
    assert!(tiler.next_endpoint_is_above(6));

    // The top of the diamond: both its neighbours come later.
    let edges = tiler.add_new_active_edge();
    assert_eq!(
        edges,
        NewActiveEdges {
            to_previous: Some(line_edge(p(0, 20), p(10, 5), p(10, 5))),
            to_next: Some(line_edge(p(10, 5), p(20, 20), p(10, 5))),
        }
    );
    assert_eq!(
        tiler.point_queue.array,
        vec![queued(0, 2, 20), queued(0, 0, 20), queued(1, 0, 8)]
    );

    // The first corner of the rectangle: the corner behind it has the same
    // y and the greater index, so it comes later, as the one before it does.
    let edges = tiler.add_new_active_edge();
    assert_eq!(
        edges,
        NewActiveEdges {
            to_previous: Some(line_edge(p(30, 30), p(30, 8), p(30, 8))),
            to_next: Some(line_edge(p(30, 8), p(50, 8), p(50, 8))),
        }
    );
    assert_eq!(
        tiler.point_queue.array,
        vec![queued(1, 3, 30), queued(0, 2, 20), queued(0, 0, 20), queued(1, 1, 8)]
    );

    // The second corner: only the corner behind it comes later.
    assert!(tiler.next_endpoint_is_above(16));
    let edges = tiler.add_new_active_edge();
    assert_eq!(
        edges,
        NewActiveEdges {
            to_previous: None,
            to_next: Some(line_edge(p(50, 8), p(50, 30), p(50, 8))),
        }
    );
    assert!(!tiler.next_endpoint_is_above(16));
    assert!(!tiler.next_endpoint_is_above(20));
    assert!(tiler.next_endpoint_is_above(21));

    // The left and right corners of the diamond; both put its bottom into
    // the queue. Then the lower corners of the rectangle, the second of which
    // both its neighbours have put there, and the bottom of the diamond.
    assert_eq!(tiler.add_new_active_edge().to_previous.unwrap().segment.baseline.from, p(10, 40));
    assert_eq!(tiler.add_new_active_edge().to_next.unwrap().segment.baseline.to, p(10, 40));
    let mut met = vec![];
    while let Some(top) = tiler.point_queue.peek() {
        met.push((top.point_index.contour(), top.point_index.point()));
        let edges = tiler.add_new_active_edge();
        if met.len() > 1 {
            assert_eq!(edges, NewActiveEdges { to_previous: None, to_next: None });
        }
    }
    assert!(tiler.point_queue.is_empty());
    assert_eq!(met, vec![(1, 2), (1, 3), (1, 3), (0, 3), (0, 3)]);
}

#[test]
fn new_edges_of_curves_hold_the_curve() {
    let outline = outline_of(vec![
        PathEvent::MoveTo(p(0, 0)),
        PathEvent::CubicTo(p(5, 1), p(6, 2), p(7, 9)),
        PathEvent::QuadraticTo(p(3, 12), p(-4, 6)),
        PathEvent::Close,
    ]);
    let mut tiler = Tiler::new(&outline, &no_bounds(), rect(), 0, ShaderId(0));
    tiler.init_point_queue();
    assert_eq!(tiler.point_queue.array, vec![queued(0, 0, 0)]);
    let edges = tiler.add_new_active_edge();
    let closing = edges.to_previous.unwrap();
    assert_eq!(closing.segment.kind, SegmentKind::Line);
    assert_eq!(closing.segment.baseline, LineSegment { from: p(-4, 6), to: p(0, 0) });
    assert_eq!(closing.crossing, p(0, 0));
    let cubic = edges.to_next.unwrap();
    assert_eq!(cubic.segment.kind, SegmentKind::Cubic);
    assert_eq!(cubic.segment.ctrl, LineSegment { from: p(5, 1), to: p(6, 2) });
    assert_eq!(cubic.crossing, p(0, 0));
    assert_eq!(tiler.point_queue.array, vec![queued(0, 3, 9), queued(0, 5, 6)]);
}

#[test]
fn a_strip_begins_with_the_edges_the_last_one_left() {
    let outline = diamond_and_rectangle();
    let mut tiler = Tiler::new(
        &outline,
        &no_bounds(),
        TileRect { origin_x: -3, origin_y: 0, width: 4, height: 3 },
        0,
        ShaderId(0),
    );
    let right = line_edge(p(40, 0), p(40, 90), p(40, 16));
    let left = line_edge(p(10, 90), p(10, 0), p(10, 16));
    tiler.active_edges.push(right);
    tiler.active_edges.push(left);
    let old = tiler.process_old_active_edges();
    assert_eq!(old.edges, vec![left, right]);
    assert_eq!(
        old.cursor,
        StripCursor { current_tile_x: -3, current_subtile_x: 0, current_winding: 0 }
    );
    assert!(tiler.active_edges.is_empty());
    assert!(tiler.process_old_active_edges().edges.is_empty());
}

#[test]
fn the_walk_gives_whole_tiles_their_backdrop() {
    let mut object = BuiltObject::new(&no_bounds(), rect(), ShaderId(0));
    let mut cursor = StripCursor { current_tile_x: 0, current_subtile_x: 0, current_winding: -2 };
    cursor.advance_to(&mut object, 3, 0, 1);
    assert_eq!(
        cursor,
        StripCursor { current_tile_x: 3, current_subtile_x: 0, current_winding: -2 }
    );
    let backdrops: Vec<i16> = object.tiles.iter().map(|tile| tile.backdrop).collect();
    assert_eq!(backdrops, vec![0, 0, 0, 0, -2, -2, -2, 0, 0, 0, 0, 0]);
    assert!(object.fills.is_empty());
    assert_eq!(object.solid_tiles.count_ones(..), 12);
}

#[test]
fn the_walk_finishes_the_tile_it_has_come_into() {
    let mut object = BuiltObject::new(&no_bounds(), rect(), ShaderId(0));
    // The walk stands 4.5 pixels into the tile (1, 2).
    let mut cursor = StripCursor { current_tile_x: 1, current_subtile_x: 77, current_winding: 1 };
    cursor.advance_to(&mut object, 3, (16 * 256) + 0x480, 2);
    assert_eq!(
        cursor,
        StripCursor { current_tile_x: 3, current_subtile_x: 0, current_winding: 1 }
    );
    // One fill from the right edge of the tile back to where the walk stood.
    assert_eq!(
        object.fills,
        vec![FillObjectPrimitive {
            px: LineSegmentU4(0x040f),
            subpx: LineSegmentU8(0x0080_00ff),
            tile_x: 1,
            tile_y: 2,
        }]
    );
    assert!(!object.solid_tiles.contains(9));
    let backdrops: Vec<i16> = object.tiles.iter().map(|tile| tile.backdrop).collect();
    assert_eq!(backdrops, vec![0, 0, 0, 0, 0, 0, 0, 0, 0, 0, 1, 0]);
}

#[test]
fn the_walk_stays_where_the_edge_is_not_farther_right() {
    let mut object = BuiltObject::new(&no_bounds(), rect(), ShaderId(0));
    let start = StripCursor { current_tile_x: 2, current_subtile_x: 5, current_winding: 1 };
    let mut cursor = start;
    cursor.advance_to(&mut object, 2, 0, 0);
    assert_eq!(cursor, start);
    // An edge left of the tiles of the object.
    cursor.advance_to(&mut object, -7, 0, 0);
    assert_eq!(cursor, start);
    assert!(object.fills.is_empty());
    assert!(object.tiles.iter().all(|tile| tile.backdrop == 0));
}

#[test]
fn crossing_an_edge_lays_a_fill_and_changes_the_winding() {
    let mut object = BuiltObject::new(&no_bounds(), rect(), ShaderId(0));
    let mut cursor = StripCursor { current_tile_x: 1, current_subtile_x: 10, current_winding: 0 };
    let down = line_edge(p(0, 0), p(0, 9), p(0, 0));
    let up = line_edge(p(0, 9), p(0, 0), p(0, 0));

    // No winding: nothing is laid, but the walk comes to the edge.
    cursor.cross(&mut object, &down, 20, 16 * 256 + 0x100, 16 * 256 + 0x200, 0);
    assert_eq!(
        cursor,
        StripCursor { current_tile_x: 1, current_subtile_x: 20, current_winding: 1 }
    );
    assert!(object.fills.is_empty());

    // Winding 1: one fill from the edge back to where the walk stood.
    cursor.cross(&mut object, &down, 30, 16 * 256 + 0x200, 16 * 256 + 0x340, 0);
    assert_eq!(
        cursor,
        StripCursor { current_tile_x: 1, current_subtile_x: 30, current_winding: 2 }
    );
    assert_eq!(
        object.fills,
        vec![FillObjectPrimitive {
            px: LineSegmentU4(0x0203),
            subpx: LineSegmentU8(0x0000_0040),
            tile_x: 1,
            tile_y: 0,
        }]
    );

    // An edge that is not right of the walk: only the winding changes.
    cursor.cross(&mut object, &up, 30, 0, 0, 0);
    cursor.cross(&mut object, &up, 4, 0, 0, 0);
    assert_eq!(
        cursor,
        StripCursor { current_tile_x: 1, current_subtile_x: 30, current_winding: 0 }
    );
    assert_eq!(object.fills.len(), 1);
    assert_eq!(StripCursor::new(-4).current_tile_x, -4);
}

/// What the segments of a contour that cross `level` add to the winding
/// number.
fn winding_at(contour: &Contour, level: i32) -> i32 {
    let mut sum = 0;
    for index in 0..contour.len() {
        if contour.point_is_endpoint(index) {
            let baseline = contour.segment_after(index).baseline;
            if baseline.min_y() < level && level <= baseline.max_y() {
                sum += baseline.y_winding();
            }
        }
    }
    sum
}

#[test]
fn the_windings_of_a_closed_path_cancel_at_every_level() {
    let outline = outline_of(vec![
        PathEvent::MoveTo(p(0, 20)),
        PathEvent::CubicTo(p(5, -7), p(9, 40), p(12, 3)),
        PathEvent::QuadraticTo(p(20, 60), p(14, 18)),
        PathEvent::LineTo(p(30, 18)),
        PathEvent::LineTo(p(2, 50)),
        PathEvent::LineTo(p(-3, -10)),
        PathEvent::Close,
        PathEvent::MoveTo(p(0, 0)),
        PathEvent::LineTo(p(5, 5)),
    ]);
    assert!(outline.can_be_swept());
    for contour in &outline.contours {
        let mut crossed = false;
        for level in -12..62 {
            assert_eq!(winding_at(contour, level), 0);
            crossed |= (0..contour.len()).any(|index| {
                contour.point_is_endpoint(index) && {
                    let baseline = contour.segment_after(index).baseline;
                    baseline.min_y() < level && level <= baseline.max_y()
                }
            });
        }
        assert!(crossed);
    }
}

#[test]
fn an_outline_can_be_swept_if_its_contours_are_closed_paths() {
    assert!(Outline::new().can_be_swept());
    assert!(diamond_and_rectangle().can_be_swept());
    // A curve behind a close adds its points to a contour that has none.
    let headless = outline_of(vec![
        PathEvent::MoveTo(p(0, 0)),
        PathEvent::LineTo(p(1, 0)),
        PathEvent::Close,
        PathEvent::QuadraticTo(p(5, 5), p(9, 0)),
    ]);
    assert!(headless.contours[0].can_be_swept());
    assert!(!headless.contours[1].can_be_swept());
    assert!(!headless.can_be_swept());

    let mut contour = Contour::new();
    assert!(!contour.can_be_swept());
    contour.push_point(p(0, 0), PointFlags::empty(), &mut None);
    assert!(contour.can_be_swept());
    contour.push_point(p(1, 1), PointFlags::control_point_0(), &mut None);
    assert!(!contour.can_be_swept());
    contour.push_point(p(2, 2), PointFlags::control_point_1(), &mut None);
    assert!(!contour.can_be_swept());
    contour.push_point(p(3, 3), PointFlags::empty(), &mut None);
    assert!(contour.can_be_swept());
    contour.push_point(p(4, 4), PointFlags::control_point_1(), &mut None);
    contour.push_point(p(5, 5), PointFlags::empty(), &mut None);
    assert!(!contour.can_be_swept());
    contour.flags[4] = PointFlags { control_point_0: true, control_point_1: true };
    assert!(!contour.can_be_swept());
    contour.flags[4] = PointFlags::control_point_0();
    assert!(contour.can_be_swept());
    contour.flags.pop();
    assert!(!contour.can_be_swept());
}

#[test]
fn a_tiler_is_well_formed_while_the_library_keeps_it() {
    let outline = diamond_and_rectangle();
    let mut tiler = Tiler::new(&outline, &no_bounds(), rect(), 0, ShaderId(0));
    assert!(tiler.is_well_formed());
    tiler.init_point_queue();
    assert!(tiler.is_well_formed());
    while !tiler.point_queue.is_empty() {
        tiler.add_new_active_edge();
        assert!(tiler.is_well_formed());
    }
    // An entry that names no endpoint of the outline.
    tiler.point_queue.push(queued(0, 9, 0));
    assert!(!tiler.is_well_formed());
    tiler.point_queue.clear();
    tiler.point_queue.push(queued(2, 0, 0));
    assert!(!tiler.is_well_formed());
    tiler.point_queue.clear();
    tiler.point_queue.push(queued(0, 1, 6));
    assert!(!tiler.is_well_formed());
    tiler.point_queue.clear();
    tiler.point_queue.push(queued(0, 1, 5));
    assert!(tiler.is_well_formed());
}

#[test]
fn a_strip_meets_the_endpoints_above_its_lower_edge() {
    let outline = diamond_and_rectangle();
    let mut stepwise = Tiler::new(&outline, &no_bounds(), rect(), 0, ShaderId(0));
    stepwise.init_point_queue();
    let mut at_once = Tiler::new(&outline, &no_bounds(), rect(), 0, ShaderId(0));
    at_once.init_point_queue();

    for strip_max_y in [5, 6, 16, 21, 30, 31, 100] {
        let mut expected = vec![];
        while stepwise.next_endpoint_is_above(strip_max_y) {
            let edges = stepwise.add_new_active_edge();
            expected.extend(edges.to_previous);
            expected.extend(edges.to_next);
        }
        assert_eq!(at_once.generate_strip(strip_max_y), expected);
        assert_eq!(at_once.point_queue.array, stepwise.point_queue.array);
        assert!(!at_once.next_endpoint_is_above(strip_max_y));
        assert!(at_once.is_well_formed());
    }
    assert!(at_once.point_queue.is_empty());
}

#[test]
fn the_first_strip_of_the_diamond_and_the_rectangle() {
    let outline = diamond_and_rectangle();
    let mut tiler = Tiler::new(&outline, &no_bounds(), rect(), 0, ShaderId(0));
    tiler.init_point_queue();
    assert!(tiler.generate_strip(5).is_empty());
    // The two upper edges of the diamond, then the left, the top and the
    // right edge of the rectangle.
    assert_eq!(
        tiler.generate_strip(16),
        vec![
            line_edge(p(0, 20), p(10, 5), p(10, 5)),
            line_edge(p(10, 5), p(20, 20), p(10, 5)),
            line_edge(p(30, 30), p(30, 8), p(30, 8)),
            line_edge(p(30, 8), p(50, 8), p(50, 8)),
            line_edge(p(50, 8), p(50, 30), p(50, 8)),
        ]
    );
    assert_eq!(
        tiler.point_queue.array,
        vec![queued(1, 3, 30), queued(1, 2, 30), queued(0, 2, 20), queued(0, 0, 20)]
    );
    assert!(tiler.generate_strip(16).is_empty());
}
