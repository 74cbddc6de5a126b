// The sweep over paths of straight lines, from path events to batches. The
// library decides; the arithmetic on coordinates, which it leaves to its
// caller, is done by the helpers here.

use tile_svg::built_object::{BuiltObject, SubpixelSegment};
use tile_svg::geometry::{ordinate_from_bits, ordinate_to_bits, LineSegment, Point};
use tile_svg::outline::Outline;
use tile_svg::path_event::{PathEvent, PathEventsToSegments};
use tile_svg::primitives::{
    FillBatchPrimitive, LineSegmentU4, LineSegmentU8, RectBits, ShaderId, SolidTileScenePrimitive,
    TileRect,
};
use tile_svg::primitives::{pixel_to_tile, pixel_to_tile_up, round_rect_out_to_tile_bounds};
use tile_svg::scene_builder::SceneBuilder;
use tile_svg::segment::{Segment, SegmentKind};
use tile_svg::sweep_order::ActiveEdge;
use tile_svg::tiler::Tiler;
use tile_svg::z_buffer::ZBuffer;

fn encode(value: f32) -> i32 {
    ordinate_from_bits(value.to_bits())
}

fn decode(ordinate: i32) -> f32 {
    f32::from_bits(ordinate_to_bits(ordinate))
}

fn quantize(coordinate: f32) -> i32 {
    (coordinate * 256.0).round() as i32
}

fn point(x: f32, y: f32) -> Point {
    Point::new(encode(x), encode(y))
}

fn xy(point: Point) -> (f32, f32) {
    (decode(point.x), decode(point.y))
}

fn line(from: (f32, f32), to: (f32, f32)) -> LineSegment {
    LineSegment { from: point(from.0, from.1), to: point(to.0, to.1) }
}

fn polygon(corners: &[(f32, f32)]) -> Vec<PathEvent> {
    let mut events = vec![PathEvent::MoveTo(point(corners[0].0, corners[0].1))];
    for corner in &corners[1..] {
        events.push(PathEvent::LineTo(point(corner.0, corner.1)));
    }
    events.push(PathEvent::Close);
    events
}

fn outline_of(events: Vec<PathEvent>) -> Outline {
    let mut stream = PathEventsToSegments::new(events);
    let mut segments = vec![];
    while let Some(segment) = stream.next() {
        segments.push(segment);
    }
    Outline::from_segments(&segments)
}

fn add_fill(object: &mut BuiltObject, from: (f32, f32), to: (f32, f32), tile_x: i16, tile_y: i16) {
    assert!(object.tile_rect.contains(tile_x, tile_y));
    let segment = SubpixelSegment {
        from_x: quantize(from.0),
        from_y: quantize(from.1),
        to_x: quantize(to.0),
        to_y: quantize(to.1),
    };
    object.add_fill(&segment, tile_x, tile_y);
}

fn fill_line(object: &mut BuiltObject, mut from: (f32, f32), mut to: (f32, f32), tile_y: i16) {
    let winding = from.0 > to.0;
    let (left, right) = if !winding { (from.0, to.0) } else { (to.0, from.0) };
    let tile_left = pixel_to_tile(left.floor() as i32) as i16;
    let tile_right = pixel_to_tile_up(right.ceil() as i32) as i16;
    for tile_x in tile_left..tile_right {
        let (mut fill_from, mut fill_to) = (from, to);
        let tile_right_x = ((tile_x as i32 + 1) * 16) as f32;
        if tile_right_x < right {
            let t = (tile_right_x - from.0) / (to.0 - from.0);
            let cut = (tile_right_x, from.1 + t * (to.1 - from.1));
            if !winding {
                fill_to = cut;
                from = cut;
            } else {
                fill_from = cut;
                to = cut;
            }
        }
        add_fill(object, fill_from, fill_to, tile_x, tile_y);
    }
}

/// Draws the line of an edge down the strip `tile_y`, and leaves in the edge
/// what is left of it for the next strip.
fn process(edge: &mut ActiveEdge, object: &mut BuiltObject, tile_y: i16) {
    assert_eq!(edge.segment.kind, SegmentKind::Line);
    let from = xy(edge.segment.baseline.from);
    let to = xy(edge.segment.baseline.to);
    let tile_bottom = ((tile_y as i32 + 1) * 16) as f32;
    if f32::max(from.1, to.1) <= tile_bottom {
        fill_line(object, from, to, tile_y);
        edge.segment = Segment::none();
        return;
    }
    let t = (tile_bottom - from.1) / (to.1 - from.1);
    let middle = (from.0 + t * (to.0 - from.0), from.1 + t * (to.1 - from.1));
    let (upper, lower) = if from.1 < to.1 {
        ((from, middle), (middle, to))
    } else {
        ((middle, to), (from, middle))
    };
    fill_line(object, upper.0, upper.1, tile_y);
    let lower = line(lower.0, lower.1);
    edge.crossing = lower.upper_point();
    edge.segment = Segment::line(&lower);
}

fn process_new(tiler: &mut Tiler, mut edge: ActiveEdge, tile_y: i16) {
    process(&mut edge, &mut tiler.built_object, tile_y);
    if !edge.segment.is_none() {
        tiler.active_edges.push(edge);
    }
}

fn generate_strip(tiler: &mut Tiler, tile_y: i16) {
    let old = tiler.process_old_active_edges();
    let mut cursor = old.cursor;
    for mut edge in old.edges {
        let segment_x = decode(edge.crossing.x);
        let segment_tile_x = pixel_to_tile(segment_x.floor() as i32) as i16;
        let current_x = (cursor.current_tile_x as i32 * 16) as f32 + decode(cursor.current_subtile_x);
        cursor.advance_to(&mut tiler.built_object, segment_tile_x, quantize(current_x), tile_y);
        let tile_left = (cursor.current_tile_x as i32 * 16) as f32;
        let current_x = tile_left + decode(cursor.current_subtile_x);
        cursor.cross(
            &mut tiler.built_object,
            &edge,
            encode(segment_x - tile_left),
            quantize(current_x),
            quantize(segment_x),
            tile_y,
        );
        process(&mut edge, &mut tiler.built_object, tile_y);
        if !edge.segment.is_none() {
            tiler.active_edges.push(edge);
        }
    }
    assert_eq!(cursor.current_winding, 0);

    let strip_max_y = ((tile_y as i32 + 1) * 16) as f32;
    for edge in tiler.generate_strip(encode(strip_max_y)) {
        process_new(tiler, edge, tile_y);
    }
}

/// Tiles `outline`, which lies within the view box, as the object with the
/// number `object_index`, and records its opaque tiles in the depth buffer.
fn tile(outline: &Outline, object_index: u16, z_buffer: &mut ZBuffer) -> BuiltObject {
    let (left, top) = xy(outline.bounds.upper_left);
    let (right, bottom) = xy(outline.bounds.lower_right);
    let tile_rect = round_rect_out_to_tile_bounds(
        left.floor() as i32,
        top.floor() as i32,
        right.ceil() as i32,
        bottom.ceil() as i32,
    );
    let bounds = RectBits {
        x: left.to_bits(),
        y: top.to_bits(),
        width: (right - left).to_bits(),
        height: (bottom - top).to_bits(),
    };
    let mut tiler = Tiler::new(outline, &bounds, tile_rect, object_index, ShaderId(object_index));
    tiler.init_point_queue();
    tiler.active_edges.clear();
    for tile_y in tile_rect.origin_y..tile_rect.max_y() {
        generate_strip(&mut tiler, tile_y);
    }
    tiler.cull(z_buffer);
    tiler.built_object
}

fn scene_rect() -> TileRect {
    round_rect_out_to_tile_bounds(0, 0, 64, 64)
}

#[test]
fn ordinates_are_ordered_as_the_numbers_they_stand_for() {
    let numbers = [
        f32::NEG_INFINITY,
        -1.0e30,
        -64.5,
        -1.0,
        -1.0e-30,
        0.0,
        1.0e-30,
        0.1,
        1.0,
        15.999999,
        16.0,
        1.0e30,
        f32::INFINITY,
    ];
    for a in numbers {
        assert_eq!(decode(encode(a)), a);
        for b in numbers {
            assert_eq!(a < b, encode(a) < encode(b));
            assert_eq!(a == b, encode(a) == encode(b));
        }
    }
    assert_eq!(encode(0.0), 0);
    assert_eq!(encode(-0.0), 0);
    assert_eq!(encode(1.0), 0x3f80_0000);
    assert_eq!(encode(-1.0), -0x3f80_0000);
    assert_eq!(ordinate_to_bits(0), 0);
    assert_eq!(ordinate_to_bits(-1), 0x8000_0001);
    assert_eq!(ordinate_to_bits(i32::MAX), 0x7fff_ffff);
    assert_eq!(ordinate_to_bits(-i32::MAX), 0xffff_ffff);
    assert_eq!(ordinate_from_bits(0xffff_ffff), -i32::MAX);
}

#[test]
fn pixels_count_to_tiles_by_division_towards_zero() {
    let tiles: Vec<i32> = [-33, -32, -17, -16, -15, -1, 0, 1, 15, 16, 31, 32]
        .iter()
        .map(|pixel| pixel_to_tile(*pixel))
        .collect();
    assert_eq!(tiles, vec![-2, -2, -1, -1, 0, 0, 0, 0, 0, 1, 1, 2]);
    let tiles: Vec<i32> = [-32, -31, -16, -15, -1, 0, 1, 15, 16, 17, 32, 33]
        .iter()
        .map(|pixel| pixel_to_tile_up(*pixel))
        .collect();
    assert_eq!(tiles, vec![-1, -1, 0, 0, 0, 0, 1, 1, 1, 2, 2, 3]);
    assert_eq!(pixel_to_tile(i32::MIN), -0x0800_0000);
    assert_eq!(pixel_to_tile(i32::MAX), 0x07ff_ffff);
}

#[test]
fn a_square_on_tile_edges_is_solid_below_its_first_row() {
    let outline = outline_of(polygon(&[(0.0, 0.0), (64.0, 0.0), (64.0, 64.0), (0.0, 64.0)]));
    let mut z_buffer = ZBuffer::new(scene_rect());
    let object = tile(&outline, 0, &mut z_buffer);

    assert_eq!(object.tile_rect, TileRect { origin_x: 0, origin_y: 0, width: 4, height: 4 });
    assert_eq!(object.tiles.len(), 16);
    // The top edge lays a fill in each tile of the first row. Below it every
    // tile lies between the left and the right edge.
    let backdrops: Vec<i16> = object.tiles.iter().map(|tile| tile.backdrop).collect();
    assert_eq!(backdrops, vec![0, 0, 0, 0, -1, -1, -1, -1, -1, -1, -1, -1, -1, -1, -1, -1]);
    let solid: Vec<usize> = object.solid_tiles.ones().collect();
    assert_eq!(solid, (4..16).collect::<Vec<usize>>());
    assert_eq!(object.fills.len(), 4);
    for (tile_x, fill) in object.fills.iter().enumerate() {
        assert_eq!((fill.tile_x, fill.tile_y), (tile_x as i16, 0));
        assert_eq!(fill.px, LineSegmentU4(0x0f00));
        assert_eq!(fill.subpx, LineSegmentU8(0x00ff_0000));
    }
    assert_eq!(z_buffer.buffer, vec![0, 0, 0, 0, 1, 1, 1, 1, 1, 1, 1, 1, 1, 1, 1, 1]);

    let mut builder = SceneBuilder::new(vec![object], z_buffer, scene_rect());
    let solid_tiles = builder.build_solid_tiles();
    assert_eq!(solid_tiles.len(), 12);
    assert!(solid_tiles.iter().all(|tile| tile.shader == ShaderId(0)));
    assert_eq!(solid_tiles[0], SolidTileScenePrimitive { tile_x: 0, tile_y: 1, shader: ShaderId(0) });
    let batch = builder.build_batch().unwrap();
    assert_eq!(batch.mask_tiles.len(), 4);
    assert_eq!(
        batch.fills,
        (0..4)
            .map(|index| FillBatchPrimitive {
                px: LineSegmentU4(0x0f00),
                subpx: LineSegmentU8(0x00ff_0000),
                mask_tile_index: index,
            })
            .collect::<Vec<FillBatchPrimitive>>()
    );
    assert!(builder.build_batch().is_none());
}

#[test]
fn a_triangle_has_fills_along_its_slanted_edges() {
    // The tip at the top, the base on the lower edge of the second row.
    let outline = outline_of(polygon(&[(16.0, 0.0), (32.0, 32.0), (0.0, 32.0)]));
    let mut z_buffer = ZBuffer::new(scene_rect());
    let object = tile(&outline, 0, &mut z_buffer);
    assert_eq!(object.tile_rect, TileRect { origin_x: 0, origin_y: 0, width: 2, height: 2 });

    // Every tile has a part of a slanted edge, so none is solid, and no
    // tile lies whole between two edges.
    assert_eq!(object.solid_tiles.count_ones(..), 0);
    assert!(object.tiles.iter().all(|tile| tile.backdrop == 0));
    assert!(z_buffer.buffer.iter().all(|depth| *depth == 0));
    for fill in &object.fills {
        let index = object.tile_coords_to_index(fill.tile_x, fill.tile_y);
        assert!(!object.solid_tiles.contains(index as usize));
    }
    // In the first strip each edge has one piece, in its tile. In the second
    // the left edge has its piece in the left tile; an active fill carries
    // the winding from it to the right edge of that tile, and another from
    // there to the right edge of the triangle, which has its piece in the
    // right tile.
    let tiles: Vec<(i16, i16)> =
        object.fills.iter().map(|fill| (fill.tile_x, fill.tile_y)).collect();
    assert_eq!(tiles, vec![(0, 0), (1, 0), (0, 1), (0, 1), (1, 1), (1, 1)]);
    // From (8, 16) up to the tip (16, 0), both past the tile's last unit.
    assert_eq!(object.fills[0].px, LineSegmentU4(0x0ff8));
    assert_eq!(object.fills[0].subpx, LineSegmentU8(0x00ff_ff00));
    // From the tip (16, 0) down to (24, 16).
    assert_eq!(object.fills[1].px, LineSegmentU4(0xf800));
    assert_eq!(object.fills[1].subpx, LineSegmentU8(0xff00_0000));
    // The active fill from (8, 16) to the right edge of the left tile.
    assert_eq!(object.fills[3].px, LineSegmentU4(0x0f08));
    assert_eq!(object.fills[3].subpx, LineSegmentU8(0x00ff_0000));
    // The active fill from (16, 16) to (24, 16).
    assert_eq!(object.fills[4].px, LineSegmentU4(0x0800));
    assert_eq!(object.fills[4].subpx, LineSegmentU8(0x0000_0000));

    let mut builder = SceneBuilder::new(vec![object], z_buffer, scene_rect());
    assert!(builder.build_solid_tiles().is_empty());
    let batch = builder.build_batch().unwrap();
    assert_eq!(batch.mask_tiles.len(), 4);
    let masks: Vec<u16> = batch.fills.iter().map(|fill| fill.mask_tile_index).collect();
    assert_eq!(masks, vec![0, 1, 2, 2, 3, 3]);
}

#[test]
fn an_upper_square_hides_the_tiles_it_covers() {
    // Object 0 covers the pixels [0, 32) x [0, 48), object 1 the pixels
    // [16, 48) x [16, 64).
    let lower = outline_of(polygon(&[(0.0, 0.0), (32.0, 0.0), (32.0, 48.0), (0.0, 48.0)]));
    let upper = outline_of(polygon(&[(16.0, 16.0), (48.0, 16.0), (48.0, 64.0), (16.0, 64.0)]));
    let mut z_buffer = ZBuffer::new(scene_rect());
    let lower = tile(&lower, 0, &mut z_buffer);
    let upper = tile(&upper, 1, &mut z_buffer);

    // The first row of each square holds the fills of its top edge; the rows
    // below are covered whole.
    assert_eq!(z_buffer.buffer, vec![0, 0, 0, 0, 1, 1, 0, 0, 1, 2, 2, 0, 0, 2, 2, 0]);

    let mut builder = SceneBuilder::new(vec![lower, upper], z_buffer, scene_rect());
    let solid_tiles = builder.build_solid_tiles();
    let shaders: Vec<(i16, i16, u16)> =
        solid_tiles.iter().map(|tile| (tile.tile_x, tile.tile_y, tile.shader.0)).collect();
    assert_eq!(
        shaders,
        vec![(0, 1, 0), (1, 1, 0), (0, 2, 0), (1, 2, 1), (2, 2, 1), (1, 3, 1), (2, 3, 1)]
    );
    let batch = builder.build_batch().unwrap();
    let masks: Vec<(i16, i16, u16)> = batch
        .mask_tiles
        .iter()
        .map(|mask| (mask.tile.tile_x, mask.tile.tile_y, mask.shader.0))
        .collect();
    // The tiles of the top edge of each square. The tile (1, 1) of the upper
    // square lies over a tile that the lower square covers whole, and shows.
    assert_eq!(masks, vec![(0, 0, 0), (1, 0, 0), (1, 1, 1), (2, 1, 1)]);
    assert!(builder.build_batch().is_none());
}
