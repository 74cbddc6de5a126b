use tile_svg::built_object::{BuiltObject, SubpixelSegment};
use tile_svg::outline::Outline;
use tile_svg::primitives::{RectBits, ShaderId, SolidTileScenePrimitive, TileRect};
use tile_svg::scene_builder::SceneBuilder;
use tile_svg::tiler::Tiler;
use tile_svg::z_buffer::{scene_tile_index, ZBuffer};

fn no_bounds() -> RectBits {
    RectBits { x: 0, y: 0, width: 0, height: 0 }
}

fn scene_rect() -> TileRect {
    TileRect { origin_x: 0, origin_y: 0, width: 4, height: 4 }
}

/// An object whose tiles are all covered whole by the path's interior.
fn opaque_square(rect: TileRect, shader: u16) -> BuiltObject {
    let mut object = BuiltObject::new(&no_bounds(), rect, ShaderId(shader));
    for tile in object.tiles.iter_mut() {
        tile.backdrop = 1;
    }
    object
}

fn cull(object: BuiltObject, object_index: u16, z_buffer: &mut ZBuffer) -> BuiltObject {
    let outline = Outline::new();
    let mut tiler = Tiler::new(&outline, &no_bounds(), object.tile_rect, object_index, object.shader);
    tiler.built_object = object;
    tiler.cull(z_buffer);
    tiler.built_object
}

#[test]
fn scene_tiles_are_indexed_row_major() {
    let rect = TileRect { origin_x: -2, origin_y: 1, width: 5, height: 3 };
    assert_eq!(scene_tile_index(-2, 1, rect), 0);
    assert_eq!(scene_tile_index(2, 1, rect), 4);
    assert_eq!(scene_tile_index(-2, 2, rect), 5);
    assert_eq!(scene_tile_index(0, 3, rect), 12);
}

#[test]
fn new_z_buffer_has_no_depth() {
    let z_buffer = ZBuffer::new(TileRect { origin_x: 3, origin_y: 3, width: 3, height: 2 });
    assert_eq!(z_buffer.buffer, vec![0; 6]);
    // Every object shows in a tile that has no depth.
    assert!(z_buffer.test(0, 0));
    assert!(z_buffer.test(5, 9));
}

#[test]
fn update_keeps_the_greatest_depth() {
    let mut z_buffer = ZBuffer::new(scene_rect());
    z_buffer.update(1, 2, 4);
    assert_eq!(z_buffer.buffer[9], 5);
    z_buffer.update(1, 2, 2);
    assert_eq!(z_buffer.buffer[9], 5);
    z_buffer.update(1, 2, 4);
    assert_eq!(z_buffer.buffer[9], 5);
    z_buffer.update(1, 2, 65535);
    assert_eq!(z_buffer.buffer[9], 65536);
    assert_eq!(z_buffer.buffer.iter().filter(|depth| **depth != 0).count(), 1);
}

#[test]
fn test_tells_whether_an_object_shows() {
    let mut z_buffer = ZBuffer::new(scene_rect());
    z_buffer.update(0, 0, 3);
    // The objects above the one that covers the tile show; that one and
    // those below it do not.
    assert!(z_buffer.test(0, 4));
    assert!(z_buffer.test(0, 5));
    assert!(!z_buffer.test(0, 3));
    assert!(!z_buffer.test(0, 2));
    assert!(!z_buffer.test(0, 0));
}

#[test]
fn solid_tiles_are_built_row_by_row() {
    let rect = TileRect { origin_x: -1, origin_y: 5, width: 2, height: 2 };
    let mut z_buffer = ZBuffer::new(rect);
    z_buffer.update(0, 5, 1);
    z_buffer.update(-1, 6, 0);
    let objects = vec![opaque_square(rect, 11), opaque_square(rect, 22)];
    assert_eq!(
        z_buffer.build_solid_tiles(&objects, &rect),
        vec![
            SolidTileScenePrimitive { tile_x: 0, tile_y: 5, shader: ShaderId(22) },
            SolidTileScenePrimitive { tile_x: -1, tile_y: 6, shader: ShaderId(11) },
        ]
    );
}

#[test]
fn cull_records_solid_tiles_that_have_a_backdrop() {
    let mut z_buffer = ZBuffer::new(scene_rect());
    let rect = TileRect { origin_x: 1, origin_y: 1, width: 2, height: 2 };
    let mut object = BuiltObject::new(&no_bounds(), rect, ShaderId(0));
    // (1, 1): solid with a backdrop. (2, 1): solid without. (1, 2): a
    // backdrop, but a fill. (2, 2): neither.
    object.get_tile_mut(1, 1).backdrop = 2;
    object.get_tile_mut(1, 2).backdrop = -1;
    object.add_fill(&SubpixelSegment { from_x: 4096, from_y: 8192, to_x: 4200, to_y: 8300 }, 1, 2);
    object.add_fill(&SubpixelSegment { from_x: 8192, from_y: 8192, to_x: 8200, to_y: 8300 }, 2, 2);
    cull(object, 6, &mut z_buffer);
    let mut expected = vec![0; 16];
    expected[5] = 7;
    assert_eq!(z_buffer.buffer, expected);
}

#[test]
fn depth_is_that_of_the_topmost_object_in_any_order() {
    let rects = [
        TileRect { origin_x: 0, origin_y: 0, width: 2, height: 2 },
        TileRect { origin_x: 1, origin_y: 1, width: 2, height: 2 },
        TileRect { origin_x: 1, origin_y: 0, width: 1, height: 4 },
    ];
    let orders: [[usize; 3]; 3] = [[0, 1, 2], [2, 1, 0], [1, 2, 0]];
    for order in orders {
        let mut z_buffer = ZBuffer::new(scene_rect());
        for index in order {
            cull(opaque_square(rects[index], 0), index as u16, &mut z_buffer);
        }
        assert_eq!(z_buffer.buffer, vec![1, 3, 0, 0, 1, 3, 2, 0, 0, 3, 2, 0, 0, 3, 0, 0]);
    }
}

#[test]
fn two_overlapping_opaque_squares() {
    // Object 0 covers the pixels [0, 32) x [0, 32), object 1 the pixels
    // [16, 48) x [16, 48): both lie on tile edges, so all their tiles are
    // solid.
    let first = opaque_square(TileRect { origin_x: 0, origin_y: 0, width: 2, height: 2 }, 0);
    let second = opaque_square(TileRect { origin_x: 1, origin_y: 1, width: 2, height: 2 }, 1);
    let mut z_buffer = ZBuffer::new(scene_rect());
    let first = cull(first, 0, &mut z_buffer);
    let second = cull(second, 1, &mut z_buffer);
    let cell = scene_tile_index(1, 1, scene_rect()) as usize;
    assert_eq!(z_buffer.buffer[cell], 2);
    assert_eq!(z_buffer.buffer[cell] - 1, 1);
    assert!(!z_buffer.test(cell as u32, 0));
    assert!(!z_buffer.test(cell as u32, 1));
    assert!(z_buffer.test(cell as u32, 2));

    let mut builder = SceneBuilder::new(vec![first, second], z_buffer, scene_rect());
    let solid_tiles = builder.build_solid_tiles();
    assert_eq!(solid_tiles.len(), 7);
    assert!(solid_tiles.contains(&SolidTileScenePrimitive {
        tile_x: 1,
        tile_y: 1,
        shader: ShaderId(1)
    }));
    assert!(solid_tiles.contains(&SolidTileScenePrimitive {
        tile_x: 0,
        tile_y: 0,
        shader: ShaderId(0)
    }));
    // No tile has a fill, so there is no batch, and the tile (1, 1) of
    // object 0 is in none.
    assert!(builder.build_batch().is_none());
    assert_eq!(builder.current_object_index, 2);
}
