//! The depth buffer: for each tile of the scene, the topmost object that
//! covers it whole.

use vstd::prelude::*;
use crate::built_object::BuiltObject;
use crate::primitives::{lemma_tile_index, SolidTileScenePrimitive, TileRect};

verus! {

/// The place of the tile `(tile_x, tile_y)` among the tiles of the scene,
/// counted row by row.
pub fn scene_tile_index(tile_x: i16, tile_y: i16, tile_rect: TileRect) -> (index: u32)
    requires
        tile_rect.wf(),
        tile_rect.holds(tile_x as int, tile_y as int),
    ensures
        index == tile_rect.index_of(tile_x as int, tile_y as int),
        index < tile_rect.area(),
{
    proof {
        lemma_tile_index(tile_rect, tile_x as int, tile_y as int);
    }
    let row: u32 = (tile_y as i32 - tile_rect.origin_y as i32) as u32;
    let column: u32 = (tile_x as i32 - tile_rect.origin_x as i32) as u32;
    let width: u32 = tile_rect.width as u32;
    assert(row * width <= 0x7fff * 0x7fff) by (nonlinear_arith)
        requires
            row <= 0x7fff,
            width <= 0x7fff,
    ;
    row * width + column
}

/// The greater of two depths.
pub open spec fn deeper(a: int, b: int) -> int {
    if a < b {
        b
    } else {
        a
    }
}

/// Whether `object` covers the scene's tile at `cell` whole: one of its
/// tiles is solid, has a backdrop that is not 0, and lies there.
pub open spec fn covers(object: BuiltObject, tile_rect: TileRect, cell: int) -> bool {
    exists|t: int|
        0 <= t < object.tiles@.len() && #[trigger] object.opaque_at(t) && lies_at(
            object,
            tile_rect,
            t,
            cell,
        )
}

/// Whether the tile at `t` of `object` is the scene's tile at `cell`.
pub open spec fn lies_at(object: BuiltObject, tile_rect: TileRect, t: int, cell: int) -> bool {
    &&& tile_rect.holds(object.tiles@[t].tile_x as int, object.tiles@[t].tile_y as int)
    &&& tile_rect.index_of(object.tiles@[t].tile_x as int, object.tiles@[t].tile_y as int) == cell
}

/// The depth that the object with the number `object_index` gives to the
/// scene's tile at `cell`: its number and one where it covers the tile, else 0.
pub open spec fn depth_of(object: BuiltObject, object_index: int, tile_rect: TileRect, cell: int)
    -> int {
    if covers(object, tile_rect, cell) {
        object_index + 1
    } else {
        0
    }
}

/// The depths after `object` was culled into a buffer that held `depths`:
/// each tile has the greater of what it had and what the object gives it.
pub open spec fn culled(
    depths: Seq<usize>,
    object: BuiltObject,
    object_index: int,
    tile_rect: TileRect,
) -> Seq<usize> {
    Seq::new(
        depths.len(),
        |cell: int|
            deeper(depths[cell] as int, depth_of(object, object_index, tile_rect, cell)) as usize,
    )
}

/// The depths after the first `count` of the objects were culled, one after
/// another, into a buffer that held `depths`, the objects numbered from 0.
pub open spec fn culled_all(
    depths: Seq<usize>,
    objects: Seq<BuiltObject>,
    tile_rect: TileRect,
    count: int,
) -> Seq<usize>
    decreases count,
{
    if count <= 0 {
        depths
    } else {
        culled(culled_all(depths, objects, tile_rect, count - 1), objects[count - 1], count - 1, tile_rect)
    }
}

/// The greatest depth that any of the objects gives to the scene's tile at
/// `cell`, the objects numbered from 0 in their order; 0 where none covers it.
pub open spec fn greatest_depth(objects: Seq<BuiltObject>, tile_rect: TileRect, cell: int) -> int
    decreases objects.len(),
{
    if objects.len() == 0 {
        0
    } else {
        deeper(
            greatest_depth(objects.drop_last(), tile_rect, cell),
            depth_of(objects.last(), objects.len() - 1, tile_rect, cell),
        )
    }
}

/// The solid tile of the scene at `cell`, a tile that has a depth: its place
/// and the shader of the object that covers it.
pub open spec fn solid_tile_at(
    depths: Seq<usize>,
    objects: Seq<BuiltObject>,
    tile_rect: TileRect,
    cell: int,
) -> SolidTileScenePrimitive {
    SolidTileScenePrimitive {
        tile_x: (cell % (tile_rect.width as int) + tile_rect.origin_x) as i16,
        tile_y: (cell / (tile_rect.width as int) + tile_rect.origin_y) as i16,
        shader: objects[depths[cell] - 1].shader,
    }
}

/// The solid tiles of the first `cells` tiles of the scene, row by row: one
/// for each tile that has a depth.
pub open spec fn solid_tiles_of(
    depths: Seq<usize>,
    objects: Seq<BuiltObject>,
    tile_rect: TileRect,
    cells: int,
) -> Seq<SolidTileScenePrimitive>
    decreases cells,
{
    if cells <= 0 {
        Seq::empty()
    } else {
        let before = solid_tiles_of(depths, objects, tile_rect, cells - 1);
        if depths[cells - 1] == 0 {
            before
        } else {
            before.push(solid_tile_at(depths, objects, tile_rect, cells - 1))
        }
    }
}

/// The depth buffer of a scene. A tile's depth is 0 while no object covers
/// it whole, and else the number of the topmost object that does, and one.
#[derive(Debug)]
pub struct ZBuffer {
    pub buffer: Vec<usize>,
    pub tile_rect: TileRect,
}

impl ZBuffer {
    /// There is a depth for each tile of the scene.
    pub open spec fn wf(self) -> bool {
        &&& self.tile_rect.wf()
        &&& self.buffer@.len() == self.tile_rect.area()
    }

    /// Tells whether there is a depth for each tile of the scene.
    pub fn is_well_formed(&self) -> (ok: bool)
        ensures
            ok == self.wf(),
    {
        if !self.tile_rect.is_proper() {
            return false;
        }
        let width: usize = self.tile_rect.width as usize;
        let height: usize = self.tile_rect.height as usize;
        assert(width * height <= 0x7fff * 0x7fff) by (nonlinear_arith)
            requires
                width <= 0x7fff,
                height <= 0x7fff,
        ;
        self.buffer.len() == width * height
    }

    /// The buffer of a scene that covers `tile_rect`: no tile has a depth.
    pub fn new(tile_rect: TileRect) -> (z_buffer: ZBuffer)
        requires
            tile_rect.wf(),
        ensures
            z_buffer.wf(),
            z_buffer.tile_rect == tile_rect,
            forall|cell: int| 0 <= cell < z_buffer.buffer@.len() ==> z_buffer.buffer@[cell] == 0,
    {
        let width: usize = tile_rect.width as usize;
        let height: usize = tile_rect.height as usize;
        assert(width * height <= 0x7fff * 0x7fff) by (nonlinear_arith)
            requires
                width <= 0x7fff,
                height <= 0x7fff,
        ;
        let tile_area: usize = width * height;
        let mut buffer: Vec<usize> = Vec::new();
        let mut cell: usize = 0;
        while cell < tile_area
            invariant
                cell <= tile_area,
                buffer@.len() == cell,
                forall|c: int| 0 <= c < buffer@.len() ==> buffer@[c] == 0,
            decreases tile_area - cell,
        {
            buffer.push(0);
            cell += 1;
        }
        ZBuffer { buffer, tile_rect }
    }

    /// Tells whether the object with the number `object_index` shows in the
    /// scene's tile at `scene_tile_index`: the tile's depth is below that
    /// which the object would give it, so neither the object itself nor one
    /// above it covers the tile whole.
    pub fn test(&self, scene_tile_index: u32, object_index: u32) -> (visible: bool)
        requires
            scene_tile_index < self.buffer@.len(),
        ensures
            visible == (self.buffer@[scene_tile_index as int] < object_index + 1),
    {
        let existing_depth: usize = self.buffer[scene_tile_index as usize];
        (existing_depth as u64) < object_index as u64 + 1
    }

    /// Records that the object with the number `object_index` covers the
    /// tile `(tile_x, tile_y)` whole: the tile's depth rises to that number
    /// and one, unless it is there or above already.
    pub fn update(&mut self, tile_x: i16, tile_y: i16, object_index: u16)
        requires
            old(self).wf(),
            old(self).tile_rect.holds(tile_x as int, tile_y as int),
        ensures
            final(self).tile_rect == old(self).tile_rect,
            final(self).buffer@ == old(self).buffer@.update(
                old(self).tile_rect.index_of(tile_x as int, tile_y as int),
                deeper(
                    old(self).buffer@[old(self).tile_rect.index_of(
                        tile_x as int,
                        tile_y as int,
                    )] as int,
                    object_index + 1,
                ) as usize,
            ),
    {
        let scene_tile_index: usize = scene_tile_index(tile_x, tile_y, self.tile_rect) as usize;
        let old_depth: usize = self.buffer[scene_tile_index];
        let new_depth: usize = object_index as usize + 1;
        if old_depth < new_depth {
            self.buffer[scene_tile_index] = new_depth;
        } else {
            assert(self.buffer@ =~= old(self).buffer@.update(
                scene_tile_index as int,
                old_depth,
            ));
        }
    }

    /// The solid tiles of the scene, row by row: one for each tile that has
    /// a depth, with the shader of the object that the depth names.
    pub fn build_solid_tiles(&self, objects: &Vec<BuiltObject>, tile_rect: &TileRect) -> (solid_tiles:
        Vec<SolidTileScenePrimitive>)
        requires
            tile_rect.wf(),
            tile_rect.area() <= self.buffer@.len(),
            forall|cell: int|
                0 <= cell < tile_rect.area() ==> #[trigger] self.buffer@[cell] <= objects@.len(),
        ensures
            solid_tiles@ == solid_tiles_of(self.buffer@, objects@, *tile_rect, tile_rect.area()),
    {
        let mut solid_tiles: Vec<SolidTileScenePrimitive> = Vec::new();
        let width: i16 = tile_rect.width;
        let height: i16 = tile_rect.height;
        let mut scene_tile_y: i16 = 0;
        while scene_tile_y < height
            invariant
                tile_rect.wf(),
                width == tile_rect.width,
                height == tile_rect.height,
                0 <= scene_tile_y <= height,
                tile_rect.area() <= self.buffer@.len(),
                forall|cell: int|
                    0 <= cell < tile_rect.area() ==> #[trigger] self.buffer@[cell]
                        <= objects@.len(),
                solid_tiles@ == solid_tiles_of(
                    self.buffer@,
                    objects@,
                    *tile_rect,
                    scene_tile_y * width,
                ),
            decreases height - scene_tile_y,
        {
            let mut scene_tile_x: i16 = 0;
            while scene_tile_x < width
                invariant
                    tile_rect.wf(),
                    width == tile_rect.width,
                    height == tile_rect.height,
                    0 <= scene_tile_y < height,
                    0 <= scene_tile_x <= width,
                    tile_rect.area() <= self.buffer@.len(),
                    forall|cell: int|
                        0 <= cell < tile_rect.area() ==> #[trigger] self.buffer@[cell]
                            <= objects@.len(),
                    solid_tiles@ == solid_tiles_of(
                        self.buffer@,
                        objects@,
                        *tile_rect,
                        scene_tile_y * width + scene_tile_x,
                    ),
                decreases width - scene_tile_x,
            {
                proof {
                    lemma_tile_index(
                        *tile_rect,
                        scene_tile_x + tile_rect.origin_x,
                        scene_tile_y + tile_rect.origin_y,
                    );
                }
                assert(scene_tile_y * width <= 0x7fff * 0x7fff) by (nonlinear_arith)
                    requires
                        0 <= scene_tile_y <= 0x7fff,
                        0 <= width <= 0x7fff,
                ;
                let scene_tile_index: usize = scene_tile_y as usize * width as usize
                    + scene_tile_x as usize;
                let depth: usize = self.buffer[scene_tile_index];
                scene_tile_x += 1;
                if depth == 0 {
                    continue ;
                }
                let object_index: usize = depth - 1;
                solid_tiles.push(
                    SolidTileScenePrimitive {
                        tile_x: (scene_tile_x - 1) + tile_rect.origin_x,
                        tile_y: scene_tile_y + tile_rect.origin_y,
                        shader: objects[object_index].shader,
                    },
                );
            }
            assert(scene_tile_y * width + width == (scene_tile_y + 1) * width)
                by (nonlinear_arith);
            scene_tile_y += 1;
        }
        assert(scene_tile_y * width == tile_rect.width as int * tile_rect.height as int)
            by (nonlinear_arith)
            requires
                scene_tile_y == tile_rect.height,
                width == tile_rect.width,
        ;
        solid_tiles
    }
}

/// Culling two objects gives the same depths in either order.
pub proof fn lemma_cull_commutes(
    depths: Seq<usize>,
    first: BuiltObject,
    first_index: int,
    second: BuiltObject,
    second_index: int,
    tile_rect: TileRect,
)
    requires
        0 <= first_index <= u16::MAX,
        0 <= second_index <= u16::MAX,
    ensures
        culled(culled(depths, first, first_index, tile_rect), second, second_index, tile_rect)
            == culled(culled(depths, second, second_index, tile_rect), first, first_index, tile_rect),
{
    assert(culled(culled(depths, first, first_index, tile_rect), second, second_index, tile_rect)
        =~= culled(culled(depths, second, second_index, tile_rect), first, first_index, tile_rect));
}

/// After the objects of a scene were culled into a buffer in which no tile
/// had a depth, the depth of each tile is the greatest that any object gives
/// it: the number, and one, of the topmost object that covers the tile
/// whole, and 0 where none does.
pub proof fn lemma_culled_depths_are_greatest(
    depths: Seq<usize>,
    objects: Seq<BuiltObject>,
    tile_rect: TileRect,
    count: int,
)
    requires
        0 <= count <= objects.len(),
        objects.len() <= u16::MAX + 1,
        forall|cell: int| 0 <= cell < depths.len() ==> depths[cell] == 0,
    ensures
        culled_all(depths, objects, tile_rect, count).len() == depths.len(),
        forall|cell: int|
            0 <= cell < depths.len() ==> #[trigger] culled_all(depths, objects, tile_rect, count)[cell]
                == greatest_depth(objects.take(count), tile_rect, cell),
    decreases count,
{
    if count > 0 {
        lemma_culled_depths_are_greatest(depths, objects, tile_rect, count - 1);
        assert(objects.take(count).drop_last() =~= objects.take(count - 1));
        assert(objects.take(count).last() == objects[count - 1]);
        assert forall|cell: int| 0 <= cell < depths.len() implies #[trigger] culled_all(
            depths,
            objects,
            tile_rect,
            count,
        )[cell] == greatest_depth(objects.take(count), tile_rect, cell) by {
            lemma_greatest_depth(objects.take(count - 1), tile_rect, cell);
        }
    }
}

/// The greatest depth of a tile is 0 where no object covers the tile whole.
/// Else it names an object that covers it, and no object behind that one in
/// the order of the objects covers it.
pub proof fn lemma_greatest_depth(objects: Seq<BuiltObject>, tile_rect: TileRect, cell: int)
    ensures
        0 <= greatest_depth(objects, tile_rect, cell) <= objects.len(),
        greatest_depth(objects, tile_rect, cell) > 0 ==> covers(
            objects[greatest_depth(objects, tile_rect, cell) - 1],
            tile_rect,
            cell,
        ),
        forall|k: int|
            greatest_depth(objects, tile_rect, cell) <= k < objects.len() ==> !covers(
                #[trigger] objects[k],
                tile_rect,
                cell,
            ),
    decreases objects.len(),
{
    if objects.len() > 0 {
        let front = objects.drop_last();
        lemma_greatest_depth(front, tile_rect, cell);
        let depth = greatest_depth(objects, tile_rect, cell);
        if greatest_depth(front, tile_rect, cell) > 0 {
            assert(front[greatest_depth(front, tile_rect, cell) - 1] == objects[greatest_depth(
                front,
                tile_rect,
                cell,
            ) - 1]);
        }
        assert forall|k: int| depth <= k < objects.len() implies !covers(
            #[trigger] objects[k],
            tile_rect,
            cell,
        ) by {
            if k < front.len() {
                assert(front[k] == objects[k]);
            }
        }
    }
}

} // verus!
