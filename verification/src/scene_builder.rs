//! Scene assembly: the objects' tiles and fills, gathered into batches.

use vstd::prelude::*;
use crate::bitset::bitset_get;
use crate::built_object::BuiltObject;
use crate::built_scene::{Batch, MAX_FILLS_PER_BATCH, MAX_MASKS_PER_BATCH};
use crate::primitives::{
    lemma_tile_in_rect, lemma_tile_index, FillBatchPrimitive, FillObjectPrimitive, MaskTileBatchPrimitive,
    SolidTileScenePrimitive, TileRect,
};
use crate::z_buffer::{scene_tile_index, solid_tiles_of, ZBuffer};

verus! {

/// The mark of a tile that has no mask tile in the batch.
pub const NO_MASK_TILE: u16 = 0xffff;

/// Whether the rectangle `inner` lies within `outer`.
pub open spec fn rect_within(inner: TileRect, outer: TileRect) -> bool {
    inner.lies_within(outer)
}

/// Whether the tile at `t` of `object`, the object with the number
/// `object_index`, is to be drawn from fills: it is not solid, and the depth
/// of its place in the scene is below that which the object would give it.
pub open spec fn shows(
    object: BuiltObject,
    object_index: int,
    depths: Seq<usize>,
    tile_rect: TileRect,
    t: int,
) -> bool {
    &&& !object.solid()[t]
    &&& depths[tile_rect.index_of(object.tiles@[t].tile_x as int, object.tiles@[t].tile_y as int)]
        < object_index + 1
}

/// How many of the first `n` tiles of `object` get a mask tile in a batch
/// that had `taken` mask tiles before: those that show, as long as the batch
/// has room.
pub open spec fn masks_among(
    object: BuiltObject,
    object_index: int,
    depths: Seq<usize>,
    tile_rect: TileRect,
    taken: int,
    n: int,
) -> int
    decreases n,
{
    if n <= 0 {
        0
    } else {
        let before = masks_among(object, object_index, depths, tile_rect, taken, n - 1);
        if shows(object, object_index, depths, tile_rect, n - 1) && taken + before
            < MAX_MASKS_PER_BATCH {
            before + 1
        } else {
            before
        }
    }
}

/// The place in the batch of the mask tile of the tile at `t` of `object`,
/// and `NO_MASK_TILE` where the tile has none.
pub open spec fn mask_index_of(
    object: BuiltObject,
    object_index: int,
    depths: Seq<usize>,
    tile_rect: TileRect,
    taken: int,
    t: int,
) -> int {
    let before = masks_among(object, object_index, depths, tile_rect, taken, t);
    if shows(object, object_index, depths, tile_rect, t) && taken + before < MAX_MASKS_PER_BATCH {
        taken + before
    } else {
        NO_MASK_TILE as int
    }
}

/// The mask tiles that the first `n` tiles of `object` add to a batch that
/// had `taken` mask tiles before.
pub open spec fn mask_tiles_among(
    object: BuiltObject,
    object_index: int,
    depths: Seq<usize>,
    tile_rect: TileRect,
    taken: int,
    n: int,
) -> Seq<MaskTileBatchPrimitive>
    decreases n,
{
    if n <= 0 {
        Seq::empty()
    } else {
        let before = mask_tiles_among(object, object_index, depths, tile_rect, taken, n - 1);
        if mask_index_of(object, object_index, depths, tile_rect, taken, n - 1)
            != NO_MASK_TILE {
            before.push(MaskTileBatchPrimitive { tile: object.tiles@[n - 1], shader: object.shader })
        } else {
            before
        }
    }
}

/// The fill of a batch that holds `fill` for the mask tile at `mask_tile_index`.
pub open spec fn batch_fill(fill: FillObjectPrimitive, mask_tile_index: int)
    -> FillBatchPrimitive {
    FillBatchPrimitive { px: fill.px, subpx: fill.subpx, mask_tile_index: mask_tile_index as u16 }
}

/// The fills that the first `n` fills of `object` add to a batch that had
/// `taken` mask tiles before: each fill whose tile has a mask tile, with the
/// place of that mask tile.
pub open spec fn fills_among(
    object: BuiltObject,
    object_index: int,
    depths: Seq<usize>,
    tile_rect: TileRect,
    taken: int,
    n: int,
) -> Seq<FillBatchPrimitive>
    decreases n,
{
    if n <= 0 {
        Seq::empty()
    } else {
        let before = fills_among(object, object_index, depths, tile_rect, taken, n - 1);
        let fill = object.fills@[n - 1];
        let index = mask_index_of(
            object,
            object_index,
            depths,
            tile_rect,
            taken,
            object.tile_rect.index_of(fill.tile_x as int, fill.tile_y as int),
        );
        if index != NO_MASK_TILE {
            before.push(batch_fill(fill, index))
        } else {
            before
        }
    }
}

/// What a batch holds.
pub struct BatchContent {
    pub fills: Seq<FillBatchPrimitive>,
    pub mask_tiles: Seq<MaskTileBatchPrimitive>,
}

impl Batch {
    /// What the batch holds.
    pub open spec fn content(self) -> BatchContent {
        BatchContent { fills: self.fills@, mask_tiles: self.mask_tiles@ }
    }
}

impl BatchContent {
    /// Whether the batch takes one more object with `fills` fills: the fills
    /// fit, and there is room for a mask tile.
    pub open spec fn admits(self, fills: int) -> bool {
        &&& self.fills.len() + fills <= MAX_FILLS_PER_BATCH
        &&& self.mask_tiles.len() < MAX_MASKS_PER_BATCH
    }

    /// The batch with the mask tiles and fills of `object`.
    pub open spec fn with_object(
        self,
        object: BuiltObject,
        object_index: int,
        depths: Seq<usize>,
        tile_rect: TileRect,
    ) -> BatchContent {
        let taken = self.mask_tiles.len() as int;
        BatchContent {
            fills: self.fills + fills_among(
                object,
                object_index,
                depths,
                tile_rect,
                taken,
                object.fills@.len() as int,
            ),
            mask_tiles: self.mask_tiles + mask_tiles_among(
                object,
                object_index,
                depths,
                tile_rect,
                taken,
                object.tiles@.len() as int,
            ),
        }
    }
}

/// The batch that holds the objects from `start` up to `end`, `end` not
/// counted, in their order.
pub open spec fn batch_of(
    objects: Seq<BuiltObject>,
    depths: Seq<usize>,
    tile_rect: TileRect,
    start: int,
    end: int,
) -> BatchContent
    decreases end - start,
{
    if end <= start {
        BatchContent { fills: Seq::empty(), mask_tiles: Seq::empty() }
    } else {
        batch_of(objects, depths, tile_rect, start, end - 1).with_object(
            objects[end - 1],
            end - 1,
            depths,
            tile_rect,
        )
    }
}

/// Gathers the objects of a scene, in paint order, into batches.
#[derive(Debug)]
pub struct SceneBuilder {
    pub objects: Vec<BuiltObject>,
    pub z_buffer: ZBuffer,
    pub tile_rect: TileRect,
    pub current_object_index: usize,
}

impl SceneBuilder {
    /// The builder is as it keeps itself: the depth buffer is that of the
    /// scene's tiles and names objects of the scene only, and every object is
    /// as tiling keeps it and lies within the scene's tiles.
    pub open spec fn wf(self) -> bool {
        &&& self.tile_rect.wf()
        &&& self.z_buffer.wf()
        &&& self.z_buffer.tile_rect == self.tile_rect
        &&& self.objects@.len() <= u32::MAX
        &&& self.current_object_index <= self.objects@.len()
        &&& forall|cell: int|
            0 <= cell < self.z_buffer.buffer@.len() ==> #[trigger] self.z_buffer.buffer@[cell]
                <= self.objects@.len()
        &&& forall|k: int|
            0 <= k < self.objects@.len() ==> (#[trigger] self.objects@[k]).wf() && rect_within(
                self.objects@[k].tile_rect,
                self.tile_rect,
            )
    }

    /// The batch that holds the objects from `start` up to `end`.
    pub open spec fn batch_between(self, start: int, end: int) -> BatchContent {
        batch_of(self.objects@, self.z_buffer.buffer@, self.tile_rect, start, end)
    }

    /// A builder for the objects of a scene that covers `tile_rect`, with the
    /// depth buffer that tiling filled.
    pub fn new(objects: Vec<BuiltObject>, z_buffer: ZBuffer, tile_rect: TileRect) -> (builder:
        SceneBuilder)
        ensures
            builder.objects == objects,
            builder.z_buffer == z_buffer,
            builder.tile_rect == tile_rect,
            builder.current_object_index == 0,
    {
        SceneBuilder { objects, z_buffer, tile_rect, current_object_index: 0 }
    }

    /// Tells whether the builder is as it keeps itself.
    pub fn is_well_formed(&self) -> (ok: bool)
        ensures
            ok == self.wf(),
    {
        if !self.z_buffer.is_well_formed() || self.z_buffer.tile_rect != self.tile_rect
            || self.objects.len() > 0xffff_ffff || self.current_object_index > self.objects.len() {
            return false;
        }
        let mut cell: usize = 0;
        while cell < self.z_buffer.buffer.len()
            invariant
                cell <= self.z_buffer.buffer@.len(),
                forall|c: int|
                    0 <= c < cell ==> #[trigger] self.z_buffer.buffer@[c] <= self.objects@.len(),
            decreases self.z_buffer.buffer@.len() - cell,
        {
            if self.z_buffer.buffer[cell] > self.objects.len() {
                return false;
            }
            cell += 1;
        }
        let mut k: usize = 0;
        while k < self.objects.len()
            invariant
                k <= self.objects@.len(),
                forall|j: int|
                    0 <= j < k ==> (#[trigger] self.objects@[j]).wf() && rect_within(
                        self.objects@[j].tile_rect,
                        self.tile_rect,
                    ),
            decreases self.objects@.len() - k,
        {
            let object = &self.objects[k];
            if !object.is_well_formed() || !object.tile_rect.is_within(&self.tile_rect) {
                return false;
            }
            k += 1;
        }
        true
    }

    /// The solid tiles of the scene.
    pub fn build_solid_tiles(&self) -> (solid_tiles: Vec<SolidTileScenePrimitive>)
        requires
            self.wf(),
        ensures
            solid_tiles@ == solid_tiles_of(
                self.z_buffer.buffer@,
                self.objects@,
                self.tile_rect,
                self.tile_rect.area(),
            ),
    {
        self.z_buffer.build_solid_tiles(&self.objects, &self.tile_rect)
    }

    /// Builds the next batch. It takes objects in paint order, from the
    /// first that no batch has taken, for as long as the batch admits them:
    /// the next object's fills must fit, and there must be room for a mask
    /// tile. A batch without a mask tile is not handed out.
    pub fn build_batch(&mut self) -> (batch: Option<Batch>)
        requires
            old(self).wf(),
        ensures
            final(self).wf(),
            final(self).objects == old(self).objects,
            final(self).z_buffer == old(self).z_buffer,
            final(self).tile_rect == old(self).tile_rect,
            old(self).current_object_index <= final(self).current_object_index,
            forall|j: int|
                old(self).current_object_index <= j < final(self).current_object_index ==> (
                #[trigger] old(self).batch_between(
                    old(self).current_object_index as int,
                    j,
                )).admits(old(self).objects@[j].fills@.len() as int),
            final(self).current_object_index < old(self).objects@.len() ==> !old(
                self,
            ).batch_between(
                old(self).current_object_index as int,
                final(self).current_object_index as int,
            ).admits(old(self).objects@[final(self).current_object_index as int].fills@.len() as int),
            match batch {
                Some(batch) => batch.content() == old(self).batch_between(
                    old(self).current_object_index as int,
                    final(self).current_object_index as int,
                ) && batch.mask_tiles@.len() > 0 && batch.within_capacity(),
                None => old(self).batch_between(
                    old(self).current_object_index as int,
                    final(self).current_object_index as int,
                ).mask_tiles.len() == 0,
            },
    {
        let mut batch = Batch::new();
        let mut object_tile_index_to_batch_mask_tile_index: Vec<u16> = Vec::new();
        let ghost start = self.current_object_index as int;
        let ghost objects = self.objects@;
        let ghost depths = self.z_buffer.buffer@;
        let ghost tile_rect = self.tile_rect;
        assert(batch.fills@ =~= Seq::<FillBatchPrimitive>::empty());
        assert(batch.mask_tiles@ =~= Seq::<MaskTileBatchPrimitive>::empty());
        while self.current_object_index < self.objects.len()
            invariant
                self.wf(),
                self.objects == old(self).objects,
                self.z_buffer == old(self).z_buffer,
                self.tile_rect == old(self).tile_rect,
                objects == self.objects@,
                depths == self.z_buffer.buffer@,
                tile_rect == self.tile_rect,
                start == old(self).current_object_index,
                start <= self.current_object_index,
                batch.content() == batch_of(
                    objects,
                    depths,
                    tile_rect,
                    start,
                    self.current_object_index as int,
                ),
                batch.within_capacity(),
                forall|j: int|
                    start <= j < self.current_object_index ==> (#[trigger] batch_of(
                        objects,
                        depths,
                        tile_rect,
                        start,
                        j,
                    )).admits(objects[j].fills@.len() as int),
            ensures
                self.current_object_index < objects.len() ==> !batch.content().admits(
                    objects[self.current_object_index as int].fills@.len() as int,
                ),
            decreases self.objects@.len() - self.current_object_index,
        {
            let object = &self.objects[self.current_object_index];
            if object.fills.len() > MAX_FILLS_PER_BATCH - batch.fills.len() {
                break ;
            }
            if batch.mask_tiles.len() >= MAX_MASKS_PER_BATCH as usize {
                break ;
            }
            let ghost taken = batch.mask_tiles@.len() as int;
            let ghost before = batch.content();
            copy_mask_tiles(
                object,
                self.current_object_index as u32,
                &self.z_buffer,
                self.tile_rect,
                &mut batch.mask_tiles,
                &mut object_tile_index_to_batch_mask_tile_index,
            );
            copy_fills(
                object,
                Ghost(self.current_object_index as int),
                Ghost(self.z_buffer.buffer@),
                Ghost(self.tile_rect),
                Ghost(taken),
                &object_tile_index_to_batch_mask_tile_index,
                &mut batch.fills,
            );
            proof {
                lemma_fills_among_length(
                    *object,
                    self.current_object_index as int,
                    self.z_buffer.buffer@,
                    self.tile_rect,
                    taken,
                    object.fills@.len() as int,
                );
                assert(batch.content() == before.with_object(
                    *object,
                    self.current_object_index as int,
                    self.z_buffer.buffer@,
                    self.tile_rect,
                ));
            }
            self.current_object_index += 1;
        }
        if batch.is_empty() {
            None
        } else {
            Some(batch)
        }
    }
}

/// Copies into the batch the mask tiles of the tiles of `object` that show,
/// as long as the batch has room, and notes for each tile of the object the
/// place of its mask tile.
fn copy_mask_tiles(
    object: &BuiltObject,
    object_index: u32,
    z_buffer: &ZBuffer,
    tile_rect: TileRect,
    mask_tiles: &mut Vec<MaskTileBatchPrimitive>,
    places: &mut Vec<u16>,
)
    requires
        object.wf(),
        z_buffer.wf(),
        z_buffer.tile_rect == tile_rect,
        rect_within(object.tile_rect, tile_rect),
        old(mask_tiles)@.len() <= MAX_MASKS_PER_BATCH,
    ensures
        final(mask_tiles)@ == old(mask_tiles)@ + mask_tiles_among(
            *object,
            object_index as int,
            z_buffer.buffer@,
            tile_rect,
            old(mask_tiles)@.len() as int,
            object.tiles@.len() as int,
        ),
        final(mask_tiles)@.len() <= MAX_MASKS_PER_BATCH,
        final(places)@.len() == object.tiles@.len(),
        forall|t: int|
            0 <= t < object.tiles@.len() ==> (#[trigger] final(places)@[t]) == mask_index_of(
                *object,
                object_index as int,
                z_buffer.buffer@,
                tile_rect,
                old(mask_tiles)@.len() as int,
                t,
            ),
{
    let ghost taken = mask_tiles@.len() as int;
    let ghost depths = z_buffer.buffer@;
    let ghost index = object_index as int;
    places.clear();
    let mut n: usize = 0;
    while n < object.tiles.len()
        invariant
            n <= object.tiles@.len(),
            places@.len() == n,
            forall|t: int| 0 <= t < n ==> (#[trigger] places@[t]) == NO_MASK_TILE,
        decreases object.tiles@.len() - n,
    {
        places.push(NO_MASK_TILE);
        n += 1;
    }
    let mut tile_index: usize = 0;
    let mut full: bool = false;
    assert(mask_tiles@ =~= old(mask_tiles)@ + mask_tiles_among(
        *object,
        index,
        depths,
        tile_rect,
        taken,
        0,
    ));
    while tile_index < object.tiles.len() && !full
        invariant
            object.wf(),
            z_buffer.wf(),
            z_buffer.tile_rect == tile_rect,
            rect_within(object.tile_rect, tile_rect),
            depths == z_buffer.buffer@,
            index == object_index,
            taken == old(mask_tiles)@.len(),
            tile_index <= object.tiles@.len(),
            places@.len() == object.tiles@.len(),
            mask_tiles@.len() == taken + masks_among(
                *object,
                index,
                depths,
                tile_rect,
                taken,
                tile_index as int,
            ),
            mask_tiles@.len() <= MAX_MASKS_PER_BATCH,
            full ==> mask_tiles@.len() == MAX_MASKS_PER_BATCH,
            mask_tiles@ == old(mask_tiles)@ + mask_tiles_among(
                *object,
                index,
                depths,
                tile_rect,
                taken,
                tile_index as int,
            ),
            forall|t: int|
                0 <= t < tile_index ==> (#[trigger] places@[t]) == mask_index_of(
                    *object,
                    index,
                    depths,
                    tile_rect,
                    taken,
                    t,
                ),
            forall|t: int|
                tile_index <= t < places@.len() ==> (#[trigger] places@[t]) == NO_MASK_TILE,
        decreases object.tiles@.len() - tile_index + (if full { 0int } else { 1int }),
    {
        let tile = object.tiles[tile_index];
        proof {
            lemma_tile_in_rect(object.tile_rect, tile_index as int);
            lemma_tile_index(tile_rect, tile.tile_x as int, tile.tile_y as int);
        }
        if bitset_get(&object.solid_tiles, tile_index) {
            tile_index += 1;
            continue ;
        }
        let scene_tile_index: u32 = scene_tile_index(tile.tile_x, tile.tile_y, tile_rect);
        if !z_buffer.test(scene_tile_index, object_index) {
            tile_index += 1;
            continue ;
        }
        if mask_tiles.len() >= MAX_MASKS_PER_BATCH as usize {
            full = true;
            continue ;
        }
        let batch_mask_tile_index: u16 = mask_tiles.len() as u16;
        places[tile_index] = batch_mask_tile_index;
        mask_tiles.push(MaskTileBatchPrimitive { tile, shader: object.shader });
        tile_index += 1;
    }
    proof {
        lemma_full_batch_takes_none(
            *object,
            index,
            depths,
            tile_rect,
            taken,
            tile_index as int,
            object.tiles@.len() as int,
        );
        if full {
            assert forall|t: int| 0 <= t < object.tiles@.len() implies (#[trigger] places@[t])
                == mask_index_of(*object, index, depths, tile_rect, taken, t) by {
                if t >= tile_index {
                    lemma_full_batch_takes_none(
                        *object,
                        index,
                        depths,
                        tile_rect,
                        taken,
                        tile_index as int,
                        t,
                    );
                }
            }
        }
    }
}

/// Copies into the batch the fills of `object` whose tiles have a mask tile,
/// each with the place of that mask tile.
fn copy_fills(
    object: &BuiltObject,
    Ghost(object_index): Ghost<int>,
    Ghost(depths): Ghost<Seq<usize>>,
    Ghost(tile_rect): Ghost<TileRect>,
    Ghost(taken): Ghost<int>,
    places: &Vec<u16>,
    fills: &mut Vec<FillBatchPrimitive>,
)
    requires
        object.wf(),
        places@.len() == object.tiles@.len(),
        forall|t: int|
            0 <= t < object.tiles@.len() ==> (#[trigger] places@[t]) == mask_index_of(
                *object,
                object_index,
                depths,
                tile_rect,
                taken,
                t,
            ),
    ensures
        final(fills)@ == old(fills)@ + fills_among(
            *object,
            object_index,
            depths,
            tile_rect,
            taken,
            object.fills@.len() as int,
        ),
{
    let mut n: usize = 0;
    assert(fills@ =~= old(fills)@ + fills_among(
        *object,
        object_index,
        depths,
        tile_rect,
        taken,
        0,
    ));
    while n < object.fills.len()
        invariant
            object.wf(),
            n <= object.fills@.len(),
            places@.len() == object.tiles@.len(),
            forall|t: int|
                0 <= t < object.tiles@.len() ==> (#[trigger] places@[t]) == mask_index_of(
                    *object,
                    object_index,
                    depths,
                    tile_rect,
                    taken,
                    t,
                ),
            fills@ == old(fills)@ + fills_among(
                *object,
                object_index,
                depths,
                tile_rect,
                taken,
                n as int,
            ),
        decreases object.fills@.len() - n,
    {
        let fill = object.fills[n];
        let object_tile_index: u32 = object.tile_coords_to_index(fill.tile_x, fill.tile_y);
        let mask_tile_index: u16 = places[object_tile_index as usize];
        if mask_tile_index < NO_MASK_TILE {
            fills.push(FillBatchPrimitive { px: fill.px, subpx: fill.subpx, mask_tile_index });
        }
        n += 1;
        assert(fills@ =~= old(fills)@ + fills_among(
            *object,
            object_index,
            depths,
            tile_rect,
            taken,
            n as int,
        ));
    }
}

/// Once a batch is full, no further tile of the object gets a mask tile.
proof fn lemma_full_batch_takes_none(
    object: BuiltObject,
    object_index: int,
    depths: Seq<usize>,
    tile_rect: TileRect,
    taken: int,
    from: int,
    to: int,
)
    requires
        0 <= from <= to,
        from < to ==> taken + masks_among(object, object_index, depths, tile_rect, taken, from)
            >= MAX_MASKS_PER_BATCH,
    ensures
        masks_among(object, object_index, depths, tile_rect, taken, to) == masks_among(
            object,
            object_index,
            depths,
            tile_rect,
            taken,
            from,
        ),
        mask_tiles_among(object, object_index, depths, tile_rect, taken, to) == mask_tiles_among(
            object,
            object_index,
            depths,
            tile_rect,
            taken,
            from,
        ),
        from < to ==> mask_index_of(object, object_index, depths, tile_rect, taken, to)
            == NO_MASK_TILE,
    decreases to - from,
{
    if from < to {
        lemma_full_batch_takes_none(object, object_index, depths, tile_rect, taken, from, to - 1);
        if from < to - 1 {
        } else {
        }
    }
}

/// An object adds at most as many fills to a batch as it has.
pub proof fn lemma_fills_among_length(
    object: BuiltObject,
    object_index: int,
    depths: Seq<usize>,
    tile_rect: TileRect,
    taken: int,
    n: int,
)
    requires
        0 <= n,
    ensures
        fills_among(object, object_index, depths, tile_rect, taken, n).len() <= n,
    decreases n,
{
    if n > 0 {
        lemma_fills_among_length(object, object_index, depths, tile_rect, taken, n - 1);
    }
}

} // verus!
