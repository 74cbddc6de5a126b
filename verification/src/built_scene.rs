//! What scene assembly hands to the emitter.

use vstd::prelude::*;
use crate::primitives::{
    FillBatchPrimitive, MaskTileBatchPrimitive, ObjectShader, RectBits, SolidTileScenePrimitive,
};

verus! {

/// The most fills that one batch holds.
pub const MAX_FILLS_PER_BATCH: usize = 0x0002_0000;

/// The most mask tiles that one batch holds.
pub const MAX_MASKS_PER_BATCH: u16 = 0xffff;

/// One draw unit: mask tiles, and the fills that give them their coverage.
#[derive(Debug)]
pub struct Batch {
    pub fills: Vec<FillBatchPrimitive>,
    pub mask_tiles: Vec<MaskTileBatchPrimitive>,
}

impl Batch {
    /// A batch that holds nothing.
    pub fn new() -> (batch: Batch)
        ensures
            batch.fills@.len() == 0,
            batch.mask_tiles@.len() == 0,
    {
        Batch { fills: Vec::new(), mask_tiles: Vec::new() }
    }

    /// A batch is empty when it has no mask tile.
    pub fn is_empty(&self) -> (empty: bool)
        ensures
            empty == (self.mask_tiles@.len() == 0),
    {
        self.mask_tiles.len() == 0
    }

    /// Whether the batch is within the two capacities.
    pub open spec fn within_capacity(self) -> bool {
        &&& self.fills@.len() <= MAX_FILLS_PER_BATCH
        &&& self.mask_tiles@.len() <= MAX_MASKS_PER_BATCH
    }
}

/// A scene ready for the emitter.
#[derive(Debug)]
pub struct BuiltScene {
    pub view_box: RectBits,
    pub batches: Vec<Batch>,
    pub solid_tiles: Vec<SolidTileScenePrimitive>,
    pub shaders: Vec<ObjectShader>,
}

impl BuiltScene {
    /// The scene with the given view box and nothing in it.
    pub fn new(view_box: &RectBits) -> (scene: BuiltScene)
        ensures
            scene.view_box == *view_box,
            scene.batches@.len() == 0,
            scene.solid_tiles@.len() == 0,
            scene.shaders@.len() == 0,
    {
        BuiltScene {
            view_box: *view_box,
            batches: Vec::new(),
            solid_tiles: Vec::new(),
            shaders: Vec::new(),
        }
    }
}

} // verus!
