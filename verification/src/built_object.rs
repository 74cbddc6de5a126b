//! What tiling makes of one path: its tiles, its fills, and which of its
//! tiles no fill touches.

use vstd::prelude::*;
use fixedbitset::FixedBitSet;
use crate::bitset::{
    bits_of, bitset_get, bitset_insert_all, bitset_len, bitset_set, bitset_with_capacity,
};
use crate::primitives::{
    lemma_tile_in_rect, lemma_tile_index, FillObjectPrimitive, LineSegmentU4, LineSegmentU8, RectBits, ShaderId,
    TileObjectPrimitive, TileRect,
};

verus! {

/// The number of subpixel units in the side of a tile: 16 pixels of 256
/// units each.
pub const TILE_UNITS: i32 = 4096;

/// The greatest coordinate within a tile that a fill can hold: 15 pixels and
/// 255 units.
pub const MAX_TILE_LOCAL: i32 = 0x0fff;

/// A line segment in subpixel units: each coordinate is a pixel coordinate
/// scaled by 256 and rounded to an integer.
#[derive(Clone, Copy, Debug, PartialEq, Eq, Structural)]
pub struct SubpixelSegment {
    pub from_x: i32,
    pub from_y: i32,
    pub to_x: i32,
    pub to_y: i32,
}

/// `value` brought into 32 bits by wrapping round.
pub open spec fn wrapped(value: int) -> int {
    if value > i32::MAX {
        value - 0x1_0000_0000
    } else if value < i32::MIN {
        value + 0x1_0000_0000
    } else {
        value
    }
}

/// A coordinate relative to the origin of the tile `tile`: the origin is
/// subtracted, wrapping round, and what is above the greatest coordinate of a
/// tile is brought down to it. What is below 0 stays as it is.
pub open spec fn tile_local(coordinate: i32, tile: i16) -> int {
    let moved = wrapped(coordinate - tile * TILE_UNITS);
    if moved < MAX_TILE_LOCAL {
        moved
    } else {
        MAX_TILE_LOCAL as int
    }
}

/// The 32 bits of a coordinate read as a number without sign.
pub open spec fn unsigned(coordinate: int) -> int {
    if coordinate < 0 {
        coordinate + 0x1_0000_0000
    } else {
        coordinate
    }
}

/// Bits 8 to 11 of a coordinate: its whole pixels.
pub open spec fn pixel_part(coordinate: int) -> int {
    unsigned(coordinate) / 256 % 16
}

/// Bits 0 to 7 of a coordinate: its fraction of a pixel.
pub open spec fn subpixel_part(coordinate: int) -> int {
    unsigned(coordinate) % 256
}

/// The fill that holds `segment` in the tile `(tile_x, tile_y)`: the four
/// coordinates relative to the tile, their whole pixels packed into `px`,
/// a nibble each, and their fractions into `subpx`, a byte each, in the order
/// from.x, from.y, to.x, to.y from the least significant end.
pub open spec fn fill_of(segment: SubpixelSegment, tile_x: i16, tile_y: i16)
    -> FillObjectPrimitive {
    let from_x = tile_local(segment.from_x, tile_x);
    let from_y = tile_local(segment.from_y, tile_y);
    let to_x = tile_local(segment.to_x, tile_x);
    let to_y = tile_local(segment.to_y, tile_y);
    FillObjectPrimitive {
        px: LineSegmentU4(
            (pixel_part(from_x) + 0x10 * pixel_part(from_y) + 0x100 * pixel_part(to_x) + 0x1000
                * pixel_part(to_y)) as u16,
        ),
        subpx: LineSegmentU8(
            (subpixel_part(from_x) + 0x100 * subpixel_part(from_y) + 0x1_0000 * subpixel_part(
                to_x,
            ) + 0x100_0000 * subpixel_part(to_y)) as u32,
        ),
        tile_x,
        tile_y,
    }
}

/// The horizontal segment on the top edge of the row `tile_y` that an active
/// fill with the given winding lays between `left` and `right`: from left to
/// right for a negative winding, from right to left for any other.
pub open spec fn active_segment(left: i32, right: i32, winding: i16, tile_y: i16)
    -> SubpixelSegment {
    let y = (tile_y * TILE_UNITS) as i32;
    if winding < 0 {
        SubpixelSegment { from_x: left, from_y: y, to_x: right, to_y: y }
    } else {
        SubpixelSegment { from_x: right, from_y: y, to_x: left, to_y: y }
    }
}

/// How often an active fill with the given winding lays its segment.
pub open spec fn magnitude(winding: i16) -> nat {
    if winding < 0 {
        (-winding) as nat
    } else {
        winding as nat
    }
}

/// The tiles and fills of one path.
#[derive(Debug)]
pub struct BuiltObject {
    pub bounds: RectBits,
    pub tile_rect: TileRect,
    pub tiles: Vec<TileObjectPrimitive>,
    pub fills: Vec<FillObjectPrimitive>,
    pub solid_tiles: FixedBitSet,
    pub shader: ShaderId,
}

impl BuiltObject {
    /// Which tiles are solid, by their place in `tiles`.
    pub open spec fn solid(self) -> Seq<bool> {
        bits_of(self.solid_tiles)
    }

    /// The tiles are those of the rectangle, row by row, and there is a
    /// solid bit for each.
    pub open spec fn has_tiles(self) -> bool {
        &&& self.tile_rect.wf()
        &&& self.tiles@.len() == self.tile_rect.area()
        &&& self.solid().len() == self.tiles@.len()
        &&& forall|i: int|
            0 <= i < self.tiles@.len() ==> (#[trigger] self.tiles@[i]).tile_x
                == self.tile_rect.origin_x + i % (self.tile_rect.width as int)
                && self.tiles@[i].tile_y == self.tile_rect.origin_y + i / (
            self.tile_rect.width as int)
    }

    /// Every fill lies in a tile of the rectangle, and that tile is not
    /// solid.
    pub open spec fn fills_clear_tiles(self) -> bool {
        forall|k: int|
            0 <= k < self.fills@.len() ==> {
                let fill = #[trigger] self.fills@[k];
                &&& self.tile_rect.holds(fill.tile_x as int, fill.tile_y as int)
                &&& !self.solid()[self.tile_rect.index_of(fill.tile_x as int, fill.tile_y as int)]
            }
    }

    /// The object is as tiling keeps it.
    pub open spec fn wf(self) -> bool {
        &&& self.has_tiles()
        &&& self.fills_clear_tiles()
    }

    /// Whether the tile at `index` is covered whole by the path's interior:
    /// it is solid and its backdrop is not 0.
    pub open spec fn opaque_at(self, index: int) -> bool {
        self.solid()[index] && self.tiles@[index].backdrop != 0
    }

    /// The object of a path that covers `tile_rect`, before tiling: every
    /// tile is solid and has no backdrop, and there is no fill.
    pub fn new(bounds: &RectBits, tile_rect: TileRect, shader: ShaderId) -> (object: BuiltObject)
        requires
            tile_rect.wf(),
        ensures
            object.wf(),
            object.bounds == *bounds,
            object.tile_rect == tile_rect,
            object.shader == shader,
            object.fills@.len() == 0,
            forall|i: int| 0 <= i < object.tiles@.len() ==> #[trigger] object.solid()[i],
            forall|i: int|
                0 <= i < object.tiles@.len() ==> (#[trigger] object.tiles@[i]).backdrop == 0,
    {
        let width: usize = tile_rect.width as usize;
        let height: usize = tile_rect.height as usize;
        assert(width * height <= 0x7fff * 0x7fff) by (nonlinear_arith)
            requires
                width <= 0x7fff,
                height <= 0x7fff,
        ;
        let tile_count: usize = width * height;
        let mut tiles: Vec<TileObjectPrimitive> = Vec::with_capacity(tile_count);
        let max_x: i16 = tile_rect.max_x();
        let max_y: i16 = tile_rect.max_y();
        let mut y: i16 = tile_rect.origin_y;
        while y < max_y
            invariant
                tile_rect.wf(),
                width == tile_rect.width,
                max_x == tile_rect.origin_x + tile_rect.width,
                max_y == tile_rect.origin_y + tile_rect.height,
                tile_rect.origin_y <= y <= max_y,
                tiles@.len() == (y - tile_rect.origin_y) * width,
                forall|i: int|
                    0 <= i < tiles@.len() ==> (#[trigger] tiles@[i]).tile_x == tile_rect.origin_x
                        + i % (width as int) && tiles@[i].tile_y == tile_rect.origin_y + i / (
                    width as int) && tiles@[i].backdrop == 0,
            decreases max_y - y,
        {
            let mut x: i16 = tile_rect.origin_x;
            let ghost row = (y - tile_rect.origin_y) as int;
            while x < max_x
                invariant
                    tile_rect.wf(),
                    width == tile_rect.width,
                    max_x == tile_rect.origin_x + tile_rect.width,
                    tile_rect.origin_y <= y < max_y,
                    max_y == tile_rect.origin_y + tile_rect.height,
                    row == y - tile_rect.origin_y,
                    tile_rect.origin_x <= x <= max_x,
                    tiles@.len() == row * width + (x - tile_rect.origin_x),
                    forall|i: int|
                        0 <= i < tiles@.len() ==> (#[trigger] tiles@[i]).tile_x
                            == tile_rect.origin_x + i % (width as int) && tiles@[i].tile_y
                            == tile_rect.origin_y + i / (width as int) && tiles@[i].backdrop == 0,
                decreases max_x - x,
            {
                proof {
                    lemma_tile_index(tile_rect, x as int, y as int);
                }
                tiles.push(TileObjectPrimitive::new(x, y));
                x += 1;
            }
            assert(row * width + width == (row + 1) * width) by (nonlinear_arith);
            y += 1;
        }
        assert(tiles@.len() == tile_count) by (nonlinear_arith)
            requires
                tiles@.len() == (y - tile_rect.origin_y) * width,
                y - tile_rect.origin_y == height,
                tile_count == width * height,
        ;
        let mut solid_tiles = bitset_with_capacity(tile_count);
        bitset_insert_all(&mut solid_tiles);
        BuiltObject { bounds: *bounds, tile_rect, tiles, fills: Vec::new(), solid_tiles, shader }
    }

    /// Tells whether the object is as tiling keeps it.
    pub fn is_well_formed(&self) -> (ok: bool)
        ensures
            ok == self.wf(),
    {
        if !self.has_its_tiles() {
            return false;
        }
        let mut k: usize = 0;
        while k < self.fills.len()
            invariant
                self.has_tiles(),
                k <= self.fills@.len(),
                forall|j: int|
                    0 <= j < k ==> {
                        let fill = #[trigger] self.fills@[j];
                        &&& self.tile_rect.holds(fill.tile_x as int, fill.tile_y as int)
                        &&& !self.solid()[self.tile_rect.index_of(
                            fill.tile_x as int,
                            fill.tile_y as int,
                        )]
                    },
            decreases self.fills@.len() - k,
        {
            let fill = self.fills[k];
            if !self.tile_rect.contains(fill.tile_x, fill.tile_y) {
                return false;
            }
            let index: u32 = self.tile_coords_to_index(fill.tile_x, fill.tile_y);
            if bitset_get(&self.solid_tiles, index as usize) {
                return false;
            }
            k += 1;
        }
        true
    }

    /// Tells whether the tiles are those of the rectangle, row by row, with
    /// a solid bit for each.
    fn has_its_tiles(&self) -> (ok: bool)
        ensures
            ok == self.has_tiles(),
    {
        let rect = self.tile_rect;
        if !rect.is_proper() {
            return false;
        }
        let width: usize = rect.width as usize;
        let height: usize = rect.height as usize;
        assert(width * height <= 0x7fff * 0x7fff) by (nonlinear_arith)
            requires
                width <= 0x7fff,
                height <= 0x7fff,
        ;
        let count: usize = width * height;
        if self.tiles.len() != count || bitset_len(&self.solid_tiles) != count {
            return false;
        }
        assert(count == 0 || (width > 0 && height > 0)) by (nonlinear_arith)
            requires
                count == width * height,
        ;
        let mut i: usize = 0;
        let mut column: i16 = 0;
        let mut row: i16 = 0;
        while i < count
            invariant
                rect == self.tile_rect,
                rect.wf(),
                width == rect.width,
                height == rect.height,
                count == rect.area(),
                self.tiles@.len() == count,
                i <= count,
                0 <= column < width || i == count,
                0 <= row,
                i < count ==> row < height,
                i == row * width + column,
                forall|j: int|
                    0 <= j < i ==> (#[trigger] self.tiles@[j]).tile_x == rect.origin_x + j % (
                    width as int) && self.tiles@[j].tile_y == rect.origin_y + j / (width as int),
            decreases count - i,
        {
            proof {
                lemma_tile_in_rect(rect, i as int);
                lemma_tile_index(rect, rect.origin_x + column, rect.origin_y + row);
            }
            let tile = self.tiles[i];
            if tile.tile_x != rect.origin_x + column || tile.tile_y != rect.origin_y + row {
                return false;
            }
            i += 1;
            if column as usize + 1 == width {
                assert(row * width + width == (row + 1) * width) by (nonlinear_arith);
                column = 0;
                row += 1;
                assert(i < count ==> row < height) by (nonlinear_arith)
                    requires
                        i == row * width,
                        count == width * height,
                        width > 0,
                ;
            } else {
                column += 1;
            }
        }
        true
    }

    /// Adds the fill that holds `segment` in the tile `(tile_x, tile_y)`,
    /// and with it the tile stops being solid.
    pub fn add_fill(&mut self, segment: &SubpixelSegment, tile_x: i16, tile_y: i16)
        requires
            old(self).wf(),
            old(self).tile_rect.holds(tile_x as int, tile_y as int),
        ensures
            final(self).wf(),
            final(self).fills@ == old(self).fills@.push(fill_of(*segment, tile_x, tile_y)),
            final(self).solid() == old(self).solid().update(
                old(self).tile_rect.index_of(tile_x as int, tile_y as int),
                false,
            ),
            final(self).tiles@ == old(self).tiles@,
            final(self).tile_rect == old(self).tile_rect,
            final(self).bounds == old(self).bounds,
            final(self).shader == old(self).shader,
    {
        let from_x: u32 = local_bits(segment.from_x, tile_x);
        let from_y: u32 = local_bits(segment.from_y, tile_y);
        let to_x: u32 = local_bits(segment.to_x, tile_x);
        let to_y: u32 = local_bits(segment.to_y, tile_y);
        let px = LineSegmentU4(pack_nibbles(from_x, from_y, to_x, to_y));
        let subpx = LineSegmentU8(pack_bytes(from_x, from_y, to_x, to_y));
        let tile_index: u32 = self.tile_coords_to_index(tile_x, tile_y);
        proof {
            lemma_tile_index(self.tile_rect, tile_x as int, tile_y as int);
        }
        self.fills.push(FillObjectPrimitive { px, subpx, tile_x, tile_y });
        bitset_set(&mut self.solid_tiles, tile_index as usize, false);
        proof {
            assert forall|k: int| 0 <= k < self.fills@.len() implies {
                let fill = #[trigger] self.fills@[k];
                &&& self.tile_rect.holds(fill.tile_x as int, fill.tile_y as int)
                &&& !self.solid()[self.tile_rect.index_of(fill.tile_x as int, fill.tile_y as int)]
            } by {
                let fill = self.fills@[k];
                if k < old(self).fills@.len() {
                    assert(fill == old(self).fills@[k]);
                    lemma_tile_index(self.tile_rect, fill.tile_x as int, fill.tile_y as int);
                }
            }
        }
    }

    /// Lays an active fill: the horizontal segment between `left` and
    /// `right`, in subpixel units, on the top edge of the tile
    /// `(tile_x, tile_y)`, once for each unit of the winding's magnitude.
    pub fn add_active_fill(
        &mut self,
        left: i32,
        right: i32,
        winding: i16,
        tile_x: i16,
        tile_y: i16,
    )
        requires
            old(self).wf(),
            old(self).tile_rect.holds(tile_x as int, tile_y as int),
        ensures
            final(self).wf(),
            final(self).fills@ == old(self).fills@ + Seq::new(
                magnitude(winding),
                |i: int| fill_of(active_segment(left, right, winding, tile_y), tile_x, tile_y),
            ),
            final(self).solid() == if winding == 0 {
                old(self).solid()
            } else {
                old(self).solid().update(
                    old(self).tile_rect.index_of(tile_x as int, tile_y as int),
                    false,
                )
            },
            final(self).tiles@ == old(self).tiles@,
            final(self).tile_rect == old(self).tile_rect,
            final(self).bounds == old(self).bounds,
            final(self).shader == old(self).shader,
    {
        let tile_origin_y: i32 = (tile_y as i32) * TILE_UNITS;
        let segment = if winding < 0 {
            SubpixelSegment { from_x: left, from_y: tile_origin_y, to_x: right, to_y: tile_origin_y }
        } else {
            SubpixelSegment { from_x: right, from_y: tile_origin_y, to_x: left, to_y: tile_origin_y }
        };
        let ghost fill = fill_of(segment, tile_x, tile_y);
        let ghost index = self.tile_rect.index_of(tile_x as int, tile_y as int);
        proof {
            lemma_tile_index(self.tile_rect, tile_x as int, tile_y as int);
        }
        let mut winding_left: i16 = winding;
        let ghost mut laid: nat = 0;
        assert(self.fills@ =~= old(self).fills@ + Seq::new(laid, |i: int| fill));
        while winding_left != 0
            invariant
                self.wf(),
                self.tile_rect.holds(tile_x as int, tile_y as int),
                index == self.tile_rect.index_of(tile_x as int, tile_y as int),
                0 <= index < old(self).solid().len(),
                fill == fill_of(segment, tile_x, tile_y),
                laid + magnitude(winding_left) == magnitude(winding),
                self.fills@ == old(self).fills@ + Seq::new(laid, |i: int| fill),
                self.solid() == if laid == 0 {
                    old(self).solid()
                } else {
                    old(self).solid().update(index, false)
                },
                self.tiles@ == old(self).tiles@,
                self.tile_rect == old(self).tile_rect,
                self.bounds == old(self).bounds,
                self.shader == old(self).shader,
            decreases magnitude(winding_left),
        {
            let ghost solid = self.solid();
            self.add_fill(&segment, tile_x, tile_y);
            if winding_left < 0 {
                winding_left += 1
            } else {
                winding_left -= 1
            }
            proof {
                assert(solid.update(index, false) =~= old(self).solid().update(index, false));
                laid = laid + 1;
                assert(self.fills@ =~= old(self).fills@ + Seq::new(laid, |i: int| fill));
            }
        }
    }

    /// The place of the tile `(tile_x, tile_y)` in `tiles`.
    pub fn tile_coords_to_index(&self, tile_x: i16, tile_y: i16) -> (index: u32)
        requires
            self.tile_rect.wf(),
            self.tile_rect.holds(tile_x as int, tile_y as int),
        ensures
            index == self.tile_rect.index_of(tile_x as int, tile_y as int),
            index < self.tile_rect.area(),
    {
        proof {
            lemma_tile_index(self.tile_rect, tile_x as int, tile_y as int);
        }
        let row: u32 = (tile_y as i32 - self.tile_rect.origin_y as i32) as u32;
        let column: u32 = (tile_x as i32 - self.tile_rect.origin_x as i32) as u32;
        let width: u32 = self.tile_rect.width as u32;
        assert(row * width <= 0x7fff * 0x7fff) by (nonlinear_arith)
            requires
                row <= 0x7fff,
                width <= 0x7fff,
        ;
        row * width + column
    }

    /// The tile `(tile_x, tile_y)`, to be changed in place.
    pub fn get_tile_mut(&mut self, tile_x: i16, tile_y: i16) -> (tile: &mut TileObjectPrimitive)
        requires
            old(self).has_tiles(),
            old(self).tile_rect.holds(tile_x as int, tile_y as int),
        ensures
            *tile == old(self).tiles@[old(self).tile_rect.index_of(tile_x as int, tile_y as int)],
            final(self).tiles@ == old(self).tiles@.update(
                old(self).tile_rect.index_of(tile_x as int, tile_y as int),
                *final(tile),
            ),
            final(self).fills@ == old(self).fills@,
            final(self).solid_tiles == old(self).solid_tiles,
            final(self).tile_rect == old(self).tile_rect,
            final(self).bounds == old(self).bounds,
            final(self).shader == old(self).shader,
    {
        let tile_index: u32 = self.tile_coords_to_index(tile_x, tile_y);
        &mut self.tiles[tile_index as usize]
    }
}

/// The 32 bits of a coordinate relative to its tile.
fn local_bits(coordinate: i32, tile: i16) -> (bits: u32)
    ensures
        bits == unsigned(tile_local(coordinate, tile)),
{
    let origin: i32 = (tile as i32) * TILE_UNITS;
    let moved: i32 = coordinate.wrapping_sub(origin);
    let local: i32 = if moved < MAX_TILE_LOCAL {
        moved
    } else {
        MAX_TILE_LOCAL
    };
    if local < 0 {
        (local as i64 + 0x1_0000_0000) as u32
    } else {
        local as u32
    }
}

/// Packs bits 8 to 11 of four words into 16 bits, the first word lowest.
fn pack_nibbles(a: u32, b: u32, c: u32, d: u32) -> (packed: u16)
    ensures
        packed == (a / 256 % 16) + 0x10 * (b / 256 % 16) + 0x100 * (c / 256 % 16) + 0x1000 * (d
            / 256 % 16),
{
    let packed: u32 = ((a >> 8) & 0xf) | (((b >> 8) & 0xf) << 4) | (((c >> 8) & 0xf) << 8) | (((d
        >> 8) & 0xf) << 12);
    assert(packed == (a / 256 % 16) + 0x10 * (b / 256 % 16) + 0x100 * (c / 256 % 16) + 0x1000 * (d
        / 256 % 16) && packed <= 0xffff) by (bit_vector)
        requires
            packed == ((a >> 8) & 0xf) | (((b >> 8) & 0xf) << 4) | (((c >> 8) & 0xf) << 8) | (((d
                >> 8) & 0xf) << 12),
    ;
    packed as u16
}

/// Packs bits 0 to 7 of four words into 32 bits, the first word lowest.
fn pack_bytes(a: u32, b: u32, c: u32, d: u32) -> (packed: u32)
    ensures
        packed == (a % 256) + 0x100 * (b % 256) + 0x1_0000 * (c % 256) + 0x100_0000 * (d % 256),
{
    let packed: u32 = (a & 0xff) | ((b & 0xff) << 8) | ((c & 0xff) << 16) | ((d & 0xff) << 24);
    assert(packed == (a % 256) + 0x100 * (b % 256) + 0x1_0000 * (c % 256) + 0x100_0000 * (d
        % 256)) by (bit_vector)
        requires
            packed == (a & 0xff) | ((b & 0xff) << 8) | ((c & 0xff) << 16) | ((d & 0xff) << 24),
    ;
    packed
}

/// An object as tiling keeps it has a tile for each place of its
/// rectangle, and every fill lies in one of them, which is not solid.
pub proof fn lemma_fills_lie_in_tiles_that_are_not_solid(object: BuiltObject)
    requires
        object.wf(),
    ensures
        object.tiles@.len() == object.tile_rect.width * object.tile_rect.height,
        forall|k: int|
            0 <= k < object.fills@.len() ==> {
                let fill = #[trigger] object.fills@[k];
                let index = object.tile_rect.index_of(fill.tile_x as int, fill.tile_y as int);
                &&& 0 <= index < object.tiles@.len()
                &&& object.tiles@[index].tile_x == fill.tile_x
                &&& object.tiles@[index].tile_y == fill.tile_y
                &&& !object.solid()[index]
            },
{
    assert forall|k: int| 0 <= k < object.fills@.len() implies {
        let fill = #[trigger] object.fills@[k];
        let index = object.tile_rect.index_of(fill.tile_x as int, fill.tile_y as int);
        &&& 0 <= index < object.tiles@.len()
        &&& object.tiles@[index].tile_x == fill.tile_x
        &&& object.tiles@[index].tile_y == fill.tile_y
        &&& !object.solid()[index]
    } by {
        let fill = object.fills@[k];
        lemma_tile_index(object.tile_rect, fill.tile_x as int, fill.tile_y as int);
    }
}

} // verus!
