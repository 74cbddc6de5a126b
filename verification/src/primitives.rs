//! The records that tiling produces and batching consumes.

use vstd::prelude::*;

verus! {

/// The width of a tile, in pixels.
pub const TILE_WIDTH: u32 = 16;

/// The height of a tile, in pixels.
pub const TILE_HEIGHT: u32 = 16;

/// An opaque colour, eight bits a channel.
#[derive(Clone, Copy, Debug, PartialEq, Eq, Hash, Structural)]
pub struct ColorU {
    pub r: u8,
    pub g: u8,
    pub b: u8,
    pub a: u8,
}

impl ColorU {
    /// Opaque black.
    pub fn black() -> (color: ColorU)
        ensures
            color == (ColorU { r: 0, g: 0, b: 0, a: 255 }),
    {
        ColorU { r: 0, g: 0, b: 0, a: 255 }
    }

    /// The opaque colour with the given channels of an SVG colour.
    pub fn from_svg_color(red: u8, green: u8, blue: u8) -> (color: ColorU)
        ensures
            color == (ColorU { r: red, g: green, b: blue, a: 255 }),
    {
        ColorU { r: red, g: green, b: blue, a: 255 }
    }
}

/// The number of a shader: the place of an object's paint in the scene's
/// list of shaders.
#[derive(Clone, Copy, Debug, PartialEq, Eq, Structural)]
pub struct ShaderId(pub u16);

/// What a shader does: it fills with one colour.
#[derive(Clone, Copy, Debug, PartialEq, Eq, Structural)]
pub struct ObjectShader {
    pub fill_color: ColorU,
}

/// The integer parts of the four coordinates of a fill, one nibble each:
/// from.x in bits 0 to 3, from.y in bits 4 to 7, to.x in bits 8 to 11 and to.y
/// in bits 12 to 15.
#[derive(Clone, Copy, Debug, PartialEq, Eq, Structural)]
pub struct LineSegmentU4(pub u16);

/// The fractional parts of the four coordinates of a fill, one byte each, in
/// the order from.x, from.y, to.x, to.y from the least significant byte.
#[derive(Clone, Copy, Debug, PartialEq, Eq, Structural)]
pub struct LineSegmentU8(pub u32);

/// A fill as an object holds it: the quantized segment and the tile it is in.
#[derive(Clone, Copy, Debug, PartialEq, Eq, Structural)]
pub struct FillObjectPrimitive {
    pub px: LineSegmentU4,
    pub subpx: LineSegmentU8,
    pub tile_x: i16,
    pub tile_y: i16,
}

/// One tile of an object, with the winding number that covers it from the
/// left.
#[derive(Clone, Copy, Debug, PartialEq, Eq, Structural)]
pub struct TileObjectPrimitive {
    pub tile_x: i16,
    pub tile_y: i16,
    pub backdrop: i16,
}

impl TileObjectPrimitive {
    /// The tile at the given place, with no backdrop.
    pub fn new(tile_x: i16, tile_y: i16) -> (tile: TileObjectPrimitive)
        ensures
            tile == (TileObjectPrimitive { tile_x, tile_y, backdrop: 0 }),
    {
        TileObjectPrimitive { tile_x, tile_y, backdrop: 0 }
    }
}

/// A fill as a batch holds it: the quantized segment and the place of its
/// mask tile in the batch.
#[derive(Clone, Copy, Debug, PartialEq, Eq, Structural)]
pub struct FillBatchPrimitive {
    pub px: LineSegmentU4,
    pub subpx: LineSegmentU8,
    pub mask_tile_index: u16,
}

/// A tile of the scene that one opaque object covers whole.
#[derive(Clone, Copy, Debug, PartialEq, Eq, Structural)]
pub struct SolidTileScenePrimitive {
    pub tile_x: i16,
    pub tile_y: i16,
    pub shader: ShaderId,
}

/// A tile of a batch whose coverage comes from fills.
#[derive(Clone, Copy, Debug, PartialEq, Eq, Structural)]
pub struct MaskTileBatchPrimitive {
    pub tile: TileObjectPrimitive,
    pub shader: ShaderId,
}

/// A rectangle of the plane: origin and size, each as the bit pattern of an
/// IEEE 754 single-precision number. The library stores the four words and
/// writes them out; it never reads a number out of them.
#[derive(Clone, Copy, Debug, PartialEq, Eq, Structural)]
pub struct RectBits {
    pub x: u32,
    pub y: u32,
    pub width: u32,
    pub height: u32,
}

/// A rectangle of tiles: its first column and row, and how many columns and
/// rows it has. It holds the tiles `(x, y)` with
/// `origin_x <= x < origin_x + width` and `origin_y <= y < origin_y + height`.
#[derive(Clone, Copy, Debug, PartialEq, Eq, Structural)]
pub struct TileRect {
    pub origin_x: i16,
    pub origin_y: i16,
    pub width: i16,
    pub height: i16,
}

impl TileRect {
    /// A rectangle is proper when neither side is negative and its far
    /// corner is a tile coordinate.
    pub open spec fn wf(self) -> bool {
        &&& self.width >= 0
        &&& self.height >= 0
        &&& self.origin_x + self.width <= i16::MAX
        &&& self.origin_y + self.height <= i16::MAX
    }

    /// The number of tiles in the rectangle.
    pub open spec fn area(self) -> int {
        self.width as int * self.height as int
    }

    /// Whether the rectangle holds the tile `(tile_x, tile_y)`.
    pub open spec fn holds(self, tile_x: int, tile_y: int) -> bool {
        &&& self.origin_x <= tile_x < self.origin_x + self.width
        &&& self.origin_y <= tile_y < self.origin_y + self.height
    }

    /// The place of the tile `(tile_x, tile_y)` when the rectangle's tiles
    /// are counted row by row.
    pub open spec fn index_of(self, tile_x: int, tile_y: int) -> int {
        (tile_y - self.origin_y) * self.width + (tile_x - self.origin_x)
    }

    /// The column just right of the rectangle.
    pub fn max_x(&self) -> (x: i16)
        requires
            self.wf(),
        ensures
            x == self.origin_x + self.width,
    {
        self.origin_x + self.width
    }

    /// The row just below the rectangle.
    pub fn max_y(&self) -> (y: i16)
        requires
            self.wf(),
        ensures
            y == self.origin_y + self.height,
    {
        self.origin_y + self.height
    }

    /// Whether the rectangle lies within `outer`.
    pub open spec fn lies_within(self, outer: TileRect) -> bool {
        &&& outer.origin_x <= self.origin_x
        &&& outer.origin_y <= self.origin_y
        &&& self.origin_x + self.width <= outer.origin_x + outer.width
        &&& self.origin_y + self.height <= outer.origin_y + outer.height
    }

    /// Tells whether the rectangle is proper.
    pub fn is_proper(&self) -> (proper: bool)
        ensures
            proper == self.wf(),
    {
        self.width >= 0 && self.height >= 0 && self.origin_x as i32 + self.width as i32
            <= i16::MAX as i32 && self.origin_y as i32 + self.height as i32 <= i16::MAX as i32
    }

    /// Tells whether the rectangle lies within `outer`.
    pub fn is_within(&self, outer: &TileRect) -> (within: bool)
        ensures
            within == self.lies_within(*outer),
    {
        outer.origin_x <= self.origin_x && outer.origin_y <= self.origin_y && self.origin_x as i32
            + self.width as i32 <= outer.origin_x as i32 + outer.width as i32
            && self.origin_y as i32 + self.height as i32 <= outer.origin_y as i32
            + outer.height as i32
    }

    /// Tells whether the rectangle holds the tile `(tile_x, tile_y)`.
    pub fn contains(&self, tile_x: i16, tile_y: i16) -> (inside: bool)
        requires
            self.wf(),
        ensures
            inside == self.holds(tile_x as int, tile_y as int),
    {
        self.origin_x <= tile_x && tile_x < self.origin_x + self.width && self.origin_y <= tile_y
            && tile_y < self.origin_y + self.height
    }
}

/// Within a proper rectangle the row-major index of a tile it holds is below
/// the rectangle's area, and two tiles it holds share an index only if they
/// are the same tile.
pub proof fn lemma_tile_index(rect: TileRect, tile_x: int, tile_y: int)
    requires
        rect.wf(),
        rect.holds(tile_x, tile_y),
    ensures
        0 <= rect.index_of(tile_x, tile_y) < rect.area(),
        rect.index_of(tile_x, tile_y) % (rect.width as int) == tile_x - rect.origin_x,
        rect.index_of(tile_x, tile_y) / (rect.width as int) == tile_y - rect.origin_y,
{
    let w = rect.width as int;
    let h = rect.height as int;
    let row = tile_y - rect.origin_y;
    let col = tile_x - rect.origin_x;
    assert(row * w + col < h * w) by (nonlinear_arith)
        requires
            0 <= row < h,
            0 <= col < w,
    ;
    assert(0 <= row * w + col) by (nonlinear_arith)
        requires
            0 <= row,
            0 <= col,
            0 < w,
    ;
    vstd::arithmetic::div_mod::lemma_fundamental_div_mod_converse(row * w + col, w, row, col);
}

/// The tile at `index` of an object's tiles lies in the object's rectangle,
/// at the place that its index gives.
pub proof fn lemma_tile_in_rect(rect: TileRect, index: int)
    requires
        rect.wf(),
        0 <= index < rect.area(),
    ensures
        rect.width > 0,
        rect.holds(rect.origin_x + index % (rect.width as int), rect.origin_y + index / (
        rect.width as int)),
        rect.index_of(
            rect.origin_x + index % (rect.width as int),
            rect.origin_y + index / (rect.width as int),
        ) == index,
{
    let w = rect.width as int;
    let h = rect.height as int;
    assert(w > 0) by (nonlinear_arith)
        requires
            0 <= index < w * h,
            w >= 0,
    ;
    vstd::arithmetic::div_mod::lemma_fundamental_div_mod(index, w);
    vstd::arithmetic::div_mod::lemma_div_pos_is_pos(index, w);
    assert(index / w < h) by (nonlinear_arith)
        requires
            0 <= index < w * h,
            w > 0,
            index == w * (index / w) + index % w,
            0 <= index % w < w,
    ;
    assert((index / w) * w == w * (index / w)) by (nonlinear_arith);
}

/// `a` divided by 16, rounded towards 0.
pub open spec fn towards_zero_16(a: int) -> int {
    if a >= 0 {
        a / 16
    } else {
        -((-a) / 16)
    }
}

/// The least rectangle of tiles that holds a rectangle of the plane, by
/// the whole pixels that hold it: `floor_x` and `floor_y` are its least
/// coordinates rounded down, `ceil_max_x` and `ceil_max_y` its greatest
/// rounded up. The first tile is that of the least pixel, the division by
/// the tile size rounded towards 0; the far corner is the greatest pixel
/// and the tile size less one, divided in the same way.
pub open spec fn tile_bounds(floor_x: int, floor_y: int, ceil_max_x: int, ceil_max_y: int)
    -> (int, int, int, int) {
    let origin_x = towards_zero_16(floor_x);
    let origin_y = towards_zero_16(floor_y);
    let extent_x = towards_zero_16(ceil_max_x + 15);
    let extent_y = towards_zero_16(ceil_max_y + 15);
    (origin_x, origin_y, extent_x - origin_x, extent_y - origin_y)
}

/// The rectangle of tiles that holds a rectangle of the plane.
pub fn round_rect_out_to_tile_bounds(floor_x: i32, floor_y: i32, ceil_max_x: i32, ceil_max_y: i32)
    -> (tile_rect: TileRect)
    requires
        ceil_max_x + 15 <= i32::MAX,
        ceil_max_y + 15 <= i32::MAX,
        ({
            let (x, y, width, height) = tile_bounds(
                floor_x as int,
                floor_y as int,
                ceil_max_x as int,
                ceil_max_y as int,
            );
            &&& i16::MIN <= x <= i16::MAX
            &&& i16::MIN <= y <= i16::MAX
            &&& i16::MIN <= x + width <= i16::MAX
            &&& i16::MIN <= y + height <= i16::MAX
            &&& i16::MIN <= width <= i16::MAX
            &&& i16::MIN <= height <= i16::MAX
        }),
    ensures
        (tile_rect.origin_x as int, tile_rect.origin_y as int, tile_rect.width as int,
            tile_rect.height as int) == tile_bounds(
            floor_x as int,
            floor_y as int,
            ceil_max_x as int,
            ceil_max_y as int,
        ),
{
    let origin_x: i16 = divide_by_tile_size(floor_x) as i16;
    let origin_y: i16 = divide_by_tile_size(floor_y) as i16;
    let extent_x: i16 = divide_by_tile_size(ceil_max_x + 15) as i16;
    let extent_y: i16 = divide_by_tile_size(ceil_max_y + 15) as i16;
    TileRect { origin_x, origin_y, width: extent_x - origin_x, height: extent_y - origin_y }
}

/// The tile that the pixel `pixel` counts to: `pixel` divided by the tile
/// size, rounded towards 0.
pub fn pixel_to_tile(pixel: i32) -> (tile: i32)
    ensures
        tile == towards_zero_16(pixel as int),
{
    divide_by_tile_size(pixel)
}

/// The tile behind the last that pixels below `pixel` count to: `pixel` and
/// the tile size less one, divided by the tile size, rounded towards 0.
pub fn pixel_to_tile_up(pixel: i32) -> (tile: i32)
    requires
        pixel + 15 <= i32::MAX,
    ensures
        tile == towards_zero_16(pixel + 15),
{
    divide_by_tile_size(pixel + 15)
}

/// `a` divided by the tile size, rounded towards 0.
fn divide_by_tile_size(a: i32) -> (quotient: i32)
    ensures
        quotient == towards_zero_16(a as int),
{
    if a >= 0 {
        a / 16
    } else if a == i32::MIN {
        -0x0800_0000
    } else {
        -((-a) / 16)
    }
}

} // verus!
