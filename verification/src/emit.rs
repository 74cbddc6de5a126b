//! The container format: a built scene as a sequence of bytes.
//!
//! The layout is chunked, with little-endian integers. An outer `RIFF` header
//! gives the size of all that follows it and the form `PF3S`; then come the
//! chunks `head`, `shad` and `soli`, and one `batc` chunk for each batch, which
//! holds a `fill` and a `mask` chunk.

use vstd::prelude::*;
use byteorder::{LittleEndian, WriteBytesExt};
use crate::built_scene::{Batch, BuiltScene};
use crate::primitives::{
    FillBatchPrimitive, MaskTileBatchPrimitive, ObjectShader, SolidTileScenePrimitive,
};

verus! {

/// The version of the format that is written.
pub const FILE_VERSION: u32 = 0;

/// The size in bytes of the body of the `head` chunk.
pub const HEADER_SIZE: u32 = 24;

/// The two bytes of `n`, the least significant first.
pub open spec fn le_u16(n: u16) -> Seq<u8> {
    seq![(n % 256) as u8, (n / 256) as u8]
}

/// The two bytes of `n` in two's complement, the least significant first.
pub open spec fn le_i16(n: i16) -> Seq<u8> {
    if n < 0 {
        le_u16((n + 0x1_0000) as u16)
    } else {
        le_u16(n as u16)
    }
}

/// The four bytes of `n`, the least significant first.
pub open spec fn le_u32(n: u32) -> Seq<u8> {
    seq![
        (n % 256) as u8,
        (n / 0x100 % 256) as u8,
        (n / 0x1_0000 % 256) as u8,
        (n / 0x100_0000) as u8,
    ]
}

/// A shader record: red, green, blue, alpha.
pub open spec fn shader_bytes(shader: ObjectShader) -> Seq<u8> {
    seq![shader.fill_color.r, shader.fill_color.g, shader.fill_color.b, shader.fill_color.a]
}

/// A solid tile record: column, row, shader.
pub open spec fn solid_tile_bytes(tile: SolidTileScenePrimitive) -> Seq<u8> {
    le_i16(tile.tile_x) + le_i16(tile.tile_y) + le_u16(tile.shader.0)
}

/// A fill record: integer parts, fractional parts, mask tile.
pub open spec fn fill_bytes(fill: FillBatchPrimitive) -> Seq<u8> {
    le_u16(fill.px.0) + le_u32(fill.subpx.0) + le_u16(fill.mask_tile_index)
}

/// A mask tile record: column, row, backdrop, shader.
pub open spec fn mask_tile_bytes(mask: MaskTileBatchPrimitive) -> Seq<u8> {
    le_i16(mask.tile.tile_x) + le_i16(mask.tile.tile_y) + le_i16(mask.tile.backdrop) + le_u16(
        mask.shader.0,
    )
}

/// The shader records one after another.
pub open spec fn shaders_bytes(shaders: Seq<ObjectShader>) -> Seq<u8>
    decreases shaders.len(),
{
    if shaders.len() == 0 {
        Seq::empty()
    } else {
        shaders_bytes(shaders.drop_last()) + shader_bytes(shaders.last())
    }
}

/// The solid tile records one after another.
pub open spec fn solid_tiles_bytes(tiles: Seq<SolidTileScenePrimitive>) -> Seq<u8>
    decreases tiles.len(),
{
    if tiles.len() == 0 {
        Seq::empty()
    } else {
        solid_tiles_bytes(tiles.drop_last()) + solid_tile_bytes(tiles.last())
    }
}

/// The fill records one after another.
pub open spec fn fills_bytes(fills: Seq<FillBatchPrimitive>) -> Seq<u8>
    decreases fills.len(),
{
    if fills.len() == 0 {
        Seq::empty()
    } else {
        fills_bytes(fills.drop_last()) + fill_bytes(fills.last())
    }
}

/// The mask tile records one after another.
pub open spec fn mask_tiles_bytes(masks: Seq<MaskTileBatchPrimitive>) -> Seq<u8>
    decreases masks.len(),
{
    if masks.len() == 0 {
        Seq::empty()
    } else {
        mask_tiles_bytes(masks.drop_last()) + mask_tile_bytes(masks.last())
    }
}

/// The size in bytes of the body of the `fill` chunk of a batch.
pub open spec fn fills_size(batch: Batch) -> int {
    8 * (batch.fills@.len() as int)
}

/// The size in bytes of the body of the `mask` chunk of a batch.
pub open spec fn mask_tiles_size(batch: Batch) -> int {
    8 * (batch.mask_tiles@.len() as int)
}

/// The size in bytes of the body of the `batc` chunk of a batch: its two
/// chunks with their headers.
pub open spec fn batch_size(batch: Batch) -> int {
    8 + fills_size(batch) + 8 + mask_tiles_size(batch)
}

/// The size in bytes of the `batc` chunks of the batches, headers included.
pub open spec fn batches_size(batches: Seq<Batch>) -> int
    decreases batches.len(),
{
    if batches.len() == 0 {
        0
    } else {
        batches_size(batches.drop_last()) + 8 + batch_size(batches.last())
    }
}

/// The `batc` chunk of a batch.
pub open spec fn batch_bytes(batch: Batch) -> Seq<u8> {
    seq![0x62u8, 0x61, 0x74, 0x63] + le_u32(batch_size(batch) as u32)
        + seq![0x66u8, 0x69, 0x6c, 0x6c] + le_u32(fills_size(batch) as u32)
        + fills_bytes(batch.fills@)
        + seq![0x6du8, 0x61, 0x73, 0x6b] + le_u32(mask_tiles_size(batch) as u32)
        + mask_tiles_bytes(batch.mask_tiles@)
}

/// The `batc` chunks of the batches one after another.
pub open spec fn batches_bytes(batches: Seq<Batch>) -> Seq<u8>
    decreases batches.len(),
{
    if batches.len() == 0 {
        Seq::empty()
    } else {
        batches_bytes(batches.drop_last()) + batch_bytes(batches.last())
    }
}

impl BuiltScene {
    /// The size that the outer header states: the number of bytes that
    /// follow it.
    pub open spec fn riff_size(self) -> int {
        4 + 8 + HEADER_SIZE + 8 + 6 * self.solid_tiles@.len() + 8 + 4 * self.shaders@.len()
            + batches_size(self.batches@)
    }

    /// The outer header and the `head` chunk.
    pub open spec fn preamble_bytes(self) -> Seq<u8> {
        seq![0x52u8, 0x49, 0x46, 0x46] + le_u32(self.riff_size() as u32)
            + seq![0x50u8, 0x46, 0x33, 0x53]
            + seq![0x68u8, 0x65, 0x61, 0x64] + le_u32(HEADER_SIZE) + le_u32(FILE_VERSION)
            + le_u32(self.batches@.len() as u32)
            + le_u32(self.view_box.x) + le_u32(self.view_box.y)
            + le_u32(self.view_box.width) + le_u32(self.view_box.height)
    }

    /// The `shad` chunk.
    pub open spec fn shaders_chunk(self) -> Seq<u8> {
        seq![0x73u8, 0x68, 0x61, 0x64] + le_u32((4 * self.shaders@.len()) as u32)
            + shaders_bytes(self.shaders@)
    }

    /// The `soli` chunk.
    pub open spec fn solid_tiles_chunk(self) -> Seq<u8> {
        seq![0x73u8, 0x6f, 0x6c, 0x69] + le_u32((6 * self.solid_tiles@.len()) as u32)
            + solid_tiles_bytes(self.solid_tiles@)
    }

    /// The scene in the container format.
    pub open spec fn bytes(self) -> Seq<u8> {
        self.preamble_bytes() + self.shaders_chunk() + self.solid_tiles_chunk() + batches_bytes(
            self.batches@,
        )
    }
}

/// `byteorder::WriteBytesExt::write_u16::<LittleEndian>` on a vector of
/// bytes: the two bytes of `n` are appended, the least significant first.
/// Writing to a vector does not fail.
#[verifier::external_body]
fn write_u16_le(out: &mut Vec<u8>, n: u16)
    ensures
        final(out)@ == old(out)@ + le_u16(n),
{
    let _ = out.write_u16::<LittleEndian>(n);
}

/// `byteorder::WriteBytesExt::write_i16::<LittleEndian>` on a vector of
/// bytes: the two bytes of `n` in two's complement are appended, the least
/// significant first. Writing to a vector does not fail.
#[verifier::external_body]
fn write_i16_le(out: &mut Vec<u8>, n: i16)
    ensures
        final(out)@ == old(out)@ + le_i16(n),
{
    let _ = out.write_i16::<LittleEndian>(n);
}

/// `byteorder::WriteBytesExt::write_u32::<LittleEndian>` on a vector of
/// bytes: the four bytes of `n` are appended, the least significant first.
/// Writing to a vector does not fail.
#[verifier::external_body]
fn write_u32_le(out: &mut Vec<u8>, n: u32)
    ensures
        final(out)@ == old(out)@ + le_u32(n),
{
    let _ = out.write_u32::<LittleEndian>(n);
}

/// Appends the four bytes of a chunk's name.
fn write_tag(out: &mut Vec<u8>, a: u8, b: u8, c: u8, d: u8)
    ensures
        final(out)@ == old(out)@ + seq![a, b, c, d],
{
    out.push(a);
    out.push(b);
    out.push(c);
    out.push(d);
    assert(out@ =~= old(out)@ + seq![a, b, c, d]);
}

fn write_shaders(out: &mut Vec<u8>, shaders: &Vec<ObjectShader>)
    ensures
        final(out)@ == old(out)@ + shaders_bytes(shaders@),
{
    let mut i: usize = 0;
    assert(out@ =~= old(out)@ + shaders_bytes(shaders@.take(0)));
    while i < shaders.len()
        invariant
            i <= shaders@.len(),
            out@ == old(out)@ + shaders_bytes(shaders@.take(i as int)),
        decreases shaders@.len() - i,
    {
        let color = shaders[i].fill_color;
        let ghost before = out@;
        out.push(color.r);
        out.push(color.g);
        out.push(color.b);
        out.push(color.a);
        proof {
            let next = shaders@.take(i + 1);
            assert(next.drop_last() =~= shaders@.take(i as int));
            assert(next.last() == shaders@[i as int]);
            assert(out@ =~= before + shader_bytes(shaders@[i as int]));
            assert(out@ =~= old(out)@ + shaders_bytes(next));
        }
        i += 1;
    }
    assert(shaders@.take(i as int) =~= shaders@);
}

fn write_solid_tiles(out: &mut Vec<u8>, tiles: &Vec<SolidTileScenePrimitive>)
    ensures
        final(out)@ == old(out)@ + solid_tiles_bytes(tiles@),
{
    let mut i: usize = 0;
    assert(out@ =~= old(out)@ + solid_tiles_bytes(tiles@.take(0)));
    while i < tiles.len()
        invariant
            i <= tiles@.len(),
            out@ == old(out)@ + solid_tiles_bytes(tiles@.take(i as int)),
        decreases tiles@.len() - i,
    {
        let tile = tiles[i];
        let ghost before = out@;
        write_i16_le(out, tile.tile_x);
        write_i16_le(out, tile.tile_y);
        write_u16_le(out, tile.shader.0);
        proof {
            let next = tiles@.take(i + 1);
            assert(next.drop_last() =~= tiles@.take(i as int));
            assert(next.last() == tiles@[i as int]);
            assert(out@ =~= before + solid_tile_bytes(tiles@[i as int]));
            assert(out@ =~= old(out)@ + solid_tiles_bytes(next));
        }
        i += 1;
    }
    assert(tiles@.take(i as int) =~= tiles@);
}

fn write_fills(out: &mut Vec<u8>, fills: &Vec<FillBatchPrimitive>)
    ensures
        final(out)@ == old(out)@ + fills_bytes(fills@),
{
    let mut i: usize = 0;
    assert(out@ =~= old(out)@ + fills_bytes(fills@.take(0)));
    while i < fills.len()
        invariant
            i <= fills@.len(),
            out@ == old(out)@ + fills_bytes(fills@.take(i as int)),
        decreases fills@.len() - i,
    {
        let fill = fills[i];
        let ghost before = out@;
        write_u16_le(out, fill.px.0);
        write_u32_le(out, fill.subpx.0);
        write_u16_le(out, fill.mask_tile_index);
        proof {
            let next = fills@.take(i + 1);
            assert(next.drop_last() =~= fills@.take(i as int));
            assert(next.last() == fills@[i as int]);
            assert(out@ =~= before + fill_bytes(fills@[i as int]));
            assert(out@ =~= old(out)@ + fills_bytes(next));
        }
        i += 1;
    }
    assert(fills@.take(i as int) =~= fills@);
}

fn write_mask_tiles(out: &mut Vec<u8>, masks: &Vec<MaskTileBatchPrimitive>)
    ensures
        final(out)@ == old(out)@ + mask_tiles_bytes(masks@),
{
    let mut i: usize = 0;
    assert(out@ =~= old(out)@ + mask_tiles_bytes(masks@.take(0)));
    while i < masks.len()
        invariant
            i <= masks@.len(),
            out@ == old(out)@ + mask_tiles_bytes(masks@.take(i as int)),
        decreases masks@.len() - i,
    {
        let mask = masks[i];
        let ghost before = out@;
        write_i16_le(out, mask.tile.tile_x);
        write_i16_le(out, mask.tile.tile_y);
        write_i16_le(out, mask.tile.backdrop);
        write_u16_le(out, mask.shader.0);
        proof {
            let next = masks@.take(i + 1);
            assert(next.drop_last() =~= masks@.take(i as int));
            assert(next.last() == masks@[i as int]);
            assert(out@ =~= before + mask_tile_bytes(masks@[i as int]));
            assert(out@ =~= old(out)@ + mask_tiles_bytes(next));
        }
        i += 1;
    }
    assert(masks@.take(i as int) =~= masks@);
}

fn write_batch(out: &mut Vec<u8>, batch: &Batch)
    requires
        batch_size(*batch) <= u32::MAX,
    ensures
        final(out)@ == old(out)@ + batch_bytes(*batch),
{
    let fills_len: usize = batch.fills.len();
    let masks_len: usize = batch.mask_tiles.len();
    let fills: u32 = (fills_len * 8) as u32;
    let masks: u32 = (masks_len * 8) as u32;
    write_tag(out, 0x62, 0x61, 0x74, 0x63);
    write_u32_le(out, 8 + fills + 8 + masks);
    write_tag(out, 0x66, 0x69, 0x6c, 0x6c);
    write_u32_le(out, fills);
    write_fills(out, &batch.fills);
    write_tag(out, 0x6d, 0x61, 0x73, 0x6b);
    write_u32_le(out, masks);
    write_mask_tiles(out, &batch.mask_tiles);
    assert(out@ =~= old(out)@ + batch_bytes(*batch));
}

/// Every batch adds to the size of the batches.
pub proof fn lemma_batches_size_grows(batches: Seq<Batch>, n: int)
    requires
        0 <= n <= batches.len(),
    ensures
        0 <= batches_size(batches.take(n)) <= batches_size(batches),
        n < batches.len() ==> batches_size(batches.take(n + 1)) == batches_size(batches.take(n))
            + 8 + batch_size(batches[n]),
        n < batches.len() ==> batches_size(batches.take(n + 1)) <= batches_size(batches),
        24 * n <= batches_size(batches.take(n)),
    decreases batches.len() - n,
{
    if n < batches.len() {
        assert(batches.take(n + 1).drop_last() =~= batches.take(n));
        assert(batches.take(n + 1).last() == batches[n]);
        lemma_batches_size_grows(batches, n + 1);
        lemma_batches_size_prefix(batches.take(n));
    } else {
        assert(batches.take(n) =~= batches);
        lemma_batches_size_prefix(batches);
    }
}

/// The batches take at least 24 bytes each.
pub proof fn lemma_batches_size_prefix(batches: Seq<Batch>)
    ensures
        24 * batches.len() <= batches_size(batches),
    decreases batches.len(),
{
    if batches.len() > 0 {
        lemma_batches_size_prefix(batches.drop_last());
    }
}

impl BuiltScene {
    /// The size that the outer header would state, where 32 bits hold it.
    pub fn size(&self) -> (size: Option<u32>)
        ensures
            size == if self.riff_size() <= u32::MAX {
                Some(self.riff_size() as u32)
            } else {
                None::<u32>
            },
    {
        let limit: u64 = 0xffff_ffff;
        if self.solid_tiles.len() > 0x4000_0000 || self.shaders.len() > 0x4000_0000 {
            proof {
                lemma_batches_size_prefix(self.batches@);
            }
            return None;
        }
        let mut total: u64 = 4 + 8 + 24 + 8 + 6 * (self.solid_tiles.len() as u64) + 8 + 4 * (
        self.shaders.len() as u64);
        if total > limit {
            proof {
                lemma_batches_size_prefix(self.batches@);
            }
            return None;
        }
        let mut i: usize = 0;
        assert(self.batches@.take(0) =~= Seq::<Batch>::empty());
        while i < self.batches.len()
            invariant
                i <= self.batches@.len(),
                total == 4 + 8 + 24 + 8 + 6 * self.solid_tiles@.len() + 8 + 4
                    * self.shaders@.len() + batches_size(self.batches@.take(i as int)),
                total <= limit,
                limit == 0xffff_ffff,
            decreases self.batches@.len() - i,
        {
            proof {
                lemma_batches_size_grows(self.batches@, i as int);
            }
            let batch = &self.batches[i];
            if batch.fills.len() > 0x2000_0000 || batch.mask_tiles.len() > 0x2000_0000 {
                return None;
            }
            total = total + 8 + 8 + 8 * (batch.fills.len() as u64) + 8 + 8 * (
            batch.mask_tiles.len() as u64);
            if total > limit {
                return None;
            }
            i += 1;
        }
        assert(self.batches@.take(i as int) =~= self.batches@);
        if total > limit {
            None
        } else {
            Some(total as u32)
        }
    }

    /// The size in bytes of all the `batc` chunks.
    fn total_batch_sizes(&self) -> (total: u32)
        requires
            self.riff_size() <= u32::MAX,
        ensures
            total == batches_size(self.batches@),
    {
        let mut total: u32 = 0;
        let mut i: usize = 0;
        assert(self.batches@.take(0) =~= Seq::<Batch>::empty());
        while i < self.batches.len()
            invariant
                i <= self.batches@.len(),
                self.riff_size() <= u32::MAX,
                total == batches_size(self.batches@.take(i as int)),
            decreases self.batches@.len() - i,
        {
            proof {
                lemma_batches_size_grows(self.batches@, i as int);
            }
            let batch = &self.batches[i];
            let fills: u32 = (batch.fills.len() * 8) as u32;
            let masks: u32 = (batch.mask_tiles.len() * 8) as u32;
            total = total + 8 + (8 + fills + 8 + masks);
            i += 1;
        }
        assert(self.batches@.take(i as int) =~= self.batches@);
        total
    }

    fn write_preamble(&self, out: &mut Vec<u8>)
        requires
            self.riff_size() <= u32::MAX,
        ensures
            final(out)@ == old(out)@ + self.preamble_bytes(),
    {
        proof {
            lemma_batches_size_prefix(self.batches@);
        }
        let solid_tiles_size: u32 = (self.solid_tiles.len() * 6) as u32;
        let shaders_size: u32 = (self.shaders.len() * 4) as u32;
        let total_batch_sizes: u32 = self.total_batch_sizes();
        write_tag(out, 0x52, 0x49, 0x46, 0x46);
        write_u32_le(
            out,
            4 + 8 + HEADER_SIZE + 8 + solid_tiles_size + 8 + shaders_size + total_batch_sizes,
        );
        write_tag(out, 0x50, 0x46, 0x33, 0x53);
        let ghost riff = out@;
        assert(riff =~= old(out)@ + (seq![0x52u8, 0x49, 0x46, 0x46] + le_u32(
            self.riff_size() as u32,
        ) + seq![0x50u8, 0x46, 0x33, 0x53]));
        write_tag(out, 0x68, 0x65, 0x61, 0x64);
        write_u32_le(out, HEADER_SIZE);
        write_u32_le(out, FILE_VERSION);
        write_u32_le(out, self.batches.len() as u32);
        let ghost head = out@;
        assert(head =~= riff + (seq![0x68u8, 0x65, 0x61, 0x64] + le_u32(HEADER_SIZE) + le_u32(
            FILE_VERSION,
        ) + le_u32(self.batches@.len() as u32)));
        write_u32_le(out, self.view_box.x);
        write_u32_le(out, self.view_box.y);
        write_u32_le(out, self.view_box.width);
        write_u32_le(out, self.view_box.height);
        assert(out@ =~= head + (le_u32(self.view_box.x) + le_u32(self.view_box.y) + le_u32(
            self.view_box.width,
        ) + le_u32(self.view_box.height)));
        assert(out@ =~= old(out)@ + self.preamble_bytes());
    }

    fn write_shaders_chunk(&self, out: &mut Vec<u8>)
        requires
            self.riff_size() <= u32::MAX,
        ensures
            final(out)@ == old(out)@ + self.shaders_chunk(),
    {
        proof {
            lemma_batches_size_prefix(self.batches@);
        }
        write_tag(out, 0x73, 0x68, 0x61, 0x64);
        write_u32_le(out, (self.shaders.len() * 4) as u32);
        write_shaders(out, &self.shaders);
        assert(out@ =~= old(out)@ + self.shaders_chunk());
    }

    fn write_solid_tiles_chunk(&self, out: &mut Vec<u8>)
        requires
            self.riff_size() <= u32::MAX,
        ensures
            final(out)@ == old(out)@ + self.solid_tiles_chunk(),
    {
        proof {
            lemma_batches_size_prefix(self.batches@);
        }
        write_tag(out, 0x73, 0x6f, 0x6c, 0x69);
        write_u32_le(out, (self.solid_tiles.len() * 6) as u32);
        write_solid_tiles(out, &self.solid_tiles);
        assert(out@ =~= old(out)@ + self.solid_tiles_chunk());
    }

    fn write_batches(&self, out: &mut Vec<u8>)
        requires
            self.riff_size() <= u32::MAX,
        ensures
            final(out)@ == old(out)@ + batches_bytes(self.batches@),
    {
        proof {
            lemma_batches_size_prefix(self.batches@);
        }
        let mut j: usize = 0;
        assert(out@ =~= old(out)@ + batches_bytes(self.batches@.take(0)));
        while j < self.batches.len()
            invariant
                j <= self.batches@.len(),
                self.riff_size() <= u32::MAX,
                out@ == old(out)@ + batches_bytes(self.batches@.take(j as int)),
            decreases self.batches@.len() - j,
        {
            proof {
                lemma_batches_size_grows(self.batches@, j as int);
                let next = self.batches@.take(j + 1);
                assert(next.drop_last() =~= self.batches@.take(j as int));
                assert(next.last() == self.batches@[j as int]);
            }
            write_batch(out, &self.batches[j]);
            assert(out@ =~= old(out)@ + batches_bytes(self.batches@.take(j + 1)));
            j += 1;
        }
        assert(self.batches@.take(j as int) =~= self.batches@);
    }

    /// Appends the scene in the container format to `out`.
    pub fn write(&self, out: &mut Vec<u8>)
        requires
            self.riff_size() <= u32::MAX,
        ensures
            final(out)@ == old(out)@ + self.bytes(),
    {
        self.write_preamble(out);
        self.write_shaders_chunk(out);
        self.write_solid_tiles_chunk(out);
        self.write_batches(out);
        assert(out@ =~= old(out)@ + self.bytes());
    }
}

} // verus!
