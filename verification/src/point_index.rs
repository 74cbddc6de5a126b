//! Packed addresses of the points of an outline.

use vstd::prelude::*;

verus! {

/// The number of bits that hold the index of a point within its contour.
pub const POINT_BITS: u32 = 20;

/// The largest contour number that a `PointIndex` can hold.
pub const MAX_CONTOUR: u32 = 0xfff;

/// The largest point number that a `PointIndex` can hold.
pub const MAX_POINT: u32 = 0x000f_ffff;

/// The address of one point of an outline: the number of its contour in the
/// upper 12 bits and the number of the point within that contour in the lower
/// 20 bits. The packed words are ordered as the pairs (contour, point) are.
#[derive(Clone, Copy, Debug, PartialEq, Eq, Structural)]
pub struct PointIndex(pub u32);

impl PointIndex {
    /// The contour number held in the upper 12 bits.
    pub open spec fn contour_of(self) -> int {
        self.0 as int / 0x10_0000
    }

    /// The point number held in the lower 20 bits.
    pub open spec fn point_of(self) -> int {
        self.0 as int % 0x10_0000
    }

    /// Packs a contour number and a point number.
    pub fn new(contour: u32, point: u32) -> (index: PointIndex)
        requires
            contour <= MAX_CONTOUR,
            point <= MAX_POINT,
        ensures
            index.0 == contour * 0x10_0000 + point,
            index.contour_of() == contour,
            index.point_of() == point,
    {
        assert((contour << 20u32) | point == contour * 0x10_0000 + point) by (bit_vector)
            requires
                contour <= 0xfffu32,
                point <= 0x000f_ffffu32,
        ;
        PointIndex((contour << POINT_BITS) | point)
    }

    /// The contour number.
    pub fn contour(self) -> (contour: u32)
        ensures
            contour == self.contour_of(),
            contour <= MAX_CONTOUR,
    {
        let word: u32 = self.0;
        assert(word >> 20u32 == word / 0x10_0000u32) by (bit_vector);
        word >> POINT_BITS
    }

    /// The number of the point within its contour.
    pub fn point(self) -> (point: u32)
        ensures
            point == self.point_of(),
            point <= MAX_POINT,
    {
        let word: u32 = self.0;
        assert(word & 0x000f_ffffu32 == word % 0x10_0000u32) by (bit_vector);
        word & MAX_POINT
    }
}

/// Packed indices are ordered lexicographically by contour, then by point.
pub proof fn lemma_point_index_order(a: PointIndex, b: PointIndex)
    ensures
        a.0 < b.0 <==> (a.contour_of() < b.contour_of() || (a.contour_of() == b.contour_of()
            && a.point_of() < b.point_of())),
        a == b <==> (a.contour_of() == b.contour_of() && a.point_of() == b.point_of()),
{
}

} // verus!
