//! The walk along one strip: which tiles the winding number covers whole, and
//! where active fills are laid.
//!
//! The edges that cross the top of a strip are met by rising `x`. Between
//! two of them the winding number is constant. A tile that lies whole
//! between two edges gets that number as its backdrop; in a tile that an
//! edge enters, an active fill carries the number up to the edge.

use vstd::prelude::*;
use crate::built_object::{active_segment, fill_of, magnitude, BuiltObject, TILE_UNITS};
use crate::primitives::{
    lemma_tile_in_rect, lemma_tile_index, FillObjectPrimitive, TileObjectPrimitive,
};
use crate::sweep_order::ActiveEdge;

verus! {

/// Where the walk along a strip stands: the tile it is in, how far into that
/// tile it has come, as an ordinate, and the winding number of what lies
/// between the last edge and the next.
#[derive(Clone, Copy, Debug, PartialEq, Eq, Structural)]
pub struct StripCursor {
    pub current_tile_x: i16,
    pub current_subtile_x: i32,
    pub current_winding: i16,
}

/// The tiles with the backdrop `winding` in the tiles of the row `tile_y`
/// from the column `from_x` up to the column `to_x`, `to_x` not counted.
pub open spec fn with_backdrops(
    tiles: Seq<TileObjectPrimitive>,
    from_x: int,
    to_x: int,
    tile_y: int,
    winding: i16,
) -> Seq<TileObjectPrimitive> {
    Seq::new(
        tiles.len(),
        |i: int|
            if tiles[i].tile_y == tile_y && from_x <= tiles[i].tile_x < to_x {
                TileObjectPrimitive {
                    tile_x: tiles[i].tile_x,
                    tile_y: tiles[i].tile_y,
                    backdrop: winding,
                }
            } else {
                tiles[i]
            },
    )
}

/// The fills that an active fill lays.
pub open spec fn active_fills(left: i32, right: i32, winding: i16, tile_x: i16, tile_y: i16)
    -> Seq<FillObjectPrimitive> {
    Seq::new(
        magnitude(winding),
        |i: int| fill_of(active_segment(left, right, winding, tile_y), tile_x, tile_y),
    )
}

impl StripCursor {
    /// Whether the walk has to finish the tile it is in before it can go on
    /// to the tile `segment_tile_x`: that tile lies farther right, and the
    /// walk has come some way into its own.
    pub open spec fn finishes_tile(self, segment_tile_x: i16) -> bool {
        self.current_tile_x < segment_tile_x && self.current_subtile_x > 0
    }

    /// The first tile that the walk covers whole on its way to the tile
    /// `segment_tile_x`.
    pub open spec fn first_whole_tile(self, segment_tile_x: i16) -> int {
        if self.finishes_tile(segment_tile_x) {
            self.current_tile_x + 1
        } else {
            self.current_tile_x as int
        }
    }

    /// Where the walk stands once it has come to the tile `segment_tile_x`.
    pub open spec fn moved_to(self, segment_tile_x: i16) -> StripCursor {
        if self.current_tile_x < segment_tile_x {
            StripCursor {
                current_tile_x: segment_tile_x,
                current_subtile_x: 0,
                current_winding: self.current_winding,
            }
        } else {
            self
        }
    }

    /// The walk at the left end of a strip whose first tile is in the column
    /// `origin_x`.
    pub fn new(origin_x: i16) -> (cursor: StripCursor)
        ensures
            cursor == (StripCursor {
                current_tile_x: origin_x,
                current_subtile_x: 0,
                current_winding: 0,
            }),
    {
        StripCursor { current_tile_x: origin_x, current_subtile_x: 0, current_winding: 0 }
    }

    /// Brings the walk to the tile `segment_tile_x`, the tile in which the
    /// next edge enters the strip `tile_y`. Where that tile lies farther
    /// right: if the walk has come some way into its own tile, an active fill
    /// is laid from `current_x`, where the walk stands, in subpixel units, to
    /// the right edge of that tile; then every tile up to `segment_tile_x`
    /// gets the winding number as its backdrop.
    pub fn advance_to(
        &mut self,
        built_object: &mut BuiltObject,
        segment_tile_x: i16,
        current_x: i32,
        tile_y: i16,
    )
        requires
            old(built_object).wf(),
            old(self).current_tile_x < segment_tile_x ==> {
                &&& old(built_object).tile_rect.holds(
                    old(self).current_tile_x as int,
                    tile_y as int,
                )
                &&& segment_tile_x <= old(built_object).tile_rect.origin_x + old(
                    built_object,
                ).tile_rect.width
            },
        ensures
            *final(self) == old(self).moved_to(segment_tile_x),
            final(built_object).wf(),
            final(built_object).fills@ == if old(self).finishes_tile(segment_tile_x) {
                old(built_object).fills@ + active_fills(
                    current_x,
                    ((old(self).current_tile_x + 1) * TILE_UNITS) as i32,
                    old(self).current_winding,
                    old(self).current_tile_x,
                    tile_y,
                )
            } else {
                old(built_object).fills@
            },
            final(built_object).solid() == if old(self).finishes_tile(segment_tile_x) && old(
                self,
            ).current_winding != 0 {
                old(built_object).solid().update(
                    old(built_object).tile_rect.index_of(
                        old(self).current_tile_x as int,
                        tile_y as int,
                    ),
                    false,
                )
            } else {
                old(built_object).solid()
            },
            final(built_object).tiles@ == with_backdrops(
                old(built_object).tiles@,
                old(self).first_whole_tile(segment_tile_x),
                segment_tile_x as int,
                tile_y as int,
                old(self).current_winding,
            ),
            final(built_object).tile_rect == old(built_object).tile_rect,
            final(built_object).bounds == old(built_object).bounds,
            final(built_object).shader == old(built_object).shader,
    {
        let ghost rect = built_object.tile_rect;
        let ghost tiles = built_object.tiles@;
        let ghost first = self.first_whole_tile(segment_tile_x);
        let winding: i16 = self.current_winding;
        if self.current_tile_x >= segment_tile_x {
            assert(built_object.tiles@ =~= with_backdrops(
                tiles,
                first,
                segment_tile_x as int,
                tile_y as int,
                winding,
            ));
            return ;
        }
        if self.current_subtile_x > 0 {
            let tile_right_x: i32 = (self.current_tile_x as i32 + 1) * TILE_UNITS;
            built_object.add_active_fill(
                current_x,
                tile_right_x,
                winding,
                self.current_tile_x,
                tile_y,
            );
            self.current_tile_x += 1;
            self.current_subtile_x = 0;
        }
        assert(built_object.tiles@ =~= with_backdrops(
            tiles,
            first,
            self.current_tile_x as int,
            tile_y as int,
            winding,
        ));
        let ghost laid = built_object.fills@;
        let ghost cleared = built_object.solid();
        while self.current_tile_x < segment_tile_x
            invariant
                built_object.wf(),
                built_object.fills@ == laid,
                built_object.solid() == cleared,
                built_object.bounds == old(built_object).bounds,
                built_object.shader == old(built_object).shader,
                built_object.tile_rect == rect,
                rect == old(built_object).tile_rect,
                tiles == old(built_object).tiles@,
                first <= self.current_tile_x,
                rect.origin_x <= first,
                rect.origin_y <= tile_y < rect.origin_y + rect.height,
                segment_tile_x <= rect.origin_x + rect.width,
                self.current_winding == winding,
                old(self).current_tile_x < segment_tile_x,
                self.current_tile_x <= segment_tile_x,
                self.current_subtile_x <= 0 || self.current_tile_x < segment_tile_x,
                built_object.tiles@ == with_backdrops(
                    tiles,
                    first,
                    self.current_tile_x as int,
                    tile_y as int,
                    winding,
                ),
            decreases segment_tile_x - self.current_tile_x,
        {
            let ghost index = rect.index_of(self.current_tile_x as int, tile_y as int);
            proof {
                lemma_tile_index(rect, self.current_tile_x as int, tile_y as int);
            }
            let tile = built_object.get_tile_mut(self.current_tile_x, tile_y);
            tile.backdrop = winding;
            proof {
                assert(built_object.tiles@ =~= with_backdrops(
                    tiles,
                    first,
                    self.current_tile_x + 1,
                    tile_y as int,
                    winding,
                )) by {
                    assert forall|i: int| 0 <= i < tiles.len() implies built_object.tiles@[i]
                        == with_backdrops(
                        tiles,
                        first,
                        self.current_tile_x + 1,
                        tile_y as int,
                        winding,
                    )[i] by {
                        if i != index && tiles[i].tile_y == tile_y && tiles[i].tile_x
                            == self.current_tile_x {
                            lemma_tile_index(rect, tiles[i].tile_x as int, tiles[i].tile_y as int);
                            lemma_tile_in_rect(rect, i);
                        }
                    }
                }
            }
            self.current_tile_x += 1;
            self.current_subtile_x = 0;
        }
        self.current_subtile_x = 0;
    }

    /// Takes the walk across the edge `edge`, which enters the strip
    /// `tile_y` in the tile that the walk is in, at `segment_subtile_x` into
    /// that tile, as an ordinate. Where the edge lies right of where the walk
    /// stands, an active fill is laid from `current_x`, where the walk
    /// stands, to `segment_x`, where the edge enters, both in subpixel units,
    /// and the walk comes to stand at the edge. Then the winding number
    /// changes by the winding of the edge.
    pub fn cross(
        &mut self,
        built_object: &mut BuiltObject,
        edge: &ActiveEdge,
        segment_subtile_x: i32,
        current_x: i32,
        segment_x: i32,
        tile_y: i16,
    )
        requires
            old(built_object).wf(),
            segment_subtile_x > old(self).current_subtile_x ==> old(
                built_object,
            ).tile_rect.holds(old(self).current_tile_x as int, tile_y as int),
            i16::MIN <= old(self).current_winding + edge.segment.baseline.winding() <= i16::MAX,
        ensures
            *final(self) == (StripCursor {
                current_tile_x: old(self).current_tile_x,
                current_subtile_x: crate::geometry::max_of(
                    old(self).current_subtile_x,
                    segment_subtile_x,
                ),
                current_winding: (old(self).current_winding + edge.segment.baseline.winding()) as i16,
            }),
            final(built_object).wf(),
            final(built_object).fills@ == if segment_subtile_x > old(self).current_subtile_x {
                old(built_object).fills@ + active_fills(
                    current_x,
                    segment_x,
                    old(self).current_winding,
                    old(self).current_tile_x,
                    tile_y,
                )
            } else {
                old(built_object).fills@
            },
            final(built_object).solid() == if segment_subtile_x > old(self).current_subtile_x
                && old(self).current_winding != 0 {
                old(built_object).solid().update(
                    old(built_object).tile_rect.index_of(
                        old(self).current_tile_x as int,
                        tile_y as int,
                    ),
                    false,
                )
            } else {
                old(built_object).solid()
            },
            final(built_object).tiles@ == old(built_object).tiles@,
            final(built_object).tile_rect == old(built_object).tile_rect,
            final(built_object).bounds == old(built_object).bounds,
            final(built_object).shader == old(built_object).shader,
    {
        let edge_winding: i16 = if edge.segment.baseline.from.y < edge.segment.baseline.to.y {
            1
        } else {
            -1
        };
        if segment_subtile_x > self.current_subtile_x {
            built_object.add_active_fill(
                current_x,
                segment_x,
                self.current_winding,
                self.current_tile_x,
                tile_y,
            );
            self.current_subtile_x = segment_subtile_x;
        }
        self.current_winding += edge_winding;
    }
}

} // verus!
