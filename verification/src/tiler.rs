//! The sweep over one path: which endpoints it meets, in what order, and
//! which edges begin at them.

use vstd::prelude::*;
use crate::bitset::bitset_ones;
use crate::built_object::BuiltObject;
use crate::contour::Contour;
use crate::outline::Outline;
use crate::point_index::PointIndex;
use crate::primitives::{lemma_tile_in_rect, lemma_tile_index, RectBits, ShaderId, TileRect};
use crate::scene_builder::rect_within;
use crate::sorted_vector::{
    insertion_point, is_sorted, le, lemma_insertion_point, lemma_push_all_sorted,
    lemma_push_keeps_sorted, push_all, SortedVector,
};
use crate::strip::StripCursor;
use crate::sweep_order::{
    lemma_queued_endpoints_are_ordered, lemma_sweep_key, sweep_key, sweep_key_bound, ActiveEdge,
    QueuedEndpoint,
};
use crate::z_buffer::{covers, culled, deeper, lies_at, ZBuffer};

verus! {

/// The entry of the queue for the endpoint at `e` of the contour with the
/// number `contour_index`.
pub open spec fn queued(contour: Contour, contour_index: int, e: int) -> QueuedEndpoint {
    QueuedEndpoint {
        point_index: PointIndex((contour_index * 0x10_0000 + e) as u32),
        y: contour.points@[e].y,
    }
}

/// The queue entries of the local minima among the first `n` points of a
/// contour, by rising index.
pub open spec fn minima_among(contour: Contour, contour_index: int, n: int) -> Seq<QueuedEndpoint>
    decreases n,
{
    if n <= 0 {
        Seq::empty()
    } else {
        let before = minima_among(contour, contour_index, n - 1);
        if contour.is_local_minimum(n - 1) {
            before.push(queued(contour, contour_index, n - 1))
        } else {
            before
        }
    }
}

/// The queue entries of the local minima of the first `count` contours,
/// contour after contour.
pub open spec fn minima_of(contours: Seq<Contour>, count: int) -> Seq<QueuedEndpoint>
    decreases count,
{
    if count <= 0 {
        Seq::empty()
    } else {
        minima_of(contours, count - 1) + minima_among(
            contours[count - 1],
            count - 1,
            contours[count - 1].length(),
        )
    }
}

/// Whether a queue entry names an endpoint of the outline, with its `y`.
pub open spec fn addresses_endpoint(outline: Outline, entry: QueuedEndpoint) -> bool {
    let c = entry.point_index.contour_of();
    let p = entry.point_index.point_of();
    &&& c < outline.contours@.len()
    &&& p < outline.contours@[c].length()
    &&& outline.contours@[c].endpoint_at(p)
    &&& entry.y == outline.contours@[c].points@[p].y
}

/// The edge of a segment that the sweep has just met.
pub open spec fn edge_of(segment: crate::segment::Segment) -> ActiveEdge {
    ActiveEdge { segment, crossing: segment.baseline.upper() }
}

/// The sequence `s` after `value` was pushed into it.
pub open spec fn pushed<T: PartialOrd>(s: Seq<T>, value: T) -> Seq<T> {
    s.insert(insertion_point(s, value), value)
}

/// The edges that begin at the endpoint at `p` of a contour.
pub open spec fn new_edges_at(contour: Contour, p: int) -> NewActiveEdges {
    NewActiveEdges {
        to_previous: if contour.logically_above(p, contour.endpoint_before(p)) {
            Some(edge_of(contour.segment_behind(contour.endpoint_before(p))))
        } else {
            None
        },
        to_next: if contour.logically_above(p, contour.endpoint_behind(p)) {
            Some(edge_of(contour.segment_behind(p)))
        } else {
            None
        },
    }
}

/// The queue after the sweep has reached its first endpoint, the endpoint at
/// `p` of the contour with the number `contour_index`: that one is out, and
/// each of its two neighbours that comes later in the sweep is in.
pub open spec fn queue_after(
    queue: Seq<QueuedEndpoint>,
    contour: Contour,
    contour_index: int,
    p: int,
) -> Seq<QueuedEndpoint> {
    let popped = queue.drop_last();
    let with_previous = if contour.logically_above(p, contour.endpoint_before(p)) {
        pushed(popped, queued(contour, contour_index, contour.endpoint_before(p)))
    } else {
        popped
    };
    if contour.logically_above(p, contour.endpoint_behind(p)) {
        pushed(with_previous, queued(contour, contour_index, contour.endpoint_behind(p)))
    } else {
        with_previous
    }
}

/// The edges that begin at an endpoint, in the order in which they are
/// handed out.
pub open spec fn edges_in_order(edges: NewActiveEdges) -> Seq<ActiveEdge> {
    let to_previous = match edges.to_previous {
        Some(edge) => seq![edge],
        None => Seq::empty(),
    };
    let to_next = match edges.to_next {
        Some(edge) => seq![edge],
        None => Seq::empty(),
    };
    to_previous + to_next
}

/// How far the sweep has come: its queue, and the edges that it has met
/// since the strip began.
pub struct SweepState {
    pub queue: Seq<QueuedEndpoint>,
    pub edges: Seq<ActiveEdge>,
}

/// The state after the sweep has reached the first endpoint of its queue.
pub open spec fn after_meeting(outline: Outline, state: SweepState) -> SweepState {
    let top = state.queue.last().point_index;
    let contour = outline.contours@[top.contour_of()];
    SweepState {
        queue: queue_after(state.queue, contour, top.contour_of(), top.point_of()),
        edges: state.edges + edges_in_order(new_edges_at(contour, top.point_of())),
    }
}

/// The state after the sweep has reached `count` endpoints, one after
/// another.
pub open spec fn after_meetings(outline: Outline, state: SweepState, count: nat) -> SweepState
    decreases count,
{
    if count == 0 {
        state
    } else {
        after_meeting(outline, after_meetings(outline, state, (count - 1) as nat))
    }
}

/// Whether the sweep reaches the first endpoint of the queue before
/// `strip_max_y`.
pub open spec fn reaches(queue: Seq<QueuedEndpoint>, strip_max_y: i32) -> bool {
    queue.len() > 0 && queue.last().y < strip_max_y
}

/// Whether `end` is the state in which a strip ends that began in `start`:
/// the sweep has reached endpoints for as long as the first of its queue lay
/// above `strip_max_y`, `count` of them, and the first does not any more.
pub open spec fn strip_ends(
    outline: Outline,
    start: SweepState,
    strip_max_y: i32,
    count: nat,
    end: SweepState,
) -> bool {
    &&& forall|k: nat|
        k < count ==> reaches(#[trigger] after_meetings(outline, start, k).queue, strip_max_y)
    &&& !reaches(after_meetings(outline, start, count).queue, strip_max_y)
    &&& end == after_meetings(outline, start, count)
}

/// How often `entry` is in the queue.
pub open spec fn occurrences(queue: Seq<QueuedEndpoint>, entry: QueuedEndpoint) -> nat
    decreases queue.len(),
{
    if queue.len() == 0 {
        0
    } else {
        occurrences(queue.drop_last(), entry) + if queue.last() == entry {
            1nat
        } else {
            0nat
        }
    }
}

/// How far the first endpoint of the queue is from the end of the order of
/// the sweep; 0 for a queue that holds nothing.
pub open spec fn distance_to_end(queue: Seq<QueuedEndpoint>) -> int {
    if queue.len() == 0 {
        0
    } else {
        sweep_key_bound() - sweep_key(queue.last())
    }
}

/// How often the first endpoint of the queue is in the queue.
pub open spec fn occurrences_of_first(queue: Seq<QueuedEndpoint>) -> nat {
    if queue.len() == 0 {
        0
    } else {
        occurrences(queue, queue.last())
    }
}

/// Whether one of the first `count` solid tiles of `object`, whose places
/// are in `ones`, has a backdrop and is the scene's tile at `cell`.
pub open spec fn covered_by_first(
    object: BuiltObject,
    tile_rect: TileRect,
    ones: Seq<usize>,
    count: int,
    cell: int,
) -> bool {
    exists|i: int|
        0 <= i < count && object.tiles@[#[trigger] ones[i] as int].backdrop != 0 && lies_at(
            object,
            tile_rect,
            ones[i] as int,
            cell,
        )
}

/// The edges that begin at an endpoint that the sweep has reached: the one
/// that runs to the endpoint before it, and the one that runs to the endpoint
/// behind it, each only where that endpoint comes later in the sweep.
#[derive(Clone, Copy, Debug, PartialEq, Eq, Structural)]
pub struct NewActiveEdges {
    pub to_previous: Option<ActiveEdge>,
    pub to_next: Option<ActiveEdge>,
}

/// The edges that were active when a strip began, by rising `x`, and the walk
/// at the left end of the strip.
#[derive(Debug)]
pub struct OldActiveEdges {
    pub edges: Vec<ActiveEdge>,
    pub cursor: StripCursor,
}

/// The sweep over one path.
#[derive(Debug)]
pub struct Tiler<'o> {
    pub outline: &'o Outline,
    pub built_object: BuiltObject,
    pub object_index: u16,
    pub point_queue: SortedVector<QueuedEndpoint>,
    pub active_edges: SortedVector<ActiveEdge>,
}

impl<'o> Tiler<'o> {
    /// The sweep is as it keeps itself: it can go over the outline, the
    /// object is as tiling keeps it, the queue is in order, and every entry
    /// of the queue names an endpoint of the outline.
    pub open spec fn wf(self) -> bool {
        &&& self.outline.is_sweepable()
        &&& self.built_object.wf()
        &&& is_sorted(self.point_queue@)
        &&& forall|i: int|
            0 <= i < self.point_queue@.len() ==> addresses_endpoint(
                *self.outline,
                #[trigger] self.point_queue@[i],
            )
    }

    /// Tells whether the sweep is as it keeps itself.
    pub fn is_well_formed(&self) -> (ok: bool)
        ensures
            ok == self.wf(),
    {
        if !self.outline.can_be_swept() || !self.built_object.is_well_formed() {
            return false;
        }
        proof {
            lemma_queued_endpoints_are_ordered();
        }
        let mut k: usize = 1;
        while k < self.point_queue.array.len()
            invariant
                1 <= k,
                forall|a: QueuedEndpoint, b: QueuedEndpoint| #[trigger]
                    le(a, b) <==> !a.comes_before(b),
                forall|i: int, j: int|
                    0 <= i < j < k && j < self.point_queue@.len() ==> le(
                        self.point_queue@[i],
                        self.point_queue@[j],
                    ),
            decreases self.point_queue@.len() - k,
        {
            if !(self.point_queue.array[k - 1] <= self.point_queue.array[k]) {
                assert(!le(self.point_queue@[k - 1], self.point_queue@[k as int]));
                return false;
            }
            proof {
                assert forall|i: int, j: int|
                    0 <= i < j < k + 1 && j < self.point_queue@.len() implies le(
                    self.point_queue@[i],
                    self.point_queue@[j],
                ) by {
                    if j == k && i < k - 1 {
                        assert(le(self.point_queue@[i], self.point_queue@[k - 1]));
                    }
                }
            }
            k += 1;
        }
        let mut i: usize = 0;
        while i < self.point_queue.array.len()
            invariant
                self.outline.is_sweepable(),
                is_sorted(self.point_queue@),
                i <= self.point_queue@.len(),
                forall|j: int|
                    0 <= j < i ==> addresses_endpoint(
                        *self.outline,
                        #[trigger] self.point_queue@[j],
                    ),
            decreases self.point_queue@.len() - i,
        {
            let entry = self.point_queue.array[i];
            let contour_number: usize = entry.point_index.contour() as usize;
            let point: u32 = entry.point_index.point();
            if contour_number >= self.outline.contours.len() {
                return false;
            }
            let contour = &self.outline.contours[contour_number];
            if point as usize >= contour.points.len() || !contour.point_is_endpoint(point)
                || contour.position_of(point).y != entry.y {
                return false;
            }
            i += 1;
        }
        true
    }

    /// A sweep over `outline` for the object with the number `object_index`,
    /// which covers the tiles of `tile_rect`.
    pub fn new(
        outline: &'o Outline,
        bounds: &RectBits,
        tile_rect: TileRect,
        object_index: u16,
        shader: ShaderId,
    ) -> (tiler: Tiler<'o>)
        requires
            tile_rect.wf(),
        ensures
            tiler.outline == outline,
            tiler.object_index == object_index,
            tiler.built_object.wf(),
            tiler.built_object.tile_rect == tile_rect,
            tiler.built_object.bounds == *bounds,
            tiler.built_object.shader == shader,
            tiler.built_object.fills@.len() == 0,
            forall|i: int|
                0 <= i < tiler.built_object.tiles@.len() ==> #[trigger] tiler.built_object.solid()[i],
            forall|i: int|
                0 <= i < tiler.built_object.tiles@.len() ==> (
                #[trigger] tiler.built_object.tiles@[i]).backdrop == 0,
            tiler.point_queue@.len() == 0,
            tiler.active_edges@.len() == 0,
    {
        let built_object = BuiltObject::new(bounds, tile_rect, shader);
        Tiler {
            outline,
            built_object,
            object_index,
            point_queue: SortedVector::new(),
            active_edges: SortedVector::new(),
        }
    }

    /// Fills the queue with the local minima of the outline: the endpoints
    /// that the sweep meets before both their neighbours. They are pushed
    /// contour after contour, by rising index.
    pub fn init_point_queue(&mut self)
        requires
            old(self).outline.is_sweepable(),
        ensures
            final(self).point_queue@ == push_all(
                minima_of(old(self).outline.contours@, old(self).outline.contours@.len() as int),
            ),
            is_sorted(final(self).point_queue@),
            forall|i: int|
                0 <= i < final(self).point_queue@.len() ==> addresses_endpoint(
                    *old(self).outline,
                    #[trigger] final(self).point_queue@[i],
                ),
            final(self).outline == old(self).outline,
            final(self).built_object == old(self).built_object,
            final(self).object_index == old(self).object_index,
            final(self).active_edges == old(self).active_edges,
    {
        proof {
            lemma_queued_endpoints_are_ordered();
            lemma_push_all_sorted(
                minima_of(self.outline.contours@, self.outline.contours@.len() as int),
            );
        }
        self.point_queue.clear();
        let outline = self.outline;
        let ghost contours = outline.contours@;
        let mut contour_index: usize = 0;
        assert(self.point_queue@ =~= push_all(minima_of(contours, 0)));
        while contour_index < outline.contours.len()
            invariant
                outline == old(self).outline,
                contours == outline.contours@,
                outline.is_sweepable(),
                contour_index <= contours.len(),
                self.point_queue@ == push_all(minima_of(contours, contour_index as int)),
                forall|i: int|
                    0 <= i < self.point_queue@.len() ==> addresses_endpoint(
                        *outline,
                        #[trigger] self.point_queue@[i],
                    ),
                self.outline == old(self).outline,
                self.built_object == old(self).built_object,
                self.object_index == old(self).object_index,
                self.active_edges == old(self).active_edges,
            decreases contours.len() - contour_index,
        {
            let contour = &outline.contours[contour_index];
            let contour_number: u32 = contour_index as u32;
            let mut cur_endpoint_index: u32 = 0;
            let ghost done = minima_of(contours, contour_index as int);
            assert(done + minima_among(*contour, contour_index as int, 0) =~= done);
            loop
                invariant_except_break
                    self.point_queue@ == push_all(
                        done + minima_among(
                            *contour,
                            contour_index as int,
                            cur_endpoint_index as int,
                        ),
                    ),
                invariant
                    outline == old(self).outline,
                    contours == outline.contours@,
                    outline.is_sweepable(),
                    contour_index < contours.len(),
                    contour_number == contour_index,
                    *contour == contours[contour_index as int],
                    done == minima_of(contours, contour_index as int),
                    cur_endpoint_index < contour.length(),
                    contour.endpoint_at(cur_endpoint_index as int),
                    forall|i: int|
                        0 <= i < self.point_queue@.len() ==> addresses_endpoint(
                            *outline,
                            #[trigger] self.point_queue@[i],
                        ),
                    self.outline == old(self).outline,
                    self.built_object == old(self).built_object,
                    self.object_index == old(self).object_index,
                    self.active_edges == old(self).active_edges,
                ensures
                    self.point_queue@ == push_all(
                        done + minima_among(*contour, contour_index as int, contour.length()),
                    ),
                decreases contour.length() - cur_endpoint_index,
            {
                let prev_endpoint_index = contour.prev_endpoint_index_of(cur_endpoint_index);
                let next_endpoint_index = contour.next_endpoint_index_of(cur_endpoint_index);
                let ghost cur = cur_endpoint_index as int;
                let ghost among = minima_among(*contour, contour_index as int, cur);
                if contour.point_is_logically_above(cur_endpoint_index, prev_endpoint_index)
                    && contour.point_is_logically_above(cur_endpoint_index, next_endpoint_index) {
                    let entry = QueuedEndpoint {
                        point_index: PointIndex::new(contour_number, cur_endpoint_index),
                        y: contour.position_of(cur_endpoint_index).y,
                    };
                    proof {
                        lemma_queued_endpoints_are_ordered();
                        assert(entry == queued(*contour, contour_index as int, cur));
                        assert((done + among).push(entry) =~= done + among.push(entry));
                        assert((done + among).push(entry).drop_last() =~= done + among);
                    }
                    let ghost queue = self.point_queue@;
                    self.point_queue.push(entry);
                    assert forall|i: int| 0 <= i < self.point_queue@.len() implies addresses_endpoint(
                        *outline,
                        #[trigger] self.point_queue@[i],
                    ) by {
                        let k = insertion_point(queue, entry);
                        crate::sorted_vector::lemma_insertion_point(queue, entry);
                        if i < k {
                            assert(self.point_queue@[i] == queue[i]);
                        } else if i > k {
                            assert(self.point_queue@[i] == queue[i - 1]);
                        }
                    }
                }
                assert(self.point_queue@ == push_all(
                    done + minima_among(*contour, contour_index as int, cur + 1),
                ));
                proof {
                    contour.lemma_endpoint_behind(cur);
                }
                if cur_endpoint_index >= next_endpoint_index {
                    proof {
                        lemma_minima_skip(*contour, contour_index as int, cur + 1, contour.length());
                    }
                    break ;
                }
                proof {
                    lemma_minima_skip(
                        *contour,
                        contour_index as int,
                        cur + 1,
                        next_endpoint_index as int,
                    );
                }
                cur_endpoint_index = next_endpoint_index;
            }
            contour_index += 1;
        }
    }

    /// Tells whether the sweep reaches an endpoint before `strip_max_y`, the
    /// `y` of the lower edge of the strip it is in.
    pub fn next_endpoint_is_above(&self, strip_max_y: i32) -> (above: bool)
        ensures
            above == (self.point_queue@.len() > 0 && self.point_queue@.last().y < strip_max_y),
    {
        match self.point_queue.peek() {
            Some(queued_endpoint) => queued_endpoint.y < strip_max_y,
            None => false,
        }
    }

    /// Takes the first endpoint off the queue and gives the edges that begin
    /// at it. For each of its two neighbours that comes later in the sweep
    /// there is the edge of the segment that joins the two, and the neighbour
    /// is put into the queue. The edges are handed out for the caller to draw
    /// them down the strip: the one to the endpoint before first.
    pub fn add_new_active_edge(&mut self) -> (edges: NewActiveEdges)
        requires
            old(self).wf(),
            old(self).point_queue@.len() > 0,
        ensures
            final(self).wf(),
            ({
                let top = old(self).point_queue@.last().point_index;
                let contour = old(self).outline.contours@[top.contour_of()];
                &&& edges == new_edges_at(contour, top.point_of())
                &&& final(self).point_queue@ == queue_after(
                    old(self).point_queue@,
                    contour,
                    top.contour_of(),
                    top.point_of(),
                )
            }),
            final(self).outline == old(self).outline,
            final(self).built_object == old(self).built_object,
            final(self).object_index == old(self).object_index,
            final(self).active_edges == old(self).active_edges,
    {
        let outline = self.outline;
        let ghost top = self.point_queue@.last();
        assert(addresses_endpoint(*outline, top));
        let ghost queue = self.point_queue@;
        let point_index = self.point_queue.pop().unwrap().point_index;
        assert(is_sorted(self.point_queue@)) by {
            assert forall|i: int, j: int| 0 <= i < j < self.point_queue@.len() implies le(
                self.point_queue@[i],
                self.point_queue@[j],
            ) by {
                assert(self.point_queue@[i] == queue[i] && self.point_queue@[j] == queue[j]);
            }
        }
        let contour_number: u32 = point_index.contour();
        let point: u32 = point_index.point();
        let contour = &outline.contours[contour_number as usize];
        let prev_endpoint_index = contour.prev_endpoint_index_of(point);
        let next_endpoint_index = contour.next_endpoint_index_of(point);
        let mut edges = NewActiveEdges { to_previous: None, to_next: None };
        proof {
            lemma_queued_endpoints_are_ordered();
        }
        if contour.point_is_logically_above(point, prev_endpoint_index) {
            edges.to_previous = Some(
                ActiveEdge::from_segment(&contour.segment_after(prev_endpoint_index)),
            );
            let entry = QueuedEndpoint {
                point_index: PointIndex::new(contour_number, prev_endpoint_index),
                y: contour.position_of(prev_endpoint_index).y,
            };
            let ghost queue = self.point_queue@;
            self.point_queue.push(entry);
            proof {
                lemma_entries_stay_valid(*outline, queue, entry);
                lemma_push_keeps_sorted(queue, entry);
            }
        }
        if contour.point_is_logically_above(point, next_endpoint_index) {
            edges.to_next = Some(ActiveEdge::from_segment(&contour.segment_after(point)));
            let entry = QueuedEndpoint {
                point_index: PointIndex::new(contour_number, next_endpoint_index),
                y: contour.position_of(next_endpoint_index).y,
            };
            let ghost queue = self.point_queue@;
            self.point_queue.push(entry);
            proof {
                lemma_entries_stay_valid(*outline, queue, entry);
                lemma_push_keeps_sorted(queue, entry);
            }
        }
        edges
    }

    /// Meets the endpoints that lie above `strip_max_y`, the `y` of the
    /// lower edge of the strip that the sweep is in, and gives the edges that
    /// begin at them, in the order in which the caller has to draw them down
    /// the strip. An endpoint that an edge puts into the queue is met in the
    /// same strip if it lies above `strip_max_y` too. The sweep comes to an
    /// end: every endpoint that is put into the queue lies later in the order
    /// of the sweep than the one that put it there.
    pub fn generate_strip(&mut self, strip_max_y: i32) -> (edges: Vec<ActiveEdge>)
        requires
            old(self).wf(),
        ensures
            final(self).wf(),
            exists|count: nat|
                strip_ends(
                    *old(self).outline,
                    SweepState { queue: old(self).point_queue@, edges: Seq::empty() },
                    strip_max_y,
                    count,
                    SweepState { queue: final(self).point_queue@, edges: edges@ },
                ),
            final(self).outline == old(self).outline,
            final(self).built_object == old(self).built_object,
            final(self).object_index == old(self).object_index,
            final(self).active_edges == old(self).active_edges,
    {
        let mut edges: Vec<ActiveEdge> = Vec::new();
        let ghost outline = *self.outline;
        let ghost start = SweepState { queue: self.point_queue@, edges: Seq::empty() };
        let ghost mut count: nat = 0;
        assert(edges@ =~= Seq::<ActiveEdge>::empty());
        while self.next_endpoint_is_above(strip_max_y)
            invariant
                self.wf(),
                outline == *self.outline,
                self.outline == old(self).outline,
                self.built_object == old(self).built_object,
                self.object_index == old(self).object_index,
                self.active_edges == old(self).active_edges,
                start == (SweepState { queue: old(self).point_queue@, edges: Seq::empty() }),
                (SweepState { queue: self.point_queue@, edges: edges@ }) == after_meetings(
                    outline,
                    start,
                    count,
                ),
                forall|k: nat|
                    k < count ==> reaches(
                        #[trigger] after_meetings(outline, start, k).queue,
                        strip_max_y,
                    ),
            decreases distance_to_end(self.point_queue@), occurrences_of_first(self.point_queue@),
        {
            let ghost queue = self.point_queue@;
            let ghost met = edges@;
            proof {
                lemma_meeting_comes_closer(outline, queue);
            }
            let new_edges = self.add_new_active_edge();
            if let Some(edge) = new_edges.to_previous {
                edges.push(edge);
            }
            if let Some(edge) = new_edges.to_next {
                edges.push(edge);
            }
            proof {
                assert(edges@ =~= met + edges_in_order(new_edges));
                count = count + 1;
            }
        }
        proof {
            assert(strip_ends(
                outline,
                start,
                strip_max_y,
                count,
                SweepState { queue: self.point_queue@, edges: edges@ },
            ));
        }
        edges
    }

    /// Begins a strip: takes out the edges that the strip before left
    /// active, by rising `x`, and sets the walk to the left end of the strip.
    /// The caller carries each edge through the strip: it takes the walk to
    /// the edge and across it, draws the edge down the strip, and puts what
    /// is left of the edge back among the active edges.
    pub fn process_old_active_edges(&mut self) -> (old_active_edges: OldActiveEdges)
        ensures
            old_active_edges.edges@ == old(self).active_edges@,
            old_active_edges.cursor == (StripCursor {
                current_tile_x: old(self).built_object.tile_rect.origin_x,
                current_subtile_x: 0,
                current_winding: 0,
            }),
            final(self).active_edges@.len() == 0,
            final(self).outline == old(self).outline,
            final(self).built_object == old(self).built_object,
            final(self).object_index == old(self).object_index,
            final(self).point_queue == old(self).point_queue,
    {
        let mut edges: Vec<ActiveEdge> = Vec::new();
        std::mem::swap(&mut edges, &mut self.active_edges.array);
        OldActiveEdges { edges, cursor: StripCursor::new(self.built_object.tile_rect.origin_x) }
    }

    /// Records in the depth buffer the tiles that the object covers whole:
    /// its solid tiles that have a backdrop. Each of them gets the depth of
    /// this object, unless it has a greater one.
    pub fn cull(&self, z_buffer: &mut ZBuffer)
        requires
            self.built_object.wf(),
            old(z_buffer).wf(),
            rect_within(self.built_object.tile_rect, old(z_buffer).tile_rect),
        ensures
            final(z_buffer).wf(),
            final(z_buffer).tile_rect == old(z_buffer).tile_rect,
            final(z_buffer).buffer@ == culled(
                old(z_buffer).buffer@,
                self.built_object,
                self.object_index as int,
                old(z_buffer).tile_rect,
            ),
    {
        let ones = bitset_ones(&self.built_object.solid_tiles);
        let ghost object = self.built_object;
        let ghost tile_rect = z_buffer.tile_rect;
        let ghost before = z_buffer.buffer@;
        let ghost depth = self.object_index as int + 1;
        let mut j: usize = 0;
        while j < ones.len()
            invariant
                j <= ones@.len(),
                object == self.built_object,
                object.wf(),
                z_buffer.wf(),
                z_buffer.tile_rect == tile_rect,
                tile_rect == old(z_buffer).tile_rect,
                before == old(z_buffer).buffer@,
                rect_within(object.tile_rect, tile_rect),
                depth == self.object_index + 1,
                forall|i: int|
                    0 <= i < ones@.len() ==> ones@[i] < object.solid().len() && object.solid()[
                    #[trigger] ones@[i] as int],
                z_buffer.buffer@.len() == before.len(),
                forall|cell: int|
                    0 <= cell < before.len() ==> #[trigger] z_buffer.buffer@[cell] == deeper(
                        before[cell] as int,
                        if covered_by_first(object, tile_rect, ones@, j as int, cell) {
                            depth
                        } else {
                            0
                        },
                    ),
            decreases ones@.len() - j,
        {
            let solid_tile_index: usize = ones[j];
            let tile = &self.built_object.tiles[solid_tile_index];
            let ghost held = z_buffer.buffer@;
            proof {
                lemma_tile_in_rect(object.tile_rect, solid_tile_index as int);
                lemma_tile_index(tile_rect, tile.tile_x as int, tile.tile_y as int);
            }
            let ghost here = tile_rect.index_of(tile.tile_x as int, tile.tile_y as int);
            if tile.backdrop != 0 {
                z_buffer.update(tile.tile_x, tile.tile_y, self.object_index);
            }
            proof {
                assert forall|cell: int| 0 <= cell < before.len() implies #[trigger] z_buffer.buffer@[cell]
                    == deeper(
                    before[cell] as int,
                    if covered_by_first(object, tile_rect, ones@, j + 1, cell) {
                        depth
                    } else {
                        0
                    },
                ) by {
                    let was = covered_by_first(object, tile_rect, ones@, j as int, cell);
                    let is = covered_by_first(object, tile_rect, ones@, j + 1, cell);
                    assert(held[cell] == deeper(before[cell] as int, if was { depth } else { 0 }));
                    if was {
                        let i = choose|i: int|
                            0 <= i < j && object.tiles@[#[trigger] ones@[i] as int].backdrop != 0
                                && lies_at(object, tile_rect, ones@[i] as int, cell);
                        assert(0 <= i < j + 1);
                        assert(is);
                    }
                    if tile.backdrop != 0 && cell == here {
                        assert(lies_at(object, tile_rect, ones@[j as int] as int, cell));
                        assert(is);
                    } else if is {
                        let i = choose|i: int|
                            0 <= i < j + 1 && object.tiles@[#[trigger] ones@[i] as int].backdrop
                                != 0 && lies_at(object, tile_rect, ones@[i] as int, cell);
                        assert(i != j);
                        assert(was);
                    }
                }
            }
            j += 1;
        }
        proof {
            let after = culled(before, object, self.object_index as int, tile_rect);
            assert forall|cell: int| 0 <= cell < before.len() implies z_buffer.buffer@[cell]
                == after[cell] by {
                let by_ones = covered_by_first(object, tile_rect, ones@, ones@.len() as int, cell);
                if by_ones {
                    let i = choose|i: int|
                        0 <= i < ones@.len() && object.tiles@[#[trigger] ones@[i] as int].backdrop
                            != 0 && lies_at(object, tile_rect, ones@[i] as int, cell);
                    assert(object.opaque_at(ones@[i] as int));
                    assert(covers(object, tile_rect, cell));
                }
                if covers(object, tile_rect, cell) {
                    let t = choose|t: int|
                        0 <= t < object.tiles@.len() && #[trigger] object.opaque_at(t) && lies_at(
                            object,
                            tile_rect,
                            t,
                            cell,
                        );
                    assert(object.solid()[t]);
                    let i = choose|i: int| 0 <= i < ones@.len() && ones@[i] == t;
                    assert(object.tiles@[ones@[i] as int].backdrop != 0);
                    assert(by_ones);
                }
            }
            assert(z_buffer.buffer@ =~= after);
        }
    }
}

/// Points that are no endpoints add no local minimum.
pub proof fn lemma_minima_skip(contour: Contour, contour_index: int, from: int, to: int)
    requires
        0 <= from <= to,
        forall|j: int| from <= j < to ==> !#[trigger] contour.endpoint_at(j),
    ensures
        minima_among(contour, contour_index, to) == minima_among(contour, contour_index, from),
    decreases to - from,
{
    if from < to {
        lemma_minima_skip(contour, contour_index, from, to - 1);
        assert(!contour.endpoint_at(to - 1));
    }
}

/// Pushing an entry that names an endpoint of the outline into a queue
/// whose entries all do leaves a queue whose entries all do.
proof fn lemma_entries_stay_valid(outline: Outline, queue: Seq<QueuedEndpoint>, entry: QueuedEndpoint)
    requires
        forall|i: int| 0 <= i < queue.len() ==> addresses_endpoint(outline, #[trigger] queue[i]),
        addresses_endpoint(outline, entry),
    ensures
        forall|i: int|
            0 <= i < pushed(queue, entry).len() ==> addresses_endpoint(
                outline,
                #[trigger] pushed(queue, entry)[i],
            ),
{
    crate::sorted_vector::lemma_insertion_point(queue, entry);
    let k = insertion_point(queue, entry);
    let after = pushed(queue, entry);
    assert forall|i: int| 0 <= i < after.len() implies addresses_endpoint(
        outline,
        #[trigger] after[i],
    ) by {
        if i < k {
            assert(after[i] == queue[i]);
        } else if i > k {
            assert(after[i] == queue[i - 1]);
        }
    }
}

/// Taking the last entry out of a queue takes one of its occurrences out.
proof fn lemma_occurrences_drop_last(queue: Seq<QueuedEndpoint>, entry: QueuedEndpoint)
    requires
        queue.len() > 0,
    ensures
        occurrences(queue, entry) == occurrences(queue.drop_last(), entry) + if queue.last()
            == entry {
            1nat
        } else {
            0nat
        },
{
}

/// Putting an entry into a queue adds one occurrence of that entry and none
/// of any other.
proof fn lemma_occurrences_insert(
    queue: Seq<QueuedEndpoint>,
    place: int,
    value: QueuedEndpoint,
    entry: QueuedEndpoint,
)
    requires
        0 <= place <= queue.len(),
    ensures
        occurrences(queue.insert(place, value), entry) == occurrences(queue, entry) + if value
            == entry {
            1nat
        } else {
            0nat
        },
    decreases queue.len(),
{
    let longer = queue.insert(place, value);
    if place == queue.len() {
        assert(longer.drop_last() =~= queue);
        assert(longer.last() == value);
    } else {
        assert(longer.drop_last() =~= queue.drop_last().insert(place, value));
        assert(longer.last() == queue.last());
        lemma_occurrences_insert(queue.drop_last(), place, value, entry);
    }
}

/// Pushing an entry that the sweep reaches later than `first` into a sorted
/// queue whose entries the sweep all reaches no earlier than `first` leaves
/// such a queue, with `first` as often in it as before.
proof fn lemma_push_later(queue: Seq<QueuedEndpoint>, value: QueuedEndpoint, first: QueuedEndpoint)
    requires
        is_sorted(queue),
        forall|i: int| 0 <= i < queue.len() ==> sweep_key(#[trigger] queue[i]) >= sweep_key(first),
        sweep_key(value) > sweep_key(first),
    ensures
        is_sorted(pushed(queue, value)),
        pushed(queue, value).len() == queue.len() + 1,
        forall|i: int|
            0 <= i < pushed(queue, value).len() ==> sweep_key(#[trigger] pushed(queue, value)[i])
                >= sweep_key(first),
        occurrences(pushed(queue, value), first) == occurrences(queue, first),
{
    lemma_queued_endpoints_are_ordered();
    lemma_push_keeps_sorted(queue, value);
    lemma_insertion_point(queue, value);
    let place = insertion_point(queue, value);
    lemma_occurrences_insert(queue, place, value, first);
    lemma_sweep_key(value, first);
    let after = pushed(queue, value);
    assert forall|i: int| 0 <= i < after.len() implies sweep_key(#[trigger] after[i]) >= sweep_key(
        first,
    ) by {
        if i < place {
            assert(after[i] == queue[i]);
        } else if i > place {
            assert(after[i] == queue[i - 1]);
        }
    }
}

/// Meeting the first endpoint of the queue brings the sweep closer to its
/// end: after it the queue is empty, or its first endpoint lies later in the
/// order of the sweep, or it is the same and is in the queue once less.
proof fn lemma_meeting_comes_closer(outline: Outline, queue: Seq<QueuedEndpoint>)
    requires
        outline.is_sweepable(),
        is_sorted(queue),
        queue.len() > 0,
        addresses_endpoint(outline, queue.last()),
    ensures
        ({
            let top = queue.last().point_index;
            let after = queue_after(
                queue,
                outline.contours@[top.contour_of()],
                top.contour_of(),
                top.point_of(),
            );
            &&& distance_to_end(queue) > 0
            &&& 0 <= distance_to_end(after) <= distance_to_end(queue)
            &&& distance_to_end(after) == distance_to_end(queue) ==> occurrences_of_first(after)
                < occurrences_of_first(queue)
        }),
{
    lemma_queued_endpoints_are_ordered();
    let first = queue.last();
    let top = first.point_index;
    let c = top.contour_of();
    let p = top.point_of();
    let contour = outline.contours@[c];
    let popped = queue.drop_last();
    lemma_sweep_key(first, first);
    assert forall|i: int| 0 <= i < popped.len() implies sweep_key(#[trigger] popped[i])
        >= sweep_key(first) by {
        assert(popped[i] == queue[i]);
        assert(le(queue[i], queue[queue.len() - 1]));
        lemma_sweep_key(queue[i], first);
    }
    assert(is_sorted(popped)) by {
        assert forall|i: int, j: int| 0 <= i < j < popped.len() implies le(popped[i], popped[j]) by {
            assert(popped[i] == queue[i] && popped[j] == queue[j]);
        }
    }
    lemma_occurrences_drop_last(queue, first);
    assert(contour.addressable() && contour.is_path() && contour.length() > 0);
    assert(contour.flags@[0].is_endpoint());
    contour.lemma_endpoint_before(p);
    contour.lemma_endpoint_behind(p);
    let before = contour.endpoint_before(p);
    let behind = contour.endpoint_behind(p);
    let with_previous = if contour.logically_above(p, before) {
        pushed(popped, queued(contour, c, before))
    } else {
        popped
    };
    assert(first == queued(contour, c, p));
    if contour.logically_above(p, before) {
        lemma_sweep_key(first, queued(contour, c, before));
        lemma_push_later(popped, queued(contour, c, before), first);
    }
    if contour.logically_above(p, behind) {
        lemma_sweep_key(first, queued(contour, c, behind));
        lemma_push_later(with_previous, queued(contour, c, behind), first);
    }
    let after = queue_after(queue, contour, c, p);
    if after.len() > 0 {
        lemma_sweep_key(after.last(), first);
    }
}

} // verus!
