//! The sequence of drawing: the primitives of a finished scene, cut into batches.
//!
//! Primitives are drawn by ascending order, those of one order by their sort. A
//! batch is a run of primitives of one sort that nothing else comes between;
//! sprites of one batch also share their texture. An absent primitive counts as
//! one of the last order, so primitives of that order are drawn only as long as
//! no sort before theirs has run out.
use vstd::prelude::*;

use crate::primitive::{AtlasTextureId, PrimitiveKind, PrimitiveLists};
use crate::scene::Scene;

verus! {

/// What the sequence of drawing depends on.
#[derive(Clone, Copy, Debug)]
pub struct LaneItem {
    pub order: u32,
    pub texture_id: Option<AtlasTextureId>,
}

/// Primitives of one sort that are drawn together.
#[derive(Clone, Copy, Debug)]
pub struct PrimitiveBatch {
    /// The sort.
    pub kind: PrimitiveKind,
    /// The first primitive in the list of its sort.
    pub start: usize,
    /// Behind the last primitive.
    pub end: usize,
    /// The texture, for sprites.
    pub texture_id: Option<AtlasTextureId>,
}

/// The items of the list at a place in the sequence of drawing.
pub open spec fn lane(lists: PrimitiveLists, rank: int) -> Seq<LaneItem> {
    if rank == 0 {
        Seq::new(
            lists.shadows.len(),
            |i: int| LaneItem { order: lists.shadows[i].order, texture_id: None },
        )
    } else if rank == 1 {
        Seq::new(
            lists.quads.len(),
            |i: int| LaneItem { order: lists.quads[i].order, texture_id: None },
        )
    } else if rank == 2 {
        Seq::new(
            lists.paths.len(),
            |i: int| LaneItem { order: lists.paths[i].order, texture_id: None },
        )
    } else if rank == 3 {
        Seq::new(
            lists.underlines.len(),
            |i: int| LaneItem { order: lists.underlines[i].order, texture_id: None },
        )
    } else if rank == 4 {
        Seq::new(
            lists.monochrome_sprites.len(),
            |i: int|
                LaneItem {
                    order: lists.monochrome_sprites[i].order,
                    texture_id: Some(lists.monochrome_sprites[i].tile.texture_id),
                },
        )
    } else if rank == 5 {
        Seq::new(
            lists.polychrome_sprites.len(),
            |i: int|
                LaneItem {
                    order: lists.polychrome_sprites[i].order,
                    texture_id: Some(lists.polychrome_sprites[i].tile.texture_id),
                },
        )
    } else if rank == 6 {
        Seq::new(
            lists.surfaces.len(),
            |i: int| LaneItem { order: lists.surfaces[i].order, texture_id: None },
        )
    } else {
        Seq::new(
            lists.raster_tiles.len(),
            |i: int| LaneItem { order: lists.raster_tiles[i].order, texture_id: None },
        )
    }
}

/// The items of all lists.
pub open spec fn lanes_of(lists: PrimitiveLists) -> Seq<Seq<LaneItem>> {
    Seq::new(8, |rank: int| lane(lists, rank))
}

/// Where an item stands in the sequence of drawing: by order, then by sort.
pub open spec fn draw_key(order: u32, rank: int) -> int {
    order * 8 + rank
}

/// Where the next item of a list stands; one that has run out counts as the last
/// order.
pub open spec fn head_key(lanes: Seq<Seq<LaneItem>>, starts: Seq<usize>, rank: int) -> int {
    if starts[rank] < lanes[rank].len() {
        draw_key(lanes[rank][starts[rank] as int].order, rank)
    } else {
        draw_key(u32::MAX, rank)
    }
}

/// Which of the first `n` lists comes next.
pub open spec fn leader(lanes: Seq<Seq<LaneItem>>, starts: Seq<usize>, n: int) -> int
    decreases n,
{
    if n <= 1 {
        0
    } else {
        let best = leader(lanes, starts, n - 1);
        if head_key(lanes, starts, n - 1) < head_key(lanes, starts, best) {
            n - 1
        } else {
            best
        }
    }
}

/// Where the first of the other lists comes in, among the first `n`.
pub open spec fn limit(lanes: Seq<Seq<LaneItem>>, starts: Seq<usize>, rank: int, n: int) -> int
    decreases n,
{
    if n <= 0 {
        draw_key(u32::MAX, 8)
    } else {
        let rest = limit(lanes, starts, rank, n - 1);
        if n - 1 != rank && head_key(lanes, starts, n - 1) < rest {
            head_key(lanes, starts, n - 1)
        } else {
            rest
        }
    }
}

/// Behind the run of items from `i` on that stand before `limit` and share a
/// texture.
pub open spec fn run_end(
    items: Seq<LaneItem>,
    i: int,
    rank: int,
    limit: int,
    texture_id: Option<AtlasTextureId>,
) -> int
    decreases items.len() - i,
{
    if 0 <= i < items.len() && draw_key(items[i].order, rank) < limit && items[i].texture_id
        == texture_id {
        run_end(items, i + 1, rank, limit, texture_id)
    } else {
        i
    }
}

/// The next batch: the list that comes next, from its next item on up to where
/// another list or another texture comes in.
pub open spec fn next_batch(lanes: Seq<Seq<LaneItem>>, starts: Seq<usize>) -> Option<
    PrimitiveBatch,
> {
    let rank = leader(lanes, starts, 8);
    let start = starts[rank];
    if start < lanes[rank].len() {
        let texture_id = lanes[rank][start as int].texture_id;
        Some(
            PrimitiveBatch {
                kind: PrimitiveKind::spec_at(rank),
                start,
                end: run_end(
                    lanes[rank],
                    start + 1,
                    rank,
                    limit(lanes, starts, rank, 8),
                    texture_id,
                ) as usize,
                texture_id,
            },
        )
    } else {
        None
    }
}

/// The items that are left in one list.
pub open spec fn left_in(lanes: Seq<Seq<LaneItem>>, starts: Seq<usize>, rank: int) -> int {
    if starts[rank] < lanes[rank].len() {
        lanes[rank].len() - starts[rank]
    } else {
        0
    }
}

/// The items that are left.
pub open spec fn left(lanes: Seq<Seq<LaneItem>>, starts: Seq<usize>) -> int {
    left_in(lanes, starts, 0) + left_in(lanes, starts, 1) + left_in(lanes, starts, 2) + left_in(
        lanes,
        starts,
        3,
    ) + left_in(lanes, starts, 4) + left_in(lanes, starts, 5) + left_in(lanes, starts, 6) + left_in(
        lanes,
        starts,
        7,
    )
}

/// Eight lists that a machine can index, with a place in each.
pub open spec fn indexed(lanes: Seq<Seq<LaneItem>>, starts: Seq<usize>) -> bool {
    &&& lanes.len() == 8
    &&& starts.len() == 8
    &&& forall|rank: int|
        0 <= rank < 8 ==> (#[trigger] lanes[rank]).len() <= usize::MAX && starts[rank]
            <= lanes[rank].len()
}

/// The batches from a place in each list on.
pub open spec fn batches_from(lanes: Seq<Seq<LaneItem>>, starts: Seq<usize>) -> Seq<PrimitiveBatch>
    decreases left(lanes, starts),
    when indexed(lanes, starts)
    via batches_from_ends
{
    match next_batch(lanes, starts) {
        None => Seq::empty(),
        Some(batch) => seq![batch] + batches_from(
            lanes,
            starts.update(batch.kind.rank(), batch.end),
        ),
    }
}

#[via_fn]
proof fn batches_from_ends(lanes: Seq<Seq<LaneItem>>, starts: Seq<usize>) {
    if next_batch(lanes, starts) is Some {
        batch_advances(lanes, starts);
    }
}

/// The start of every list.
pub open spec fn at_start() -> Seq<usize> {
    Seq::new(8, |rank: int| 0usize)
}

proof fn run_end_bounds(
    items: Seq<LaneItem>,
    i: int,
    rank: int,
    limit: int,
    texture_id: Option<AtlasTextureId>,
)
    requires
        0 <= i <= items.len(),
    ensures
        i <= run_end(items, i, rank, limit, texture_id) <= items.len(),
        forall|j: int|
            i <= j < run_end(items, i, rank, limit, texture_id) ==> draw_key(
                (#[trigger] items[j]).order,
                rank,
            ) < limit && items[j].texture_id == texture_id,
    decreases items.len() - i,
{
    if i < items.len() && draw_key(items[i].order, rank) < limit && items[i].texture_id
        == texture_id {
        run_end_bounds(items, i + 1, rank, limit, texture_id);
    }
}

proof fn leader_leads(lanes: Seq<Seq<LaneItem>>, starts: Seq<usize>, n: int)
    requires
        1 <= n <= 8,
    ensures
        0 <= leader(lanes, starts, n) < n,
        forall|rank: int|
            0 <= rank < n ==> head_key(lanes, starts, leader(lanes, starts, n)) <= #[trigger] head_key(
                lanes,
                starts,
                rank,
            ),
    decreases n,
{
    if n > 1 {
        leader_leads(lanes, starts, n - 1);
    }
}

proof fn limit_limits(lanes: Seq<Seq<LaneItem>>, starts: Seq<usize>, rank: int, n: int)
    requires
        0 <= n <= 8,
    ensures
        forall|other: int|
            0 <= other < n && other != rank ==> limit(lanes, starts, rank, n)
                <= #[trigger] head_key(lanes, starts, other),
    decreases n,
{
    if n > 0 {
        limit_limits(lanes, starts, rank, n - 1);
    }
}

/// A batch holds the next item of its list, and leaves the other lists alone.
pub proof fn batch_advances(lanes: Seq<Seq<LaneItem>>, starts: Seq<usize>)
    requires
        indexed(lanes, starts),
        next_batch(lanes, starts) is Some,
    ensures
        ({
            let batch = next_batch(lanes, starts)->0;
            let rank = leader(lanes, starts, 8);
            let after = starts.update(rank, batch.end);
            &&& 0 <= rank < 8
            &&& batch.kind.rank() == rank
            &&& batch.start == starts[rank]
            &&& batch.start < batch.end <= lanes[rank].len()
            &&& batch.texture_id == lanes[rank][batch.start as int].texture_id
            &&& forall|j: int|
                batch.start < j < batch.end ==> draw_key(
                    (#[trigger] lanes[rank][j]).order,
                    rank,
                ) < limit(lanes, starts, rank, 8) && lanes[rank][j].texture_id == batch.texture_id
            &&& indexed(lanes, after)
            &&& 0 <= left(lanes, after) < left(lanes, starts)
        }),
{
    let batch = next_batch(lanes, starts)->0;
    leader_leads(lanes, starts, 8);
    let rank = leader(lanes, starts, 8);
    let items = lanes[rank];
    run_end_bounds(
        items,
        starts[rank] + 1,
        rank,
        limit(lanes, starts, rank, 8),
        items[starts[rank] as int].texture_id,
    );
    let after = starts.update(rank, batch.end);
    assert(left_in(lanes, after, rank) < left_in(lanes, starts, rank));
    assert forall|other: int| 0 <= other < 8 && other != rank implies #[trigger] left_in(
        lanes,
        after,
        other,
    ) == left_in(lanes, starts, other) by {}
}

/// The places of one list that batches cover, in sequence.
pub open spec fn covered(batches: Seq<PrimitiveBatch>, kind: PrimitiveKind) -> Seq<int>
    decreases batches.len(),
{
    if batches.len() == 0 {
        Seq::empty()
    } else {
        let rest = covered(batches.drop_first(), kind);
        let batch = batches.first();
        if batch.kind == kind {
            Seq::new((batch.end - batch.start) as nat, |i: int| batch.start + i) + rest
        } else {
            rest
        }
    }
}

/// No item has the last order.
pub open spec fn below_last_order(lanes: Seq<Seq<LaneItem>>) -> bool {
    forall|rank: int, i: int|
        0 <= rank < 8 && 0 <= i < lanes[rank].len() ==> (#[trigger] lanes[rank][i]).order
            < u32::MAX
}

/// Every primitive is drawn exactly once: the batches cover each list from the
/// place they start at to its end, in sequence, without gap or overlap.
pub proof fn batches_cover_every_primitive(
    lanes: Seq<Seq<LaneItem>>,
    starts: Seq<usize>,
    kind: PrimitiveKind,
)
    requires
        indexed(lanes, starts),
        below_last_order(lanes),
    ensures
        covered(batches_from(lanes, starts), kind) == Seq::new(
            (lanes[kind.rank()].len() - starts[kind.rank()]) as nat,
            |i: int| starts[kind.rank()] + i,
        ),
    decreases left(lanes, starts),
{
    let own = kind.rank();
    let expected = Seq::new(
        (lanes[own].len() - starts[own]) as nat,
        |i: int| starts[own] + i,
    );
    match next_batch(lanes, starts) {
        None => {
            leader_leads(lanes, starts, 8);
            let rank = leader(lanes, starts, 8);
            assert(head_key(lanes, starts, rank) <= head_key(lanes, starts, own));
            if starts[own] < lanes[own].len() {
                assert(lanes[own][starts[own] as int].order < u32::MAX);
            }
            assert(covered(batches_from(lanes, starts), kind) =~= expected);
        },
        Some(batch) => {
            batch_advances(lanes, starts);
            let after = starts.update(batch.kind.rank(), batch.end);
            batches_cover_every_primitive(lanes, after, kind);
            let rest = batches_from(lanes, after);
            let all = seq![batch] + rest;
            assert(batches_from(lanes, starts) == all);
            assert(all.drop_first() =~= rest);
            assert(all.first() == batch);
            rank_names_kind(batch.kind, kind);
            assert(covered(all, kind) =~= expected);
        },
    }
}

proof fn rank_names_kind(a: PrimitiveKind, b: PrimitiveKind)
    ensures
        a.rank() == b.rank() <==> a == b,
{
}

/// Where the items of a batch stand in the sequence of drawing.
pub open spec fn keys_of(lanes: Seq<Seq<LaneItem>>, batch: PrimitiveBatch) -> Seq<int> {
    Seq::new(
        (batch.end - batch.start) as nat,
        |i: int|
            draw_key(lanes[batch.kind.rank()][batch.start + i].order, batch.kind.rank()),
    )
}

/// Where the items of batches stand in the sequence of drawing, as they are drawn.
pub open spec fn drawn(lanes: Seq<Seq<LaneItem>>, batches: Seq<PrimitiveBatch>) -> Seq<int>
    decreases batches.len(),
{
    if batches.len() == 0 {
        Seq::empty()
    } else {
        keys_of(lanes, batches.first()) + drawn(lanes, batches.drop_first())
    }
}

/// Every list is sorted by order.
pub open spec fn sorted_lanes(lanes: Seq<Seq<LaneItem>>) -> bool {
    forall|rank: int, i: int, j: int|
        0 <= rank < 8 && 0 <= i < j < lanes[rank].len() ==> (#[trigger] lanes[rank][i]).order <= (
        #[trigger] lanes[rank][j]).order
}

/// Numbers that never fall.
pub open spec fn never_falls(keys: Seq<int>) -> bool {
    forall|i: int, j: int| 0 <= i < j < keys.len() ==> #[trigger] keys[i] <= #[trigger] keys[j]
}

/// Of sorted lists nothing is drawn after what it has to come before: along the
/// batches the order never falls, and within one order neither does the sort.
pub proof fn drawing_follows_the_order(lanes: Seq<Seq<LaneItem>>, starts: Seq<usize>)
    requires
        indexed(lanes, starts),
        sorted_lanes(lanes),
    ensures
        never_falls(drawn(lanes, batches_from(lanes, starts))),
        forall|i: int|
            0 <= i < drawn(lanes, batches_from(lanes, starts)).len() ==> head_key(
                lanes,
                starts,
                leader(lanes, starts, 8),
            ) <= #[trigger] drawn(lanes, batches_from(lanes, starts))[i],
    decreases left(lanes, starts),
{
    if next_batch(lanes, starts) is Some {
        let batch = next_batch(lanes, starts)->0;
        batch_advances(lanes, starts);
        let rank = leader(lanes, starts, 8);
        let after = starts.update(rank, batch.end);
        drawing_follows_the_order(lanes, after);
        leader_leads(lanes, starts, 8);
        leader_leads(lanes, after, 8);
        limit_limits(lanes, starts, rank, 8);
        let rest = batches_from(lanes, after);
        let all = seq![batch] + rest;
        assert(batches_from(lanes, starts) == all);
        assert(all.drop_first() =~= rest);
        assert(all.first() == batch);
        let keys = keys_of(lanes, batch);
        let lowest = head_key(lanes, starts, rank);
        let next_leader = leader(lanes, after, 8);
        let next_lowest = head_key(lanes, after, next_leader);
        assert forall|i: int| 0 <= i < keys.len() implies lowest <= #[trigger] keys[i]
            <= next_lowest by {
            let place = batch.start + i;
            assert(keys[i] == draw_key(lanes[rank][place].order, rank));
            if i > 0 {
                assert(lanes[rank][batch.start as int].order <= lanes[rank][place].order);
            }
            if next_leader == rank {
                if batch.end < lanes[rank].len() {
                    assert(lanes[rank][place].order <= lanes[rank][batch.end as int].order);
                }
            } else {
                assert(head_key(lanes, after, next_leader) == head_key(
                    lanes,
                    starts,
                    next_leader,
                ));
                assert(limit(lanes, starts, rank, 8) <= head_key(lanes, starts, next_leader));
                assert(lowest <= head_key(lanes, starts, next_leader));
            }
        }
        assert forall|i: int, j: int| 0 <= i < j < keys.len() implies #[trigger] keys[i]
            <= #[trigger] keys[j] by {
            assert(lanes[rank][batch.start + i].order <= lanes[rank][batch.start + j].order);
        }
        let tail = drawn(lanes, rest);
        let sequence = drawn(lanes, all);
        assert(sequence == keys + tail);
        assert(lowest <= keys[0] <= next_lowest);
        assert forall|i: int| 0 <= i < sequence.len() implies lowest <= #[trigger] sequence[i] by {
            if i < keys.len() {
                assert(lowest <= keys[i]);
            } else {
                assert(next_lowest <= tail[i - keys.len()]);
            }
        }
        assert forall|i: int, j: int| 0 <= i < j < sequence.len() implies #[trigger] sequence[i]
            <= #[trigger] sequence[j] by {
            if j < keys.len() {
                assert(keys[i] <= keys[j]);
            } else if i < keys.len() {
                assert(keys[i] <= next_lowest);
                assert(next_lowest <= tail[j - keys.len()]);
            } else {
                assert(tail[i - keys.len()] <= tail[j - keys.len()]);
            }
        }
    }
}

/// Sprites of one batch share the batch's texture.
pub proof fn a_batch_has_one_texture(lanes: Seq<Seq<LaneItem>>, starts: Seq<usize>, i: int)
    requires
        indexed(lanes, starts),
        next_batch(lanes, starts) is Some,
        next_batch(lanes, starts)->0.start <= i < next_batch(lanes, starts)->0.end,
    ensures
        ({
            let batch = next_batch(lanes, starts)->0;
            lanes[batch.kind.rank()][i].texture_id == batch.texture_id
        }),
{
    batch_advances(lanes, starts);
}

proof fn run_goes_as_far_as_it_can(
    items: Seq<LaneItem>,
    i: int,
    rank: int,
    limit: int,
    texture_id: Option<AtlasTextureId>,
)
    requires
        0 <= i <= items.len(),
    ensures
        ({
            let end = run_end(items, i, rank, limit, texture_id);
            end < items.len() ==> items[end].texture_id != texture_id || draw_key(
                items[end].order,
                rank,
            ) >= limit
        }),
    decreases items.len() - i,
{
    if i < items.len() && draw_key(items[i].order, rank) < limit && items[i].texture_id
        == texture_id {
        run_goes_as_far_as_it_can(items, i + 1, rank, limit, texture_id);
    }
}

proof fn limit_is_a_head(lanes: Seq<Seq<LaneItem>>, starts: Seq<usize>, rank: int, n: int)
    requires
        0 <= n <= 8,
    ensures
        limit(lanes, starts, rank, n) == draw_key(u32::MAX, 8) || exists|other: int|
            0 <= other < n && other != rank && #[trigger] head_key(lanes, starts, other) == limit(
                lanes,
                starts,
                rank,
                n,
            ),
    decreases n,
{
    if n > 0 {
        limit_is_a_head(lanes, starts, rank, n - 1);
        let rest = limit(lanes, starts, rank, n - 1);
        if n - 1 != rank && head_key(lanes, starts, n - 1) < rest {
            assert(head_key(lanes, starts, n - 1) == limit(lanes, starts, rank, n));
        } else if rest != draw_key(u32::MAX, 8) {
            let other = choose|other: int|
                0 <= other < n - 1 && other != rank && #[trigger] head_key(lanes, starts, other)
                    == rest;
            assert(head_key(lanes, starts, other) == limit(lanes, starts, rank, n));
        }
    }
}

proof fn the_next_batch_is_another(lanes: Seq<Seq<LaneItem>>, starts: Seq<usize>)
    requires
        indexed(lanes, starts),
        below_last_order(lanes),
        next_batch(lanes, starts) is Some,
    ensures
        ({
            let batch = next_batch(lanes, starts)->0;
            let after = starts.update(batch.kind.rank(), batch.end);
            next_batch(lanes, after) matches Some(next) ==> next.kind != batch.kind
                || next.texture_id != batch.texture_id
        }),
{
    let batch = next_batch(lanes, starts)->0;
    let rank = leader(lanes, starts, 8);
    let items = lanes[rank];
    let bound = limit(lanes, starts, rank, 8);
    let after = starts.update(rank, batch.end);
    batch_advances(lanes, starts);
    if next_batch(lanes, after) is Some {
        let next = next_batch(lanes, after)->0;
        batch_advances(lanes, after);
        if next.kind == batch.kind && next.texture_id == batch.texture_id {
            let end = run_end(items, starts[rank] + 1, rank, bound, batch.texture_id);
            run_end_bounds(items, starts[rank] + 1, rank, bound, batch.texture_id);
            run_goes_as_far_as_it_can(items, starts[rank] + 1, rank, bound, batch.texture_id);
            assert(end == batch.end);
            assert(next.start == batch.end);
            assert(draw_key(items[end].order, rank) >= bound);
            assert(lanes[rank][end].order < u32::MAX);
            limit_is_a_head(lanes, starts, rank, 8);
            let other = choose|other: int|
                0 <= other < 8 && other != rank && #[trigger] head_key(lanes, starts, other)
                    == bound;
            leader_leads(lanes, after, 8);
            assert(head_key(lanes, after, other) == head_key(lanes, starts, other));
            assert(head_key(lanes, after, rank) <= head_key(lanes, after, other));
        }
    }
}

/// Batches are as large as they can be: of two that follow each other, the second is of
/// another sort, or its sprites have another texture.
pub proof fn batches_cannot_be_joined(lanes: Seq<Seq<LaneItem>>, starts: Seq<usize>, b: int)
    requires
        indexed(lanes, starts),
        below_last_order(lanes),
        0 <= b < batches_from(lanes, starts).len() - 1,
    ensures
        ({
            let batches = batches_from(lanes, starts);
            batches[b].kind != batches[b + 1].kind || batches[b].texture_id != batches[b
                + 1].texture_id
        }),
    decreases left(lanes, starts),
{
    let batch = next_batch(lanes, starts)->0;
    batch_advances(lanes, starts);
    let after = starts.update(batch.kind.rank(), batch.end);
    let rest = batches_from(lanes, after);
    assert(batches_from(lanes, starts) == seq![batch] + rest);
    if b == 0 {
        the_next_batch_is_another(lanes, starts);
        let next = next_batch(lanes, after)->0;
        batch_advances(lanes, after);
        assert(rest[0] == next);
    } else {
        batches_cannot_be_joined(lanes, after, b - 1);
    }
}

fn item_at(scene: &Scene, rank: usize, index: usize) -> (item: Option<LaneItem>)
    requires
        rank < 8,
    ensures
        item == if index < lane(scene@.lists, rank as int).len() {
            Some(lane(scene@.lists, rank as int)[index as int])
        } else {
            None
        },
{
    match rank {
        0 => {
            if index < scene.shadows.len() {
                Some(LaneItem { order: scene.shadows[index].order, texture_id: None })
            } else {
                None
            }
        },
        1 => {
            if index < scene.quads.len() {
                Some(LaneItem { order: scene.quads[index].order, texture_id: None })
            } else {
                None
            }
        },
        2 => {
            if index < scene.paths.len() {
                Some(LaneItem { order: scene.paths[index].order, texture_id: None })
            } else {
                None
            }
        },
        3 => {
            if index < scene.underlines.len() {
                Some(LaneItem { order: scene.underlines[index].order, texture_id: None })
            } else {
                None
            }
        },
        4 => {
            if index < scene.monochrome_sprites.len() {
                Some(
                    LaneItem {
                        order: scene.monochrome_sprites[index].order,
                        texture_id: Some(scene.monochrome_sprites[index].tile.texture_id),
                    },
                )
            } else {
                None
            }
        },
        5 => {
            if index < scene.polychrome_sprites.len() {
                Some(
                    LaneItem {
                        order: scene.polychrome_sprites[index].order,
                        texture_id: Some(scene.polychrome_sprites[index].tile.texture_id),
                    },
                )
            } else {
                None
            }
        },
        6 => {
            if index < scene.surfaces.len() {
                Some(LaneItem { order: scene.surfaces[index].order, texture_id: None })
            } else {
                None
            }
        },
        _ => {
            if index < scene.raster_tiles.len() {
                Some(LaneItem { order: scene.raster_tiles[index].order, texture_id: None })
            } else {
                None
            }
        },
    }
}

/// Walks through the batches of a scene.
pub struct BatchIterator<'a> {
    pub scene: &'a Scene,
    pub starts: Vec<usize>,
}

impl<'a> BatchIterator<'a> {
    /// The items of all lists.
    pub open spec fn lanes(&self) -> Seq<Seq<LaneItem>> {
        lanes_of(self.scene@.lists)
    }

    /// There is a place in each list.
    pub open spec fn wf(&self) -> bool {
        indexed(self.lanes(), self.starts@)
    }

    fn key_at(&self, rank: usize) -> (key: u64)
        requires
            self.wf(),
            rank < 8,
        ensures
            key as int == head_key(self.lanes(), self.starts@, rank as int),
    {
        assert(self.lanes()[rank as int] == lane(self.scene@.lists, rank as int));
        let order: u32 = match item_at(self.scene, rank, self.starts[rank]) {
            Some(item) => item.order,
            None => u32::MAX,
        };
        (order as u64) * 8 + (rank as u64)
    }

    /// The next batch, as long as there is one.
    pub fn next(&mut self) -> (batch: Option<PrimitiveBatch>)
        requires
            old(self).wf(),
        ensures
            batch == next_batch(old(self).lanes(), old(self).starts@),
            final(self).scene == old(self).scene,
            final(self).starts@ == match batch {
                Some(batch) => old(self).starts@.update(batch.kind.rank(), batch.end),
                None => old(self).starts@,
            },
            final(self).wf(),
    {
        let ghost lanes = self.lanes();
        let ghost starts = self.starts@;
        let mut first: usize = 0;
        let mut first_key: u64 = self.key_at(0);
        let mut n: usize = 1;
        while n < 8
            invariant
                self.wf(),
                lanes == self.lanes(),
                starts == self.starts@,
                1 <= n <= 8,
                first < n,
                first as int == leader(lanes, starts, n as int),
                first_key as int == head_key(lanes, starts, first as int),
            decreases 8 - n,
        {
            let key: u64 = self.key_at(n);
            if key < first_key {
                first = n;
                first_key = key;
            }
            n = n + 1;
        }
        let start: usize = self.starts[first];
        assert(lanes[first as int] == lane(self.scene@.lists, first as int));
        let head = match item_at(self.scene, first, start) {
            Some(head) => head,
            None => {
                return None;
            },
        };
        let mut bound: u64 = 0x8_0000_0000;
        let mut m: usize = 0;
        while m < 8
            invariant
                self.wf(),
                lanes == self.lanes(),
                starts == self.starts@,
                m <= 8,
                bound as int == limit(lanes, starts, first as int, m as int),
            decreases 8 - m,
        {
            let key: u64 = self.key_at(m);
            if m != first && key < bound {
                bound = key;
            }
            m = m + 1;
        }
        let texture_id = head.texture_id;
        let ghost items = lanes[first as int];
        let mut end: usize = start + 1;
        proof {
            run_end_bounds(items, start + 1, first as int, bound as int, texture_id);
        }
        loop
            invariant_except_break
                start < end <= items.len(),
                run_end(items, start + 1, first as int, bound as int, texture_id) == run_end(
                    items,
                    end as int,
                    first as int,
                    bound as int,
                    texture_id,
                ),
            invariant
                self.wf(),
                first < 8,
                items == lane(self.scene@.lists, first as int),
                items.len() <= usize::MAX,
            ensures
                end as int == run_end(items, start + 1, first as int, bound as int, texture_id),
            decreases items.len() - end,
        {
            match item_at(self.scene, first, end) {
                Some(item) => {
                    if (item.order as u64) * 8 + (first as u64) < bound && same_texture(
                        item.texture_id,
                        texture_id,
                    ) {
                        end = end + 1;
                    } else {
                        break;
                    }
                },
                None => {
                    break;
                },
            }
        }
        let kind = PrimitiveKind::at(first);
        let batch = PrimitiveBatch { kind, start, end, texture_id };
        self.starts.set(first, end);
        Some(batch)
    }
}

fn same_texture(a: Option<AtlasTextureId>, b: Option<AtlasTextureId>) -> (same: bool)
    ensures
        same == (a == b),
{
    match (a, b) {
        (Some(a), Some(b)) => a == b,
        (None, None) => true,
        _ => false,
    }
}

impl Scene {
    /// The batches of the scene, in the sequence of drawing.
    pub fn batches(&self) -> (batches: Vec<PrimitiveBatch>)
        ensures
            batches@ == batches_from(lanes_of(self@.lists), at_start()),
    {
        let mut walk = BatchIterator { scene: self, starts: vec![0, 0, 0, 0, 0, 0, 0, 0] };
        let ghost lanes = lanes_of(self@.lists);
        let mut batches: Vec<PrimitiveBatch> = Vec::new();
        proof {
            lists_are_indexed(self);
            assert(walk.starts@ =~= at_start());
            assert(batches@ + batches_from(lanes, walk.starts@) =~= batches_from(
                lanes,
                walk.starts@,
            ));
        }
        loop
            invariant_except_break
                walk.scene == self,
                walk.lanes() == lanes,
                walk.wf(),
                batches@ + batches_from(lanes, walk.starts@) == batches_from(lanes, at_start()),
            ensures
                batches@ == batches_from(lanes, at_start()),
            decreases left(lanes, walk.starts@),
        {
            let ghost starts = walk.starts@;
            match walk.next() {
                Some(batch) => {
                    let ghost before = batches@;
                    batches.push(batch);
                    proof {
                        batch_advances(lanes, starts);
                        assert(batches@ + batches_from(lanes, walk.starts@) =~= before
                            + batches_from(lanes, starts));
                    }
                },
                None => {
                    proof {
                        assert(batches@ + batches_from(lanes, starts) =~= batches@);
                    }
                    break;
                },
            }
        }
        batches
    }
}

/// Every batch holds an item and lies within the list of its sort.
pub proof fn batches_lie_within(lanes: Seq<Seq<LaneItem>>, starts: Seq<usize>)
    requires
        indexed(lanes, starts),
    ensures
        forall|i: int|
            0 <= i < batches_from(lanes, starts).len() ==> {
                let batch = #[trigger] batches_from(lanes, starts)[i];
                batch.start < batch.end <= lanes[batch.kind.rank()].len()
            },
    decreases left(lanes, starts),
{
    if next_batch(lanes, starts) is Some {
        let batch = next_batch(lanes, starts)->0;
        batch_advances(lanes, starts);
        let after = starts.update(batch.kind.rank(), batch.end);
        batches_lie_within(lanes, after);
        let rest = batches_from(lanes, after);
        let all = batches_from(lanes, starts);
        assert(all == seq![batch] + rest);
        assert forall|i: int| 0 <= i < all.len() implies {
            let batch = #[trigger] all[i];
            batch.start < batch.end <= lanes[batch.kind.rank()].len()
        } by {
            if i > 0 {
                assert(all[i] == rest[i - 1]);
            }
        }
    }
}

/// The lists of a scene can be indexed.
pub proof fn lists_are_indexed(scene: &Scene)
    ensures
        indexed(lanes_of(scene@.lists), at_start()),
{
    let lanes = lanes_of(scene@.lists);
    assert(scene.shadows.len() == scene@.lists.shadows.len());
    assert(scene.quads.len() == scene@.lists.quads.len());
    assert(scene.paths.len() == scene@.lists.paths.len());
    assert(scene.underlines.len() == scene@.lists.underlines.len());
    assert(scene.monochrome_sprites.len() == scene@.lists.monochrome_sprites.len());
    assert(scene.polychrome_sprites.len() == scene@.lists.polychrome_sprites.len());
    assert(scene.surfaces.len() == scene@.lists.surfaces.len());
    assert(scene.raster_tiles.len() == scene@.lists.raster_tiles.len());
    assert forall|rank: int| 0 <= rank < 8 implies (#[trigger] lanes[rank]).len()
        <= usize::MAX by {
        assert(lanes[rank] == lane(scene@.lists, rank));
    }
}

} // verus!
