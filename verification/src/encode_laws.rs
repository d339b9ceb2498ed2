//! What the draws of an encoded scene show: every primitive once, from the data that
//! is its own, and in the sequence in which it has to be drawn.
use vstd::prelude::*;

use crate::batches::{
    at_start, batch_advances, batches_cover_every_primitive, batches_from, batches_lie_within,
    below_last_order, covered, drawing_follows_the_order, drawn, indexed, keys_of, lane, lanes_of,
    left, never_falls, next_batch, sorted_lanes, LaneItem, PrimitiveBatch,
};
use crate::encode::{resident_at, DrawPass, DrawStep, EncodeState, FrameStep};
use crate::instance_buffer::InstanceSizes;
use crate::primitive::{PrimitiveKind, PrimitiveLists, RasterTile, ScenePath};
use crate::residency::{index_of_finds, CachedRasterTexture, CachedRasterTextureKey};

verus! {

/// The number of primitives of a sort.
pub open spec fn listed(lists: PrimitiveLists, kind: PrimitiveKind) -> int {
    match kind {
        PrimitiveKind::Shadow => lists.shadows.len() as int,
        PrimitiveKind::Quad => lists.quads.len() as int,
        PrimitiveKind::Path => lists.paths.len() as int,
        PrimitiveKind::Underline => lists.underlines.len() as int,
        PrimitiveKind::MonochromeSprite => lists.monochrome_sprites.len() as int,
        PrimitiveKind::PolychromeSprite => lists.polychrome_sprites.len() as int,
        PrimitiveKind::Surface => lists.surfaces.len() as int,
        PrimitiveKind::RasterTile => lists.raster_tiles.len() as int,
    }
}

/// The order of a primitive.
pub open spec fn order_at(lists: PrimitiveLists, kind: PrimitiveKind, i: int) -> u32 {
    match kind {
        PrimitiveKind::Shadow => lists.shadows[i].order,
        PrimitiveKind::Quad => lists.quads[i].order,
        PrimitiveKind::Path => lists.paths[i].order,
        PrimitiveKind::Underline => lists.underlines[i].order,
        PrimitiveKind::MonochromeSprite => lists.monochrome_sprites[i].order,
        PrimitiveKind::PolychromeSprite => lists.polychrome_sprites[i].order,
        PrimitiveKind::Surface => lists.surfaces[i].order,
        PrimitiveKind::RasterTile => lists.raster_tiles[i].order,
    }
}

/// How late a sort comes among those of one order: shadows lie below everything, then
/// come quads, paths, underlines, glyphs, pictures and surfaces, and raster tiles last.
pub open spec fn height(kind: PrimitiveKind) -> int {
    match kind {
        PrimitiveKind::Shadow => 0,
        PrimitiveKind::Quad => 1,
        PrimitiveKind::Path => 2,
        PrimitiveKind::Underline => 3,
        PrimitiveKind::MonochromeSprite => 4,
        PrimitiveKind::PolychromeSprite => 5,
        PrimitiveKind::Surface => 6,
        PrimitiveKind::RasterTile => 7,
    }
}

/// Whether one primitive may be drawn before another.
pub open spec fn may_precede(
    lists: PrimitiveLists,
    kind: PrimitiveKind,
    i: int,
    later_kind: PrimitiveKind,
    later: int,
) -> bool {
    let order = order_at(lists, kind, i);
    let later_order = order_at(lists, later_kind, later);
    order < later_order || (order == later_order && height(kind) <= height(later_kind))
}

/// Whether every list is sorted by order.
pub open spec fn lists_sorted(lists: PrimitiveLists) -> bool {
    forall|kind: PrimitiveKind, i: int, j: int|
        0 <= i < j < listed(lists, kind) ==> #[trigger] order_at(lists, kind, i)
            <= #[trigger] order_at(lists, kind, j)
}

/// Whether no primitive has the last order.
pub open spec fn no_last_order(lists: PrimitiveLists) -> bool {
    forall|kind: PrimitiveKind, i: int|
        0 <= i < listed(lists, kind) ==> #[trigger] order_at(lists, kind, i) < u32::MAX
}

/// Whether every list can be indexed by a machine word.
pub open spec fn lists_fit(lists: PrimitiveLists) -> bool {
    forall|kind: PrimitiveKind| #[trigger] listed(lists, kind) <= usize::MAX
}

/// The draws by which a sort comes to the target: paths by the rectangles that are
/// copied, all others by their own instances.
pub open spec fn showing(kind: PrimitiveKind) -> DrawPass {
    if kind == PrimitiveKind::Path {
        DrawPass::PathSprites
    } else {
        DrawPass::Instances
    }
}

/// Whether a step draws a primitive in some way.
pub open spec fn draws(step: FrameStep, kind: PrimitiveKind, pass: DrawPass, i: int) -> bool {
    match step {
        FrameStep::Draw(draw) => draw.kind == kind && draw.pass == pass && draw.start <= i
            < draw.end,
        FrameStep::Begin(_) => false,
    }
}

/// Whether exactly one step from a place on draws a primitive in some way.
pub open spec fn drawn_once(
    steps: Seq<FrameStep>,
    from: int,
    kind: PrimitiveKind,
    pass: DrawPass,
    i: int,
) -> bool {
    exists|j: int|
        from <= j < steps.len() && #[trigger] draws(steps[j], kind, pass, i) && only_draw(
            steps,
            from,
            kind,
            pass,
            i,
            j,
        )
}

/// Whether no other step draws the primitive in that way.
pub open spec fn only_draw(
    steps: Seq<FrameStep>,
    from: int,
    kind: PrimitiveKind,
    pass: DrawPass,
    i: int,
    j: int,
) -> bool {
    forall|k: int|
        from <= k < steps.len() && #[trigger] draws(steps[k], kind, pass, i) ==> k == j
}

/// Whether no step from a place on draws a primitive in some way.
pub open spec fn not_drawn(
    steps: Seq<FrameStep>,
    from: int,
    kind: PrimitiveKind,
    pass: DrawPass,
    i: int,
) -> bool {
    forall|k: int| from <= k < steps.len() ==> !(#[trigger] draws(steps[k], kind, pass, i))
}

/// Whether a texture holds a tile in its present state.
pub open spec fn holds_tile(texture: CachedRasterTexture, tile: RasterTile) -> bool {
    &&& texture.key.cache_id == tile.cache_id
    &&& texture.key.tile_key == tile.key
    &&& texture.key.revision == tile.revision
}

/// Whether a tile is on the device.
pub open spec fn on_device(textures: Seq<CachedRasterTexture>, tile: RasterTile) -> bool {
    exists|t: int| 0 <= t < textures.len() && holds_tile(#[trigger] textures[t], tile)
}

/// The bytes of one instance of a sort; for paths, of one rectangle.
pub open spec fn instance_bytes(sizes: InstanceSizes, kind: PrimitiveKind) -> int {
    match kind {
        PrimitiveKind::Shadow => sizes.shadow as int,
        PrimitiveKind::Quad => sizes.quad as int,
        PrimitiveKind::Path => sizes.path_sprite as int,
        PrimitiveKind::Underline => sizes.underline as int,
        PrimitiveKind::MonochromeSprite => sizes.monochrome_sprite as int,
        PrimitiveKind::PolychromeSprite => sizes.polychrome_sprite as int,
        PrimitiveKind::Surface => sizes.surface as int,
        PrimitiveKind::RasterTile => sizes.raster_tile as int,
    }
}

/// The number of instances that a draw of primitives takes: one each, but one
/// rectangle for all paths of a draw where they differ in order.
pub open spec fn instances_of(lists: PrimitiveLists, draw: DrawStep) -> int {
    if draw.pass == DrawPass::PathSprites && lists.paths[draw.start as int].order
        != lists.paths[draw.end - 1].order {
        1
    } else {
        draw.end - draw.start
    }
}

/// Whether a draw is of primitives that there are, has an aligned run of the right size
/// within the buffer, and reads a texture exactly where it draws a tile, which that
/// texture then holds.
pub open spec fn sound(
    draw: DrawStep,
    capacity: usize,
    lists: PrimitiveLists,
    sizes: InstanceSizes,
    textures: Seq<CachedRasterTexture>,
) -> bool {
    &&& draw.start < draw.end <= listed(lists, draw.kind)
    &&& draw.offset % 256 == 0
    &&& draw.offset + draw.bytes <= capacity
    &&& draw.pass == showing(draw.kind) || (draw.kind == PrimitiveKind::Path && draw.pass
        == DrawPass::PathVertices)
    &&& if draw.pass == DrawPass::PathVertices {
        draw.bytes as int == lists.paths[draw.start as int].vertex_count * sizes.path_vertex
    } else {
        draw.bytes as int == instances_of(lists, draw) * instance_bytes(sizes, draw.kind)
    }
    &&& draw.pass == DrawPass::PathVertices || draw.kind == PrimitiveKind::Surface || draw.kind
        == PrimitiveKind::RasterTile ==> draw.end == draw.start + 1
    &&& draw.kind != PrimitiveKind::RasterTile ==> draw.texture is None
    &&& draw.kind == PrimitiveKind::RasterTile ==> {
        &&& draw.texture is Some
        &&& textures.contains(draw.texture->0)
        &&& holds_tile(draw.texture->0, lists.raster_tiles[draw.start as int])
    }
}

/// Whether encoding has gone on from one state to another: the steps before stay, each
/// new one is sound, and their runs lie one behind the other.
pub open spec fn goes_on(
    before: EncodeState,
    after: EncodeState,
    capacity: usize,
    lists: PrimitiveLists,
    sizes: InstanceSizes,
    textures: Seq<CachedRasterTexture>,
) -> bool {
    &&& before.steps.len() <= after.steps.len()
    &&& before.offset <= after.offset
    &&& forall|j: int|
        0 <= j < before.steps.len() ==> #[trigger] after.steps[j] == before.steps[j]
    &&& forall|j: int|
        before.steps.len() <= j < after.steps.len() ==> {
            let step = #[trigger] after.steps[j];
            &&& step is Draw
            &&& sound(step->Draw_0, capacity, lists, sizes, textures)
            &&& before.offset <= step->Draw_0.offset
            &&& step->Draw_0.offset + step->Draw_0.bytes <= after.offset
        }
    &&& forall|j: int, k: int|
        before.steps.len() <= j < k < after.steps.len() ==> (
        #[trigger] after.steps[j])->Draw_0.offset + after.steps[j]->Draw_0.bytes <= (
        #[trigger] after.steps[k])->Draw_0.offset
}

/// Whether all new steps draw primitives of a batch.
spec fn stays_in(before: EncodeState, after: EncodeState, batch: PrimitiveBatch) -> bool {
    forall|j: int|
        before.steps.len() <= j < after.steps.len() ==> {
            let draw = (#[trigger] after.steps[j])->Draw_0;
            draw.kind == batch.kind && batch.start <= draw.start && draw.end <= batch.end
        }
}

proof fn going_on_goes_on(
    first: EncodeState,
    second: EncodeState,
    third: EncodeState,
    capacity: usize,
    lists: PrimitiveLists,
    sizes: InstanceSizes,
    textures: Seq<CachedRasterTexture>,
)
    requires
        goes_on(first, second, capacity, lists, sizes, textures),
        goes_on(second, third, capacity, lists, sizes, textures),
    ensures
        goes_on(first, third, capacity, lists, sizes, textures),
{
    assert forall|j: int| first.steps.len() <= j < third.steps.len() implies {
        let step = #[trigger] third.steps[j];
        &&& step is Draw
        &&& sound(step->Draw_0, capacity, lists, sizes, textures)
        &&& first.offset <= step->Draw_0.offset
        &&& step->Draw_0.offset + step->Draw_0.bytes <= third.offset
    } by {
        if j < second.steps.len() {
            assert(third.steps[j] == second.steps[j]);
        }
    }
    assert forall|j: int, k: int| first.steps.len() <= j < k < third.steps.len() implies (
    #[trigger] third.steps[j])->Draw_0.offset + third.steps[j]->Draw_0.bytes <= (
    #[trigger] third.steps[k])->Draw_0.offset by {
        if j < second.steps.len() {
            assert(third.steps[j] == second.steps[j]);
            if k < second.steps.len() {
                assert(third.steps[k] == second.steps[k]);
            }
        }
    }
}

proof fn still_drawn_once(
    steps: Seq<FrameStep>,
    more: Seq<FrameStep>,
    from: int,
    kind: PrimitiveKind,
    pass: DrawPass,
    i: int,
)
    requires
        0 <= from,
        steps.len() <= more.len(),
        forall|j: int| 0 <= j < steps.len() ==> #[trigger] more[j] == steps[j],
        drawn_once(steps, from, kind, pass, i),
        not_drawn(more, steps.len() as int, kind, pass, i),
    ensures
        drawn_once(more, from, kind, pass, i),
{
    let j = choose|j: int|
        from <= j < steps.len() && #[trigger] draws(steps[j], kind, pass, i) && only_draw(
            steps,
            from,
            kind,
            pass,
            i,
            j,
        );
    assert(draws(more[j], kind, pass, i));
    assert forall|k: int|
        from <= k < more.len() && #[trigger] draws(more[k], kind, pass, i) implies k == j by {
        if k < steps.len() {
            assert(draws(steps[k], kind, pass, i));
        }
    }
    assert(only_draw(more, from, kind, pass, i, j));
}

proof fn first_drawn_now(
    steps: Seq<FrameStep>,
    more: Seq<FrameStep>,
    from: int,
    kind: PrimitiveKind,
    pass: DrawPass,
    i: int,
)
    requires
        0 <= from <= steps.len() <= more.len(),
        forall|j: int| 0 <= j < steps.len() ==> #[trigger] more[j] == steps[j],
        not_drawn(steps, from, kind, pass, i),
        drawn_once(more, steps.len() as int, kind, pass, i),
    ensures
        drawn_once(more, from, kind, pass, i),
{
    let j = choose|j: int|
        steps.len() <= j < more.len() && #[trigger] draws(more[j], kind, pass, i) && only_draw(
            more,
            steps.len() as int,
            kind,
            pass,
            i,
            j,
        );
    assert forall|k: int|
        from <= k < more.len() && #[trigger] draws(more[k], kind, pass, i) implies k == j by {
        if k < steps.len() {
            assert(!draws(steps[k], kind, pass, i));
        }
    }
    assert(only_draw(more, from, kind, pass, i, j));
}

/// A draw that fits is one more step behind the others; one that does not fit is the
/// end.
proof fn one_more_draw(
    state: EncodeState,
    capacity: usize,
    kind: PrimitiveKind,
    pass: DrawPass,
    start: int,
    end: int,
    bytes: int,
    texture: Option<CachedRasterTexture>,
)
    requires
        0 <= start < end <= usize::MAX,
        0 <= bytes,
        state.offset >= 0,
    ensures
        ({
            let after = state.placed_from(capacity, kind, pass, start, end, bytes, texture);
            &&& state.failed is Some ==> after.failed is Some
            &&& after.failed is None ==> {
                let step = after.steps.last();
                &&& after.steps == state.steps.push(step)
                &&& step is Draw
                &&& step->Draw_0.kind == kind
                &&& step->Draw_0.pass == pass
                &&& step->Draw_0.start == start
                &&& step->Draw_0.end == end
                &&& step->Draw_0.bytes == bytes
                &&& step->Draw_0.texture == texture
                &&& step->Draw_0.offset % 256 == 0
                &&& state.offset <= step->Draw_0.offset
                &&& step->Draw_0.offset + bytes == after.offset
                &&& after.offset <= capacity
            }
        }),
{
}

proof fn one_more_goes_on(
    state: EncodeState,
    after: EncodeState,
    capacity: usize,
    lists: PrimitiveLists,
    sizes: InstanceSizes,
    textures: Seq<CachedRasterTexture>,
)
    requires
        after.steps.len() == state.steps.len() + 1,
        after.steps == state.steps.push(after.steps.last()),
        after.steps.last() is Draw,
        sound(after.steps.last()->Draw_0, capacity, lists, sizes, textures),
        state.offset <= after.steps.last()->Draw_0.offset,
        after.steps.last()->Draw_0.offset + after.steps.last()->Draw_0.bytes == after.offset,
    ensures
        goes_on(state, after, capacity, lists, sizes, textures),
{
}

/// Draws of one primitive each, from `start` on, that leave some out.
spec fn one_by_one(
    before: EncodeState,
    after: EncodeState,
    kind: PrimitiveKind,
    pass: DrawPass,
    start: int,
    end: int,
    left_out: spec_fn(int) -> bool,
) -> bool {
    &&& forall|j: int|
        before.steps.len() <= j < after.steps.len() ==> {
            let draw = (#[trigger] after.steps[j])->Draw_0;
            draw.kind == kind && draw.pass == pass && start <= draw.start && draw.end <= end
        }
    &&& forall|j: int, k: int|
        before.steps.len() <= j < k < after.steps.len() ==> (
        #[trigger] after.steps[j])->Draw_0.end <= (#[trigger] after.steps[k])->Draw_0.start
    &&& forall|i: int|
        start <= i < end && !left_out(i) ==> #[trigger] drawn_once(
            after.steps,
            before.steps.len() as int,
            kind,
            pass,
            i,
        )
    &&& forall|i: int|
        start <= i < end && left_out(i) ==> #[trigger] not_drawn(
            after.steps,
            before.steps.len() as int,
            kind,
            pass,
            i,
        )
}

proof fn one_by_one_more(
    before: EncodeState,
    reached: EncodeState,
    after: EncodeState,
    kind: PrimitiveKind,
    pass: DrawPass,
    start: int,
    end: int,
    left_out: spec_fn(int) -> bool,
)
    requires
        start < end,
        before.steps.len() <= reached.steps.len(),
        forall|j: int|
            before.steps.len() <= j < reached.steps.len() ==> (
            #[trigger] reached.steps[j]) is Draw,
        one_by_one(before, reached, kind, pass, start, end - 1, left_out),
        left_out(end - 1) ==> after.steps == reached.steps,
        !left_out(end - 1) ==> {
            let draw = after.steps.last()->Draw_0;
            &&& after.steps == reached.steps.push(after.steps.last())
            &&& after.steps.last() is Draw
            &&& draw.kind == kind && draw.pass == pass
            &&& draw.start == end - 1 && draw.end == end
        },
    ensures
        one_by_one(before, after, kind, pass, start, end, left_out),
{
    let from = before.steps.len() as int;
    let n = reached.steps.len() as int;
    assert forall|i: int| start <= i < end && !left_out(i) implies #[trigger] drawn_once(
        after.steps,
        from,
        kind,
        pass,
        i,
    ) by {
        if i < end - 1 {
            assert(drawn_once(reached.steps, from, kind, pass, i));
            assert(not_drawn(after.steps, n, kind, pass, i)) by {
                assert forall|k: int| n <= k < after.steps.len() implies !(
                #[trigger] draws(after.steps[k], kind, pass, i)) by {}
            }
            still_drawn_once(reached.steps, after.steps, from, kind, pass, i);
        } else {
            assert(draws(after.steps[n], kind, pass, i));
            assert forall|k: int|
                from <= k < after.steps.len() && #[trigger] draws(
                    after.steps[k],
                    kind,
                    pass,
                    i,
                ) implies k == n by {
                if k < n {
                    assert(after.steps[k] == reached.steps[k]);
                }
            }
            assert(only_draw(after.steps, from, kind, pass, i, n));
        }
    }
    assert forall|i: int| start <= i < end && left_out(i) implies #[trigger] not_drawn(
        after.steps,
        from,
        kind,
        pass,
        i,
    ) by {
        assert forall|k: int| from <= k < after.steps.len() implies !(
        #[trigger] draws(after.steps[k], kind, pass, i)) by {
            if k < n {
                assert(after.steps[k] == reached.steps[k]);
                if i < end - 1 {
                    assert(not_drawn(reached.steps, from, kind, pass, i));
                    assert(!draws(reached.steps[k], kind, pass, i));
                }
            }
        }
    }
    assert forall|j: int| from <= j < after.steps.len() implies {
        let draw = (#[trigger] after.steps[j])->Draw_0;
        draw.kind == kind && draw.pass == pass && start <= draw.start && draw.end <= end
    } by {
        if j < n {
            assert(after.steps[j] == reached.steps[j]);
        }
    }
    assert forall|j: int, k: int| from <= j < k < after.steps.len() implies (
    #[trigger] after.steps[j])->Draw_0.end <= (#[trigger] after.steps[k])->Draw_0.start by {
        assert(after.steps[j] == reached.steps[j]);
        if k < n {
            assert(after.steps[k] == reached.steps[k]);
        }
    }
}

proof fn one_instance(lists: PrimitiveLists, sizes: InstanceSizes, draw: DrawStep)
    requires
        instances_of(lists, draw) == 1,
    ensures
        instances_of(lists, draw) * instance_bytes(sizes, draw.kind) == instance_bytes(
            sizes,
            draw.kind,
        ),
{
}

proof fn vertices_are_drawn(
    state: EncodeState,
    capacity: usize,
    lists: PrimitiveLists,
    sizes: InstanceSizes,
    textures: Seq<CachedRasterTexture>,
    start: int,
    end: int,
)
    requires
        0 <= start <= end <= lists.paths.len(),
        lists.paths.len() <= usize::MAX,
        state.offset >= 0,
        state.vertices_placed(capacity, lists.paths, sizes, start, end).failed is None,
    ensures
        ({
            let after = state.vertices_placed(capacity, lists.paths, sizes, start, end);
            &&& state.failed is None
            &&& goes_on(state, after, capacity, lists, sizes, textures)
            &&& one_by_one(
                state,
                after,
                PrimitiveKind::Path,
                DrawPass::PathVertices,
                start,
                end,
                |i: int| false,
            )
        }),
    decreases end - start,
{
    if end > start {
        let reached = state.vertices_placed(capacity, lists.paths, sizes, start, end - 1);
        let after = state.vertices_placed(capacity, lists.paths, sizes, start, end);
        let bytes = lists.paths[end - 1].vertex_count * sizes.path_vertex;
        assert(bytes >= 0) by (nonlinear_arith)
            requires
                bytes == lists.paths[end - 1].vertex_count * sizes.path_vertex,
                lists.paths[end - 1].vertex_count >= 0,
                sizes.path_vertex >= 0,
        ;
        if reached.failed is None {
            vertices_are_drawn(state, capacity, lists, sizes, textures, start, end - 1);
            one_more_draw(
                reached,
                capacity,
                PrimitiveKind::Path,
                DrawPass::PathVertices,
                end - 1,
                end,
                bytes,
                None,
            );
            one_more_goes_on(reached, after, capacity, lists, sizes, textures);
            going_on_goes_on(state, reached, after, capacity, lists, sizes, textures);
            one_by_one_more(
                state,
                reached,
                after,
                PrimitiveKind::Path,
                DrawPass::PathVertices,
                start,
                end,
                |i: int| false,
            );
        }
    }
}

proof fn surfaces_are_drawn(
    state: EncodeState,
    capacity: usize,
    lists: PrimitiveLists,
    sizes: InstanceSizes,
    textures: Seq<CachedRasterTexture>,
    start: int,
    end: int,
)
    requires
        0 <= start <= end <= lists.surfaces.len(),
        lists.surfaces.len() <= usize::MAX,
        state.offset >= 0,
        state.surfaces_placed(capacity, sizes.surface, start, end).failed is None,
    ensures
        ({
            let after = state.surfaces_placed(capacity, sizes.surface, start, end);
            &&& state.failed is None
            &&& goes_on(state, after, capacity, lists, sizes, textures)
            &&& one_by_one(
                state,
                after,
                PrimitiveKind::Surface,
                DrawPass::Instances,
                start,
                end,
                |i: int| false,
            )
        }),
    decreases end - start,
{
    if end > start {
        let reached = state.surfaces_placed(capacity, sizes.surface, start, end - 1);
        let after = state.surfaces_placed(capacity, sizes.surface, start, end);
        if reached.failed is None {
            surfaces_are_drawn(state, capacity, lists, sizes, textures, start, end - 1);
            one_more_draw(
                reached,
                capacity,
                PrimitiveKind::Surface,
                DrawPass::Instances,
                end - 1,
                end,
                sizes.surface as int,
                None,
            );
            one_instance(lists, sizes, after.steps.last()->Draw_0);
            one_more_goes_on(reached, after, capacity, lists, sizes, textures);
            going_on_goes_on(state, reached, after, capacity, lists, sizes, textures);
            one_by_one_more(
                state,
                reached,
                after,
                PrimitiveKind::Surface,
                DrawPass::Instances,
                start,
                end,
                |i: int| false,
            );
        }
    }
}

proof fn residents_are_found(textures: Seq<CachedRasterTexture>, tile: RasterTile)
    ensures
        resident_at(textures, tile) < textures.len(),
        resident_at(textures, tile) >= 0 <==> on_device(textures, tile),
        resident_at(textures, tile) >= 0 ==> holds_tile(
            textures[resident_at(textures, tile)],
            tile,
        ),
{
    let key = CachedRasterTextureKey {
        cache_id: tile.cache_id,
        tile_key: tile.key,
        revision: tile.revision,
    };
    index_of_finds(textures, key);
}

proof fn tiles_are_drawn(
    state: EncodeState,
    capacity: usize,
    lists: PrimitiveLists,
    sizes: InstanceSizes,
    textures: Seq<CachedRasterTexture>,
    start: int,
    end: int,
)
    requires
        0 <= start <= end <= lists.raster_tiles.len(),
        lists.raster_tiles.len() <= usize::MAX,
        state.offset >= 0,
        state.tiles_placed(
            capacity,
            lists.raster_tiles,
            textures,
            sizes.raster_tile,
            start,
            end,
        ).failed is None,
    ensures
        ({
            let after = state.tiles_placed(
                capacity,
                lists.raster_tiles,
                textures,
                sizes.raster_tile,
                start,
                end,
            );
            &&& state.failed is None
            &&& goes_on(state, after, capacity, lists, sizes, textures)
            &&& one_by_one(
                state,
                after,
                PrimitiveKind::RasterTile,
                DrawPass::Instances,
                start,
                end,
                |i: int| !on_device(textures, lists.raster_tiles[i]),
            )
        }),
    decreases end - start,
{
    let tiles = lists.raster_tiles;
    let size = sizes.raster_tile;
    let left_out = |i: int| !on_device(textures, lists.raster_tiles[i]);
    if end > start {
        let reached = state.tiles_placed(capacity, tiles, textures, size, start, end - 1);
        let after = state.tiles_placed(capacity, tiles, textures, size, start, end);
        residents_are_found(textures, tiles[end - 1]);
        let at = resident_at(textures, tiles[end - 1]);
        if reached.failed is None {
            tiles_are_drawn(state, capacity, lists, sizes, textures, start, end - 1);
            if at >= 0 {
                one_more_draw(
                    reached,
                    capacity,
                    PrimitiveKind::RasterTile,
                    DrawPass::Instances,
                    end - 1,
                    end,
                    size as int,
                    Some(textures[at]),
                );
                assert(textures.contains(textures[at]));
                one_instance(lists, sizes, after.steps.last()->Draw_0);
                one_more_goes_on(reached, after, capacity, lists, sizes, textures);
                going_on_goes_on(state, reached, after, capacity, lists, sizes, textures);
            }
            one_by_one_more(
                state,
                reached,
                after,
                PrimitiveKind::RasterTile,
                DrawPass::Instances,
                start,
                end,
                left_out,
            );
        }
    }
}

/// What a batch adds: draws of its own primitives alone, each of them drawn once, of
/// raster tiles those on the device. Paths are first rasterized, each by a draw of its
/// own, and then copied.
spec fn batch_is_drawn(
    before: EncodeState,
    after: EncodeState,
    lists: PrimitiveLists,
    textures: Seq<CachedRasterTexture>,
    batch: PrimitiveBatch,
) -> bool {
    let from = before.steps.len() as int;
    &&& stays_in(before, after, batch)
    &&& forall|i: int|
        batch.start <= i < batch.end && (batch.kind != PrimitiveKind::RasterTile || on_device(
            textures,
            lists.raster_tiles[i],
        )) ==> #[trigger] drawn_once(after.steps, from, batch.kind, showing(batch.kind), i)
    &&& batch.kind == PrimitiveKind::Path ==> forall|i: int|
        batch.start <= i < batch.end ==> #[trigger] drawn_once(
            after.steps,
            from,
            batch.kind,
            DrawPass::PathVertices,
            i,
        )
    &&& batch.kind == PrimitiveKind::RasterTile ==> forall|i: int|
        batch.start <= i < batch.end && !on_device(textures, lists.raster_tiles[i])
            ==> #[trigger] not_drawn(after.steps, from, batch.kind, DrawPass::Instances, i)
    &&& forall|j: int, k: int|
        from <= j < k < after.steps.len() && (#[trigger] after.steps[j])->Draw_0.pass == showing(
            batch.kind,
        ) && (#[trigger] after.steps[k])->Draw_0.pass == showing(batch.kind)
            ==> after.steps[j]->Draw_0.end <= after.steps[k]->Draw_0.start
    &&& forall|j: int, k: int|
        from <= j < after.steps.len() && from <= k < after.steps.len() && (
        #[trigger] after.steps[j])->Draw_0.pass == DrawPass::PathVertices && (
        #[trigger] after.steps[k])->Draw_0.pass == DrawPass::PathSprites ==> j < k
}

proof fn single_draw_is_once(
    before: EncodeState,
    after: EncodeState,
    kind: PrimitiveKind,
    pass: DrawPass,
    from: int,
    i: int,
)
    requires
        0 <= from <= before.steps.len(),
        after.steps == before.steps.push(after.steps.last()),
        draws(after.steps.last(), kind, pass, i),
        not_drawn(before.steps, from, kind, pass, i),
    ensures
        drawn_once(after.steps, from, kind, pass, i),
{
    let j = before.steps.len() as int;
    assert(after.steps[j] == after.steps.last());
    assert forall|k: int|
        from <= k < after.steps.len() && #[trigger] draws(
            after.steps[k],
            kind,
            pass,
            i,
        ) implies k == j by {
        if k < j {
            assert(after.steps[k] == before.steps[k]);
            assert(!draws(before.steps[k], kind, pass, i));
        }
    }
    assert(only_draw(after.steps, from, kind, pass, i, j));
}

proof fn instances_are_drawn(
    state: EncodeState,
    capacity: usize,
    lists: PrimitiveLists,
    sizes: InstanceSizes,
    textures: Seq<CachedRasterTexture>,
    batch: PrimitiveBatch,
)
    requires
        batch.start < batch.end <= listed(lists, batch.kind),
        state.offset >= 0,
        batch.kind != PrimitiveKind::Path,
        batch.kind != PrimitiveKind::Surface,
        batch.kind != PrimitiveKind::RasterTile,
        state.placed(
            capacity,
            batch.kind,
            DrawPass::Instances,
            batch.start as int,
            batch.end as int,
            (batch.end - batch.start) * instance_bytes(sizes, batch.kind),
        ).failed is None,
    ensures
        ({
            let after = state.placed(
                capacity,
                batch.kind,
                DrawPass::Instances,
                batch.start as int,
                batch.end as int,
                (batch.end - batch.start) * instance_bytes(sizes, batch.kind),
            );
            &&& state.failed is None
            &&& goes_on(state, after, capacity, lists, sizes, textures)
            &&& batch_is_drawn(state, after, lists, textures, batch)
        }),
{
    let count = batch.end - batch.start;
    let size = instance_bytes(sizes, batch.kind);
    let bytes = count * size;
    assert(bytes >= 0) by (nonlinear_arith)
        requires
            bytes == count * size,
            count >= 0,
            size >= 0,
    ;
    let after = state.placed(
        capacity,
        batch.kind,
        DrawPass::Instances,
        batch.start as int,
        batch.end as int,
        bytes,
    );
    one_more_draw(
        state,
        capacity,
        batch.kind,
        DrawPass::Instances,
        batch.start as int,
        batch.end as int,
        bytes,
        None,
    );
    one_more_goes_on(state, after, capacity, lists, sizes, textures);
    assert forall|i: int| batch.start <= i < batch.end implies #[trigger] drawn_once(
        after.steps,
        state.steps.len() as int,
        batch.kind,
        DrawPass::Instances,
        i,
    ) by {
        single_draw_is_once(
            state,
            after,
            batch.kind,
            DrawPass::Instances,
            state.steps.len() as int,
            i,
        );
    }
}

proof fn paths_are_drawn(
    state: EncodeState,
    capacity: usize,
    lists: PrimitiveLists,
    sizes: InstanceSizes,
    textures: Seq<CachedRasterTexture>,
    path_texture: bool,
    batch: PrimitiveBatch,
)
    requires
        batch.kind == PrimitiveKind::Path,
        batch.start < batch.end <= lists.paths.len(),
        lists.paths.len() <= usize::MAX,
        state.offset >= 0,
        state.batch_placed(capacity, lists, sizes, textures, path_texture, batch).failed is None,
    ensures
        ({
            let after = state.batch_placed(
                capacity,
                lists,
                sizes,
                textures,
                path_texture,
                batch,
            );
            &&& state.failed is None
            &&& goes_on(state, after, capacity, lists, sizes, textures)
            &&& batch_is_drawn(state, after, lists, textures, batch)
        }),
{
    let start = batch.start as int;
    let end = batch.end as int;
    let from = state.steps.len() as int;
    let kind = PrimitiveKind::Path;
    let after = state.batch_placed(capacity, lists, sizes, textures, path_texture, batch);
    let reached = state.vertices_placed(capacity, lists.paths, sizes, start, end);
    let sprites = if lists.paths[end - 1].order == lists.paths[start].order {
        end - start
    } else {
        1
    };
    let bytes = sprites * sizes.path_sprite;
    assert(bytes >= 0) by (nonlinear_arith)
        requires
            bytes == sprites * sizes.path_sprite,
            sprites >= 0,
            sizes.path_sprite >= 0,
    ;
    assert(crate::instance_buffer::path_sprite_count(lists.paths, start, end) == sprites);
    if reached.failed is None {
        vertices_are_drawn(state, capacity, lists, sizes, textures, start, end);
    }
    one_more_draw(
        reached,
        capacity,
        kind,
        DrawPass::PathSprites,
        start,
        end,
        bytes,
        None,
    );
    let draw = after.steps.last()->Draw_0;
    assert(instances_of(lists, draw) == sprites);
    one_more_goes_on(reached, after, capacity, lists, sizes, textures);
    going_on_goes_on(state, reached, after, capacity, lists, sizes, textures);
    let n = reached.steps.len() as int;
    assert forall|j: int| from <= j < n implies (
    #[trigger] after.steps[j])->Draw_0.pass == DrawPass::PathVertices && after.steps[j]
        == reached.steps[j] by {}
    assert(after.steps[n] == after.steps.last());
    assert forall|i: int| start <= i < end implies #[trigger] drawn_once(
        after.steps,
        from,
        kind,
        DrawPass::PathSprites,
        i,
    ) by {
        assert(not_drawn(reached.steps, from, kind, DrawPass::PathSprites, i)) by {
            assert forall|k: int| from <= k < n implies !(
            #[trigger] draws(reached.steps[k], kind, DrawPass::PathSprites, i)) by {}
        }
        single_draw_is_once(reached, after, kind, DrawPass::PathSprites, from, i);
    }
    assert forall|i: int| start <= i < end implies #[trigger] drawn_once(
        after.steps,
        from,
        kind,
        DrawPass::PathVertices,
        i,
    ) by {
        assert(drawn_once(reached.steps, from, kind, DrawPass::PathVertices, i));
        assert(not_drawn(after.steps, n, kind, DrawPass::PathVertices, i)) by {
            assert forall|k: int| n <= k < after.steps.len() implies !(
            #[trigger] draws(after.steps[k], kind, DrawPass::PathVertices, i)) by {}
        }
        still_drawn_once(
            reached.steps,
            after.steps,
            from,
            kind,
            DrawPass::PathVertices,
            i,
        );
    }
}

proof fn a_batch_is_drawn(
    state: EncodeState,
    capacity: usize,
    lists: PrimitiveLists,
    sizes: InstanceSizes,
    textures: Seq<CachedRasterTexture>,
    path_texture: bool,
    batch: PrimitiveBatch,
)
    requires
        batch.start < batch.end <= listed(lists, batch.kind),
        lists_fit(lists),
        state.offset >= 0,
        state.batch_placed(capacity, lists, sizes, textures, path_texture, batch).failed is None,
    ensures
        ({
            let after = state.batch_placed(
                capacity,
                lists,
                sizes,
                textures,
                path_texture,
                batch,
            );
            &&& state.failed is None
            &&& goes_on(state, after, capacity, lists, sizes, textures)
            &&& batch_is_drawn(state, after, lists, textures, batch)
        }),
{
    let start = batch.start as int;
    let end = batch.end as int;
    assert(listed(lists, batch.kind) <= usize::MAX);
    match batch.kind {
        PrimitiveKind::Path => {
            paths_are_drawn(state, capacity, lists, sizes, textures, path_texture, batch);
        },
        PrimitiveKind::Surface => {
            surfaces_are_drawn(state, capacity, lists, sizes, textures, start, end);
        },
        PrimitiveKind::RasterTile => {
            tiles_are_drawn(state, capacity, lists, sizes, textures, start, end);
        },
        _ => {
            instances_are_drawn(state, capacity, lists, sizes, textures, batch);
        },
    }
}

/// Whether a step draws primitives of a batch.
spec fn of_batch(step: FrameStep, batch: PrimitiveBatch) -> bool {
    let draw = step->Draw_0;
    step is Draw && draw.kind == batch.kind && batch.start <= draw.start && draw.end <= batch.end
}

/// Whether batches of one sort follow each other in its list.
spec fn ascending_batches(batches: Seq<PrimitiveBatch>) -> bool {
    forall|a: int, b: int|
        0 <= a < b < batches.len() && (#[trigger] batches[a]).kind == (
        #[trigger] batches[b]).kind ==> batches[a].end <= batches[b].start
}

spec fn batches_in_lists(batches: Seq<PrimitiveBatch>, lists: PrimitiveLists) -> bool {
    forall|b: int|
        0 <= b < batches.len() ==> (#[trigger] batches[b]).start < batches[b].end <= listed(
            lists,
            batches[b].kind,
        )
}

/// Whether two steps that show primitives come from batches in this sequence, or from one
/// batch in the sequence of its list.
spec fn in_sequence(
    earlier: FrameStep,
    later: FrameStep,
    batches: Seq<PrimitiveBatch>,
) -> bool {
    exists|a: int, b: int|
        0 <= a <= b < batches.len() && of_batch(earlier, #[trigger] batches[a]) && of_batch(
            later,
            #[trigger] batches[b],
        ) && (a == b ==> earlier->Draw_0.end <= later->Draw_0.start)
}

spec fn from_a_batch(step: FrameStep, batches: Seq<PrimitiveBatch>) -> bool {
    exists|b: int| 0 <= b < batches.len() && of_batch(step, #[trigger] batches[b])
}

/// What batches add, one after the other.
spec fn batches_are_drawn(
    before: EncodeState,
    after: EncodeState,
    lists: PrimitiveLists,
    textures: Seq<CachedRasterTexture>,
    batches: Seq<PrimitiveBatch>,
) -> bool {
    let from = before.steps.len() as int;
    &&& forall|j: int|
        from <= j < after.steps.len() ==> from_a_batch(#[trigger] after.steps[j], batches)
    &&& forall|b: int, i: int|
        0 <= b < batches.len() && (#[trigger] batches[b]).start <= i < batches[b].end && (
        batches[b].kind != PrimitiveKind::RasterTile || on_device(
            textures,
            lists.raster_tiles[i],
        )) ==> #[trigger] drawn_once(
            after.steps,
            from,
            batches[b].kind,
            showing(batches[b].kind),
            i,
        )
    &&& forall|b: int, i: int|
        0 <= b < batches.len() && (#[trigger] batches[b]).start <= i < batches[b].end
            && batches[b].kind == PrimitiveKind::Path ==> #[trigger] drawn_once(
            after.steps,
            from,
            PrimitiveKind::Path,
            DrawPass::PathVertices,
            i,
        )
    &&& forall|b: int, i: int|
        0 <= b < batches.len() && (#[trigger] batches[b]).start <= i < batches[b].end
            && batches[b].kind == PrimitiveKind::RasterTile && !on_device(
            textures,
            lists.raster_tiles[i],
        ) ==> #[trigger] not_drawn(
            after.steps,
            from,
            PrimitiveKind::RasterTile,
            DrawPass::Instances,
            i,
        )
    &&& forall|j: int, k: int|
        from <= j < k < after.steps.len() && (#[trigger] after.steps[j])->Draw_0.pass
            != DrawPass::PathVertices && (#[trigger] after.steps[k])->Draw_0.pass
            != DrawPass::PathVertices ==> in_sequence(after.steps[j], after.steps[k], batches)
    &&& forall|j: int, k: int, i: int|
        from <= j < after.steps.len() && from <= k < after.steps.len() && #[trigger] draws(
            after.steps[j],
            PrimitiveKind::Path,
            DrawPass::PathVertices,
            i,
        ) && #[trigger] draws(
            after.steps[k],
            PrimitiveKind::Path,
            DrawPass::PathSprites,
            i,
        ) ==> j < k
}

proof fn other_batches_do_not_draw(
    steps: Seq<FrameStep>,
    from: int,
    to: int,
    batches: Seq<PrimitiveBatch>,
    kind: PrimitiveKind,
    pass: DrawPass,
    i: int,
)
    requires
        0 <= from,
        to == steps.len(),
        forall|j: int| from <= j < to ==> from_a_batch(#[trigger] steps[j], batches),
        forall|b: int|
            0 <= b < batches.len() && (#[trigger] batches[b]).kind == kind ==> !(batches[b].start
                <= i < batches[b].end),
    ensures
        not_drawn(steps, from, kind, pass, i),
{
    assert forall|k: int| from <= k < steps.len() implies !(
    #[trigger] draws(steps[k], kind, pass, i)) by {
        assert(from_a_batch(steps[k], batches));
        let b = choose|b: int| 0 <= b < batches.len() && of_batch(steps[k], #[trigger] batches[b]);
    }
}

proof fn all_batches_are_drawn(
    state: EncodeState,
    capacity: usize,
    lists: PrimitiveLists,
    sizes: InstanceSizes,
    textures: Seq<CachedRasterTexture>,
    path_texture: bool,
    batches: Seq<PrimitiveBatch>,
)
    requires
        batches_in_lists(batches, lists),
        ascending_batches(batches),
        lists_fit(lists),
        state.offset >= 0,
        state.batches_placed(
            capacity,
            lists,
            sizes,
            textures,
            path_texture,
            batches,
        ).failed is None,
    ensures
        ({
            let after = state.batches_placed(
                capacity,
                lists,
                sizes,
                textures,
                path_texture,
                batches,
            );
            &&& state.failed is None
            &&& goes_on(state, after, capacity, lists, sizes, textures)
            &&& batches_are_drawn(state, after, lists, textures, batches)
        }),
    decreases batches.len(),
{
    if batches.len() > 0 {
        let rest = batches.drop_last();
        let last = batches.len() - 1;
        let batch = batches[last];
        let reached = state.batches_placed(
            capacity,
            lists,
            sizes,
            textures,
            path_texture,
            rest,
        );
        let after = reached.batch_placed(capacity, lists, sizes, textures, path_texture, batch);
        let from = state.steps.len() as int;
        let n = reached.steps.len() as int;
        assert(batches_in_lists(rest, lists)) by {
            assert forall|b: int| 0 <= b < rest.len() implies (
            #[trigger] rest[b]).start < rest[b].end <= listed(lists, rest[b].kind) by {
                assert(rest[b] == batches[b]);
            }
        }
        assert(ascending_batches(rest)) by {
            assert forall|a: int, b: int|
                0 <= a < b < rest.len() && (#[trigger] rest[a]).kind == (
                #[trigger] rest[b]).kind implies rest[a].end <= rest[b].start by {
                assert(rest[a] == batches[a] && rest[b] == batches[b]);
            }
        }
        if reached.failed is Some {
            a_failure_stays(reached, capacity, lists, sizes, textures, path_texture, batch);
        }
        all_batches_are_drawn(state, capacity, lists, sizes, textures, path_texture, rest);
        a_batch_is_drawn(reached, capacity, lists, sizes, textures, path_texture, batch);
        going_on_goes_on(state, reached, after, capacity, lists, sizes, textures);
        joining_batches(state, reached, after, lists, textures, batches);
    }
}

proof fn a_failure_stays(
    state: EncodeState,
    capacity: usize,
    lists: PrimitiveLists,
    sizes: InstanceSizes,
    textures: Seq<CachedRasterTexture>,
    path_texture: bool,
    batch: PrimitiveBatch,
)
    requires
        state.failed is Some,
    ensures
        state.batch_placed(capacity, lists, sizes, textures, path_texture, batch).failed is Some,
{
    failed_surfaces_stay(state, capacity, sizes.surface, batch.start as int, batch.end as int);
    failed_tiles_stay(
        state,
        capacity,
        lists.raster_tiles,
        textures,
        sizes.raster_tile,
        batch.start as int,
        batch.end as int,
    );
}

proof fn failed_surfaces_stay(
    state: EncodeState,
    capacity: usize,
    size: usize,
    start: int,
    end: int,
)
    requires
        state.failed is Some,
    ensures
        state.surfaces_placed(capacity, size, start, end).failed is Some,
    decreases end - start,
{
    if end > start {
        failed_surfaces_stay(state, capacity, size, start, end - 1);
    }
}

proof fn failed_tiles_stay(
    state: EncodeState,
    capacity: usize,
    tiles: Seq<RasterTile>,
    textures: Seq<CachedRasterTexture>,
    size: usize,
    start: int,
    end: int,
)
    requires
        state.failed is Some,
    ensures
        state.tiles_placed(capacity, tiles, textures, size, start, end).failed is Some,
    decreases end - start,
{
    if end > start {
        failed_tiles_stay(state, capacity, tiles, textures, size, start, end - 1);
    }
}

proof fn joining_batches(
    state: EncodeState,
    reached: EncodeState,
    after: EncodeState,
    lists: PrimitiveLists,
    textures: Seq<CachedRasterTexture>,
    batches: Seq<PrimitiveBatch>,
)
    requires
        batches.len() > 0,
        ascending_batches(batches),
        batches_in_lists(batches, lists),
        batches_are_drawn(state, reached, lists, textures, batches.drop_last()),
        batch_is_drawn(reached, after, lists, textures, batches.last()),
        state.steps.len() <= reached.steps.len() <= after.steps.len(),
        forall|j: int|
            0 <= j < reached.steps.len() ==> #[trigger] after.steps[j] == reached.steps[j],
        forall|j: int|
            state.steps.len() <= j < after.steps.len() ==> (#[trigger] after.steps[j]) is Draw && (
            after.steps[j]->Draw_0.pass == showing(after.steps[j]->Draw_0.kind)
                || after.steps[j]->Draw_0.pass == DrawPass::PathVertices),
    ensures
        batches_are_drawn(state, after, lists, textures, batches),
{
    let rest = batches.drop_last();
    let last = batches.len() - 1;
    let batch = batches[last];
    let from = state.steps.len() as int;
    let n = reached.steps.len() as int;
    assert forall|j: int| from <= j < after.steps.len() implies from_a_batch(
        #[trigger] after.steps[j],
        batches,
    ) by {
        if j < n {
            assert(from_a_batch(reached.steps[j], rest));
            let b = choose|b: int|
                0 <= b < rest.len() && of_batch(reached.steps[j], #[trigger] rest[b]);
            assert(of_batch(after.steps[j], batches[b]));
        } else {
            assert(of_batch(after.steps[j], batches[last]));
        }
    }
    // The last batch draws nothing of those before it, and they nothing of it.
    assert forall|kind: PrimitiveKind, pass: DrawPass, i: int, b: int|
        0 <= b < last && (#[trigger] batches[b]).kind == kind && batches[b].start <= i
            < batches[b].end implies #[trigger] not_drawn(after.steps, n, kind, pass, i) by {
        assert forall|k: int| n <= k < after.steps.len() implies !(
        #[trigger] draws(after.steps[k], kind, pass, i)) by {
            assert(of_batch(after.steps[k], batch));
        }
    }
    assert forall|pass: DrawPass, i: int| batch.start <= i < batch.end implies #[trigger] not_drawn(
        reached.steps,
        from,
        batch.kind,
        pass,
        i,
    ) by {
        assert forall|b: int| 0 <= b < rest.len() && (#[trigger] rest[b]).kind
            == batch.kind implies !(rest[b].start <= i < rest[b].end) by {
            assert(rest[b] == batches[b]);
        }
        other_batches_do_not_draw(reached.steps, from, n, rest, batch.kind, pass, i);
    }
    assert forall|b: int, i: int|
        0 <= b < batches.len() && (#[trigger] batches[b]).start <= i < batches[b].end && (
        batches[b].kind != PrimitiveKind::RasterTile || on_device(
            textures,
            lists.raster_tiles[i],
        )) implies #[trigger] drawn_once(
        after.steps,
        from,
        batches[b].kind,
        showing(batches[b].kind),
        i,
    ) by {
        let kind = batches[b].kind;
        if b < last {
            assert(rest[b] == batches[b]);
            assert(drawn_once(reached.steps, from, kind, showing(kind), i));
            assert(not_drawn(after.steps, n, kind, showing(kind), i));
            still_drawn_once(reached.steps, after.steps, from, kind, showing(kind), i);
        } else {
            assert(not_drawn(reached.steps, from, kind, showing(kind), i));
            assert(drawn_once(after.steps, n, kind, showing(kind), i));
            first_drawn_now(reached.steps, after.steps, from, kind, showing(kind), i);
        }
    }
    assert forall|b: int, i: int|
        0 <= b < batches.len() && (#[trigger] batches[b]).start <= i < batches[b].end
            && batches[b].kind == PrimitiveKind::Path implies #[trigger] drawn_once(
        after.steps,
        from,
        PrimitiveKind::Path,
        DrawPass::PathVertices,
        i,
    ) by {
        let kind = PrimitiveKind::Path;
        let pass = DrawPass::PathVertices;
        if b < last {
            assert(rest[b] == batches[b]);
            assert(drawn_once(reached.steps, from, kind, pass, i));
            assert(not_drawn(after.steps, n, kind, pass, i));
            still_drawn_once(reached.steps, after.steps, from, kind, pass, i);
        } else {
            assert(not_drawn(reached.steps, from, kind, pass, i));
            assert(drawn_once(after.steps, n, kind, pass, i));
            first_drawn_now(reached.steps, after.steps, from, kind, pass, i);
        }
    }
    assert forall|b: int, i: int|
        0 <= b < batches.len() && (#[trigger] batches[b]).start <= i < batches[b].end
            && batches[b].kind == PrimitiveKind::RasterTile && !on_device(
            textures,
            lists.raster_tiles[i],
        ) implies #[trigger] not_drawn(
        after.steps,
        from,
        PrimitiveKind::RasterTile,
        DrawPass::Instances,
        i,
    ) by {
        let kind = PrimitiveKind::RasterTile;
        let pass = DrawPass::Instances;
        if b < last {
            assert(rest[b] == batches[b]);
        }
        assert(not_drawn(reached.steps, from, kind, pass, i));
        assert(not_drawn(after.steps, n, kind, pass, i));
        assert forall|k: int| from <= k < after.steps.len() implies !(
        #[trigger] draws(after.steps[k], kind, pass, i)) by {
            if k < n {
                assert(!draws(reached.steps[k], kind, pass, i));
            }
        }
    }
    assert forall|j: int, k: int|
        from <= j < k < after.steps.len() && (#[trigger] after.steps[j])->Draw_0.pass
            != DrawPass::PathVertices && (#[trigger] after.steps[k])->Draw_0.pass
            != DrawPass::PathVertices implies in_sequence(
        after.steps[j],
        after.steps[k],
        batches,
    ) by {
        if k < n {
            assert(in_sequence(reached.steps[j], reached.steps[k], rest));
            let (a, b) = choose|a: int, b: int|
                0 <= a <= b < rest.len() && of_batch(
                    reached.steps[j],
                    #[trigger] rest[a],
                ) && of_batch(reached.steps[k], #[trigger] rest[b]) && (a == b
                    ==> reached.steps[j]->Draw_0.end <= reached.steps[k]->Draw_0.start);
            assert(of_batch(after.steps[j], batches[a]) && of_batch(after.steps[k], batches[b]));
        } else {
            assert(of_batch(after.steps[k], batches[last]));
            if j < n {
                assert(from_a_batch(reached.steps[j], rest));
                let a = choose|a: int|
                    0 <= a < rest.len() && of_batch(reached.steps[j], #[trigger] rest[a]);
                assert(of_batch(after.steps[j], batches[a]));
            } else {
                assert(of_batch(after.steps[j], batches[last]));
            }
        }
    }
    assert forall|j: int, k: int, i: int|
        from <= j < after.steps.len() && from <= k < after.steps.len() && #[trigger] draws(
            after.steps[j],
            PrimitiveKind::Path,
            DrawPass::PathVertices,
            i,
        ) && #[trigger] draws(
            after.steps[k],
            PrimitiveKind::Path,
            DrawPass::PathSprites,
            i,
        ) implies j < k by {
        if j < n && k < n {
            assert(draws(reached.steps[j], PrimitiveKind::Path, DrawPass::PathVertices, i));
            assert(draws(reached.steps[k], PrimitiveKind::Path, DrawPass::PathSprites, i));
        } else if k < n {
            assert(of_batch(after.steps[j], batch));
            assert(not_drawn(
                reached.steps,
                from,
                batch.kind,
                DrawPass::PathSprites,
                i,
            ));
            assert(draws(reached.steps[k], PrimitiveKind::Path, DrawPass::PathSprites, i));
        }
    }
}

proof fn batches_ascend(lanes: Seq<Seq<LaneItem>>, starts: Seq<usize>)
    requires
        indexed(lanes, starts),
    ensures
        ascending_batches(batches_from(lanes, starts)),
        forall|b: int|
            0 <= b < batches_from(lanes, starts).len() ==> starts[(
            #[trigger] batches_from(lanes, starts)[b]).kind.rank()] <= batches_from(
                lanes,
                starts,
            )[b].start,
    decreases left(lanes, starts),
{
    if next_batch(lanes, starts) is Some {
        let batch = next_batch(lanes, starts)->0;
        batch_advances(lanes, starts);
        let after = starts.update(batch.kind.rank(), batch.end);
        batches_ascend(lanes, after);
        let rest = batches_from(lanes, after);
        let all = batches_from(lanes, starts);
        assert(all == seq![batch] + rest);
        assert forall|b: int| 0 <= b < all.len() implies starts[(
        #[trigger] all[b]).kind.rank()] <= all[b].start by {
            if b > 0 {
                assert(all[b] == rest[b - 1]);
                assert(after[rest[b - 1].kind.rank()] <= rest[b - 1].start);
            }
        }
        assert forall|a: int, b: int|
            0 <= a < b < all.len() && (#[trigger] all[a]).kind == (
            #[trigger] all[b]).kind implies all[a].end <= all[b].start by {
            assert(all[b] == rest[b - 1]);
            if a > 0 {
                assert(all[a] == rest[a - 1]);
            } else {
                assert(after[rest[b - 1].kind.rank()] <= rest[b - 1].start);
            }
        }
    }
}

proof fn covered_by_a_batch(batches: Seq<PrimitiveBatch>, kind: PrimitiveKind, i: int)
    requires
        covered(batches, kind).contains(i),
        forall|b: int|
            0 <= b < batches.len() ==> (#[trigger] batches[b]).start <= batches[b].end,
    ensures
        exists|b: int|
            0 <= b < batches.len() && (#[trigger] batches[b]).kind == kind && batches[b].start <= i
                < batches[b].end,
    decreases batches.len(),
{
    if batches.len() > 0 {
        let rest = batches.drop_first();
        let batch = batches.first();
        let p = choose|p: int|
            0 <= p < covered(batches, kind).len() && covered(batches, kind)[p] == i;
        assert(batches[0] == batch);
        let own = if batch.kind == kind {
            batch.end - batch.start
        } else {
            0
        };
        if p >= own {
            assert forall|b: int| 0 <= b < rest.len() implies (
            #[trigger] rest[b]).start <= rest[b].end by {
                assert(rest[b] == batches[b + 1]);
            }
            assert(covered(rest, kind)[p - own] == i);
            covered_by_a_batch(rest, kind, i);
            let b = choose|b: int|
                0 <= b < rest.len() && (#[trigger] rest[b]).kind == kind && rest[b].start <= i
                    < rest[b].end;
            assert(batches[b + 1] == rest[b]);
        }
    }
}

proof fn lanes_are_lists(lists: PrimitiveLists, kind: PrimitiveKind)
    ensures
        0 <= kind.rank() < 8,
        kind.rank() == height(kind),
        lanes_of(lists)[kind.rank()].len() == listed(lists, kind),
        forall|i: int|
            0 <= i < listed(lists, kind) ==> (#[trigger] lanes_of(lists)[kind.rank()][i]).order
                == order_at(lists, kind, i),
{
    assert(lanes_of(lists)[kind.rank()] == lane(lists, kind.rank()));
}

proof fn kind_of_rank(rank: int) -> (kind: PrimitiveKind)
    requires
        0 <= rank < 8,
    ensures
        kind.rank() == rank,
{
    PrimitiveKind::spec_at(rank)
}

proof fn lists_make_lanes(lists: PrimitiveLists)
    requires
        lists_fit(lists),
    ensures
        indexed(lanes_of(lists), at_start()),
        no_last_order(lists) ==> below_last_order(lanes_of(lists)),
        lists_sorted(lists) ==> sorted_lanes(lanes_of(lists)),
{
    let lanes = lanes_of(lists);
    assert forall|rank: int| 0 <= rank < 8 implies (#[trigger] lanes[rank]).len() <= usize::MAX
        && at_start()[rank] <= lanes[rank].len() by {
        let kind = kind_of_rank(rank);
        lanes_are_lists(lists, kind);
        assert(listed(lists, kind) <= usize::MAX);
    }
    if no_last_order(lists) {
        assert forall|rank: int, i: int| 0 <= rank < 8 && 0 <= i < lanes[rank].len() implies (
        #[trigger] lanes[rank][i]).order < u32::MAX by {
            let kind = kind_of_rank(rank);
            lanes_are_lists(lists, kind);
            assert(order_at(lists, kind, i) < u32::MAX);
        }
    }
    if lists_sorted(lists) {
        assert forall|rank: int, i: int, j: int|
            0 <= rank < 8 && 0 <= i < j < lanes[rank].len() implies (
        #[trigger] lanes[rank][i]).order <= (#[trigger] lanes[rank][j]).order by {
            let kind = kind_of_rank(rank);
            lanes_are_lists(lists, kind);
            assert(order_at(lists, kind, i) <= order_at(lists, kind, j));
        }
    }
}

/// Everything in a scene that was encoded is drawn, and nothing twice: each shadow,
/// quad, underline, glyph, picture and surface by exactly one draw of instances; each
/// path once by its vertices and then once by a rectangle that is copied; and each
/// raster tile once where it is on the device, else not at all. The draws before stay,
/// and every new one is sound and has a run of its own behind theirs.
pub proof fn everything_encoded_is_drawn_once(
    state: EncodeState,
    capacity: usize,
    lists: PrimitiveLists,
    sizes: InstanceSizes,
    textures: Seq<CachedRasterTexture>,
    path_texture: bool,
)
    requires
        lists_fit(lists),
        no_last_order(lists),
        state.offset >= 0,
        state.scene_placed(capacity, lists, sizes, textures, path_texture).failed is None,
    ensures
        ({
            let after = state.scene_placed(capacity, lists, sizes, textures, path_texture);
            let from = state.steps.len() as int;
            &&& state.failed is None
            &&& goes_on(state, after, capacity, lists, sizes, textures)
            &&& forall|kind: PrimitiveKind, i: int|
                0 <= i < listed(lists, kind) && kind != PrimitiveKind::RasterTile
                    ==> #[trigger] drawn_once(after.steps, from, kind, showing(kind), i)
            &&& forall|i: int|
                0 <= i < lists.paths.len() ==> #[trigger] drawn_once(
                    after.steps,
                    from,
                    PrimitiveKind::Path,
                    DrawPass::PathVertices,
                    i,
                )
            &&& forall|i: int|
                0 <= i < lists.raster_tiles.len() && on_device(textures, lists.raster_tiles[i])
                    ==> #[trigger] drawn_once(
                    after.steps,
                    from,
                    PrimitiveKind::RasterTile,
                    DrawPass::Instances,
                    i,
                )
            &&& forall|i: int|
                0 <= i < lists.raster_tiles.len() && !on_device(textures, lists.raster_tiles[i])
                    ==> #[trigger] not_drawn(
                    after.steps,
                    from,
                    PrimitiveKind::RasterTile,
                    DrawPass::Instances,
                    i,
                )
            &&& forall|j: int, k: int, i: int|
                from <= j < after.steps.len() && from <= k < after.steps.len() && #[trigger] draws(
                    after.steps[j],
                    PrimitiveKind::Path,
                    DrawPass::PathVertices,
                    i,
                ) && #[trigger] draws(
                    after.steps[k],
                    PrimitiveKind::Path,
                    DrawPass::PathSprites,
                    i,
                ) ==> j < k
        }),
{
    let lanes = lanes_of(lists);
    let batches = batches_from(lanes, at_start());
    let after = state.scene_placed(capacity, lists, sizes, textures, path_texture);
    let from = state.steps.len() as int;
    scene_batches(lists);
    all_batches_are_drawn(state, capacity, lists, sizes, textures, path_texture, batches);
    assert forall|kind: PrimitiveKind, i: int|
        0 <= i < listed(lists, kind) && kind != PrimitiveKind::RasterTile implies #[trigger] drawn_once(
        after.steps,
        from,
        kind,
        showing(kind),
        i,
    ) by {
        let b = batch_of(lists, kind, i);
        assert(batches[b].start <= i);
    }
    assert forall|i: int| 0 <= i < lists.paths.len() implies #[trigger] drawn_once(
        after.steps,
        from,
        PrimitiveKind::Path,
        DrawPass::PathVertices,
        i,
    ) by {
        let b = batch_of(lists, PrimitiveKind::Path, i);
        assert(batches[b].start <= i);
    }
    assert forall|i: int|
        0 <= i < lists.raster_tiles.len() && on_device(
            textures,
            lists.raster_tiles[i],
        ) implies #[trigger] drawn_once(
        after.steps,
        from,
        PrimitiveKind::RasterTile,
        DrawPass::Instances,
        i,
    ) by {
        let b = batch_of(lists, PrimitiveKind::RasterTile, i);
        assert(drawn_once(after.steps, from, batches[b].kind, showing(batches[b].kind), i));
    }
    assert forall|i: int|
        0 <= i < lists.raster_tiles.len() && !on_device(
            textures,
            lists.raster_tiles[i],
        ) implies #[trigger] not_drawn(
        after.steps,
        from,
        PrimitiveKind::RasterTile,
        DrawPass::Instances,
        i,
    ) by {
        let b = batch_of(lists, PrimitiveKind::RasterTile, i);
        assert(batches[b].start <= i);
    }
}

proof fn scene_batches(lists: PrimitiveLists)
    requires
        lists_fit(lists),
    ensures
        batches_in_lists(batches_from(lanes_of(lists), at_start()), lists),
        ascending_batches(batches_from(lanes_of(lists), at_start())),
{
    let lanes = lanes_of(lists);
    let batches = batches_from(lanes, at_start());
    lists_make_lanes(lists);
    batches_ascend(lanes, at_start());
    batches_lie_within(lanes, at_start());
    assert forall|b: int| 0 <= b < batches.len() implies (
    #[trigger] batches[b]).start < batches[b].end <= listed(lists, batches[b].kind) by {
        lanes_are_lists(lists, batches[b].kind);
    }
}

proof fn batch_of(lists: PrimitiveLists, kind: PrimitiveKind, i: int) -> (b: int)
    requires
        lists_fit(lists),
        no_last_order(lists),
        0 <= i < listed(lists, kind),
    ensures
        ({
            let batches = batches_from(lanes_of(lists), at_start());
            &&& 0 <= b < batches.len()
            &&& batches[b].kind == kind
            &&& batches[b].start <= i < batches[b].end
        }),
{
    let lanes = lanes_of(lists);
    let batches = batches_from(lanes, at_start());
    lists_make_lanes(lists);
    lanes_are_lists(lists, kind);
    batches_cover_every_primitive(lanes, at_start(), kind);
    scene_batches(lists);
    assert(covered(batches, kind)[i] == i);
    covered_by_a_batch(batches, kind, i);
    choose|b: int|
        0 <= b < batches.len() && (#[trigger] batches[b]).kind == kind && batches[b].start <= i
            < batches[b].end
}

proof fn drawn_in_parts(lanes: Seq<Seq<LaneItem>>, batches: Seq<PrimitiveBatch>, n: int)
    requires
        0 <= n <= batches.len(),
    ensures
        drawn(lanes, batches) == drawn(lanes, batches.take(n)) + drawn(lanes, batches.skip(n)),
    decreases n,
{
    if n == 0 {
        assert(batches.take(0) =~= Seq::<PrimitiveBatch>::empty());
        assert(batches.skip(0) =~= batches);
        assert(drawn(lanes, batches) =~= drawn(lanes, batches.take(n)) + drawn(
            lanes,
            batches.skip(n),
        ));
    } else {
        let rest = batches.drop_first();
        drawn_in_parts(lanes, rest, n - 1);
        assert(batches.take(n).drop_first() =~= rest.take(n - 1));
        assert(batches.take(n).first() == batches.first());
        assert(batches.skip(n) =~= rest.skip(n - 1));
        assert(drawn(lanes, batches) =~= drawn(lanes, batches.take(n)) + drawn(
            lanes,
            batches.skip(n),
        ));
    }
}

proof fn drawn_at(
    lanes: Seq<Seq<LaneItem>>,
    batches: Seq<PrimitiveBatch>,
    b: int,
    i: int,
) -> (place: int)
    requires
        0 <= b < batches.len(),
        batches[b].start <= i < batches[b].end,
    ensures
        0 <= place < drawn(lanes, batches).len(),
        drawn(lanes, batches)[place] == keys_of(lanes, batches[b])[i - batches[b].start],
    decreases b,
{
    let first = keys_of(lanes, batches.first());
    if b == 0 {
        i - batches[0].start
    } else {
        let rest = batches.drop_first();
        assert(rest[b - 1] == batches[b]);
        let place = drawn_at(lanes, rest, b - 1, i);
        first.len() + place
    }
}

/// The draws of a scene come in the sequence in which its primitives have to be drawn:
/// of two draws that show primitives, the earlier one shows none that has to come after
/// one of the later: by order, and within one order by sort.
pub proof fn draws_follow_the_order(
    state: EncodeState,
    capacity: usize,
    lists: PrimitiveLists,
    sizes: InstanceSizes,
    textures: Seq<CachedRasterTexture>,
    path_texture: bool,
    j: int,
    k: int,
    kind: PrimitiveKind,
    i: int,
    later_kind: PrimitiveKind,
    later: int,
)
    requires
        lists_fit(lists),
        lists_sorted(lists),
        state.offset >= 0,
        state.scene_placed(capacity, lists, sizes, textures, path_texture).failed is None,
        ({
            let after = state.scene_placed(capacity, lists, sizes, textures, path_texture);
            &&& state.steps.len() <= j < k < after.steps.len()
            &&& draws(after.steps[j], kind, showing(kind), i)
            &&& draws(after.steps[k], later_kind, showing(later_kind), later)
        }),
    ensures
        may_precede(lists, kind, i, later_kind, later),
{
    let lanes = lanes_of(lists);
    let batches = batches_from(lanes, at_start());
    let after = state.scene_placed(capacity, lists, sizes, textures, path_texture);
    scene_batches(lists);
    all_batches_are_drawn(state, capacity, lists, sizes, textures, path_texture, batches);
    assert(in_sequence(after.steps[j], after.steps[k], batches));
    let (a, b) = choose|a: int, b: int|
        0 <= a <= b < batches.len() && of_batch(after.steps[j], #[trigger] batches[a]) && of_batch(
            after.steps[k],
            #[trigger] batches[b],
        ) && (a == b ==> after.steps[j]->Draw_0.end <= after.steps[k]->Draw_0.start);
    lanes_are_lists(lists, kind);
    lanes_are_lists(lists, later_kind);
    if a == b {
        assert(order_at(lists, kind, i) <= order_at(lists, kind, later));
    } else {
        lists_make_lanes(lists);
        drawing_follows_the_order(lanes, at_start());
        drawn_in_parts(lanes, batches, b);
        let front = batches.take(b);
        let back = batches.skip(b);
        assert(front[a] == batches[a]);
        assert(back[0] == batches[b]);
        let p = drawn_at(lanes, front, a, i);
        let q = drawn_at(lanes, back, 0, later);
        let sequence = drawn(lanes, batches);
        let behind = drawn(lanes, front).len() + q;
        assert(sequence[p] == drawn(lanes, front)[p]);
        assert(sequence[behind] == drawn(lanes, back)[q]);
        assert(never_falls(sequence));
        assert(sequence[p] <= sequence[behind]);
        assert(sequence[p] == order_at(lists, kind, i) * 8 + height(kind));
        assert(sequence[behind] == order_at(lists, later_kind, later) * 8 + height(later_kind));
    }
}

proof fn batches_have_one_texture(lanes: Seq<Seq<LaneItem>>, starts: Seq<usize>, b: int, i: int)
    requires
        indexed(lanes, starts),
        0 <= b < batches_from(lanes, starts).len(),
        batches_from(lanes, starts)[b].start <= i < batches_from(lanes, starts)[b].end,
    ensures
        ({
            let batch = batches_from(lanes, starts)[b];
            lanes[batch.kind.rank()][i].texture_id == batch.texture_id
        }),
    decreases left(lanes, starts),
{
    let batch = next_batch(lanes, starts)->0;
    batch_advances(lanes, starts);
    let after = starts.update(batch.kind.rank(), batch.end);
    let rest = batches_from(lanes, after);
    assert(batches_from(lanes, starts) == seq![batch] + rest);
    if b > 0 {
        assert(rest[b - 1] == batches_from(lanes, starts)[b]);
        batches_have_one_texture(lanes, after, b - 1, i);
    }
}

/// The sprites of one draw lie in one texture of the atlas.
pub proof fn sprites_of_a_draw_share_a_texture(
    state: EncodeState,
    capacity: usize,
    lists: PrimitiveLists,
    sizes: InstanceSizes,
    textures: Seq<CachedRasterTexture>,
    path_texture: bool,
    j: int,
    a: int,
    b: int,
)
    requires
        lists_fit(lists),
        state.offset >= 0,
        state.scene_placed(capacity, lists, sizes, textures, path_texture).failed is None,
        state.steps.len() <= j < state.scene_placed(
            capacity,
            lists,
            sizes,
            textures,
            path_texture,
        ).steps.len(),
    ensures
        ({
            let step = state.scene_placed(
                capacity,
                lists,
                sizes,
                textures,
                path_texture,
            ).steps[j];
            let glyphs = lists.monochrome_sprites;
            let pictures = lists.polychrome_sprites;
            &&& draws(step, PrimitiveKind::MonochromeSprite, DrawPass::Instances, a) && draws(
                step,
                PrimitiveKind::MonochromeSprite,
                DrawPass::Instances,
                b,
            ) ==> glyphs[a].tile.texture_id == glyphs[b].tile.texture_id
            &&& draws(step, PrimitiveKind::PolychromeSprite, DrawPass::Instances, a) && draws(
                step,
                PrimitiveKind::PolychromeSprite,
                DrawPass::Instances,
                b,
            ) ==> pictures[a].tile.texture_id == pictures[b].tile.texture_id
        }),
{
    let lanes = lanes_of(lists);
    let batches = batches_from(lanes, at_start());
    let after = state.scene_placed(capacity, lists, sizes, textures, path_texture);
    let step = after.steps[j];
    scene_batches(lists);
    lists_make_lanes(lists);
    all_batches_are_drawn(state, capacity, lists, sizes, textures, path_texture, batches);
    assert(from_a_batch(step, batches));
    let n = choose|n: int| 0 <= n < batches.len() && of_batch(step, #[trigger] batches[n]);
    let kind = step->Draw_0.kind;
    if draws(step, kind, DrawPass::Instances, a) && draws(step, kind, DrawPass::Instances, b) {
        batches_have_one_texture(lanes, at_start(), n, a);
        batches_have_one_texture(lanes, at_start(), n, b);
        assert(lanes[kind.rank()] == lane(lists, kind.rank()));
    }
}

proof fn a_path_needs_a_texture(
    state: EncodeState,
    capacity: usize,
    lists: PrimitiveLists,
    sizes: InstanceSizes,
    textures: Seq<CachedRasterTexture>,
    batches: Seq<PrimitiveBatch>,
    b: int,
)
    requires
        0 <= b < batches.len(),
        batches[b].kind == PrimitiveKind::Path,
    ensures
        state.batches_placed(capacity, lists, sizes, textures, false, batches).failed is Some,
    decreases batches.len(),
{
    let rest = batches.drop_last();
    let before = state.batches_placed(capacity, lists, sizes, textures, false, rest);
    if b < rest.len() {
        assert(rest[b] == batches[b]);
        a_path_needs_a_texture(state, capacity, lists, sizes, textures, rest, b);
        a_failure_stays(before, capacity, lists, sizes, textures, false, batches.last());
    }
}

/// A scene with paths is not encoded where there is no texture to rasterize them in.
pub proof fn paths_need_a_texture(
    state: EncodeState,
    capacity: usize,
    lists: PrimitiveLists,
    sizes: InstanceSizes,
    textures: Seq<CachedRasterTexture>,
)
    requires
        lists_fit(lists),
        no_last_order(lists),
        lists.paths.len() > 0,
    ensures
        state.scene_placed(capacity, lists, sizes, textures, false).failed is Some,
{
    let b = batch_of(lists, PrimitiveKind::Path, 0);
    a_path_needs_a_texture(
        state,
        capacity,
        lists,
        sizes,
        textures,
        batches_from(lanes_of(lists), at_start()),
        b,
    );
}

proof fn failing_vertices_are_of_paths(
    state: EncodeState,
    capacity: usize,
    paths: Seq<ScenePath>,
    sizes: InstanceSizes,
    start: int,
    end: int,
)
    ensures
        ({
            let failed = state.vertices_placed(capacity, paths, sizes, start, end).failed;
            failed == state.failed || failed == Some(PrimitiveKind::Path)
        }),
    decreases end - start,
{
    if start < end {
        failing_vertices_are_of_paths(state, capacity, paths, sizes, start, end - 1);
    }
}

proof fn failing_surfaces_are_surfaces(
    state: EncodeState,
    capacity: usize,
    size: usize,
    start: int,
    end: int,
)
    ensures
        ({
            let failed = state.surfaces_placed(capacity, size, start, end).failed;
            failed == state.failed || failed == Some(PrimitiveKind::Surface)
        }),
    decreases end - start,
{
    if start < end {
        failing_surfaces_are_surfaces(state, capacity, size, start, end - 1);
    }
}

proof fn failing_tiles_are_tiles(
    state: EncodeState,
    capacity: usize,
    tiles: Seq<RasterTile>,
    textures: Seq<CachedRasterTexture>,
    size: usize,
    start: int,
    end: int,
)
    ensures
        ({
            let failed = state.tiles_placed(capacity, tiles, textures, size, start, end).failed;
            failed == state.failed || failed == Some(PrimitiveKind::RasterTile)
        }),
    decreases end - start,
{
    if start < end {
        failing_tiles_are_tiles(state, capacity, tiles, textures, size, start, end - 1);
    }
}

proof fn a_failing_batch_is_of_its_sort(
    state: EncodeState,
    capacity: usize,
    lists: PrimitiveLists,
    sizes: InstanceSizes,
    textures: Seq<CachedRasterTexture>,
    path_texture: bool,
    batch: PrimitiveBatch,
)
    ensures
        ({
            let failed = state.batch_placed(
                capacity,
                lists,
                sizes,
                textures,
                path_texture,
                batch,
            ).failed;
            failed == state.failed || failed == Some(batch.kind)
        }),
{
    let start = batch.start as int;
    let end = batch.end as int;
    failing_vertices_are_of_paths(state, capacity, lists.paths, sizes, start, end);
    failing_surfaces_are_surfaces(state, capacity, sizes.surface, start, end);
    failing_tiles_are_tiles(
        state,
        capacity,
        lists.raster_tiles,
        textures,
        sizes.raster_tile,
        start,
        end,
    );
}

proof fn a_failure_is_of_a_batch(
    state: EncodeState,
    capacity: usize,
    lists: PrimitiveLists,
    sizes: InstanceSizes,
    textures: Seq<CachedRasterTexture>,
    path_texture: bool,
    batches: Seq<PrimitiveBatch>,
)
    requires
        state.failed is None,
    ensures
        ({
            let failed = state.batches_placed(
                capacity,
                lists,
                sizes,
                textures,
                path_texture,
                batches,
            ).failed;
            failed matches Some(kind) ==> exists|b: int|
                0 <= b < batches.len() && (#[trigger] batches[b]).kind == kind
        }),
    decreases batches.len(),
{
    if batches.len() > 0 {
        let rest = batches.drop_last();
        let last = batches.len() - 1;
        let before = state.batches_placed(capacity, lists, sizes, textures, path_texture, rest);
        a_failure_is_of_a_batch(state, capacity, lists, sizes, textures, path_texture, rest);
        a_failing_batch_is_of_its_sort(
            before,
            capacity,
            lists,
            sizes,
            textures,
            path_texture,
            batches[last],
        );
        let failed = state.batches_placed(
            capacity,
            lists,
            sizes,
            textures,
            path_texture,
            batches,
        ).failed;
        if failed is Some {
            if failed == before.failed {
                let b = choose|b: int|
                    0 <= b < rest.len() && (#[trigger] rest[b]).kind == failed->0;
                assert(batches[b].kind == failed->0);
            } else {
                assert(batches[last].kind == failed->0);
            }
        }
    }
}

/// Encoding a scene that fails names a sort of which the scene has something.
pub proof fn a_failure_names_what_is_there(
    state: EncodeState,
    capacity: usize,
    lists: PrimitiveLists,
    sizes: InstanceSizes,
    textures: Seq<CachedRasterTexture>,
    path_texture: bool,
)
    requires
        lists_fit(lists),
        state.failed is None,
        state.scene_placed(capacity, lists, sizes, textures, path_texture).failed is Some,
    ensures
        listed(
            lists,
            state.scene_placed(capacity, lists, sizes, textures, path_texture).failed->0,
        ) > 0,
{
    let batches = batches_from(lanes_of(lists), at_start());
    let kind = state.scene_placed(capacity, lists, sizes, textures, path_texture).failed->0;
    scene_batches(lists);
    a_failure_is_of_a_batch(state, capacity, lists, sizes, textures, path_texture, batches);
    let b = choose|b: int| 0 <= b < batches.len() && (#[trigger] batches[b]).kind == kind;
    assert(batches[b].start < batches[b].end <= listed(lists, batches[b].kind));
}

} // verus!
