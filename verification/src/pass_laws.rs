//! What the passes of a frame draw, into what, and in which sequence.
use vstd::prelude::*;

use crate::batch_laws::{
    a_batch_is_prepared_as_a_whole, any_outside, batch_preparing_keeps_tiles_apart, possible,
    preparing_keeps_tiles_apart, ready, state_of, tile, trimming_leaves_what_it_may_not_take,
};
use crate::encode::{DrawPass, EncodeState, FrameStep, PassTarget};
use crate::encode_laws::{
    drawn_once, everything_encoded_is_drawn_once, listed, lists_fit, no_last_order, not_drawn,
    on_device, paths_need_a_texture, showing, sound,
};
use crate::frame_plan::{
    batch_size, comparison_lists, placed_targets, soft_limits, trimmed_to_soft_limits,
    BatchMeasures, PlanContext, PlanState, SoftLimit,
};
use crate::instance_buffer::InstanceSizes;
use crate::plan_laws::a_comparison_draws_the_targets;
use crate::primitive::{PrimitiveKind, PrimitiveLists};
use crate::residency::{
    account_of_finds, evictable, index_of, CachedRasterTexture, CachedRasterTextureKey,
    PreparedRasterBatchTexture, ResidencyModel,
};
use crate::residency_laws::{
    keys_distinct, targets_distinct, trimming_leaves_other_caches_alone, trimming_reaches_the_limit,
};
use crate::scene::{RasterTileUpdate, RasterTileUpdateBatch, Scene};
use crate::tile_laws::{a_prepared_texture_is_as_asked, key_of, resident_in_size, tile_at};

verus! {

/// Whether the steps from one place to another draw a scene: each of them draws some of
/// it, and everything is drawn that has to be, once.
pub open spec fn shows_scene(
    steps: Seq<FrameStep>,
    from: int,
    to: int,
    capacity: usize,
    lists: PrimitiveLists,
    sizes: InstanceSizes,
    textures: Seq<CachedRasterTexture>,
) -> bool {
    let part = steps.take(to);
    &&& 0 <= from <= to <= steps.len()
    &&& forall|j: int|
        from <= j < to ==> (#[trigger] steps[j]) is Draw && sound(
            steps[j]->Draw_0,
            capacity,
            lists,
            sizes,
            textures,
        )
    &&& forall|kind: PrimitiveKind, i: int|
        0 <= i < listed(lists, kind) && kind != PrimitiveKind::RasterTile
            ==> #[trigger] drawn_once(part, from, kind, showing(kind), i)
    &&& forall|i: int|
        0 <= i < lists.paths.len() ==> #[trigger] drawn_once(
            part,
            from,
            PrimitiveKind::Path,
            DrawPass::PathVertices,
            i,
        )
    &&& forall|i: int|
        0 <= i < lists.raster_tiles.len() && on_device(textures, lists.raster_tiles[i])
            ==> #[trigger] drawn_once(
            part,
            from,
            PrimitiveKind::RasterTile,
            DrawPass::Instances,
            i,
        )
    &&& forall|i: int|
        0 <= i < lists.raster_tiles.len() && !on_device(textures, lists.raster_tiles[i])
            ==> #[trigger] not_drawn(
            part,
            from,
            PrimitiveKind::RasterTile,
            DrawPass::Instances,
            i,
        )
}

/// Whether one sequence of steps begins with another.
pub open spec fn begins_with(steps: Seq<FrameStep>, first: Seq<FrameStep>) -> bool {
    &&& first.len() <= steps.len()
    &&& forall|j: int| 0 <= j < first.len() ==> #[trigger] steps[j] == first[j]
}

proof fn the_lists_of_a_scene_fit(scene: &Scene)
    ensures
        lists_fit(scene@.lists),
{
    let lists = scene@.lists;
    assert(scene.shadows.len() == lists.shadows.len());
    assert(scene.quads.len() == lists.quads.len());
    assert(scene.paths.len() == lists.paths.len());
    assert(scene.underlines.len() == lists.underlines.len());
    assert(scene.monochrome_sprites.len() == lists.monochrome_sprites.len());
    assert(scene.polychrome_sprites.len() == lists.polychrome_sprites.len());
    assert(scene.surfaces.len() == lists.surfaces.len());
    assert(scene.raster_tiles.len() == lists.raster_tiles.len());
}

proof fn a_pass_shows_its_scene(
    state: EncodeState,
    target: PassTarget,
    capacity: usize,
    lists: PrimitiveLists,
    sizes: InstanceSizes,
    textures: Seq<CachedRasterTexture>,
    path_texture: bool,
)
    requires
        lists_fit(lists),
        no_last_order(lists),
        state.offset >= 0,
        state.begun(target).scene_placed(capacity, lists, sizes, textures, path_texture).failed
            is None,
    ensures
        ({
            let after = state.begun(target).scene_placed(
                capacity,
                lists,
                sizes,
                textures,
                path_texture,
            );
            let n = state.steps.len() as int;
            &&& state.failed is None
            &&& n < after.steps.len()
            &&& begins_with(after.steps, state.steps)
            &&& after.steps[n] == FrameStep::Begin(target)
            &&& shows_scene(
                after.steps,
                n + 1,
                after.steps.len() as int,
                capacity,
                lists,
                sizes,
                textures,
            )
            &&& after.offset >= state.offset
        }),
{
    let begun = state.begun(target);
    let after = begun.scene_placed(capacity, lists, sizes, textures, path_texture);
    everything_encoded_is_drawn_once(begun, capacity, lists, sizes, textures, path_texture);
    assert(after.steps.take(after.steps.len() as int) =~= after.steps);
    assert(begun.steps[state.steps.len() as int] == FrameStep::Begin(target));
    assert forall|j: int| 0 <= j < state.steps.len() implies #[trigger] after.steps[j]
        == state.steps[j] by {
        assert(after.steps[j] == begun.steps[j]);
    }
}

/// A scene that was drawn stays drawn when more steps follow.
proof fn a_shown_scene_stays_shown(
    before: Seq<FrameStep>,
    after: Seq<FrameStep>,
    from: int,
    to: int,
    capacity: usize,
    lists: PrimitiveLists,
    sizes: InstanceSizes,
    textures: Seq<CachedRasterTexture>,
)
    requires
        begins_with(after, before),
        shows_scene(before, from, to, capacity, lists, sizes, textures),
    ensures
        shows_scene(after, from, to, capacity, lists, sizes, textures),
{
    assert(after.take(to) =~= before.take(to));
    assert forall|j: int| from <= j < to implies (#[trigger] after[j]) is Draw && sound(
        after[j]->Draw_0,
        capacity,
        lists,
        sizes,
        textures,
    ) by {
        assert(after[j] == before[j]);
    }
}

/// The key of an update.
pub open spec fn key_of_update(update: RasterTileUpdate) -> CachedRasterTextureKey {
    key_of(update.cache.identity.id, update.key.number, update.revision.number)
}

/// Whether an update was drawn: there is a pass into the texture of its tile, new unless
/// the tile was there in this size, and the pass draws the scene of the update.
pub open spec fn update_drawn(
    before: PlanState,
    after: PlanState,
    context: PlanContext,
    index: int,
    update: RasterTileUpdate,
) -> bool {
    let n = before.frame.steps.len() as int;
    let steps = after.frame.steps;
    let key = key_of_update(update);
    let at = index_of(after.residency.textures, key);
    &&& n < steps.len()
    &&& begins_with(steps, before.frame.steps)
    &&& tile_at(after.residency, at, key)
    &&& steps[n] == FrameStep::Begin(
        PassTarget::Tile {
            update: index as usize,
            allocation: after.residency.textures[at].allocation,
            fresh: !resident_in_size(before.residency, key, update.texture_size),
        },
    )
    &&& shows_scene(
        steps,
        n + 1,
        steps.len() as int,
        context.capacity,
        update.scene@.lists,
        context.sizes,
        after.residency.textures,
    )
}

/// Whether an update was left out, for which there was a reason: its texture has no pixels
/// or is too large, or the cache has no room.
pub open spec fn update_left_out(
    before: PlanState,
    after: PlanState,
    update: RasterTileUpdate,
) -> bool {
    let cache = update.cache.identity;
    let size = update.texture_size;
    &&& after.frame == before.frame
    &&& !possible(cache, size) || after.residency.resident_bytes(cache.id) + size.width
        * size.height * 4 > cache.config.hard()
}

/// A tile update is drawn into the texture of its tile, unless there is a reason to leave
/// it out.
pub proof fn an_update_is_drawn_or_left_out(
    state: PlanState,
    context: PlanContext,
    index: int,
    update: RasterTileUpdate,
)
    requires
        state.residency.next_allocation < u64::MAX,
        state.frame.offset >= 0,
        no_last_order(update.scene@.lists),
        state.updated(context, index, update).frame.failed is None,
    ensures
        ({
            let after = state.updated(context, index, update);
            &&& update_drawn(state, after, context, index, update) || update_left_out(
                state,
                after,
                update,
            )
            &&& begins_with(after.frame.steps, state.frame.steps)
            &&& after.frame.offset >= 0
            &&& state.frame.failed is None
        }),
{
    let after = state.updated(context, index, update);
    let key = key_of_update(update);
    let cache = update.cache.identity;
    a_prepared_texture_is_as_asked(
        state.residency,
        cache,
        key,
        update.texture_size,
        update.gutter,
        context.protected,
    );
    let (residency, texture) = state.residency.prepared(
        cache,
        key,
        update.texture_size,
        update.gutter,
        context.protected,
    );
    if state.frame.failed is None && texture is Some {
        let target = PassTarget::Tile {
            update: index as usize,
            allocation: texture->0.allocation,
            fresh: texture->0.fresh,
        };
        the_lists_of_a_scene_fit(&update.scene);
        a_pass_shows_its_scene(
            state.frame,
            target,
            context.capacity,
            update.scene@.lists,
            context.sizes,
            residency.textures,
            true,
        );
        crate::residency::index_of_finds(state.residency.textures, key);
        crate::residency::index_of_finds(residency.textures, key);
        if resident_in_size(state.residency, key, update.texture_size) {
            let i = index_of(state.residency.textures, key);
            same_places(state.residency.textures, residency.textures, key);
        }
    }
}

proof fn same_places(
    a: Seq<CachedRasterTexture>,
    b: Seq<CachedRasterTexture>,
    key: CachedRasterTextureKey,
)
    requires
        a.len() == b.len(),
        forall|i: int| 0 <= i < a.len() ==> (#[trigger] a[i]).key == b[i].key,
    ensures
        index_of(a, key) == index_of(b, key),
    decreases a.len(),
{
    if a.len() > 0 {
        assert(a[a.len() - 1].key == b[b.len() - 1].key);
        assert forall|i: int| 0 <= i < a.drop_last().len() implies (
        #[trigger] a.drop_last()[i]).key == b.drop_last()[i].key by {
            assert(a[i].key == b[i].key);
        }
        same_places(a.drop_last(), b.drop_last(), key);
    }
}

/// Whether a batch was drawn: there is a pass into a new texture of its size that draws
/// its scene, with the frame, or in a buffer of its own that leaves the frame's alone. One
/// that is checked later is followed by a pass for the account of its cache that draws its
/// tiles, from `compared` on.
pub open spec fn batch_drawn(
    before: PlanState,
    after: PlanState,
    context: PlanContext,
    index: int,
    batch: RasterTileUpdateBatch,
    measures: BatchMeasures,
    compared: int,
) -> bool {
    let n = before.frame.steps.len() as int;
    let steps = after.frame.steps;
    let textures = after.residency.textures;
    let capacity = if batch.deferred {
        context.deferred_capacity
    } else {
        context.capacity
    };
    &&& n < compared <= steps.len()
    &&& begins_with(steps, before.frame.steps)
    &&& steps[n] == FrameStep::Begin(
        PassTarget::Batch {
            batch: index as usize,
            allocation: before.residency.next_allocation,
            size: batch_size(batch, measures),
            deferred: batch.deferred,
        },
    )
    &&& shows_scene(
        steps,
        n + 1,
        compared,
        capacity,
        batch.scene@.lists,
        context.sizes,
        textures,
    )
    &&& batch.deferred ==> after.frame.offset == before.frame.offset
    &&& !(batch.deferred && batch.verify) ==> compared == steps.len()
    &&& batch.deferred && batch.verify ==> {
        &&& compared < steps.len()
        &&& steps[compared] is Begin
        &&& steps[compared]->Begin_0 matches PassTarget::Comparison { batch: of, account }
            && of == index as usize && accounted(
            after.residency,
            batch.cache.identity.id,
            account,
        )
        &&& shows_scene(
            steps,
            compared + 1,
            steps.len() as int,
            capacity,
            comparison_lists(batch),
            context.sizes,
            textures,
        )
    }
}

/// Whether a number is that of the account of a cache, or zero where it has none.
pub open spec fn accounted(model: ResidencyModel, cache_id: u64, number: u64) -> bool {
    ||| exists|i: int|
        0 <= i < model.namespaces.len() && (#[trigger] model.namespaces[i]).cache_id == cache_id
            && model.namespaces[i].number == number
    ||| number == 0 && forall|i: int|
        0 <= i < model.namespaces.len() ==> (#[trigger] model.namespaces[i]).cache_id != cache_id
}

/// Whether a batch was left out, for which there was a reason: it has no targets, its
/// texture has no pixels or is too large or does not hold a target, all tiles are ready,
/// or the cache has no room.
pub open spec fn batch_left_out(
    before: PlanState,
    after: PlanState,
    batch: RasterTileUpdateBatch,
    measures: BatchMeasures,
) -> bool {
    let cache = batch.cache.identity;
    let size = batch_size(batch, measures);
    let targets = placed_targets(batch.targets@, measures.places@);
    &&& after.frame == before.frame
    &&& {
        ||| batch.targets@.len() == 0
        ||| !possible(cache, size)
        ||| any_outside(targets, batch.texture_size, size)
        ||| forall|j: int|
            0 <= j < targets.len() ==> ready(
                before.residency.textures,
                state_of(cache, #[trigger] targets[j]),
                batch.texture_size,
                batch.gutter,
            )
        ||| after.residency.resident_bytes(cache.id) + size.width * size.height * 4
            > cache.config.hard()
    }
}

/// A batch of different tiles is drawn into a new texture, unless there is a reason to
/// leave it out. Where it is drawn, the place behind the draws of its scene is handed
/// back.
pub proof fn a_batch_is_drawn_or_left_out(
    state: PlanState,
    context: PlanContext,
    index: int,
    batch: RasterTileUpdateBatch,
    measures: BatchMeasures,
) -> (compared: int)
    requires
        keys_distinct(state.residency.textures),
        targets_distinct(placed_targets(batch.targets@, measures.places@)),
        batch.targets@.len() < u32::MAX,
        state.residency.next_allocation < u64::MAX,
        state.frame.offset >= 0,
        no_last_order(batch.scene@.lists),
        state.batch_updated(context, index, batch, measures).frame.failed is None,
    ensures
        ({
            let after = state.batch_updated(context, index, batch, measures);
            &&& batch_drawn(state, after, context, index, batch, measures, compared)
                || batch_left_out(state, after, batch, measures)
            &&& begins_with(after.frame.steps, state.frame.steps)
            &&& after.frame.offset >= 0
            &&& state.frame.failed is None
        }),
{
    let after = state.batch_updated(context, index, batch, measures);
    let size = batch_size(batch, measures);
    let cache = batch.cache.identity;
    let targets = placed_targets(batch.targets@, measures.places@);
    let n = state.frame.steps.len() as int;
    a_batch_is_prepared_as_a_whole(
        state.residency,
        cache,
        batch.texture_size,
        batch.gutter,
        targets,
        size,
        context.protected,
    );
    let (residency, prepared) = state.residency.batch_prepared(
        cache,
        batch.texture_size,
        batch.gutter,
        targets,
        size,
        context.protected,
    );
    let target = PassTarget::Batch {
        batch: index as usize,
        allocation: state.residency.next_allocation,
        size,
        deferred: batch.deferred,
    };
    let textures = residency.textures;
    let drawn = batch.targets@.len() > 0 && size.width > 0 && size.height > 0 && prepared is Some
        && prepared->0 != PreparedRasterBatchTexture::AlreadyReady;
    if state.frame.failed is Some || !drawn {
        0
    } else if !batch.deferred {
        the_lists_of_a_scene_fit(&batch.scene);
        a_pass_shows_its_scene(
            state.frame,
            target,
            context.capacity,
            batch.scene@.lists,
            context.sizes,
            textures,
            true,
        );
        after.frame.steps.len() as int
    } else {
        let fresh = EncodeState { offset: 0, ..state.frame };
        let drawn = fresh.begun(target).scene_placed(
            context.deferred_capacity,
            batch.scene@.lists,
            context.sizes,
            textures,
            true,
        );
        the_lists_of_a_scene_fit(&batch.scene);
        assert(drawn.failed is None);
        a_pass_shows_its_scene(
            fresh,
            target,
            context.deferred_capacity,
            batch.scene@.lists,
            context.sizes,
            textures,
            true,
        );
        let compared = drawn.steps.len() as int;
        if batch.verify {
            let lists = comparison_lists(batch);
            a_comparison_draws_the_targets(batch);
            account_of_finds(residency.namespaces, cache.id);
            let account = crate::residency::account_number(residency.namespaces, cache.id);
            assert(accounted(residency, cache.id, account));
            a_pass_shows_its_scene(
                drawn,
                PassTarget::Comparison { batch: index as usize, account },
                context.deferred_capacity,
                lists,
                context.sizes,
                textures,
                true,
            );
            a_shown_scene_stays_shown(
                drawn.steps,
                after.frame.steps,
                n + 1,
                compared,
                context.deferred_capacity,
                batch.scene@.lists,
                context.sizes,
                textures,
            );
        }
        compared
    }
}

/// The last pass of a frame draws the scene to the drawable, with the tiles that are there
/// after the caches were trimmed to the limits that the frame names. One with paths needs a
/// texture to rasterize them in.
pub proof fn a_frame_ends_with_its_scene(
    state: PlanState,
    context: PlanContext,
    scene: Scene,
    root_path_texture: bool,
)
    requires
        state.frame.offset >= 0,
        no_last_order(scene@.lists),
        state.completed(context, scene, root_path_texture).frame.failed is None,
    ensures
        ({
            let after = state.completed(context, scene, root_path_texture);
            let n = state.frame.steps.len() as int;
            let steps = after.frame.steps;
            &&& n < steps.len()
            &&& begins_with(steps, state.frame.steps)
            &&& steps[n] == FrameStep::Begin(PassTarget::Drawable)
            &&& shows_scene(
                steps,
                n + 1,
                steps.len() as int,
                context.capacity,
                scene@.lists,
                context.sizes,
                after.residency.textures,
            )
            &&& state.frame.failed is None
            &&& scene@.lists.paths.len() > 0 ==> root_path_texture
            &&& after.residency == trimmed_to_soft_limits(
                state.residency,
                soft_limits(scene),
                context.protected,
                (scene.raster_tile_updates@.len() + scene.raster_tile_update_batches@.len()) as int,
            )
        }),
{
    if state.frame.failed is None {
        the_lists_of_a_scene_fit(&scene);
        let after = state.completed(context, scene, root_path_texture);
        a_pass_shows_its_scene(
            state.frame,
            PassTarget::Drawable,
            context.capacity,
            scene@.lists,
            context.sizes,
            after.residency.textures,
            root_path_texture,
        );
        if !root_path_texture && scene@.lists.paths.len() > 0 {
            paths_need_a_texture(
                state.frame.begun(PassTarget::Drawable),
                context.capacity,
                scene@.lists,
                context.sizes,
                after.residency.textures,
            );
        }
    }
}

/// Whether a frame can be planned from a state: nothing is encoded, no tile is there
/// twice, allocations can be numbered, no batch names a tile twice, and no primitive has the
/// last order.
pub open spec fn plannable(state: PlanState, scene: Scene, measures: Seq<BatchMeasures>) -> bool {
    let updates = scene.raster_tile_updates@;
    let batches = scene.raster_tile_update_batches@;
    &&& state.frame.offset >= 0
    &&& state.frame.steps.len() == 0
    &&& keys_distinct(state.residency.textures)
    &&& state.residency.next_allocation + updates.len() + batches.len() <= u64::MAX
    &&& no_last_order(scene@.lists)
    &&& forall|u: int|
        0 <= u < updates.len() ==> no_last_order((#[trigger] updates[u]).scene@.lists)
    &&& forall|b: int|
        0 <= b < batches.len() ==> {
            let batch = #[trigger] batches[b];
            &&& no_last_order(batch.scene@.lists)
            &&& batch.targets@.len() < u32::MAX
            &&& targets_distinct(placed_targets(batch.targets@, measures[b].places@))
        }
}

/// The turn of a pass in a frame: the updates come first, then the batches, each with what
/// it is compared with, and the drawable last.
pub open spec fn turn(target: PassTarget, scene: Scene) -> int {
    let updates = scene.raster_tile_updates@.len() as int;
    match target {
        PassTarget::Tile { update, .. } => update as int,
        PassTarget::Batch { batch, .. } => updates + 2 * batch,
        PassTarget::Comparison { batch, .. } => updates + 2 * batch + 1,
        PassTarget::Drawable => updates + 2 * scene.raster_tile_update_batches@.len(),
    }
}

/// Whether every pass has its turn, and those so far come before another turn.
pub open spec fn in_turn(steps: Seq<FrameStep>, scene: Scene, next: int) -> bool {
    &&& forall|j: int|
        0 <= j < steps.len() && (#[trigger] steps[j]) is Begin ==> turn(steps[j]->Begin_0, scene)
            < next
    &&& forall|j: int, k: int|
        0 <= j < k < steps.len() && (#[trigger] steps[j]) is Begin && (#[trigger] steps[k]) is Begin
            ==> turn(steps[j]->Begin_0, scene) < turn(steps[k]->Begin_0, scene)
}

/// One pass more, behind the others, whose turn is next.
proof fn a_pass_in_turn(
    before: Seq<FrameStep>,
    after: Seq<FrameStep>,
    to: int,
    scene: Scene,
    next: int,
    then: int,
)
    requires
        in_turn(before, scene, next),
        begins_with(after, before),
        before.len() < to <= after.len(),
        after[before.len() as int] is Begin,
        next <= turn(after[before.len() as int]->Begin_0, scene) < then,
        forall|j: int| before.len() < j < to ==> (#[trigger] after[j]) is Draw,
    ensures
        in_turn(after.take(to), scene, then),
{
    let steps = after.take(to);
    let n = before.len() as int;
    assert forall|j: int| 0 <= j < steps.len() && (#[trigger] steps[j]) is Begin implies j <= n && (
    j < n ==> steps[j] == before[j]) && turn(steps[j]->Begin_0, scene) < then by {
        assert(steps[j] == after[j]);
        if j < n {
            assert(after[j] == before[j]);
        }
    }
    assert forall|j: int, k: int|
        0 <= j < k < steps.len() && (#[trigger] steps[j]) is Begin && (
        #[trigger] steps[k]) is Begin implies turn(steps[j]->Begin_0, scene) < turn(
        steps[k]->Begin_0,
        scene,
    ) by {
        assert(steps[j] == before[j]);
        if k < n {
            assert(steps[k] == before[k]);
        }
    }
}

proof fn begins_in_a_row(a: Seq<FrameStep>, b: Seq<FrameStep>, c: Seq<FrameStep>)
    requires
        begins_with(b, a),
        begins_with(c, b),
    ensures
        begins_with(c, a),
{
    assert forall|j: int| 0 <= j < a.len() implies #[trigger] c[j] == a[j] by {
        assert(c[j] == b[j]);
    }
}

proof fn updates_are_planned(
    state: PlanState,
    context: PlanContext,
    scene: Scene,
    measures: Seq<BatchMeasures>,
    n: int,
)
    requires
        plannable(state, scene, measures),
        0 <= n <= scene.raster_tile_updates@.len(),
        state.all_updated(context, scene.raster_tile_updates@, n).frame.failed is None,
    ensures
        ({
            let after = state.all_updated(context, scene.raster_tile_updates@, n);
            &&& after.frame.offset >= 0
            &&& keys_distinct(after.residency.textures)
            &&& after.residency.next_allocation <= state.residency.next_allocation + n
            &&& in_turn(after.frame.steps, scene, n)
            &&& forall|m: int|
                0 <= m <= n ==> begins_with(
                    after.frame.steps,
                    (#[trigger] state.all_updated(
                        context,
                        scene.raster_tile_updates@,
                        m,
                    )).frame.steps,
                ) && state.all_updated(context, scene.raster_tile_updates@, m).frame.failed is None
        }),
    decreases n,
{
    let updates = scene.raster_tile_updates@;
    let after = state.all_updated(context, updates, n);
    if n > 0 {
        let before = state.all_updated(context, updates, n - 1);
        let update = updates[n - 1];
        assert(scene.raster_tile_updates.len() == updates.len());
        updates_are_planned(state, context, scene, measures, n - 1);
        an_update_is_drawn_or_left_out(before, context, n - 1, update);
        let key = key_of_update(update);
        a_prepared_texture_is_as_asked(
            before.residency,
            update.cache.identity,
            key,
            update.texture_size,
            update.gutter,
            context.protected,
        );
        preparing_keeps_tiles_apart(
            before.residency,
            update.cache.identity,
            key,
            update.texture_size,
            update.gutter,
            context.protected,
        );
        if update_drawn(before, after, context, n - 1, update) {
            a_pass_in_turn(
                before.frame.steps,
                after.frame.steps,
                after.frame.steps.len() as int,
                scene,
                n - 1,
                n,
            );
            assert(after.frame.steps.take(after.frame.steps.len() as int) =~= after.frame.steps);
        }
        assert forall|m: int| 0 <= m <= n implies begins_with(
            after.frame.steps,
            (#[trigger] state.all_updated(context, updates, m)).frame.steps,
        ) && state.all_updated(context, updates, m).frame.failed is None by {
            if m < n {
                begins_in_a_row(
                    state.all_updated(context, updates, m).frame.steps,
                    before.frame.steps,
                    after.frame.steps,
                );
            }
        }
    }
}

/// The state of a plan after all updates and some batches.
pub open spec fn batched(
    state: PlanState,
    context: PlanContext,
    scene: Scene,
    measures: Seq<BatchMeasures>,
    n: int,
) -> PlanState {
    state.all_updated(
        context,
        scene.raster_tile_updates@,
        scene.raster_tile_updates@.len() as int,
    ).all_batches_updated(context, scene.raster_tile_update_batches@, measures, n)
}

proof fn a_batch_in_turn(
    before: PlanState,
    after: PlanState,
    context: PlanContext,
    scene: Scene,
    index: int,
    batch: RasterTileUpdateBatch,
    measures: BatchMeasures,
    compared: int,
)
    requires
        batch_drawn(before, after, context, index, batch, measures, compared),
        0 <= index <= usize::MAX,
        in_turn(before.frame.steps, scene, scene.raster_tile_updates@.len() + 2 * index),
    ensures
        in_turn(after.frame.steps, scene, scene.raster_tile_updates@.len() + 2 * (index + 1)),
{
    let steps = after.frame.steps;
    let next = scene.raster_tile_updates@.len() + 2 * index;
    a_pass_in_turn(before.frame.steps, steps, compared, scene, next, next + 1);
    if compared < steps.len() {
        let part = steps.take(compared);
        assert(begins_with(steps, part));
        a_pass_in_turn(part, steps, steps.len() as int, scene, next + 1, next + 2);
    }
    assert(steps.take(steps.len() as int) =~= steps);
}

proof fn batches_are_planned(
    state: PlanState,
    context: PlanContext,
    scene: Scene,
    measures: Seq<BatchMeasures>,
    n: int,
)
    requires
        plannable(state, scene, measures),
        0 <= n <= scene.raster_tile_update_batches@.len(),
        batched(state, context, scene, measures, n).frame.failed is None,
    ensures
        ({
            let after = batched(state, context, scene, measures, n);
            let updates = scene.raster_tile_updates@.len() as int;
            &&& after.frame.offset >= 0
            &&& keys_distinct(after.residency.textures)
            &&& after.residency.next_allocation <= state.residency.next_allocation + updates + n
            &&& in_turn(after.frame.steps, scene, updates + 2 * n)
            &&& forall|m: int|
                0 <= m <= n ==> begins_with(
                    after.frame.steps,
                    (#[trigger] batched(state, context, scene, measures, m)).frame.steps,
                ) && batched(state, context, scene, measures, m).frame.failed is None
        }),
    decreases n,
{
    let batches = scene.raster_tile_update_batches@;
    let updates = scene.raster_tile_updates@.len() as int;
    let after = batched(state, context, scene, measures, n);
    if n > 0 {
        let before = batched(state, context, scene, measures, n - 1);
        let batch = batches[n - 1];
        let size = batch_size(batch, measures[n - 1]);
        assert(scene.raster_tile_update_batches.len() == batches.len());
        batches_are_planned(state, context, scene, measures, n - 1);
        let compared = a_batch_is_drawn_or_left_out(
            before,
            context,
            n - 1,
            batch,
            measures[n - 1],
        );
        let targets = placed_targets(batch.targets@, measures[n - 1].places@);
        a_batch_is_prepared_as_a_whole(
            before.residency,
            batch.cache.identity,
            batch.texture_size,
            batch.gutter,
            targets,
            size,
            context.protected,
        );
        batch_preparing_keeps_tiles_apart(
            before.residency,
            batch.cache.identity,
            batch.texture_size,
            batch.gutter,
            targets,
            size,
            context.protected,
        );
        if batch_drawn(before, after, context, n - 1, batch, measures[n - 1], compared) {
            a_batch_in_turn(
                before,
                after,
                context,
                scene,
                n - 1,
                batch,
                measures[n - 1],
                compared,
            );
        }
        assert forall|m: int| 0 <= m <= n implies begins_with(
            after.frame.steps,
            (#[trigger] batched(state, context, scene, measures, m)).frame.steps,
        ) && batched(state, context, scene, measures, m).frame.failed is None by {
            if m < n {
                begins_in_a_row(
                    batched(state, context, scene, measures, m).frame.steps,
                    before.frame.steps,
                    after.frame.steps,
                );
            }
        }
    } else {
        updates_are_planned(state, context, scene, measures, updates);
    }
}

/// The passes of a frame that was planned come in their turn, each once: the updates in
/// their sequence, then the batches in theirs, and the drawable last.
pub proof fn passes_come_in_turn(
    state: PlanState,
    context: PlanContext,
    scene: Scene,
    measures: Seq<BatchMeasures>,
    root_path_texture: bool,
)
    requires
        plannable(state, scene, measures),
        state.planned(context, scene, measures, root_path_texture).frame.failed is None,
    ensures
        ({
            let steps = state.planned(context, scene, measures, root_path_texture).frame.steps;
            let all = batched(
                state,
                context,
                scene,
                measures,
                scene.raster_tile_update_batches@.len() as int,
            ).frame.steps;
            &&& forall|j: int, k: int|
                0 <= j < k < steps.len() && (#[trigger] steps[j]) is Begin && (
                #[trigger] steps[k]) is Begin ==> turn(steps[j]->Begin_0, scene) < turn(
                    steps[k]->Begin_0,
                    scene,
                )
            &&& begins_with(steps, all)
        }),
{
    let batches = scene.raster_tile_update_batches@.len() as int;
    let updates = scene.raster_tile_updates@.len() as int;
    let before = batched(state, context, scene, measures, batches);
    let after = state.planned(context, scene, measures, root_path_texture);
    assert(before.frame.failed is None);
    batches_are_planned(state, context, scene, measures, batches);
    a_frame_ends_with_its_scene(before, context, scene, root_path_texture);
    let steps = after.frame.steps;
    a_pass_in_turn(
        before.frame.steps,
        steps,
        steps.len() as int,
        scene,
        updates + 2 * batches,
        updates + 2 * batches + 1,
    );
    assert(steps.take(steps.len() as int) =~= steps);
}

/// In a frame that was planned every update is drawn into the texture of its tile, or
/// left out for a reason.
pub proof fn every_update_of_a_frame_is_drawn_or_left_out(
    state: PlanState,
    context: PlanContext,
    scene: Scene,
    measures: Seq<BatchMeasures>,
    root_path_texture: bool,
    u: int,
)
    requires
        plannable(state, scene, measures),
        state.planned(context, scene, measures, root_path_texture).frame.failed is None,
        0 <= u < scene.raster_tile_updates@.len(),
    ensures
        ({
            let updates = scene.raster_tile_updates@;
            let steps = state.planned(context, scene, measures, root_path_texture).frame.steps;
            let before = state.all_updated(context, updates, u);
            let after = state.all_updated(context, updates, u + 1);
            &&& begins_with(steps, after.frame.steps)
            &&& update_drawn(before, after, context, u, updates[u]) || update_left_out(
                before,
                after,
                updates[u],
            )
        }),
{
    let updates = scene.raster_tile_updates@;
    let batches = scene.raster_tile_update_batches@.len() as int;
    let steps = state.planned(context, scene, measures, root_path_texture).frame.steps;
    let all = batched(state, context, scene, measures, batches);
    let updated = batched(state, context, scene, measures, 0);
    let after = state.all_updated(context, updates, u + 1);
    let before = state.all_updated(context, updates, u);
    assert(all.frame.failed is None);
    passes_come_in_turn(state, context, scene, measures, root_path_texture);
    batches_are_planned(state, context, scene, measures, batches);
    assert(updated.frame.failed is None);
    updates_are_planned(state, context, scene, measures, updates.len() as int);
    begins_in_a_row(after.frame.steps, updated.frame.steps, all.frame.steps);
    begins_in_a_row(after.frame.steps, all.frame.steps, steps);
    assert(before.frame.failed is None);
    updates_are_planned(state, context, scene, measures, u);
    an_update_is_drawn_or_left_out(before, context, u, updates[u]);
}

/// In a frame that was planned every batch is drawn into a new texture, or left out for a
/// reason. Where it is drawn, the place behind the draws of its scene is handed back.
pub proof fn every_batch_of_a_frame_is_drawn_or_left_out(
    state: PlanState,
    context: PlanContext,
    scene: Scene,
    measures: Seq<BatchMeasures>,
    root_path_texture: bool,
    b: int,
) -> (compared: int)
    requires
        plannable(state, scene, measures),
        state.planned(context, scene, measures, root_path_texture).frame.failed is None,
        0 <= b < scene.raster_tile_update_batches@.len(),
    ensures
        ({
            let batch = scene.raster_tile_update_batches@[b];
            let steps = state.planned(context, scene, measures, root_path_texture).frame.steps;
            let before = batched(state, context, scene, measures, b);
            let after = batched(state, context, scene, measures, b + 1);
            &&& begins_with(steps, after.frame.steps)
            &&& batch_drawn(before, after, context, b, batch, measures[b], compared)
                || batch_left_out(before, after, batch, measures[b])
        }),
{
    let batches = scene.raster_tile_update_batches@;
    let steps = state.planned(context, scene, measures, root_path_texture).frame.steps;
    let all = batched(state, context, scene, measures, batches.len() as int);
    let after = batched(state, context, scene, measures, b + 1);
    let before = batched(state, context, scene, measures, b);
    assert(all.frame.failed is None);
    passes_come_in_turn(state, context, scene, measures, root_path_texture);
    batches_are_planned(state, context, scene, measures, batches.len() as int);
    begins_in_a_row(after.frame.steps, all.frame.steps, steps);
    assert(before.frame.failed is None);
    batches_are_planned(state, context, scene, measures, b);
    a_batch_is_drawn_or_left_out(before, context, b, batches[b], measures[b])
}

/// A frame that was planned ends with one pass to the drawable that draws its scene with
/// the tiles that are then there.
pub proof fn every_frame_ends_with_its_scene(
    state: PlanState,
    context: PlanContext,
    scene: Scene,
    measures: Seq<BatchMeasures>,
    root_path_texture: bool,
)
    requires
        plannable(state, scene, measures),
        state.planned(context, scene, measures, root_path_texture).frame.failed is None,
    ensures
        ({
            let after = state.planned(context, scene, measures, root_path_texture);
            let steps = after.frame.steps;
            exists|n: int|
                0 <= n < steps.len() && #[trigger] steps[n] == FrameStep::Begin(
                    PassTarget::Drawable,
                ) && shows_scene(
                    steps,
                    n + 1,
                    steps.len() as int,
                    context.capacity,
                    scene@.lists,
                    context.sizes,
                    after.residency.textures,
                )
        }),
{
    let batches = scene.raster_tile_update_batches@.len() as int;
    let before = batched(state, context, scene, measures, batches);
    let after = state.planned(context, scene, measures, root_path_texture);
    assert(before.frame.failed is None);
    batches_are_planned(state, context, scene, measures, batches);
    a_frame_ends_with_its_scene(before, context, scene, root_path_texture);
    let n = before.frame.steps.len() as int;
    assert(after.frame.steps[n] == FrameStep::Begin(PassTarget::Drawable));
}

/// Whether the limit at a place is the one that is named last for a cache.
pub open spec fn last_limit(limits: Seq<SoftLimit>, cache_id: u64, k: int) -> bool {
    &&& 0 <= k < limits.len()
    &&& limits[k].cache_id == cache_id
    &&& forall|j: int| k < j < limits.len() ==> (#[trigger] limits[j]).cache_id != cache_id
}

proof fn trimming_other_caches(
    model: ResidencyModel,
    limits: Seq<SoftLimit>,
    protected: Seq<CachedRasterTextureKey>,
    from: int,
    n: int,
    key: CachedRasterTextureKey,
)
    requires
        keys_distinct(model.textures),
        0 <= from <= n <= limits.len(),
        forall|j: int|
            from <= j < n ==> (#[trigger] limits[j]).cache_id != key.cache_id || exists|l: int|
                j < l < limits.len() && (#[trigger] limits[l]).cache_id == key.cache_id,
    ensures
        ({
            let before = trimmed_to_soft_limits(model, limits, protected, from);
            let after = trimmed_to_soft_limits(model, limits, protected, n);
            &&& keys_distinct(after.textures)
            &&& tile(after.textures, key) == tile(before.textures, key)
            &&& after.stats_of(key.cache_id) == before.stats_of(key.cache_id)
        }),
    decreases n,
{
    if n > 0 {
        let last = limits[n - 1];
        if from < n {
            let before = trimmed_to_soft_limits(model, limits, protected, n - 1);
            trimming_other_caches(model, limits, protected, from, n - 1, key);
            if !crate::frame_plan::named_later(limits, n - 1) {
                assert(last.cache_id != key.cache_id);
                trimming_leaves_what_it_may_not_take(
                    before,
                    last.cache_id,
                    0,
                    last.bytes,
                    protected,
                    key,
                );
                trimming_leaves_other_caches_alone(
                    before,
                    last.cache_id,
                    0,
                    last.bytes,
                    protected,
                    key.cache_id,
                );
            }
        } else {
            trimming_keeps_tiles_apart(model, limits, protected, n);
        }
    }
}

proof fn trimming_keeps_tiles_apart(
    model: ResidencyModel,
    limits: Seq<SoftLimit>,
    protected: Seq<CachedRasterTextureKey>,
    n: int,
)
    requires
        keys_distinct(model.textures),
        0 <= n <= limits.len(),
    ensures
        keys_distinct(trimmed_to_soft_limits(model, limits, protected, n).textures),
    decreases n,
{
    if n > 0 {
        let before = trimmed_to_soft_limits(model, limits, protected, n - 1);
        trimming_keeps_tiles_apart(model, limits, protected, n - 1);
        trimming_leaves_what_it_may_not_take(
            before,
            limits[n - 1].cache_id,
            0,
            limits[n - 1].bytes,
            protected,
            key_of(0, 0, 0),
        );
    }
}

/// A cache that no limit is named for keeps its tiles and its counters.
pub proof fn an_unnamed_cache_is_left_alone(
    model: ResidencyModel,
    limits: Seq<SoftLimit>,
    protected: Seq<CachedRasterTextureKey>,
    key: CachedRasterTextureKey,
)
    requires
        keys_distinct(model.textures),
        forall|j: int| 0 <= j < limits.len() ==> (#[trigger] limits[j]).cache_id != key.cache_id,
    ensures
        ({
            let after = trimmed_to_soft_limits(model, limits, protected, limits.len() as int);
            &&& tile(after.textures, key) == tile(model.textures, key)
            &&& after.stats_of(key.cache_id) == model.stats_of(key.cache_id)
        }),
{
    trimming_other_caches(model, limits, protected, 0, limits.len() as int, key);
}

/// A cache for which limits are named is trimmed to the one named last: afterwards it is
/// within it, or has only tiles left that are protected; and one that was within it loses
/// no tile.
pub proof fn the_last_limit_of_a_cache_counts(
    model: ResidencyModel,
    limits: Seq<SoftLimit>,
    protected: Seq<CachedRasterTextureKey>,
    k: int,
    key: CachedRasterTextureKey,
)
    requires
        keys_distinct(model.textures),
        last_limit(limits, key.cache_id, k),
    ensures
        ({
            let after = trimmed_to_soft_limits(model, limits, protected, limits.len() as int);
            &&& after.stats_of(key.cache_id).resident_bytes <= limits[k].bytes || (tile(
                after.textures,
                key,
            ) is Some ==> protected.contains(key))
            &&& model.stats_of(key.cache_id).resident_bytes <= limits[k].bytes ==> tile(
                after.textures,
                key,
            ) == tile(model.textures, key)
            &&& protected.contains(key) ==> tile(after.textures, key) == tile(model.textures, key)
        }),
{
    let cache_id = key.cache_id;
    let limit = limits[k].bytes;
    let before = trimmed_to_soft_limits(model, limits, protected, k);
    let trimmed = trimmed_to_soft_limits(model, limits, protected, k + 1);
    let after = trimmed_to_soft_limits(model, limits, protected, limits.len() as int);
    assert forall|j: int| 0 <= j < k implies (#[trigger] limits[j]).cache_id != cache_id || exists|
        l: int,
    |
        j < l < limits.len() && (#[trigger] limits[l]).cache_id == cache_id by {
        assert(limits[k].cache_id == cache_id);
    }
    trimming_other_caches(model, limits, protected, 0, k, key);
    trimming_keeps_tiles_apart(model, limits, protected, k);
    assert(!crate::frame_plan::named_later(limits, k));
    assert(trimmed == before.trimmed(cache_id, 0, limit, protected));
    trimming_reaches_the_limit(before, cache_id, 0, limit, protected);
    trimming_leaves_what_it_may_not_take(before, cache_id, 0, limit, protected, key);
    trimming_other_caches(model, limits, protected, k + 1, limits.len() as int, key);
    if !trimmed.fits(cache_id, 0, limit) && tile(trimmed.textures, key) is Some {
        let found = tile(trimmed.textures, key)->0;
        assert(exists|t: CachedRasterTexture|
            t.key == key && #[trigger] trimmed.textures.contains(t));
        assert(trimmed.textures.contains(found));
        let i = choose|i: int| 0 <= i < trimmed.textures.len() && trimmed.textures[i] == found;
        assert(!evictable(trimmed.textures[i], cache_id, protected));
    }
}

/// A frame names the soft limit of the cache of each of its updates, then that of each of
/// its batches.
pub proof fn every_touched_cache_has_a_limit(scene: Scene, u: int, b: int)
    ensures
        ({
            let updates = scene.raster_tile_updates@;
            let batches = scene.raster_tile_update_batches@;
            let limits = soft_limits(scene);
            &&& limits.len() == updates.len() + batches.len()
            &&& 0 <= u < updates.len() ==> limits[u].cache_id == updates[u].cache.identity.id
                && limits[u].bytes == updates[u].cache.identity.config.soft()
            &&& 0 <= b < batches.len() ==> limits[updates.len() + b].cache_id
                == batches[b].cache.identity.id && limits[updates.len() + b].bytes
                == batches[b].cache.identity.config.soft()
        }),
{
}

} // verus!
