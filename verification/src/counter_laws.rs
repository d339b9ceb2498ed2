//! How counters count, and that what is new begins with nothing.
use vstd::prelude::*;

use crate::compositor_transform::{
    generation_after, revision_before, time_of, RevisionTime, REVISION_COUNT,
};
use crate::display_link::next_count;
use crate::instance_buffer::fitted;
use crate::raster_cache::RasterCacheStats;
use crate::residency::{less, more, one_more, RasterComparisonStats, RasterNamespace};
use crate::scene::{sum_of, SceneModel, SceneTrace};
use crate::trace_buffer::counted;
use crate::trace_event::{saturated, FrameTraceSceneSummary};
use crate::vector_scene_cache::VectorSceneCacheStats;

verus! {

/// Counters of callbacks, events and versions count one by one and begin anew after the
/// greatest number.
pub proof fn counters_count_one_by_one(count: u64)
    ensures
        count < u64::MAX ==> next_count(count) == count + 1 && counted(count) == count + 1
            && generation_after(count, 1) == count + 1,
        next_count(u64::MAX) == 0,
        counted(u64::MAX) == 0,
        generation_after(u64::MAX, 1) == 0,
        count < u64::MAX - 1 ==> generation_after(count, 2) == count + 2,
        generation_after(count, 2) == generation_after(generation_after(count, 1), 1),
        generation_after(count, 2) % 2 == count % 2,
{
}

/// Sums that do not fit into their type stop at the most that it holds, and differences stop
/// at nothing.
pub proof fn sums_stop_at_the_most(a: u64, b: u64, word: usize, amount: int)
    requires
        amount >= 0,
    ensures
        sum_of(a, b) == (if a + b <= u64::MAX {
            a + b
        } else {
            u64::MAX as int
        }),
        one_more(a) == sum_of(a, 1),
        more(word, amount) == (if word + amount <= usize::MAX {
            word + amount
        } else {
            usize::MAX as int
        }),
        more(word, amount) >= word,
        less(a as int, b as int) + b >= a,
        less(a as int, b as int) == 0 || less(a as int, b as int) + b == a,
        less(a as int, b as int) >= 0,
        fitted(amount) <= amount,
        fitted(amount) == amount || fitted(amount) == usize::MAX,
        saturated(amount) <= amount,
        saturated(amount) == amount || saturated(amount) == u64::MAX,
{
}

/// The revision before another is the one that is followed by it, after which revisions
/// begin anew.
pub proof fn revisions_are_counted_back(revision: u64, back: int)
    requires
        revision < REVISION_COUNT,
        0 <= back <= REVISION_COUNT,
    ensures
        0 <= revision_before(revision, back) < REVISION_COUNT || back == REVISION_COUNT,
        revision_before(revision, 0) == revision,
        (revision_before(revision, back) + back) % (REVISION_COUNT as int) == revision,
{
    if revision >= back {
        vstd::arithmetic::div_mod::lemma_small_mod(revision as nat, REVISION_COUNT as nat);
    } else {
        vstd::arithmetic::div_mod::lemma_mod_add_multiples_vanish(
            revision as int,
            REVISION_COUNT as int,
        );
        vstd::arithmetic::div_mod::lemma_small_mod(revision as nat, REVISION_COUNT as nat);
    }
}

/// The time of a revision is one that was noted for it, and the last of them; there is none
/// where none was noted.
pub proof fn a_revision_has_the_time_last_noted(updates: Seq<RevisionTime>, revision: u64)
    ensures
        time_of(updates, revision) is None <==> forall|i: int|
            0 <= i < updates.len() ==> (#[trigger] updates[i]).revision != revision,
        time_of(updates, revision) matches Some(time) ==> exists|i: int|
            0 <= i < updates.len() && (#[trigger] updates[i]).revision == revision
                && updates[i].updated_at == time && none_later(updates, revision, i),
    decreases updates.len(),
{
    if updates.len() > 0 {
        let rest = updates.drop_last();
        let last = updates.len() - 1;
        a_revision_has_the_time_last_noted(rest, revision);
        if updates[last].revision == revision {
            assert(none_later(updates, revision, last));
        } else {
            assert forall|i: int| 0 <= i < rest.len() implies rest[i] == #[trigger] updates[i] by {}
            if time_of(rest, revision) is Some {
                let i = choose|i: int|
                    0 <= i < rest.len() && (#[trigger] rest[i]).revision == revision
                        && rest[i].updated_at == time_of(rest, revision)->0 && none_later(
                        rest,
                        revision,
                        i,
                    );
                assert forall|j: int| i < j < updates.len() implies (
                #[trigger] updates[j]).revision != revision by {
                    if j < last {
                        assert(rest[j].revision != revision);
                    }
                }
                assert(updates[i].revision == revision);
                assert(none_later(updates, revision, i));
            } else {
                assert forall|i: int| 0 <= i < updates.len() implies (
                #[trigger] updates[i]).revision != revision by {
                    if i < last {
                        assert(rest[i].revision != revision);
                    }
                }
            }
        }
    }
}

/// Whether no time is noted for a revision behind a place.
pub open spec fn none_later(updates: Seq<RevisionTime>, revision: u64, i: int) -> bool {
    forall|j: int| i < j < updates.len() ==> (#[trigger] updates[j]).revision != revision
}

/// A new scene holds nothing and nothing is known of it.
pub proof fn a_scene_begins_empty()
    ensures
        ({
            let scene = SceneModel::empty();
            &&& scene.operations.len() == 0
            &&& scene.bounds.len() == 0
            &&& scene.layers.len() == 0
            &&& scene.lists.shadows.len() == 0
            &&& scene.lists.quads.len() == 0
            &&& scene.lists.paths.len() == 0
            &&& scene.lists.underlines.len() == 0
            &&& scene.lists.monochrome_sprites.len() == 0
            &&& scene.lists.polychrome_sprites.len() == 0
            &&& scene.lists.surfaces.len() == 0
            &&& scene.lists.raster_tiles.len() == 0
            &&& scene.updates.len() == 0
            &&& scene.batches.len() == 0
            &&& scene.compositors.len() == 0
            &&& scene.trace == SceneTrace::spec_empty()
        }),
        ({
            let trace = SceneTrace::spec_empty();
            &&& trace.logical_frame_id == 0
            &&& trace.input_sequence_id == 0
            &&& trace.presentation_token is None
            &&& trace.scene_build_tick is None
            &&& trace.presentation_tick is None
            &&& trace.gpui_window_frame_id == 0
            &&& trace.summary == FrameTraceSceneSummary::spec_empty()
            &&& trace.diagnostic_hold_ticks == 0
            &&& trace.last_held_tick_sequence == 0
        }),
        ({
            let summary = FrameTraceSceneSummary::spec_empty();
            &&& summary.shadow_count == 0
            &&& summary.quad_count == 0
            &&& summary.path_count == 0
            &&& summary.sprite_count == 0
            &&& summary.surface_count == 0
            &&& summary.shadow_expanded_area_device_px2 == 0
            &&& summary.quad_area_device_px2 == 0
            &&& summary.path_segment_count == 0
        }),
{
}

/// The counters of a new cache, of whichever sort, are all at zero, and its account has the
/// number that it was given.
pub proof fn a_cache_begins_with_nothing_counted(cache_id: u64, number: u64)
    ensures
        ({
            let account = RasterNamespace::spec_new(cache_id, number);
            &&& account.cache_id == cache_id
            &&& account.number == number
            &&& account.stats == RasterCacheStats::zero()
            &&& account.comparisons == RasterComparisonStats::zero()
        }),
        ({
            let stats = RasterCacheStats::zero();
            &&& stats.resident_bytes == 0
            &&& stats.resident_tiles == 0
            &&& stats.evicted_tiles == 0
            &&& stats.hits == 0
            &&& stats.misses == 0
            &&& stats.comparison_samples == 0
            &&& stats.comparison_min_ssim_ppb == 0
            &&& stats.comparison_p99_channel_error == 0
            &&& stats.comparison_max_channel_error == 0
        }),
        ({
            let comparisons = RasterComparisonStats::zero();
            &&& comparisons.samples == 0
            &&& comparisons.min_ssim_ppb == 0
            &&& comparisons.p99_channel_error == 0
            &&& comparisons.max_channel_error == 0
        }),
        ({
            let stats = VectorSceneCacheStats::zero();
            &&& stats.hits == 0
            &&& stats.misses == 0
            &&& stats.unsupported == 0
            &&& stats.primitive_count == 0
        }),
{
}

} // verus!
