//! Raster caches as the application sees them: limits, handles, tile keys, lookup
//! results, counters and presentation samples.
use std::collections::HashMap;

use vstd::prelude::*;

use crate::float_bits::Float64;
use crate::time::{TimePoint, TimeSpan};

verus! {

broadcast use vstd::std_specs::hash::group_hash_axioms;

/// The soft limit of a cache that names none.
pub const DEFAULT_RASTER_CACHE_SOFT_LIMIT_BYTES: usize = 224 * 1024 * 1024;

/// The hard limit of a cache that names none.
pub const DEFAULT_RASTER_CACHE_HARD_LIMIT_BYTES: usize = 256 * 1024 * 1024;

/// The limits of a cache: what it is trimmed to after a frame, and what it never
/// exceeds. The soft limit is above zero and at most the hard limit.
#[derive(Clone, Copy, Debug, PartialEq, Eq, Structural)]
pub struct RasterCacheConfig {
    soft_limit_bytes: usize,
    hard_limit_bytes: usize,
}

impl RasterCacheConfig {
    #[verifier::type_invariant]
    spec fn limits_in_order(self) -> bool {
        0 < self.soft_limit_bytes <= self.hard_limit_bytes
    }

    /// What the cache is trimmed to.
    pub closed spec fn soft(self) -> usize {
        self.soft_limit_bytes
    }

    /// What the cache never exceeds.
    pub closed spec fn hard(self) -> usize {
        self.hard_limit_bytes
    }

    /// A cache's limits, where the soft limit is above zero and at most the hard
    /// limit.
    pub fn new(soft_limit_bytes: usize, hard_limit_bytes: usize) -> (config: Option<
        RasterCacheConfig,
    >)
        ensures
            config is Some <==> 0 < soft_limit_bytes <= hard_limit_bytes,
            config is Some ==> config->0.soft() == soft_limit_bytes && config->0.hard()
                == hard_limit_bytes,
    {
        if soft_limit_bytes > 0 && soft_limit_bytes <= hard_limit_bytes {
            Some(RasterCacheConfig { soft_limit_bytes, hard_limit_bytes })
        } else {
            None
        }
    }

    /// What the cache is trimmed to after a frame.
    pub fn soft_limit_bytes(self) -> (bytes: usize)
        ensures
            bytes == self.soft(),
            0 < bytes <= self.hard(),
    {
        proof {
            use_type_invariant(&self);
        }
        self.soft_limit_bytes
    }

    /// What the cache never exceeds.
    pub fn hard_limit_bytes(self) -> (bytes: usize)
        ensures
            bytes == self.hard(),
            self.soft() <= bytes,
    {
        proof {
            use_type_invariant(&self);
        }
        self.hard_limit_bytes
    }
}

impl Default for RasterCacheConfig {
    fn default() -> (config: RasterCacheConfig)
        ensures
            config.soft() == DEFAULT_RASTER_CACHE_SOFT_LIMIT_BYTES,
            config.hard() == DEFAULT_RASTER_CACHE_HARD_LIMIT_BYTES,
    {
        RasterCacheConfig {
            soft_limit_bytes: DEFAULT_RASTER_CACHE_SOFT_LIMIT_BYTES,
            hard_limit_bytes: DEFAULT_RASTER_CACHE_HARD_LIMIT_BYTES,
        }
    }
}

/// Which cache it is, and its limits. Holding an identity does not keep the cache.
#[derive(Clone, Copy, Debug, PartialEq, Eq, Structural)]
pub struct RasterCacheIdentity {
    pub id: u64,
    pub config: RasterCacheConfig,
}

/// Who holds which cache: the identifiers given out, and for each cache that is
/// still held the number of its handles.
pub struct RasterCacheOwners {
    pub next_id: u64,
    pub handles: HashMap<u64, u64>,
}

/// The handles after one more was made of a cache that is held.
pub open spec fn one_more_handle(handles: Map<u64, u64>, id: u64) -> Map<u64, u64> {
    handles.insert(id, (handles[id] + 1) as u64)
}

/// The handles after one of a cache was given up.
pub open spec fn one_handle_less(handles: Map<u64, u64>, id: u64) -> Map<u64, u64> {
    if !handles.contains_key(id) {
        handles
    } else if handles[id] == 1 {
        handles.remove(id)
    } else {
        handles.insert(id, (handles[id] - 1) as u64)
    }
}

impl RasterCacheOwners {
    /// The number of handles of each cache that is held.
    pub open spec fn view(&self) -> Map<u64, u64> {
        self.handles@
    }

    /// Every cache that is held has a handle and an identifier given out before.
    pub open spec fn wf(&self) -> bool {
        forall|id: u64|
            #[trigger] self@.contains_key(id) ==> self@[id] > 0 && id < self.next_id
    }

    /// Whether a handle of the cache is left.
    pub open spec fn held(&self, id: u64) -> bool {
        self@.contains_key(id)
    }

    /// Whether another handle of the cache can be counted.
    pub open spec fn shareable(&self, id: u64) -> bool {
        self.wf() && self.held(id) && self@[id] < u64::MAX
    }

    /// Nothing is held. The first identifier is one.
    pub fn new() -> (owners: RasterCacheOwners)
        ensures
            owners.wf(),
            owners.next_id == 1,
            owners@ == Map::<u64, u64>::empty(),
    {
        RasterCacheOwners { next_id: 1, handles: HashMap::new() }
    }

    /// Whether a handle of the cache is left.
    pub fn is_held(&self, id: u64) -> (held: bool)
        ensures
            held == self.held(id),
    {
        self.handles.contains_key(&id)
    }

    /// Counts one handle less of a cache.
    pub(crate) fn give_up(&mut self, id: u64)
        requires
            old(self).wf(),
        ensures
            final(self).next_id == old(self).next_id,
            final(self)@ == one_handle_less(old(self)@, id),
            final(self).wf(),
    {
        let count: u64 = match self.handles.get(&id) {
            Some(count) => *count,
            None => {
                return;
            },
        };
        assert(old(self)@.contains_key(id));
        if count == 1 {
            self.handles.remove(&id);
        } else {
            self.handles.insert(id, count - 1);
        }
    }
}

/// A handle that keeps a cache until it is released.
#[derive(Debug)]
pub struct RasterCacheHandle {
    pub identity: RasterCacheIdentity,
}

impl RasterCacheHandle {
    /// A new cache with its first handle.
    pub fn new(owners: &mut RasterCacheOwners, config: RasterCacheConfig) -> (handle:
        RasterCacheHandle)
        requires
            old(owners).wf(),
            old(owners).next_id < u64::MAX,
        ensures
            handle.identity == (RasterCacheIdentity { id: old(owners).next_id, config }),
            !old(owners).held(handle.identity.id),
            final(owners).next_id == old(owners).next_id + 1,
            final(owners)@ == old(owners)@.insert(handle.identity.id, 1),
            final(owners).wf(),
    {
        let id: u64 = owners.next_id;
        owners.next_id = id + 1;
        owners.handles.insert(id, 1);
        RasterCacheHandle { identity: RasterCacheIdentity { id, config } }
    }

    /// The identifier of the cache.
    pub fn id(&self) -> (id: u64)
        ensures
            id == self.identity.id,
    {
        self.identity.id
    }

    /// The limits of the cache.
    pub fn config(&self) -> (config: RasterCacheConfig)
        ensures
            config == self.identity.config,
    {
        self.identity.config
    }

    /// Another handle of the same cache.
    pub fn duplicate(&self, owners: &mut RasterCacheOwners) -> (handle: RasterCacheHandle)
        requires
            old(owners).shareable(self.identity.id),
        ensures
            handle == *self,
            final(owners).next_id == old(owners).next_id,
            final(owners)@ == one_more_handle(old(owners)@, self.identity.id),
            final(owners).wf(),
    {
        let count: u64 = match owners.handles.get(&self.identity.id) {
            Some(count) => *count,
            None => 0,
        };
        owners.handles.insert(self.identity.id, count + 1);
        RasterCacheHandle { identity: self.identity }
    }

    /// Gives a handle up. The cache is held no more when its last handle goes.
    pub fn release(self, owners: &mut RasterCacheOwners)
        requires
            old(owners).wf(),
        ensures
            final(owners).next_id == old(owners).next_id,
            final(owners)@ == one_handle_less(old(owners)@, self.identity.id),
            final(owners).wf(),
    {
        owners.give_up(self.identity.id)
    }

    /// Which cache it is, without keeping it.
    pub fn weak_identity(&self) -> (identity: RasterCacheIdentity)
        ensures
            identity == self.identity,
    {
        self.identity
    }

    /// A resident tile of the cache, with a handle of its own.
    pub fn tile_hit(
        &self,
        owners: &mut RasterCacheOwners,
        key: RasterTileKey,
        revision: RasterTileRevision,
        gutter: u32,
    ) -> (hit: RasterTileHit)
        requires
            old(owners).shareable(self.identity.id),
        ensures
            hit == (RasterTileHit { cache: *self, key, revision, gutter }),
            final(owners).next_id == old(owners).next_id,
            final(owners)@ == one_more_handle(old(owners)@, self.identity.id),
            final(owners).wf(),
    {
        RasterTileHit { cache: self.duplicate(owners), key, revision, gutter }
    }

    /// A tile of the cache that is still to be rasterized, with a handle of its own.
    pub fn tile_miss(
        &self,
        owners: &mut RasterCacheOwners,
        key: RasterTileKey,
        revision: RasterTileRevision,
    ) -> (miss: RasterTileMiss)
        requires
            old(owners).shareable(self.identity.id),
        ensures
            miss == (RasterTileMiss { cache: *self, key, revision }),
            final(owners).next_id == old(owners).next_id,
            final(owners)@ == one_more_handle(old(owners)@, self.identity.id),
            final(owners).wf(),
    {
        RasterTileMiss { cache: self.duplicate(owners), key, revision }
    }
}

impl RasterCacheIdentity {
    /// A new handle of the cache, as long as another one is left.
    pub fn upgrade(&self, owners: &mut RasterCacheOwners) -> (handle: Option<RasterCacheHandle>)
        requires
            old(owners).wf(),
            old(owners).held(self.id) ==> old(owners)@[self.id] < u64::MAX,
        ensures
            handle is Some <==> old(owners).held(self.id),
            handle is Some ==> handle->0.identity == *self,
            final(owners).next_id == old(owners).next_id,
            final(owners)@ == if old(owners).held(self.id) {
                one_more_handle(old(owners)@, self.id)
            } else {
                old(owners)@
            },
            final(owners).wf(),
    {
        if !owners.is_held(self.id) {
            return None;
        }
        let handle = RasterCacheHandle { identity: *self };
        Some(handle.duplicate(owners))
    }
}

impl PartialEq for RasterCacheHandle {
    fn eq(&self, other: &Self) -> (equal: bool) {
        self.identity.id == other.identity.id
    }
}

impl vstd::std_specs::cmp::PartialEqSpecImpl for RasterCacheHandle {
    open spec fn obeys_eq_spec() -> bool {
        true
    }

    open spec fn eq_spec(&self, other: &Self) -> bool {
        self.identity.id == other.identity.id
    }
}

impl Eq for RasterCacheHandle {

}

/// Which tile of a cache it is.
#[derive(Clone, Copy, Debug, PartialEq, Eq, Hash, PartialOrd, Ord, Structural)]
pub struct RasterTileKey {
    pub number: u64,
}

impl RasterTileKey {
    /// The key of a number.
    pub fn new(value: u64) -> (key: RasterTileKey)
        ensures
            key.number == value,
    {
        RasterTileKey { number: value }
    }

    /// The number of the key.
    pub fn value(self) -> (value: u64)
        ensures
            value == self.number,
    {
        self.number
    }
}

/// Which state of a tile it is.
#[derive(Clone, Copy, Debug, PartialEq, Eq, Hash, PartialOrd, Ord, Structural)]
pub struct RasterTileRevision {
    pub number: u64,
}

impl RasterTileRevision {
    /// The revision of a number.
    pub fn new(value: u64) -> (revision: RasterTileRevision)
        ensures
            revision.number == value,
    {
        RasterTileRevision { number: value }
    }

    /// The number of the revision.
    pub fn value(self) -> (value: u64)
        ensures
            value == self.number,
    {
        self.number
    }
}

/// A tile that is resident. It keeps its cache until it is released.
#[derive(Debug)]
pub struct RasterTileHit {
    pub cache: RasterCacheHandle,
    pub key: RasterTileKey,
    pub revision: RasterTileRevision,
    pub gutter: u32,
}

/// A tile that is still to be rasterized. It keeps its cache until it is released.
#[derive(Debug)]
pub struct RasterTileMiss {
    pub cache: RasterCacheHandle,
    pub key: RasterTileKey,
    pub revision: RasterTileRevision,
}

impl RasterTileHit {
    /// The same tile once more, with a handle of its own.
    pub fn duplicate(&self, owners: &mut RasterCacheOwners) -> (hit: RasterTileHit)
        requires
            old(owners).shareable(self.cache.identity.id),
        ensures
            hit == *self,
            final(owners).next_id == old(owners).next_id,
            final(owners)@ == one_more_handle(old(owners)@, self.cache.identity.id),
            final(owners).wf(),
    {
        self.cache.tile_hit(owners, self.key, self.revision, self.gutter)
    }

    /// Gives the tile up with its handle.
    pub fn release(self, owners: &mut RasterCacheOwners)
        requires
            old(owners).wf(),
        ensures
            final(owners).next_id == old(owners).next_id,
            final(owners)@ == one_handle_less(old(owners)@, self.cache.identity.id),
            final(owners).wf(),
    {
        self.cache.release(owners)
    }
}

impl RasterTileMiss {
    /// The same tile once more, with a handle of its own.
    pub fn duplicate(&self, owners: &mut RasterCacheOwners) -> (miss: RasterTileMiss)
        requires
            old(owners).shareable(self.cache.identity.id),
        ensures
            miss == *self,
            final(owners).next_id == old(owners).next_id,
            final(owners)@ == one_more_handle(old(owners)@, self.cache.identity.id),
            final(owners).wf(),
    {
        self.cache.tile_miss(owners, self.key, self.revision)
    }

    /// Gives the tile up with its handle.
    pub fn release(self, owners: &mut RasterCacheOwners)
        requires
            old(owners).wf(),
        ensures
            final(owners).next_id == old(owners).next_id,
            final(owners)@ == one_handle_less(old(owners)@, self.cache.identity.id),
            final(owners).wf(),
    {
        self.cache.release(owners)
    }
}

/// What a lookup found.
#[derive(Debug)]
pub enum RasterTileLookup {
    /// The tile is resident.
    Hit(RasterTileHit),
    /// The tile is still to be rasterized.
    Miss(RasterTileMiss),
    /// The renderer keeps no tiles.
    Unsupported,
}

/// The counters of a cache.
#[derive(Clone, Copy, Debug, PartialEq, Eq, Structural)]
pub struct RasterCacheStats {
    /// Bytes on the device.
    pub resident_bytes: usize,
    /// Tiles on the device.
    pub resident_tiles: usize,
    /// Tiles removed to stay within the limits, or replaced.
    pub evicted_tiles: u64,
    /// Lookups that found the tile.
    pub hits: u64,
    /// Lookups that did not.
    pub misses: u64,
    /// Tiles compared with a direct rendering.
    pub comparison_samples: u64,
    /// The lowest similarity seen, in parts of a billion.
    pub comparison_min_ssim_ppb: u32,
    /// The highest 99th percentile of channel errors seen.
    pub comparison_p99_channel_error: u8,
    /// The highest channel error seen.
    pub comparison_max_channel_error: u8,
}

impl RasterCacheStats {
    /// All counters at zero.
    pub open spec fn zero() -> RasterCacheStats {
        RasterCacheStats {
            resident_bytes: 0,
            resident_tiles: 0,
            evicted_tiles: 0,
            hits: 0,
            misses: 0,
            comparison_samples: 0,
            comparison_min_ssim_ppb: 0,
            comparison_p99_channel_error: 0,
            comparison_max_channel_error: 0,
        }
    }
}

impl Default for RasterCacheStats {
    fn default() -> (stats: RasterCacheStats)
        ensures
            stats == RasterCacheStats::zero(),
    {
        RasterCacheStats {
            resident_bytes: 0,
            resident_tiles: 0,
            evicted_tiles: 0,
            hits: 0,
            misses: 0,
            comparison_samples: 0,
            comparison_min_ssim_ppb: 0,
            comparison_p99_channel_error: 0,
            comparison_max_channel_error: 0,
        }
    }
}

/// A transform that was shown.
#[derive(Clone, Copy, Debug, PartialEq, Eq, Structural)]
pub struct RasterCompositorPresentationSample {
    /// The transform's handle.
    pub compositor_id: u64,
    /// The revision that was shown.
    pub revision: u64,
    /// When the input behind the revision was observed.
    pub updated_at: TimePoint,
    /// When the revision was shown.
    pub presented_at: TimePoint,
}

impl RasterCompositorPresentationSample {
    /// The time from the input to the screen.
    pub fn input_to_presentation(self) -> (span: TimeSpan)
        ensures
            span == self.presented_at.since(self.updated_at),
    {
        self.presented_at.saturating_duration_since(self.updated_at)
    }
}

/// A frame that was shown.
#[derive(Clone, Copy, Debug)]
pub struct FramePresentationSample {
    /// The renderer's frame.
    pub frame_id: u64,
    /// The drawable.
    pub drawable_id: u64,
    /// The time on the host clock that the system reported, in seconds.
    pub presented_time_seconds: Float64,
    /// When the frame was submitted.
    pub submitted_at: TimePoint,
    /// When the frame was shown.
    pub presented_at: TimePoint,
    /// When the report was observed.
    pub observed_at: TimePoint,
    /// The time that the device took, where known.
    pub gpu_duration: Option<TimeSpan>,
}

impl FramePresentationSample {
    /// The time from the submission to the screen.
    pub fn submission_to_presentation(self) -> (span: TimeSpan)
        ensures
            span == self.presented_at.since(self.submitted_at),
    {
        self.presented_at.saturating_duration_since(self.submitted_at)
    }
}

/// Handles of separate caches differ, whatever their limits: one made earlier has
/// another identifier than the one made next, and the two compare unequal. A handle
/// and its duplicate, which has the same identity, compare equal.
pub proof fn a_new_cache_is_unlike_all_before(
    owners: RasterCacheOwners,
    earlier: RasterCacheHandle,
    later: RasterCacheHandle,
)
    requires
        earlier.identity.id < owners.next_id,
        later.identity.id == owners.next_id,
    ensures
        earlier.identity.id != later.identity.id,
        !vstd::std_specs::cmp::PartialEqSpec::eq_spec(&earlier, &later),
        vstd::std_specs::cmp::PartialEqSpec::eq_spec(&earlier, &earlier),
{
}

/// A cache is held until its last handle is given up: giving a handle up undoes
/// making it, and ends the cache exactly where it was the only one.
pub proof fn a_cache_is_held_until_its_last_handle(handles: Map<u64, u64>, id: u64)
    requires
        handles.contains_key(id),
        0 < handles[id] < u64::MAX,
    ensures
        one_more_handle(handles, id).contains_key(id),
        one_handle_less(one_more_handle(handles, id), id) == handles,
        one_handle_less(handles, id).contains_key(id) <==> handles[id] > 1,
{
    assert(one_handle_less(one_more_handle(handles, id), id) =~= handles);
}

} // verus!
