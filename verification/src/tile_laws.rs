//! What looking tiles up, preparing them and removing them does to the tiles on the
//! device and to the counters of their caches.
use vstd::prelude::*;

use crate::geometry::DeviceSize;
use crate::image_comparison::{accumulated, RasterComparisonSample};
use crate::raster_cache::{RasterCacheIdentity, RasterCacheStats, RasterTileKey, RasterTileRevision};
use crate::residency::{
    account_of, account_of_finds, allocatable, evictable, index_of, index_of_finds,
    oldest_is_evictable, put, side, texture_bytes, trimming_keeps_counters, CachedRasterTexture,
    CachedRasterTextureKey, RasterComparisonStats, RasterNamespace, ResidencyModel,
};

verus! {

/// A texture takes four bytes for each pixel, one without pixels none; it can be allocated
/// exactly where it has pixels and its bytes are within the limit.
pub proof fn a_pixel_takes_four_bytes(size: DeviceSize, limit: usize)
    ensures
        size.width > 0 && size.height > 0 ==> texture_bytes(size) == size.width * size.height * 4,
        size.width <= 0 || size.height <= 0 ==> texture_bytes(size) == 0,
        allocatable(size, limit) <==> size.width > 0 && size.height > 0 && size.width * size.height
            * 4 <= limit,
{
    if size.width <= 0 {
        assert(0 * side(size.height) == 0);
    }
}

/// The key of a state of a tile of a cache.
pub open spec fn key_of(cache_id: u64, key: u64, revision: u64) -> CachedRasterTextureKey {
    CachedRasterTextureKey { cache_id, tile_key: key, revision }
}

/// Whether the tile of a key is at a place.
pub open spec fn tile_at(model: ResidencyModel, i: int, key: CachedRasterTextureKey) -> bool {
    0 <= i < model.textures.len() && model.textures[i].key == key
}

/// Whether a tile is on the device.
pub open spec fn resident(model: ResidencyModel, key: CachedRasterTextureKey) -> bool {
    exists|i: int| #[trigger] tile_at(model, i, key)
}

/// Whether two states differ in nothing but that the tile at a place was used now.
pub open spec fn used_now(before: ResidencyModel, after: ResidencyModel, i: int) -> bool {
    &&& after.textures.len() == before.textures.len()
    &&& forall|k: int|
        0 <= k < before.textures.len() && k != i ==> #[trigger] after.textures[k]
            == before.textures[k]
    &&& after.textures[i] == CachedRasterTexture {
        last_used_frame: before.frame_index,
        ..before.textures[i]
    }
}

/// A lookup finds a tile exactly where it is on the device, in this state. It then hands
/// out its gutter, counts a hit and notes that the tile was used in this frame. Otherwise
/// it counts a miss and leaves the tiles alone. Either way the answer names the cache and
/// the tile asked for, and the cache has an account.
pub proof fn a_lookup_finds_what_is_resident(
    model: ResidencyModel,
    cache: RasterCacheIdentity,
    key: RasterTileKey,
    revision: RasterTileRevision,
)
    ensures
        ({
            let (after, found) = model.lookup(cache, key, revision);
            let asked = key_of(cache.id, key.number, revision.number);
            let before = model.stats_of(cache.id);
            &&& found is Hit <==> resident(model, asked)
            &&& found is Miss <==> !resident(model, asked)
            &&& found is Hit ==> {
                let hit = found->Hit_0;
                let i = index_of(model.textures, asked);
                &&& hit.cache.identity == cache
                &&& hit.key == key
                &&& hit.revision == revision
                &&& tile_at(model, i, asked)
                &&& hit.gutter == model.textures[i].gutter
                &&& used_now(model, after, i)
                &&& before.hits < u64::MAX ==> after.stats_of(cache.id) == (RasterCacheStats {
                    hits: (before.hits + 1) as u64,
                    ..before
                })
            }
            &&& found is Miss ==> {
                let miss = found->Miss_0;
                &&& miss.cache.identity == cache
                &&& miss.key == key
                &&& miss.revision == revision
                &&& after.textures == model.textures
                &&& before.misses < u64::MAX ==> after.stats_of(cache.id) == (RasterCacheStats {
                    misses: (before.misses + 1) as u64,
                    ..before
                })
            }
            &&& account_of(after.namespaces, cache.id) >= 0
            &&& after.frame_index == model.frame_index
            &&& after.next_allocation == model.next_allocation
            &&& forall|other: u64|
                other != cache.id ==> #[trigger] after.stats_of(other) == model.stats_of(other)
        }),
{
    let asked = key_of(cache.id, key.number, revision.number);
    let (after, found) = model.lookup(cache, key, revision);
    index_of_finds(model.textures, asked);
    let i = index_of(model.textures, asked);
    if i >= 0 {
        assert(tile_at(model, i, asked));
    } else if resident(model, asked) {
        let k = choose|k: int| #[trigger] tile_at(model, k, asked);
        assert(model.textures[k].key != asked);
    }
    let opened = model.opened(cache.id);
    let at = account_of(opened.namespaces, cache.id);
    account_of_finds(model.namespaces, cache.id);
    account_of_finds(opened.namespaces, cache.id);
    if account_of(model.namespaces, cache.id) < 0 {
        assert(opened.namespaces[model.namespaces.len() as int].cache_id == cache.id);
        let rest = opened.namespaces.drop_last();
        assert(rest =~= model.namespaces);
    }
    let stats = after.namespaces[at];
    same_accounts(opened.namespaces, after.namespaces);
    assert forall|other: u64| other != cache.id implies #[trigger] after.stats_of(other)
        == model.stats_of(other) by {
        account_of_finds(after.namespaces, other);
        account_of_finds(model.namespaces, other);
        if account_of(model.namespaces, cache.id) < 0 {
            assert(opened.namespaces.drop_last() =~= model.namespaces);
        }
        assert(account_of(opened.namespaces, other) == account_of(model.namespaces, other));
    }
}

/// Accounts of the same caches in the same places are found in the same places.
proof fn same_accounts(before: Seq<RasterNamespace>, after: Seq<RasterNamespace>)
    requires
        before.len() == after.len(),
        forall|i: int|
            0 <= i < before.len() ==> (#[trigger] after[i]).cache_id == before[i].cache_id,
    ensures
        forall|id: u64| #[trigger] account_of(after, id) == account_of(before, id),
    decreases before.len(),
{
    if before.len() > 0 {
        assert forall|i: int| 0 <= i < before.drop_last().len() implies (
        #[trigger] after.drop_last()[i]).cache_id == before.drop_last()[i].cache_id by {
            assert(after[i].cache_id == before[i].cache_id);
        }
        same_accounts(before.drop_last(), after.drop_last());
        assert(after[before.len() - 1].cache_id == before[before.len() - 1].cache_id);
        assert forall|id: u64| #[trigger] account_of(after, id) == account_of(before, id) by {
            assert(account_of(after.drop_last(), id) == account_of(before.drop_last(), id));
        }
    }
}

/// The counters of a cache are those of its account, with the comparisons that were made
/// for it; without an account they are zero.
pub proof fn counters_come_from_the_account(model: ResidencyModel, cache_id: u64)
    ensures
        ({
            let stats = model.stats_of(cache_id);
            let i = account_of(model.namespaces, cache_id);
            &&& i >= 0 ==> {
                let account = model.namespaces[i];
                &&& account.cache_id == cache_id
                &&& stats.resident_bytes == account.stats.resident_bytes
                &&& stats.resident_tiles == account.stats.resident_tiles
                &&& stats.evicted_tiles == account.stats.evicted_tiles
                &&& stats.hits == account.stats.hits
                &&& stats.misses == account.stats.misses
                &&& stats.comparison_samples == account.comparisons.samples
                &&& stats.comparison_min_ssim_ppb == account.comparisons.min_ssim_ppb
                &&& stats.comparison_p99_channel_error == account.comparisons.p99_channel_error
                &&& stats.comparison_max_channel_error == account.comparisons.max_channel_error
            }
            &&& (forall|k: int|
                0 <= k < model.namespaces.len() ==> (#[trigger] model.namespaces[k]).cache_id
                    != cache_id) ==> stats.resident_bytes == 0 && stats.resident_tiles == 0
                && stats.evicted_tiles == 0 && stats.hits == 0 && stats.misses == 0
                && stats.comparison_samples == 0 && stats.comparison_min_ssim_ppb == 0
                && stats.comparison_p99_channel_error == 0 && stats.comparison_max_channel_error
                == 0
        }),
{
    account_of_finds(model.namespaces, cache_id);
}

/// A comparison adds one sample; afterwards the similarity is the lower of the two, that
/// of the sample where it is the first, and the errors are the larger ones.
pub proof fn a_comparison_keeps_the_worst(
    stats: RasterComparisonStats,
    sample: RasterComparisonSample,
)
    requires
        stats.samples < u64::MAX,
    ensures
        ({
            let after = accumulated(stats, sample);
            &&& after.samples == stats.samples + 1
            &&& stats.samples == 0 ==> after.min_ssim_ppb == sample.ssim_ppb
            &&& stats.samples > 0 ==> {
                &&& after.min_ssim_ppb <= sample.ssim_ppb
                &&& after.min_ssim_ppb <= stats.min_ssim_ppb
                &&& after.min_ssim_ppb == sample.ssim_ppb || after.min_ssim_ppb
                    == stats.min_ssim_ppb
            }
            &&& after.p99_channel_error >= sample.p99_channel_error
            &&& after.p99_channel_error >= stats.p99_channel_error
            &&& after.p99_channel_error == sample.p99_channel_error || after.p99_channel_error
                == stats.p99_channel_error
            &&& after.max_channel_error >= sample.max_channel_error
            &&& after.max_channel_error >= stats.max_channel_error
            &&& after.max_channel_error == sample.max_channel_error || after.max_channel_error
                == stats.max_channel_error
        }),
{
}

/// Removing a tile leaves all others as they were. Its cache has a tile less; it has the
/// bytes of the allocation less where no other tile lies in it; and the tile is counted as
/// evicted exactly where it was.
pub proof fn removing_a_tile_takes_it_off_the_account(model: ResidencyModel, i: int, evicted: bool)
    requires
        0 <= i < model.textures.len(),
        account_of(model.namespaces, model.textures[i].key.cache_id) >= 0,
    ensures
        ({
            let tile = model.textures[i];
            let after = model.without(i, evicted);
            let cache_id = tile.key.cache_id;
            let old = model.stats_of(cache_id);
            let new = after.stats_of(cache_id);
            let shared = exists|k: int|
                0 <= k < model.textures.len() && k != i && (
                #[trigger] model.textures[k]).allocation == tile.allocation;
            &&& after.textures == model.textures.remove(i)
            &&& old.resident_tiles > 0 ==> new.resident_tiles == old.resident_tiles - 1
            &&& shared ==> new.resident_bytes == old.resident_bytes
            &&& !shared && old.resident_bytes >= tile.bytes ==> new.resident_bytes
                == old.resident_bytes - tile.bytes
            &&& evicted && old.evicted_tiles < u64::MAX ==> new.evicted_tiles == old.evicted_tiles
                + 1
            &&& !evicted ==> new.evicted_tiles == old.evicted_tiles
            &&& new.hits == old.hits && new.misses == old.misses
            &&& forall|other: u64|
                other != cache_id ==> #[trigger] after.stats_of(other) == model.stats_of(other)
        }),
{
    let tile = model.textures[i];
    let after = model.without(i, evicted);
    let cache_id = tile.key.cache_id;
    let rest = model.textures.remove(i);
    account_of_finds(model.namespaces, cache_id);
    same_accounts(model.namespaces, after.namespaces);
    if exists|k: int|
        0 <= k < model.textures.len() && k != i && (#[trigger] model.textures[k]).allocation
            == tile.allocation {
        let k = choose|k: int|
            0 <= k < model.textures.len() && k != i && (#[trigger] model.textures[k]).allocation
                == tile.allocation;
        let at = if k < i {
            k
        } else {
            k - 1
        };
        assert(rest[at].allocation == tile.allocation);
    } else if crate::residency::in_use(rest, tile.allocation) {
        let at = choose|at: int|
            0 <= at < rest.len() && (#[trigger] rest[at]).allocation == tile.allocation;
        let k = if at < i {
            at
        } else {
            at + 1
        };
        assert(model.textures[k].allocation == tile.allocation);
    }
    assert forall|other: u64| other != cache_id implies #[trigger] after.stats_of(other)
        == model.stats_of(other) by {
        account_of_finds(model.namespaces, other);
        assert(account_of(after.namespaces, other) == account_of(model.namespaces, other));
    }
}

/// Every tile that trimming removes is counted as evicted, and no other.
pub proof fn trimming_counts_what_it_evicts(
    model: ResidencyModel,
    cache_id: u64,
    bytes: int,
    limit: usize,
    protected: Seq<CachedRasterTextureKey>,
)
    requires
        account_of(model.namespaces, cache_id) >= 0,
        model.stats_of(cache_id).evicted_tiles + model.textures.len() <= u64::MAX,
    ensures
        ({
            let after = model.trimmed(cache_id, bytes, limit, protected);
            &&& after.stats_of(cache_id).evicted_tiles == model.stats_of(cache_id).evicted_tiles
                + model.textures.len() - after.textures.len()
            &&& after.textures.len() <= model.textures.len()
            &&& model.resident_bytes(cache_id) + bytes <= limit ==> after == model
        }),
    decreases model.textures.len(),
{
    let i = model.victim(cache_id, protected);
    oldest_is_evictable(model.textures, cache_id, protected, model.textures.len() as int);
    if !model.fits(cache_id, bytes, limit) && i >= 0 {
        let next = model.without(i, true);
        removing_a_tile_takes_it_off_the_account(model, i, true);
        account_of_finds(model.namespaces, cache_id);
        same_accounts(model.namespaces, next.namespaces);
        assert(account_of(next.namespaces, cache_id) == account_of(model.namespaces, cache_id));
        trimming_counts_what_it_evicts(next, cache_id, bytes, limit, protected);
    }
}

/// Trimming stops as soon as it may: before the last tile that it removed, the cache was
/// still above the limit.
pub proof fn trimming_removes_no_more_than_it_must(
    model: ResidencyModel,
    cache_id: u64,
    bytes: int,
    limit: usize,
    protected: Seq<CachedRasterTextureKey>,
) -> (before_last: ResidencyModel)
    requires
        model.trimmed(cache_id, bytes, limit, protected).textures.len() < model.textures.len(),
    ensures
        before_last.resident_bytes(cache_id) + bytes > limit,
        before_last.textures.len() == model.trimmed(
            cache_id,
            bytes,
            limit,
            protected,
        ).textures.len() + 1,
        exists|i: int|
            0 <= i < before_last.textures.len() && evictable(
                #[trigger] before_last.textures[i],
                cache_id,
                protected,
            ) && model.trimmed(cache_id, bytes, limit, protected) == before_last.without(i, true),
    decreases model.textures.len(),
{
    let i = model.victim(cache_id, protected);
    oldest_is_evictable(model.textures, cache_id, protected, model.textures.len() as int);
    let next = model.without(i, true);
    let after = model.trimmed(cache_id, bytes, limit, protected);
    if after.textures.len() < next.textures.len() {
        trimming_removes_no_more_than_it_must(next, cache_id, bytes, limit, protected)
    } else {
        trimming_never_adds(next, cache_id, bytes, limit, protected);
        assert(evictable(model.textures[i], cache_id, protected));
        model
    }
}

proof fn trimming_never_adds(
    model: ResidencyModel,
    cache_id: u64,
    bytes: int,
    limit: usize,
    protected: Seq<CachedRasterTextureKey>,
)
    ensures
        ({
            let after = model.trimmed(cache_id, bytes, limit, protected);
            &&& after.textures.len() <= model.textures.len()
            &&& after.textures.len() == model.textures.len() ==> after == model
        }),
    decreases model.textures.len(),
{
    let i = model.victim(cache_id, protected);
    oldest_is_evictable(model.textures, cache_id, protected, model.textures.len() as int);
    if !model.fits(cache_id, bytes, limit) && i >= 0 {
        trimming_never_adds(model.without(i, true), cache_id, bytes, limit, protected);
    }
}

/// Whether a tile is on the device with the sides of a size.
pub open spec fn resident_in_size(
    model: ResidencyModel,
    key: CachedRasterTextureKey,
    size: DeviceSize,
) -> bool {
    let i = index_of(model.textures, key);
    &&& tile_at(model, i, key)
    &&& model.textures[i].source_size.width == size.width || (model.textures[i].source_size.width
        <= 0 && size.width <= 0)
    &&& model.textures[i].source_size.height == size.height || (model.textures[i].source_size.height
        <= 0 && size.height <= 0)
}

/// Preparing a texture for a tile. One without pixels or above the hard limit changes
/// nothing and gives none. A tile that is there in this size is used again, and noted as
/// used now. For any other, where there is room within the hard limit after trimming, the
/// tile lies alone in a new allocation of its own size, with its gutter, used now, and
/// paid for with four bytes a pixel; where there is no room it gets none.
pub proof fn a_prepared_texture_is_as_asked(
    model: ResidencyModel,
    cache: RasterCacheIdentity,
    key: CachedRasterTextureKey,
    size: DeviceSize,
    gutter: i32,
    protected: Seq<CachedRasterTextureKey>,
)
    requires
        model.next_allocation < u64::MAX,
        key.cache_id == cache.id,
        cache.config.hard() <= usize::MAX,
    ensures
        ({
            let (after, texture) = model.prepared(cache, key, size, gutter, protected);
            let bytes = size.width * size.height * 4;
            let possible = size.width > 0 && size.height > 0 && bytes <= cache.config.hard();
            let i = index_of(after.textures, key);
            &&& !possible ==> texture is None && after == model
            &&& possible && resident_in_size(model, key, size) ==> {
                &&& texture is Some
                &&& !texture->0.fresh
                &&& texture->0.allocation == model.textures[index_of(
                    model.textures,
                    key,
                )].allocation
                &&& used_now(model, after, index_of(model.textures, key))
                &&& after.namespaces == model.namespaces
                &&& after.next_allocation == model.next_allocation
            }
            &&& possible && !resident_in_size(model, key, size) ==> {
                &&& texture is Some ==> {
                    &&& texture->0.fresh
                    &&& texture->0.allocation == model.next_allocation
                    &&& after.next_allocation == model.next_allocation + 1
                    &&& tile_at(after, i, key)
                    &&& after.textures[i].allocation == model.next_allocation
                    &&& after.textures[i].bytes == bytes
                    &&& after.textures[i].source_x == 0
                    &&& after.textures[i].source_y == 0
                    &&& after.textures[i].source_size == size
                    &&& after.textures[i].gutter == (if gutter > 0 {
                        gutter as int
                    } else {
                        0
                    })
                    &&& after.textures[i].last_used_frame == model.frame_index
                }
                &&& texture is None ==> after.resident_bytes(cache.id) + bytes
                    > cache.config.hard() && after.next_allocation == model.next_allocation
            }
            &&& after.frame_index == model.frame_index
        }),
{
    let (after, texture) = model.prepared(cache, key, size, gutter, protected);
    let bytes = size.width * size.height * 4;
    a_pixel_takes_four_bytes(size, cache.config.hard());
    index_of_finds(model.textures, key);
    if allocatable(size, cache.config.hard()) && !model.has_sized(key, size) {
        let removed = model.removed(key, false);
        let room = model.room_made(cache, key, size, protected);
        trimming_keeps_counters(removed, cache.id, bytes, cache.config.hard(), protected);
        index_of_finds(room.textures, key);
        index_of_finds(after.textures, key);
        if room.fits(cache.id, bytes, cache.config.hard()) {
            what_is_put_is_found(
                room.textures,
                CachedRasterTexture {
                    key,
                    allocation: room.next_allocation,
                    bytes: bytes as usize,
                    source_x: 0,
                    source_y: 0,
                    source_size: size,
                    gutter: side(gutter) as u32,
                    last_used_frame: room.frame_index,
                },
            );
        }
    }
}

proof fn what_is_put_is_found(textures: Seq<CachedRasterTexture>, texture: CachedRasterTexture)
    ensures
        ({
            let after = put(textures, texture);
            let i = index_of(after, texture.key);
            0 <= i < after.len() && after[i] == texture
        }),
{
    index_of_finds(textures, texture.key);
    let i = index_of(textures, texture.key);
    let after = put(textures, texture);
    if i < 0 {
        assert(after.last() == texture);
    } else {
        replaced_is_found(textures, i, texture);
    }
}

proof fn replaced_is_found(textures: Seq<CachedRasterTexture>, i: int, texture: CachedRasterTexture)
    requires
        0 <= i < textures.len(),
        i == index_of(textures, texture.key),
    ensures
        index_of(textures.update(i, texture), texture.key) == i,
    decreases textures.len(),
{
    let after = textures.update(i, texture);
    if i == textures.len() - 1 {
        assert(after.last() == texture);
    } else {
        let rest = textures.drop_last();
        replaced_is_found(rest, i, texture);
        assert(after.drop_last() =~= rest.update(i, texture));
        assert(after.last() == textures.last());
    }
}

/// Giving caches up takes away their tiles and accounts and leaves those of all others.
pub proof fn giving_up_takes_only_what_is_given_up(
    model: ResidencyModel,
    kept: spec_fn(u64) -> bool,
    texture: CachedRasterTexture,
    account: RasterNamespace,
)
    ensures
        model.keeping(kept).textures.contains(texture) <==> model.textures.contains(texture)
            && kept(texture.key.cache_id),
        model.keeping(kept).namespaces.contains(account) <==> model.namespaces.contains(account)
            && kept(account.cache_id),
        model.keeping(kept).next_allocation == model.next_allocation,
        model.keeping(kept).frame_index == model.frame_index,
{
    let keeps_texture = |texture: CachedRasterTexture| kept(texture.key.cache_id);
    let keeps_account = |namespace: RasterNamespace| kept(namespace.cache_id);
    filtered_is_kept(model.textures, keeps_texture, texture);
    filtered_is_kept(model.namespaces, keeps_account, account);
}

proof fn filtered_is_kept<T>(items: Seq<T>, keeps: spec_fn(T) -> bool, item: T)
    ensures
        items.filter(keeps).contains(item) <==> items.contains(item) && keeps(item),
    decreases items.len(),
{
    reveal(Seq::filter);
    if items.len() > 0 {
        let rest = items.drop_last();
        let last = items.len() - 1;
        filtered_is_kept(rest, keeps, item);
        let before = rest.filter(keeps);
        let after = items.filter(keeps);
        if rest.contains(item) {
            let i = choose|i: int| 0 <= i < rest.len() && rest[i] == item;
            assert(items[i] == item);
        }
        if items.contains(item) && !rest.contains(item) {
            let i = choose|i: int| 0 <= i < items.len() && items[i] == item;
            if i < last {
                assert(rest[i] == item);
            }
        }
        if keeps(items[last]) {
            assert(after == before.push(items[last]));
            if before.contains(item) {
                let i = choose|i: int| 0 <= i < before.len() && before[i] == item;
                assert(after[i] == item);
            }
            if item == items[last] {
                assert(after[before.len() as int] == item);
            }
            if after.contains(item) && item != items[last] {
                let i = choose|i: int| 0 <= i < after.len() && after[i] == item;
                assert(before[i] == item);
            }
        }
        assert(items[last] == items.last());
    }
}

/// A cache can take on some bytes exactly where they and those that it has, by its counters,
/// are within the limit.
pub proof fn a_cache_takes_on_what_its_limit_leaves(
    model: ResidencyModel,
    cache_id: u64,
    bytes: int,
    limit: usize,
)
    ensures
        model.resident_bytes(cache_id) == model.stats_of(cache_id).resident_bytes,
        model.fits(cache_id, bytes, limit) <==> model.stats_of(cache_id).resident_bytes + bytes
            <= limit,
{
    account_of_finds(model.namespaces, cache_id);
}

} // verus!
