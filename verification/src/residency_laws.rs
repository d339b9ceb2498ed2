//! What holds of raster residency as a whole: the accounts are exact, limits are
//! kept, protected tiles and other caches are left alone, and what was prepared is
//! found.
use vstd::prelude::*;

use crate::geometry::DeviceSize;
use crate::raster_cache::{
    one_handle_less, one_more_handle, RasterCacheIdentity, RasterCacheStats, RasterTileKey,
    RasterTileRevision,
};
use crate::residency::{
    account_of, account_of_finds, all_put, allocatable, evictable, in_use, index_of, index_of_finds,
    misplaced, oldest_is_evictable, put, target_key, target_texture, texture_bytes,
    CachedRasterTexture, CachedRasterTextureKey, PlacedTarget, PreparedRasterBatchTexture,
    RasterNamespace, ResidencyModel,
};

verus! {

/// The tiles of a cache.
pub open spec fn tiles_of(textures: Seq<CachedRasterTexture>, cache_id: u64) -> int
    decreases textures.len(),
{
    if textures.len() == 0 {
        0
    } else {
        tiles_of(textures.drop_last(), cache_id) + if textures.last().key.cache_id == cache_id {
            1int
        } else {
            0
        }
    }
}

/// The bytes of the allocations that hold tiles of a cache, each counted once.
pub open spec fn bytes_of(textures: Seq<CachedRasterTexture>, cache_id: u64) -> int
    decreases textures.len(),
{
    if textures.len() == 0 {
        0
    } else {
        let rest = textures.drop_last();
        let texture = textures.last();
        bytes_of(rest, cache_id) + if texture.key.cache_id == cache_id && !in_use(
            rest,
            texture.allocation,
        ) {
            texture.bytes as int
        } else {
            0
        }
    }
}

/// No tile is there twice.
pub open spec fn keys_distinct(textures: Seq<CachedRasterTexture>) -> bool {
    forall|i: int, j: int|
        0 <= i < j < textures.len() ==> (#[trigger] textures[i]).key != (
        #[trigger] textures[j]).key
}

/// Tiles in one allocation belong to one cache and agree on its size.
pub open spec fn uniform(textures: Seq<CachedRasterTexture>) -> bool {
    forall|i: int, j: int|
        0 <= i < textures.len() && 0 <= j < textures.len() && (
        #[trigger] textures[i]).allocation == (#[trigger] textures[j]).allocation ==> {
            &&& textures[i].bytes == textures[j].bytes
            &&& textures[i].key.cache_id == textures[j].key.cache_id
        }
}

/// No cache has two accounts.
pub open spec fn accounts_distinct(namespaces: Seq<RasterNamespace>) -> bool {
    forall|i: int, j: int|
        0 <= i < j < namespaces.len() ==> (#[trigger] namespaces[i]).cache_id != (
        #[trigger] namespaces[j]).cache_id
}

/// The accounts say what is on the device: each tile once, for every cache the
/// number of its tiles and the bytes of its allocations.
pub open spec fn exact(model: ResidencyModel) -> bool {
    &&& keys_distinct(model.textures)
    &&& uniform(model.textures)
    &&& accounts_distinct(model.namespaces)
    &&& forall|i: int|
        0 <= i < model.textures.len() ==> account_of(
            model.namespaces,
            (#[trigger] model.textures[i]).key.cache_id,
        ) >= 0
    &&& forall|i: int|
        0 <= i < model.textures.len() ==> (#[trigger] model.textures[i]).allocation
            < model.next_allocation
    &&& forall|i: int|
        0 <= i < model.namespaces.len() ==> account_exact(
            #[trigger] model.namespaces[i],
            model.textures,
        )
}

/// The account of a cache says what is on the device.
pub open spec fn account_exact(
    namespace: RasterNamespace,
    textures: Seq<CachedRasterTexture>,
) -> bool {
    &&& namespace.stats.resident_tiles as int == tiles_of(textures, namespace.cache_id)
    &&& namespace.stats.resident_bytes as int == bytes_of(textures, namespace.cache_id)
}

proof fn in_use_after_remove(textures: Seq<CachedRasterTexture>, i: int, allocation: u64)
    requires
        0 <= i < textures.len(),
    ensures
        in_use(textures, allocation) <==> in_use(textures.remove(i), allocation)
            || textures[i].allocation == allocation,
{
    let rest = textures.remove(i);
    if in_use(textures, allocation) {
        let k = choose|k: int|
            0 <= k < textures.len() && (#[trigger] textures[k]).allocation == allocation;
        if k < i {
            assert(rest[k].allocation == allocation);
        } else if k > i {
            assert(rest[k - 1].allocation == allocation);
        }
    }
    if in_use(rest, allocation) {
        let k = choose|k: int|
            0 <= k < rest.len() && (#[trigger] rest[k]).allocation == allocation;
        if k < i {
            assert(textures[k].allocation == allocation);
        } else {
            assert(textures[k + 1].allocation == allocation);
        }
    }
}

proof fn in_use_after_push(
    textures: Seq<CachedRasterTexture>,
    texture: CachedRasterTexture,
    allocation: u64,
)
    ensures
        in_use(textures.push(texture), allocation) <==> in_use(textures, allocation)
            || texture.allocation == allocation,
{
    let all = textures.push(texture);
    assert(all.remove(textures.len() as int) =~= textures);
    in_use_after_remove(all, textures.len() as int, allocation);
}

proof fn tiles_after_remove(textures: Seq<CachedRasterTexture>, i: int, cache_id: u64)
    requires
        0 <= i < textures.len(),
    ensures
        tiles_of(textures.remove(i), cache_id) == tiles_of(textures, cache_id) - if textures[i].key.cache_id
            == cache_id {
            1int
        } else {
            0
        },
    decreases textures.len(),
{
    let rest = textures.drop_last();
    let removed = textures.remove(i);
    if i == textures.len() - 1 {
        assert(removed =~= rest);
    } else {
        assert(removed.drop_last() =~= rest.remove(i));
        assert(removed.last() == textures.last());
        assert(rest[i] == textures[i]);
        tiles_after_remove(rest, i, cache_id);
    }
}

proof fn bytes_after_remove(textures: Seq<CachedRasterTexture>, i: int, cache_id: u64)
    requires
        0 <= i < textures.len(),
        uniform(textures),
    ensures
        bytes_of(textures.remove(i), cache_id) == bytes_of(textures, cache_id) - if textures[i].key.cache_id
            == cache_id && !in_use(textures.remove(i), textures[i].allocation) {
            textures[i].bytes as int
        } else {
            0
        },
    decreases textures.len(),
{
    let rest = textures.drop_last();
    let removed = textures.remove(i);
    let last = textures.last();
    let own = textures[i];
    if i == textures.len() - 1 {
        assert(removed =~= rest);
    } else {
        assert(removed.drop_last() =~= rest.remove(i));
        assert(removed.last() == last);
        assert(rest[i] == own);
        assert(uniform(rest)) by {
            assert forall|a: int, b: int|
                0 <= a < rest.len() && 0 <= b < rest.len() && (#[trigger] rest[a]).allocation == (
                #[trigger] rest[b]).allocation implies {
                &&& rest[a].bytes == rest[b].bytes
                &&& rest[a].key.cache_id == rest[b].key.cache_id
            } by {
                assert(textures[a] == rest[a] && textures[b] == rest[b]);
            }
        }
        bytes_after_remove(rest, i, cache_id);
        in_use_after_remove(rest, i, last.allocation);
        assert(removed =~= rest.remove(i).push(last));
        in_use_after_push(rest.remove(i), last, own.allocation);
        assert(textures[textures.len() - 1] == last);
    }
}

proof fn tiles_counted(textures: Seq<CachedRasterTexture>, cache_id: u64)
    ensures
        0 <= tiles_of(textures, cache_id) <= textures.len(),
        (forall|i: int|
            0 <= i < textures.len() ==> (#[trigger] textures[i]).key.cache_id != cache_id) ==> (
        tiles_of(textures, cache_id) == 0 && bytes_of(textures, cache_id) == 0),
    decreases textures.len(),
{
    if textures.len() > 0 {
        let rest = textures.drop_last();
        tiles_counted(rest, cache_id);
        if forall|i: int|
            0 <= i < textures.len() ==> (#[trigger] textures[i]).key.cache_id != cache_id {
            assert forall|i: int| 0 <= i < rest.len() implies (
            #[trigger] rest[i]).key.cache_id != cache_id by {
                assert(textures[i].key.cache_id != cache_id);
            }
            assert(textures[textures.len() - 1].key.cache_id != cache_id);
        }
    }
}

/// Removing a tile keeps the accounts exact.
pub proof fn removing_keeps_accounts_exact(model: ResidencyModel, i: int, evicted: bool)
    requires
        exact(model),
        0 <= i < model.textures.len(),
    ensures
        exact(model.without(i, evicted)),
{
    let texture = model.textures[i];
    let after = model.without(i, evicted);
    let rest = after.textures;
    let own = account_of(model.namespaces, texture.key.cache_id);
    account_of_finds(model.namespaces, texture.key.cache_id);
    assert forall|a: int, b: int| 0 <= a < b < rest.len() implies (#[trigger] rest[a]).key != (
    #[trigger] rest[b]).key by {
        let x = if a < i {
            a
        } else {
            a + 1
        };
        let y = if b < i {
            b
        } else {
            b + 1
        };
        assert(rest[a] == model.textures[x] && rest[b] == model.textures[y]);
    }
    assert forall|a: int, b: int|
        0 <= a < rest.len() && 0 <= b < rest.len() && (#[trigger] rest[a]).allocation == (
        #[trigger] rest[b]).allocation implies {
        &&& rest[a].bytes == rest[b].bytes
        &&& rest[a].key.cache_id == rest[b].key.cache_id
    } by {
        let x = if a < i {
            a
        } else {
            a + 1
        };
        let y = if b < i {
            b
        } else {
            b + 1
        };
        assert(rest[a] == model.textures[x] && rest[b] == model.textures[y]);
    }
    assert forall|a: int| 0 <= a < rest.len() implies account_of(
        after.namespaces,
        (#[trigger] rest[a]).key.cache_id,
    ) >= 0 && rest[a].allocation < after.next_allocation by {
        let x = if a < i {
            a
        } else {
            a + 1
        };
        assert(rest[a] == model.textures[x]);
        same_caches_same_places(model.namespaces, after.namespaces, rest[a].key.cache_id);
    }
    assert forall|k: int| 0 <= k < after.namespaces.len() implies account_exact(
        #[trigger] after.namespaces[k],
        rest,
    ) by {
        let cache_id = model.namespaces[k].cache_id;
        assert(account_exact(model.namespaces[k], model.textures));
        tiles_after_remove(model.textures, i, cache_id);
        bytes_after_remove(model.textures, i, cache_id);
        tiles_counted(rest, cache_id);
        bytes_not_negative(rest, cache_id);
        if k != own {
            if k < own {
                assert(model.namespaces[k].cache_id != model.namespaces[own].cache_id);
            } else {
                assert(model.namespaces[own].cache_id != model.namespaces[k].cache_id);
            }
        }
    }
}

proof fn bytes_not_negative(textures: Seq<CachedRasterTexture>, cache_id: u64)
    ensures
        0 <= bytes_of(textures, cache_id),
    decreases textures.len(),
{
    if textures.len() > 0 {
        bytes_not_negative(textures.drop_last(), cache_id);
    }
}

proof fn same_caches_same_places(
    a: Seq<RasterNamespace>,
    b: Seq<RasterNamespace>,
    cache_id: u64,
)
    requires
        a.len() == b.len(),
        forall|i: int| 0 <= i < a.len() ==> (#[trigger] a[i]).cache_id == (
        #[trigger] b[i]).cache_id,
    ensures
        account_of(a, cache_id) == account_of(b, cache_id),
    decreases a.len(),
{
    if a.len() > 0 {
        assert(a[a.len() - 1].cache_id == b[b.len() - 1].cache_id);
        assert forall|i: int| 0 <= i < a.drop_last().len() implies (
        #[trigger] a.drop_last()[i]).cache_id == (#[trigger] b.drop_last()[i]).cache_id by {
            assert(a[i].cache_id == b[i].cache_id);
        }
        same_caches_same_places(a.drop_last(), b.drop_last(), cache_id);
    }
}

/// Trimming a cache keeps the accounts exact.
pub proof fn trimming_keeps_accounts_exact(
    model: ResidencyModel,
    cache_id: u64,
    bytes: int,
    limit: usize,
    protected: Seq<CachedRasterTextureKey>,
)
    requires
        exact(model),
    ensures
        exact(model.trimmed(cache_id, bytes, limit, protected)),
    decreases model.textures.len(),
{
    let i = model.victim(cache_id, protected);
    if !model.fits(cache_id, bytes, limit) && 0 <= i < model.textures.len() {
        removing_keeps_accounts_exact(model, i, true);
        trimming_keeps_accounts_exact(model.without(i, true), cache_id, bytes, limit, protected);
    }
}

/// Trimming removes nothing but tiles of its cache that are not protected: every
/// other tile is still there as it was, and no tile is new.
pub proof fn trimming_spares_protected_tiles(
    model: ResidencyModel,
    cache_id: u64,
    bytes: int,
    limit: usize,
    protected: Seq<CachedRasterTextureKey>,
    texture: CachedRasterTexture,
)
    ensures
        ({
            let after = model.trimmed(cache_id, bytes, limit, protected);
            &&& after.textures.contains(texture) ==> model.textures.contains(texture)
            &&& model.textures.contains(texture) && !evictable(texture, cache_id, protected)
                ==> after.textures.contains(texture)
        }),
    decreases model.textures.len(),
{
    let i = model.victim(cache_id, protected);
    if !model.fits(cache_id, bytes, limit) && 0 <= i < model.textures.len() {
        let next = model.without(i, true);
        trimming_spares_protected_tiles(next, cache_id, bytes, limit, protected, texture);
        oldest_is_evictable(model.textures, cache_id, protected, model.textures.len() as int);
        if next.textures.contains(texture) {
            let k = choose|k: int| 0 <= k < next.textures.len() && next.textures[k] == texture;
            if k < i {
                assert(model.textures[k] == texture);
            } else {
                assert(model.textures[k + 1] == texture);
            }
        }
        if model.textures.contains(texture) && !evictable(texture, cache_id, protected) {
            let k = choose|k: int| 0 <= k < model.textures.len() && model.textures[k] == texture;
            if k < i {
                assert(next.textures[k] == texture);
            } else {
                assert(k > i);
                assert(next.textures[k - 1] == texture);
            }
        }
    }
}

/// Trimming goes by age: a tile that was removed was used no later than any that
/// might have been removed and stayed.
pub proof fn trimming_takes_the_oldest(
    model: ResidencyModel,
    cache_id: u64,
    bytes: int,
    limit: usize,
    protected: Seq<CachedRasterTextureKey>,
    gone: CachedRasterTexture,
    kept: CachedRasterTexture,
)
    requires
        model.textures.contains(gone),
        !model.trimmed(cache_id, bytes, limit, protected).textures.contains(gone),
        model.trimmed(cache_id, bytes, limit, protected).textures.contains(kept),
        evictable(kept, cache_id, protected),
    ensures
        gone.last_used_frame <= kept.last_used_frame,
    decreases model.textures.len(),
{
    let i = model.victim(cache_id, protected);
    if !model.fits(cache_id, bytes, limit) && 0 <= i < model.textures.len() {
        let next = model.without(i, true);
        oldest_is_evictable(model.textures, cache_id, protected, model.textures.len() as int);
        trimming_spares_protected_tiles(model, cache_id, bytes, limit, protected, kept);
        let at = choose|at: int| 0 <= at < model.textures.len() && model.textures[at] == kept;
        assert(evictable(model.textures[at], cache_id, protected));
        let k = choose|k: int| 0 <= k < model.textures.len() && model.textures[k] == gone;
        if k != i {
            if k < i {
                assert(next.textures[k] == gone);
            } else {
                assert(next.textures[k - 1] == gone);
            }
            trimming_takes_the_oldest(next, cache_id, bytes, limit, protected, gone, kept);
        }
    }
}

/// Trimming goes as far as it has to: afterwards the cache is within the limit, or
/// every tile that it has left is protected.
pub proof fn trimming_reaches_the_limit(
    model: ResidencyModel,
    cache_id: u64,
    bytes: int,
    limit: usize,
    protected: Seq<CachedRasterTextureKey>,
)
    ensures
        ({
            let after = model.trimmed(cache_id, bytes, limit, protected);
            ||| after.fits(cache_id, bytes, limit)
            ||| forall|i: int|
                0 <= i < after.textures.len() ==> !evictable(
                    #[trigger] after.textures[i],
                    cache_id,
                    protected,
                )
        }),
    decreases model.textures.len(),
{
    if !model.fits(cache_id, bytes, limit) {
        let i = model.victim(cache_id, protected);
        oldest_is_evictable(model.textures, cache_id, protected, model.textures.len() as int);
        if i >= 0 {
            trimming_reaches_the_limit(model.without(i, true), cache_id, bytes, limit, protected);
        }
    }
}

/// Trimming a cache leaves the accounts of all other caches as they are.
pub proof fn trimming_leaves_other_caches_alone(
    model: ResidencyModel,
    cache_id: u64,
    bytes: int,
    limit: usize,
    protected: Seq<CachedRasterTextureKey>,
    other: u64,
)
    requires
        other != cache_id,
    ensures
        model.trimmed(cache_id, bytes, limit, protected).stats_of(other) == model.stats_of(other),
    decreases model.textures.len(),
{
    let i = model.victim(cache_id, protected);
    if !model.fits(cache_id, bytes, limit) && 0 <= i < model.textures.len() {
        let next = model.without(i, true);
        oldest_is_evictable(model.textures, cache_id, protected, model.textures.len() as int);
        account_of_finds(model.namespaces, cache_id);
        account_of_finds(model.namespaces, other);
        same_caches_same_places(model.namespaces, next.namespaces, other);
        trimming_leaves_other_caches_alone(next, cache_id, bytes, limit, protected, other);
    }
}

proof fn same_tiles_same_account(
    a: Seq<CachedRasterTexture>,
    b: Seq<CachedRasterTexture>,
    cache_id: u64,
)
    requires
        a.len() == b.len(),
        forall|i: int|
            0 <= i < a.len() ==> (#[trigger] a[i]).key == (#[trigger] b[i]).key && a[i].allocation
                == b[i].allocation && a[i].bytes == b[i].bytes,
    ensures
        tiles_of(a, cache_id) == tiles_of(b, cache_id),
        bytes_of(a, cache_id) == bytes_of(b, cache_id),
    decreases a.len(),
{
    if a.len() > 0 {
        let x = a.drop_last();
        let y = b.drop_last();
        assert(a[a.len() - 1].key == b[b.len() - 1].key);
        assert forall|i: int| 0 <= i < x.len() implies (#[trigger] x[i]).key == (
        #[trigger] y[i]).key && x[i].allocation == y[i].allocation && x[i].bytes == y[i].bytes by {
            assert(a[i].key == b[i].key);
        }
        same_tiles_same_account(x, y, cache_id);
        let allocation = a.last().allocation;
        if in_use(x, allocation) {
            let k = choose|k: int|
                0 <= k < x.len() && (#[trigger] x[k]).allocation == allocation;
            assert(y[k].allocation == allocation);
        }
        if in_use(y, allocation) {
            let k = choose|k: int|
                0 <= k < y.len() && (#[trigger] y[k]).allocation == allocation;
            assert(x[k].allocation == allocation);
        }
    }
}

/// Using a tile keeps the accounts exact.
pub proof fn using_keeps_accounts_exact(model: ResidencyModel, i: int)
    requires
        exact(model),
        0 <= i < model.textures.len(),
    ensures
        exact(model.touched(i)),
{
    let after = model.touched(i);
    assert forall|a: int, b: int| 0 <= a < b < after.textures.len() implies (
    #[trigger] after.textures[a]).key != (#[trigger] after.textures[b]).key by {
        assert(model.textures[a].key != model.textures[b].key);
    }
    assert forall|a: int, b: int|
        0 <= a < after.textures.len() && 0 <= b < after.textures.len() && (
        #[trigger] after.textures[a]).allocation == (
        #[trigger] after.textures[b]).allocation implies {
        &&& after.textures[a].bytes == after.textures[b].bytes
        &&& after.textures[a].key.cache_id == after.textures[b].key.cache_id
    } by {
        assert(model.textures[a].allocation == model.textures[b].allocation);
    }
    assert forall|k: int| 0 <= k < after.textures.len() implies account_of(
        after.namespaces,
        (#[trigger] after.textures[k]).key.cache_id,
    ) >= 0 && after.textures[k].allocation < after.next_allocation by {
        assert(account_of(model.namespaces, model.textures[k].key.cache_id) >= 0);
    }
    assert forall|k: int| 0 <= k < after.namespaces.len() implies account_exact(
        #[trigger] after.namespaces[k],
        after.textures,
    ) by {
        assert(account_exact(model.namespaces[k], model.textures));
        same_tiles_same_account(model.textures, after.textures, model.namespaces[k].cache_id);
    }
}

proof fn removed_is_gone(model: ResidencyModel, key: CachedRasterTextureKey)
    requires
        exact(model),
    ensures
        exact(model.removed(key, false)),
        index_of(model.removed(key, false).textures, key) < 0,
        forall|other: CachedRasterTextureKey|
            index_of(model.textures, other) < 0 ==> #[trigger] index_of(
                model.removed(key, false).textures,
                other,
            ) < 0,
        model.removed(key, false).textures.len() <= model.textures.len(),
{
    index_of_finds(model.textures, key);
    let i = index_of(model.textures, key);
    let after = model.removed(key, false);
    if i >= 0 {
        removing_keeps_accounts_exact(model, i, false);
        index_of_finds(after.textures, key);
        let k = index_of(after.textures, key);
        if k >= 0 {
            let x = if k < i {
                k
            } else {
                k + 1
            };
            assert(after.textures[k] == model.textures[x]);
            if x < i {
                assert(model.textures[x].key != model.textures[i].key);
            } else {
                assert(model.textures[i].key != model.textures[x].key);
            }
        }
    }
    assert forall|other: CachedRasterTextureKey| index_of(model.textures, other) < 0 implies
        #[trigger] index_of(after.textures, other) < 0 by {
        index_of_finds(model.textures, other);
        index_of_finds(after.textures, other);
        let k = index_of(after.textures, other);
        if k >= 0 && i >= 0 {
            let x = if k < i {
                k
            } else {
                k + 1
            };
            assert(after.textures[k] == model.textures[x]);
        }
    }
}

proof fn trimmed_stays_gone(
    model: ResidencyModel,
    cache_id: u64,
    bytes: int,
    limit: usize,
    protected: Seq<CachedRasterTextureKey>,
    key: CachedRasterTextureKey,
)
    requires
        index_of(model.textures, key) < 0,
    ensures
        index_of(model.trimmed(cache_id, bytes, limit, protected).textures, key) < 0,
{
    let after = model.trimmed(cache_id, bytes, limit, protected);
    index_of_finds(model.textures, key);
    index_of_finds(after.textures, key);
    let k = index_of(after.textures, key);
    if k >= 0 {
        let texture = after.textures[k];
        assert(after.textures.contains(texture));
        trimming_spares_protected_tiles(model, cache_id, bytes, limit, protected, texture);
        let x = choose|x: int| 0 <= x < model.textures.len() && model.textures[x] == texture;
        assert(model.textures[x].key == key);
    }
}

proof fn trimmed_is_no_longer(
    model: ResidencyModel,
    cache_id: u64,
    bytes: int,
    limit: usize,
    protected: Seq<CachedRasterTextureKey>,
)
    ensures
        model.trimmed(cache_id, bytes, limit, protected).textures.len() <= model.textures.len(),
        model.trimmed(cache_id, bytes, limit, protected).next_allocation == model.next_allocation,
    decreases model.textures.len(),
{
    let i = model.victim(cache_id, protected);
    if !model.fits(cache_id, bytes, limit) && 0 <= i < model.textures.len() {
        trimmed_is_no_longer(model.without(i, true), cache_id, bytes, limit, protected);
    }
}

/// What holds of the accounts while the tiles of a new allocation are put in and
/// not charged yet.
spec fn put_in(
    room: ResidencyModel,
    textures: Seq<CachedRasterTexture>,
    cache_id: u64,
    bytes: int,
    tiles: int,
) -> bool {
    &&& keys_distinct(textures)
    &&& uniform(textures)
    &&& textures.len() == room.textures.len() + tiles
    &&& forall|i: int|
        0 <= i < textures.len() ==> (#[trigger] textures[i]).allocation <= room.next_allocation
    &&& forall|i: int|
        0 <= i < textures.len() && (#[trigger] textures[i]).allocation == room.next_allocation
            ==> textures[i].bytes as int == bytes && textures[i].key.cache_id == cache_id
    &&& in_use(textures, room.next_allocation) == (tiles > 0)
    &&& forall|i: int|
        0 <= i < textures.len() ==> (#[trigger] textures[i]).key.cache_id == cache_id
            || account_of(room.namespaces, textures[i].key.cache_id) >= 0
    &&& forall|other: u64|
        #![trigger tiles_of(textures, other)]
        #![trigger bytes_of(textures, other)]
        other != cache_id ==> tiles_of(textures, other) == tiles_of(room.textures, other)
            && bytes_of(textures, other) == bytes_of(room.textures, other)
    &&& tiles_of(textures, cache_id) == tiles_of(room.textures, cache_id) + tiles
    &&& bytes_of(textures, cache_id) == bytes_of(room.textures, cache_id) + if tiles > 0 {
        bytes
    } else {
        0
    }
}

proof fn nothing_put_in(room: ResidencyModel, cache_id: u64, bytes: int)
    requires
        exact(room),
    ensures
        put_in(room, room.textures, cache_id, bytes, 0),
{
    if in_use(room.textures, room.next_allocation) {
        let k = choose|k: int|
            0 <= k < room.textures.len() && (#[trigger] room.textures[k]).allocation
                == room.next_allocation;
        assert(room.textures[k].allocation < room.next_allocation);
    }
}

proof fn one_put_in(
    room: ResidencyModel,
    textures: Seq<CachedRasterTexture>,
    cache_id: u64,
    bytes: int,
    tiles: int,
    texture: CachedRasterTexture,
)
    requires
        put_in(room, textures, cache_id, bytes, tiles),
        tiles >= 0,
        texture.key.cache_id == cache_id,
        texture.allocation == room.next_allocation,
        texture.bytes as int == bytes,
        index_of(textures, texture.key) < 0,
    ensures
        put(textures, texture) == textures.push(texture),
        put_in(room, textures.push(texture), cache_id, bytes, tiles + 1),
{
    let after = textures.push(texture);
    index_of_finds(textures, texture.key);
    assert(after.drop_last() =~= textures);
    assert(after.last() == texture);
    assert forall|a: int, b: int| 0 <= a < b < after.len() implies (#[trigger] after[a]).key != (
    #[trigger] after[b]).key by {
        if b < textures.len() {
            assert(textures[a].key != textures[b].key);
        } else {
            assert(textures[a].key != texture.key);
        }
    }
    assert forall|a: int, b: int|
        0 <= a < after.len() && 0 <= b < after.len() && (#[trigger] after[a]).allocation == (
        #[trigger] after[b]).allocation implies {
        &&& after[a].bytes == after[b].bytes
        &&& after[a].key.cache_id == after[b].key.cache_id
    } by {
        if a < textures.len() && b < textures.len() {
            assert(textures[a].allocation == textures[b].allocation);
        } else if a < textures.len() {
            assert(textures[a].allocation == room.next_allocation);
        } else if b < textures.len() {
            assert(textures[b].allocation == room.next_allocation);
        }
    }
    assert forall|i: int| 0 <= i < after.len() implies (#[trigger] after[i]).allocation
        <= room.next_allocation by {
        if i < textures.len() {
            assert(textures[i].allocation <= room.next_allocation);
        }
    }
    assert forall|i: int|
        0 <= i < after.len() && (#[trigger] after[i]).allocation
            == room.next_allocation implies after[i].bytes as int == bytes
        && after[i].key.cache_id == cache_id by {
        if i < textures.len() {
            assert(textures[i].allocation == room.next_allocation);
        }
    }
    assert forall|i: int| 0 <= i < after.len() implies (#[trigger] after[i]).key.cache_id
        == cache_id || account_of(room.namespaces, after[i].key.cache_id) >= 0 by {
        if i < textures.len() {
            assert(textures[i].key.cache_id == cache_id || account_of(
                room.namespaces,
                textures[i].key.cache_id,
            ) >= 0);
        }
    }
    in_use_after_push(textures, texture, room.next_allocation);
    assert forall|other: u64| other != cache_id implies #[trigger] tiles_of(after, other)
        == tiles_of(room.textures, other) && bytes_of(after, other) == bytes_of(
        room.textures,
        other,
    ) by {
        assert(tiles_of(textures, other) == tiles_of(room.textures, other));
    }
    assert forall|other: u64| other != cache_id implies tiles_of(after, other) == tiles_of(
        room.textures,
        other,
    ) && #[trigger] bytes_of(after, other) == bytes_of(room.textures, other) by {
        assert(tiles_of(textures, other) == tiles_of(room.textures, other));
    }
}

proof fn charging_makes_accounts_exact(
    room: ResidencyModel,
    after: ResidencyModel,
    cache_id: u64,
    bytes: int,
    tiles: int,
    limit: usize,
)
    requires
        exact(room),
        put_in(room, after.textures, cache_id, bytes, tiles),
        tiles > 0,
        bytes >= 0,
        room.fits(cache_id, bytes, limit),
        room.next_allocation < u64::MAX,
        room.textures.len() + tiles <= usize::MAX,
        after == (ResidencyModel {
            textures: after.textures,
            namespaces: room.accounts_with(cache_id, bytes, tiles),
            next_account: room.next_account_with(cache_id),
            next_allocation: (room.next_allocation + 1) as u64,
            ..room
        }),
    ensures
        exact(after),
        after.resident_bytes(cache_id) == room.resident_bytes(cache_id) + bytes,
        account_of(after.namespaces, cache_id) >= 0,
{
    let i = account_of(room.namespaces, cache_id);
    account_of_finds(room.namespaces, cache_id);
    let at = if i < 0 {
        room.namespaces.len() as int
    } else {
        i
    };
    let opened = if i < 0 {
        room.namespaces.push(RasterNamespace::spec_new(cache_id, room.next_account))
    } else {
        room.namespaces
    };
    tiles_counted(room.textures, cache_id);
    if i < 0 {
        assert forall|k: int| 0 <= k < room.textures.len() implies (
        #[trigger] room.textures[k]).key.cache_id != cache_id by {
            assert(account_of(room.namespaces, room.textures[k].key.cache_id) >= 0);
        }
    } else {
        assert(account_exact(room.namespaces[i], room.textures));
    }
    assert(account_exact(opened[at], room.textures)) by {
        tiles_counted(room.textures, cache_id);
    }
    assert(after.namespaces == opened.update(at, after.namespaces[at]));
    assert(after.namespaces[at].cache_id == cache_id);
    assert forall|a: int, b: int| 0 <= a < b < after.namespaces.len() implies (
    #[trigger] after.namespaces[a]).cache_id != (#[trigger] after.namespaces[b]).cache_id by {
        if b < room.namespaces.len() {
            assert(room.namespaces[a].cache_id != room.namespaces[b].cache_id);
        } else {
            assert(room.namespaces[a].cache_id != cache_id);
        }
    }
    account_of_finds(after.namespaces, cache_id);
    let found = account_of(after.namespaces, cache_id);
    assert(found == at) by {
        if found < 0 {
            assert(after.namespaces[at].cache_id != cache_id);
        } else if found < at {
            assert(after.namespaces[found].cache_id != after.namespaces[at].cache_id);
        } else if found > at {
            assert(after.namespaces[at].cache_id != after.namespaces[found].cache_id);
        }
    }
    assert forall|k: int| 0 <= k < after.textures.len() implies account_of(
        after.namespaces,
        (#[trigger] after.textures[k]).key.cache_id,
    ) >= 0 && after.textures[k].allocation < after.next_allocation by {
        let owner = after.textures[k].key.cache_id;
        if owner != cache_id {
            let x = account_of(room.namespaces, owner);
            account_of_finds(room.namespaces, owner);
            account_of_finds(after.namespaces, owner);
            assert(after.namespaces[x].cache_id == owner);
        }
    }
    assert forall|k: int| 0 <= k < after.namespaces.len() implies account_exact(
        #[trigger] after.namespaces[k],
        after.textures,
    ) by {
        if k != at {
            assert(after.namespaces[k] == room.namespaces[k]);
            assert(account_exact(room.namespaces[k], room.textures));
            let other = room.namespaces[k].cache_id;
            if k < at {
                assert(after.namespaces[k].cache_id != after.namespaces[at].cache_id);
            } else {
                assert(after.namespaces[at].cache_id != after.namespaces[k].cache_id);
            }
            assert(tiles_of(after.textures, other) == tiles_of(room.textures, other));
        }
    }
}

/// Preparing a texture for a tile keeps the accounts exact and the cache within
/// its hard limit.
pub proof fn preparing_keeps_accounts_exact(
    model: ResidencyModel,
    cache: RasterCacheIdentity,
    key: CachedRasterTextureKey,
    size: DeviceSize,
    gutter: i32,
    protected: Seq<CachedRasterTextureKey>,
)
    requires
        exact(model),
        key.cache_id == cache.id,
        model.next_allocation < u64::MAX,
        model.textures.len() < usize::MAX,
    ensures
        ({
            let (after, texture) = model.prepared(cache, key, size, gutter, protected);
            &&& exact(after)
            &&& texture is Some && texture->0.fresh ==> after.resident_bytes(cache.id)
                <= cache.config.hard()
        }),
{
    let (after, texture) = model.prepared(cache, key, size, gutter, protected);
    let hard = cache.config.hard();
    let bytes = texture_bytes(size);
    index_of_finds(model.textures, key);
    if allocatable(size, hard) {
        if model.has_sized(key, size) {
            using_keeps_accounts_exact(model, index_of(model.textures, key));
        } else {
            let cleared = model.removed(key, false);
            removed_is_gone(model, key);
            trimming_keeps_accounts_exact(cleared, cache.id, bytes, hard, protected);
            trimmed_stays_gone(cleared, cache.id, bytes, hard, protected, key);
            trimmed_is_no_longer(cleared, cache.id, bytes, hard, protected);
            let room = model.room_made(cache, key, size, protected);
            if room.fits(cache.id, bytes, hard) {
                nothing_put_in(room, cache.id, bytes);
                let made = CachedRasterTexture {
                    key,
                    allocation: room.next_allocation,
                    bytes: bytes as usize,
                    source_x: 0,
                    source_y: 0,
                    source_size: size,
                    gutter: crate::residency::side(gutter) as u32,
                    last_used_frame: room.frame_index,
                };
                bytes_are_counted(size);
                one_put_in(room, room.textures, cache.id, bytes, 0, made);
                charging_makes_accounts_exact(room, after, cache.id, bytes, 1, hard);
            }
        }
    }
}

proof fn bytes_are_counted(size: DeviceSize)
    ensures
        texture_bytes(size) >= 0,
{
    let width = crate::residency::side(size.width);
    let height = crate::residency::side(size.height);
    assert(width * height >= 0) by (nonlinear_arith)
        requires
            width >= 0,
            height >= 0,
    ;
}

/// No tile is a target twice.
pub open spec fn targets_distinct(targets: Seq<PlacedTarget>) -> bool {
    forall|i: int, j: int|
        0 <= i < j < targets.len() ==> target_key(0, #[trigger] targets[i]) != target_key(
            0,
            #[trigger] targets[j],
        )
}

proof fn scanning_keeps_accounts_exact(
    model: ResidencyModel,
    cache: RasterCacheIdentity,
    tile_size: DeviceSize,
    gutter: i32,
    targets: Seq<PlacedTarget>,
    texture_size: DeviceSize,
)
    requires
        exact(model),
        targets_distinct(targets),
    ensures
        ({
            let scan = model.scanned(cache, tile_size, gutter, targets, texture_size);
            &&& exact(scan.model)
            &&& scan.model.next_allocation == model.next_allocation
            &&& scan.model.textures.len() <= model.textures.len()
            &&& scan.entries.len() <= targets.len()
            &&& forall|k: int|
                0 <= k < scan.entries.len() ==> targets.contains(#[trigger] scan.entries[k])
            &&& targets_distinct(scan.entries)
            &&& forall|k: int|
                0 <= k < scan.entries.len() ==> index_of(
                    scan.model.textures,
                    target_key(cache.id, #[trigger] scan.entries[k]),
                ) < 0
        }),
    decreases targets.len(),
{
    if targets.len() > 0 {
        let rest = targets.drop_last();
        let target = targets.last();
        let key = target_key(cache.id, target);
        assert forall|i: int, j: int| 0 <= i < j < rest.len() implies target_key(
            0,
            #[trigger] rest[i],
        ) != target_key(0, #[trigger] rest[j]) by {
            assert(target_key(0, targets[i]) != target_key(0, targets[j]));
        }
        scanning_keeps_accounts_exact(model, cache, tile_size, gutter, rest, texture_size);
        let scan = model.scanned(cache, tile_size, gutter, rest, texture_size);
        let after = model.scanned(cache, tile_size, gutter, targets, texture_size);
        assert forall|k: int| 0 <= k < scan.entries.len() implies targets.contains(
            #[trigger] scan.entries[k],
        ) && target_key(cache.id, scan.entries[k]) != key && target_key(0, scan.entries[k])
            != target_key(0, target) by {
            assert(rest.contains(scan.entries[k]));
            let x = choose|x: int| 0 <= x < rest.len() && rest[x] == scan.entries[k];
            assert(targets[x] == scan.entries[k]);
            assert(target_key(0, targets[x]) != target_key(0, targets[targets.len() - 1]));
        }
        index_of_finds(scan.model.textures, key);
        if scan.misplaced || misplaced(target, tile_size, texture_size) {
        } else if scan.model.has_ready(key, tile_size, gutter) {
            let at = index_of(scan.model.textures, key);
            using_keeps_accounts_exact(scan.model, at);
            assert forall|k: int| 0 <= k < after.entries.len() implies index_of(
                after.model.textures,
                target_key(cache.id, #[trigger] after.entries[k]),
            ) < 0 by {
                same_keys_same_places(
                    scan.model.textures,
                    after.model.textures,
                    target_key(cache.id, scan.entries[k]),
                );
            }
        } else {
            removed_is_gone(scan.model, key);
            assert(targets.contains(target)) by {
                assert(targets[targets.len() - 1] == target);
            }
            assert forall|k: int| 0 <= k < after.entries.len() implies index_of(
                after.model.textures,
                target_key(cache.id, #[trigger] after.entries[k]),
            ) < 0 by {
                if k < scan.entries.len() {
                    assert(after.entries[k] == scan.entries[k]);
                    assert(index_of(
                        scan.model.textures,
                        target_key(cache.id, scan.entries[k]),
                    ) < 0);
                }
            }
            assert forall|k: int| 0 <= k < after.entries.len() implies targets.contains(
                #[trigger] after.entries[k],
            ) by {
                if k < scan.entries.len() {
                    assert(after.entries[k] == scan.entries[k]);
                }
            }
            assert forall|i: int, j: int| 0 <= i < j < after.entries.len() implies target_key(
                0,
                #[trigger] after.entries[i],
            ) != target_key(0, #[trigger] after.entries[j]) by {
                assert(after.entries[i] == scan.entries[i]);
                if j < scan.entries.len() {
                    assert(after.entries[j] == scan.entries[j]);
                }
            }
        }
    }
}

proof fn same_keys_same_places(
    a: Seq<CachedRasterTexture>,
    b: Seq<CachedRasterTexture>,
    key: CachedRasterTextureKey,
)
    requires
        a.len() == b.len(),
        forall|i: int| 0 <= i < a.len() ==> (#[trigger] a[i]).key == (#[trigger] b[i]).key,
    ensures
        index_of(a, key) == index_of(b, key),
    decreases a.len(),
{
    if a.len() > 0 {
        assert(a[a.len() - 1].key == b[b.len() - 1].key);
        assert forall|i: int| 0 <= i < a.drop_last().len() implies (
        #[trigger] a.drop_last()[i]).key == (#[trigger] b.drop_last()[i]).key by {
            assert(a[i].key == b[i].key);
        }
        same_keys_same_places(a.drop_last(), b.drop_last(), key);
    }
}

proof fn all_put_in(
    room: ResidencyModel,
    cache_id: u64,
    tile_size: DeviceSize,
    gutter: i32,
    bytes: usize,
    entries: Seq<PlacedTarget>,
)
    requires
        exact(room),
        targets_distinct(entries),
        forall|k: int|
            0 <= k < entries.len() ==> index_of(
                room.textures,
                target_key(cache_id, #[trigger] entries[k]),
            ) < 0,
    ensures
        ({
            let textures = all_put(room, cache_id, tile_size, gutter, bytes, entries);
            &&& put_in(room, textures, cache_id, bytes as int, entries.len() as int)
            &&& forall|key: CachedRasterTextureKey|
                index_of(room.textures, key) < 0 && (forall|k: int|
                    0 <= k < entries.len() ==> target_key(cache_id, #[trigger] entries[k])
                        != key) ==> #[trigger] index_of(textures, key) < 0
            &&& forall|k: int|
                0 <= k < entries.len() ==> index_of(
                    textures,
                    target_key(cache_id, #[trigger] entries[k]),
                ) >= 0
        }),
    decreases entries.len(),
{
    if entries.len() == 0 {
        nothing_put_in(room, cache_id, bytes as int);
    } else {
        let rest = entries.drop_last();
        let target = entries.last();
        let key = target_key(cache_id, target);
        assert forall|i: int, j: int| 0 <= i < j < rest.len() implies target_key(
            0,
            #[trigger] rest[i],
        ) != target_key(0, #[trigger] rest[j]) by {
            assert(target_key(0, entries[i]) != target_key(0, entries[j]));
        }
        assert forall|k: int| 0 <= k < rest.len() implies index_of(
            room.textures,
            target_key(cache_id, #[trigger] rest[k]),
        ) < 0 by {
            assert(entries[k] == rest[k]);
        }
        all_put_in(room, cache_id, tile_size, gutter, bytes, rest);
        let before = all_put(room, cache_id, tile_size, gutter, bytes, rest);
        let textures = all_put(room, cache_id, tile_size, gutter, bytes, entries);
        assert(entries[entries.len() - 1] == target);
        assert forall|k: int| 0 <= k < rest.len() implies target_key(
            cache_id,
            #[trigger] rest[k],
        ) != key by {
            assert(target_key(0, entries[k]) != target_key(0, entries[entries.len() - 1]));
        }
        assert(index_of(before, key) < 0);
        let texture = target_texture(room, cache_id, tile_size, gutter, bytes, target);
        one_put_in(room, before, cache_id, bytes as int, rest.len() as int, texture);
        assert(textures.drop_last() =~= before);
        assert forall|other: CachedRasterTextureKey|
            index_of(room.textures, other) < 0 && (forall|k: int|
                0 <= k < entries.len() ==> target_key(cache_id, #[trigger] entries[k])
                    != other) implies #[trigger] index_of(textures, other) < 0 by {
            assert(target_key(cache_id, entries[entries.len() - 1]) != other);
            assert forall|k: int| 0 <= k < rest.len() implies target_key(
                cache_id,
                #[trigger] rest[k],
            ) != other by {
                assert(target_key(cache_id, entries[k]) != other);
            }
            assert(index_of(before, other) < 0);
        }
        assert forall|k: int| 0 <= k < entries.len() implies index_of(
            textures,
            target_key(cache_id, #[trigger] entries[k]),
        ) >= 0 by {
            if k < rest.len() {
                assert(rest[k] == entries[k]);
                assert(index_of(before, target_key(cache_id, rest[k])) >= 0);
            }
        }
    }
}

/// Preparing a texture for a batch of different tiles keeps the accounts exact and
/// the cache within its hard limit.
pub proof fn batch_preparing_keeps_accounts_exact(
    model: ResidencyModel,
    cache: RasterCacheIdentity,
    tile_size: DeviceSize,
    gutter: i32,
    targets: Seq<PlacedTarget>,
    texture_size: DeviceSize,
    protected: Seq<CachedRasterTextureKey>,
)
    requires
        exact(model),
        targets_distinct(targets),
        model.next_allocation < u64::MAX,
        model.textures.len() + targets.len() <= usize::MAX,
    ensures
        ({
            let (after, prepared) = model.batch_prepared(
                cache,
                tile_size,
                gutter,
                targets,
                texture_size,
                protected,
            );
            &&& exact(after)
            &&& prepared matches Some(PreparedRasterBatchTexture::Allocated(_))
                ==> after.resident_bytes(cache.id) <= cache.config.hard()
        }),
{
    let hard = cache.config.hard();
    let bytes = texture_bytes(texture_size);
    let (after, prepared) = model.batch_prepared(
        cache,
        tile_size,
        gutter,
        targets,
        texture_size,
        protected,
    );
    if allocatable(texture_size, hard) {
        scanning_keeps_accounts_exact(model, cache, tile_size, gutter, targets, texture_size);
        let scan = model.scanned(cache, tile_size, gutter, targets, texture_size);
        if !scan.misplaced && scan.entries.len() > 0 {
            trimming_keeps_accounts_exact(scan.model, cache.id, bytes, hard, protected);
            trimmed_is_no_longer(scan.model, cache.id, bytes, hard, protected);
            let room = scan.model.trimmed(cache.id, bytes, hard, protected);
            if room.fits(cache.id, bytes, hard) {
                assert forall|k: int| 0 <= k < scan.entries.len() implies index_of(
                    room.textures,
                    target_key(cache.id, #[trigger] scan.entries[k]),
                ) < 0 by {
                    trimmed_stays_gone(
                        scan.model,
                        cache.id,
                        bytes,
                        hard,
                        protected,
                        target_key(cache.id, scan.entries[k]),
                    );
                }
                bytes_are_counted(texture_size);
                all_put_in(room, cache.id, tile_size, gutter, bytes as usize, scan.entries);
                charging_makes_accounts_exact(
                    room,
                    after,
                    cache.id,
                    bytes,
                    scan.entries.len() as int,
                    hard,
                );
            }
        }
    }
}

/// A tile for which a texture was prepared is found by the next lookup.
pub proof fn prepared_tiles_are_found(
    model: ResidencyModel,
    cache: RasterCacheIdentity,
    tile_key: RasterTileKey,
    revision: RasterTileRevision,
    size: DeviceSize,
    gutter: i32,
    protected: Seq<CachedRasterTextureKey>,
)
    ensures
        ({
            let key = CachedRasterTextureKey {
                cache_id: cache.id,
                tile_key: tile_key.number,
                revision: revision.number,
            };
            let (after, texture) = model.prepared(cache, key, size, gutter, protected);
            texture is Some ==> after.lookup(cache, tile_key, revision).1 is Hit
        }),
{
    let key = CachedRasterTextureKey {
        cache_id: cache.id,
        tile_key: tile_key.number,
        revision: revision.number,
    };
    let (after, texture) = model.prepared(cache, key, size, gutter, protected);
    index_of_finds(model.textures, key);
    index_of_finds(after.textures, key);
    if texture is Some {
        if model.has_sized(key, size) {
            assert(after.textures[index_of(model.textures, key)].key == key);
        } else {
            let room = model.room_made(cache, key, size, protected);
            index_of_finds(room.textures, key);
            let at = if index_of(room.textures, key) < 0 {
                room.textures.len() as int
            } else {
                index_of(room.textures, key)
            };
            assert(after.textures[at].key == key);
        }
    }
}

/// Another revision of a tile is another tile: preparing one neither replaces nor
/// removes the other, as long as that one is protected.
pub proof fn revisions_stay_apart(
    model: ResidencyModel,
    cache: RasterCacheIdentity,
    key: CachedRasterTextureKey,
    size: DeviceSize,
    gutter: i32,
    protected: Seq<CachedRasterTextureKey>,
    other: CachedRasterTexture,
)
    requires
        model.textures.contains(other),
        other.key != key,
        protected.contains(other.key),
    ensures
        model.prepared(cache, key, size, gutter, protected).0.textures.contains(other),
{
    let (after, texture) = model.prepared(cache, key, size, gutter, protected);
    index_of_finds(model.textures, key);
    let k = choose|k: int| 0 <= k < model.textures.len() && model.textures[k] == other;
    if allocatable(size, cache.config.hard()) {
        if model.has_sized(key, size) {
            assert(after.textures[k] == other);
        } else {
            let cleared = model.removed(key, false);
            let i = index_of(model.textures, key);
            assert(cleared.textures.contains(other)) by {
                if i < 0 || k < i {
                    assert(cleared.textures[k] == other);
                } else {
                    assert(cleared.textures[k - 1] == other);
                }
            }
            trimming_spares_protected_tiles(
                cleared,
                cache.id,
                texture_bytes(size),
                cache.config.hard(),
                protected,
                other,
            );
            let room = model.room_made(cache, key, size, protected);
            let x = choose|x: int| 0 <= x < room.textures.len() && room.textures[x] == other;
            index_of_finds(room.textures, key);
            if room.fits(cache.id, texture_bytes(size), cache.config.hard()) {
                assert(after.textures[x] == other);
            }
        }
    }
}

/// What a filter keeps comes from the items filtered.
pub proof fn filtered_comes_from<T>(items: Seq<T>, keeps: spec_fn(T) -> bool, k: int) -> (i: int)
    requires
        0 <= k < items.filter(keeps).len(),
    ensures
        0 <= i < items.len(),
        items[i] == items.filter(keeps)[k],
        keeps(items[i]),
    decreases items.len(),
{
    reveal(Seq::filter);
    let rest = items.drop_last();
    if keeps(items.last()) && k == rest.filter(keeps).len() {
        items.len() - 1
    } else {
        filtered_comes_from(rest, keeps, k)
    }
}

/// A cache that was given up is gone: none of its tiles is found, and its counters
/// are back at zero.
pub proof fn a_released_cache_is_gone(
    model: ResidencyModel,
    kept: spec_fn(u64) -> bool,
    cache: RasterCacheIdentity,
    tile_key: RasterTileKey,
    revision: RasterTileRevision,
)
    requires
        !kept(cache.id),
    ensures
        model.keeping(kept).lookup(cache, tile_key, revision).1 is Miss,
        model.keeping(kept).stats_of(cache.id) == RasterCacheStats::zero(),
        model.keeping(kept).resident_bytes(cache.id) == 0,
{
    let after = model.keeping(kept);
    let key = CachedRasterTextureKey {
        cache_id: cache.id,
        tile_key: tile_key.number,
        revision: revision.number,
    };
    index_of_finds(after.textures, key);
    account_of_finds(after.namespaces, cache.id);
    if index_of(after.textures, key) >= 0 {
        let i = filtered_comes_from(
            model.textures,
            |texture: CachedRasterTexture| kept(texture.key.cache_id),
            index_of(after.textures, key),
        );
    }
    if account_of(after.namespaces, cache.id) >= 0 {
        let i = filtered_comes_from(
            model.namespaces,
            |namespace: RasterNamespace| kept(namespace.cache_id),
            account_of(after.namespaces, cache.id),
        );
    }
}

proof fn held_tile_is_found(
    textures: Seq<CachedRasterTexture>,
    kept: spec_fn(u64) -> bool,
    key: CachedRasterTextureKey,
)
    requires
        kept(key.cache_id),
    ensures
        ({
            let filtered = textures.filter(
                |texture: CachedRasterTexture| kept(texture.key.cache_id),
            );
            let i = index_of(textures, key);
            let k = index_of(filtered, key);
            &&& i >= 0 <==> k >= 0
            &&& i >= 0 ==> i < textures.len() && k < filtered.len() && filtered[k] == textures[i]
        }),
    decreases textures.len(),
{
    reveal(Seq::filter);
    let keeps = |texture: CachedRasterTexture| kept(texture.key.cache_id);
    if textures.len() > 0 {
        let rest = textures.drop_last();
        held_tile_is_found(rest, kept, key);
        if keeps(textures.last()) {
            assert(textures.filter(keeps).drop_last() =~= rest.filter(keeps));
        }
    }
}

proof fn held_account_is_found(
    namespaces: Seq<RasterNamespace>,
    kept: spec_fn(u64) -> bool,
    cache_id: u64,
)
    requires
        kept(cache_id),
    ensures
        ({
            let filtered = namespaces.filter(
                |namespace: RasterNamespace| kept(namespace.cache_id),
            );
            let i = account_of(namespaces, cache_id);
            let k = account_of(filtered, cache_id);
            &&& i >= 0 <==> k >= 0
            &&& i >= 0 ==> i < namespaces.len() && k < filtered.len() && filtered[k]
                == namespaces[i]
        }),
    decreases namespaces.len(),
{
    reveal(Seq::filter);
    let keeps = |namespace: RasterNamespace| kept(namespace.cache_id);
    if namespaces.len() > 0 {
        let rest = namespaces.drop_last();
        held_account_is_found(rest, kept, cache_id);
        if keeps(namespaces.last()) {
            assert(namespaces.filter(keeps).drop_last() =~= rest.filter(keeps));
        }
    }
}

/// A cache stays as long as anything holds it: where a lookup has found a tile, or
/// that it is missing, and the handle behind the lookup is given up, the cache is
/// still held by what was found. Giving up the caches that nobody holds then leaves
/// its tiles and its counters alone.
pub proof fn what_is_found_keeps_its_cache(
    model: ResidencyModel,
    handles: Map<u64, u64>,
    cache: RasterCacheIdentity,
    tile_key: RasterTileKey,
    revision: RasterTileRevision,
)
    requires
        handles.contains_key(cache.id),
        0 < handles[cache.id] < u64::MAX,
    ensures
        ({
            let left = one_handle_less(one_more_handle(handles, cache.id), cache.id);
            let after = model.keeping(|id: u64| left.contains_key(id));
            &&& left.contains_key(cache.id)
            &&& after.lookup(cache, tile_key, revision).1 == model.lookup(
                cache,
                tile_key,
                revision,
            ).1
            &&& after.stats_of(cache.id) == model.stats_of(cache.id)
        }),
{
    let left = one_handle_less(one_more_handle(handles, cache.id), cache.id);
    let kept = |id: u64| left.contains_key(id);
    let key = CachedRasterTextureKey {
        cache_id: cache.id,
        tile_key: tile_key.number,
        revision: revision.number,
    };
    held_tile_is_found(model.textures, kept, key);
    held_account_is_found(model.namespaces, kept, cache.id);
}

proof fn filtered_tiles(
    textures: Seq<CachedRasterTexture>,
    kept: spec_fn(u64) -> bool,
    cache_id: u64,
)
    requires
        kept(cache_id),
        uniform(textures),
    ensures
        ({
            let keeps = |texture: CachedRasterTexture| kept(texture.key.cache_id);
            &&& tiles_of(textures.filter(keeps), cache_id) == tiles_of(textures, cache_id)
            &&& bytes_of(textures.filter(keeps), cache_id) == bytes_of(textures, cache_id)
        }),
    decreases textures.len(),
{
    reveal(Seq::filter);
    let keeps = |texture: CachedRasterTexture| kept(texture.key.cache_id);
    if textures.len() > 0 {
        let rest = textures.drop_last();
        let last = textures.last();
        assert(uniform(rest)) by {
            assert forall|a: int, b: int|
                0 <= a < rest.len() && 0 <= b < rest.len() && (#[trigger] rest[a]).allocation == (
                #[trigger] rest[b]).allocation implies {
                &&& rest[a].bytes == rest[b].bytes
                &&& rest[a].key.cache_id == rest[b].key.cache_id
            } by {
                assert(textures[a] == rest[a] && textures[b] == rest[b]);
            }
        }
        filtered_tiles(rest, kept, cache_id);
        if keeps(last) {
            let filtered = textures.filter(keeps);
            assert(filtered == rest.filter(keeps).push(last));
            assert(filtered.drop_last() =~= rest.filter(keeps));
            if last.key.cache_id == cache_id {
                if in_use(rest, last.allocation) {
                    let k = choose|k: int|
                        0 <= k < rest.len() && (#[trigger] rest[k]).allocation == last.allocation;
                    assert(textures[k].allocation == textures[textures.len() - 1].allocation);
                    let x = filtered_holds(rest, keeps, k);
                    assert(rest.filter(keeps)[x].allocation == last.allocation);
                }
                if in_use(rest.filter(keeps), last.allocation) {
                    let x = choose|x: int|
                        0 <= x < rest.filter(keeps).len() && (
                        #[trigger] rest.filter(keeps)[x]).allocation == last.allocation;
                    let k = filtered_comes_from(rest, keeps, x);
                    assert(rest[k].allocation == last.allocation);
                }
            }
        }
    }
}

proof fn filtered_holds<T>(items: Seq<T>, keeps: spec_fn(T) -> bool, i: int) -> (k: int)
    requires
        0 <= i < items.len(),
        keeps(items[i]),
    ensures
        0 <= k < items.filter(keeps).len(),
        items.filter(keeps)[k] == items[i],
    decreases items.len(),
{
    reveal(Seq::filter);
    let rest = items.drop_last();
    if i == items.len() - 1 {
        items.filter(keeps).len() - 1
    } else {
        assert(rest[i] == items[i]);
        filtered_holds(rest, keeps, i)
    }
}

proof fn filtered_keys_distinct(
    textures: Seq<CachedRasterTexture>,
    keeps: spec_fn(CachedRasterTexture) -> bool,
)
    requires
        keys_distinct(textures),
    ensures
        keys_distinct(textures.filter(keeps)),
    decreases textures.len(),
{
    reveal(Seq::filter);
    if textures.len() > 0 {
        let rest = textures.drop_last();
        assert forall|i: int, j: int| 0 <= i < j < rest.len() implies (
        #[trigger] rest[i]).key != (#[trigger] rest[j]).key by {
            assert(textures[i].key != textures[j].key);
        }
        filtered_keys_distinct(rest, keeps);
        let filtered = textures.filter(keeps);
        assert forall|a: int, b: int| 0 <= a < b < filtered.len() implies (
        #[trigger] filtered[a]).key != (#[trigger] filtered[b]).key by {
            if keeps(textures.last()) && b == rest.filter(keeps).len() {
                let i = filtered_comes_from(rest, keeps, a);
                assert(textures[i].key != textures[textures.len() - 1].key);
            } else {
                assert(rest.filter(keeps)[a].key != rest.filter(keeps)[b].key);
            }
        }
    }
}

proof fn filtered_accounts_distinct(
    namespaces: Seq<RasterNamespace>,
    keeps: spec_fn(RasterNamespace) -> bool,
)
    requires
        accounts_distinct(namespaces),
    ensures
        accounts_distinct(namespaces.filter(keeps)),
    decreases namespaces.len(),
{
    reveal(Seq::filter);
    if namespaces.len() > 0 {
        let rest = namespaces.drop_last();
        assert forall|i: int, j: int| 0 <= i < j < rest.len() implies (
        #[trigger] rest[i]).cache_id != (#[trigger] rest[j]).cache_id by {
            assert(namespaces[i].cache_id != namespaces[j].cache_id);
        }
        filtered_accounts_distinct(rest, keeps);
        let filtered = namespaces.filter(keeps);
        assert forall|a: int, b: int| 0 <= a < b < filtered.len() implies (
        #[trigger] filtered[a]).cache_id != (#[trigger] filtered[b]).cache_id by {
            if keeps(namespaces.last()) && b == rest.filter(keeps).len() {
                let i = filtered_comes_from(rest, keeps, a);
                assert(namespaces[i].cache_id != namespaces[namespaces.len() - 1].cache_id);
            } else {
                assert(rest.filter(keeps)[a].cache_id != rest.filter(keeps)[b].cache_id);
            }
        }
    }
}

/// Giving caches up keeps the accounts of the others exact.
pub proof fn releasing_keeps_accounts_exact(model: ResidencyModel, kept: spec_fn(u64) -> bool)
    requires
        exact(model),
    ensures
        exact(model.keeping(kept)),
{
    let keeps_texture = |texture: CachedRasterTexture| kept(texture.key.cache_id);
    let keeps_account = |namespace: RasterNamespace| kept(namespace.cache_id);
    let after = model.keeping(kept);
    assert(after.textures == model.textures.filter(keeps_texture));
    assert(after.namespaces == model.namespaces.filter(keeps_account));
    filtered_keys_distinct(model.textures, keeps_texture);
    filtered_accounts_distinct(model.namespaces, keeps_account);
    assert forall|a: int, b: int|
        0 <= a < after.textures.len() && 0 <= b < after.textures.len() && (
        #[trigger] after.textures[a]).allocation == (
        #[trigger] after.textures[b]).allocation implies {
        &&& after.textures[a].bytes == after.textures[b].bytes
        &&& after.textures[a].key.cache_id == after.textures[b].key.cache_id
    } by {
        let x = filtered_comes_from(model.textures, keeps_texture, a);
        let y = filtered_comes_from(model.textures, keeps_texture, b);
        assert(model.textures[x].allocation == model.textures[y].allocation);
    }
    assert forall|k: int| 0 <= k < after.textures.len() implies account_of(
        after.namespaces,
        (#[trigger] after.textures[k]).key.cache_id,
    ) >= 0 && after.textures[k].allocation < after.next_allocation by {
        let x = filtered_comes_from(model.textures, keeps_texture, k);
        let owner = model.textures[x].key.cache_id;
        let at = account_of(model.namespaces, owner);
        account_of_finds(model.namespaces, owner);
        let y = filtered_holds(model.namespaces, keeps_account, at);
        account_of_finds(after.namespaces, owner);
        assert(after.namespaces[y].cache_id == owner);
    }
    assert forall|k: int| 0 <= k < after.namespaces.len() implies account_exact(
        #[trigger] after.namespaces[k],
        after.textures,
    ) by {
        let x = filtered_comes_from(model.namespaces, keeps_account, k);
        assert(account_exact(model.namespaces[x], model.textures));
        filtered_tiles(model.textures, kept, model.namespaces[x].cache_id);
    }
}

/// Looking a tile up keeps the accounts exact.
pub proof fn looking_up_keeps_accounts_exact(
    model: ResidencyModel,
    cache: RasterCacheIdentity,
    tile_key: RasterTileKey,
    revision: RasterTileRevision,
)
    requires
        exact(model),
    ensures
        exact(model.lookup(cache, tile_key, revision).0),
{
    let key = CachedRasterTextureKey {
        cache_id: cache.id,
        tile_key: tile_key.number,
        revision: revision.number,
    };
    let i = index_of(model.textures, key);
    index_of_finds(model.textures, key);
    let opened = model.opened(cache.id);
    opening_keeps_accounts_exact(model, cache.id);
    let used = if i >= 0 {
        using_keeps_accounts_exact(opened, i);
        opened.touched(i)
    } else {
        opened
    };
    let at = account_of(used.namespaces, cache.id);
    account_of_finds(used.namespaces, cache.id);
    account_of_finds(model.namespaces, cache.id);
    let after = used.looked_up(cache.id, i >= 0);
    assert(used.namespaces == opened.namespaces);
    assert(at >= 0) by {
        if account_of(model.namespaces, cache.id) < 0 {
            assert(opened.namespaces[model.namespaces.len() as int].cache_id == cache.id);
        }
    }
    assert forall|a: int, b: int| 0 <= a < b < after.namespaces.len() implies (
    #[trigger] after.namespaces[a]).cache_id != (#[trigger] after.namespaces[b]).cache_id by {
        assert(used.namespaces[a].cache_id != used.namespaces[b].cache_id);
    }
    assert forall|k: int| 0 <= k < after.textures.len() implies account_of(
        after.namespaces,
        (#[trigger] after.textures[k]).key.cache_id,
    ) >= 0 by {
        assert(account_of(used.namespaces, used.textures[k].key.cache_id) >= 0);
        same_caches_same_places(
            used.namespaces,
            after.namespaces,
            used.textures[k].key.cache_id,
        );
    }
    assert forall|k: int| 0 <= k < after.namespaces.len() implies account_exact(
        #[trigger] after.namespaces[k],
        after.textures,
    ) by {
        assert(account_exact(used.namespaces[k], used.textures));
    }
}

proof fn opening_keeps_accounts_exact(model: ResidencyModel, cache_id: u64)
    requires
        exact(model),
    ensures
        exact(model.opened(cache_id)),
{
    let after = model.opened(cache_id);
    account_of_finds(model.namespaces, cache_id);
    if account_of(model.namespaces, cache_id) < 0 {
        assert forall|k: int| 0 <= k < model.textures.len() implies (
        #[trigger] model.textures[k]).key.cache_id != cache_id && account_of(
            after.namespaces,
            model.textures[k].key.cache_id,
        ) >= 0 by {
            let owner = model.textures[k].key.cache_id;
            let x = account_of(model.namespaces, owner);
            account_of_finds(model.namespaces, owner);
            account_of_finds(after.namespaces, owner);
            assert(after.namespaces[x].cache_id == owner);
        }
        tiles_counted(model.textures, cache_id);
        assert forall|a: int, b: int| 0 <= a < b < after.namespaces.len() implies (
        #[trigger] after.namespaces[a]).cache_id != (#[trigger] after.namespaces[b]).cache_id by {
            if b < model.namespaces.len() {
                assert(model.namespaces[a].cache_id != model.namespaces[b].cache_id);
            }
        }
        assert forall|k: int| 0 <= k < after.namespaces.len() implies account_exact(
            #[trigger] after.namespaces[k],
            after.textures,
        ) by {
            if k < model.namespaces.len() {
                assert(account_exact(model.namespaces[k], model.textures));
            }
        }
    }
}

/// Preparing a texture for a tile adds one tile and numbers one allocation at most.
pub proof fn preparing_adds_one(
    model: ResidencyModel,
    cache: RasterCacheIdentity,
    key: CachedRasterTextureKey,
    size: DeviceSize,
    gutter: i32,
    protected: Seq<CachedRasterTextureKey>,
)
    requires
        model.next_allocation < u64::MAX,
    ensures
        ({
            let after = model.prepared(cache, key, size, gutter, protected).0;
            &&& after.textures.len() <= model.textures.len() + 1
            &&& after.next_allocation <= model.next_allocation + 1
        }),
{
    let cleared = model.removed(key, false);
    index_of_finds(model.textures, key);
    trimmed_is_no_longer(
        cleared,
        cache.id,
        texture_bytes(size),
        cache.config.hard(),
        protected,
    );
    index_of_finds(model.room_made(cache, key, size, protected).textures, key);
}

proof fn scanning_adds_none(
    model: ResidencyModel,
    cache: RasterCacheIdentity,
    tile_size: DeviceSize,
    gutter: i32,
    targets: Seq<PlacedTarget>,
    texture_size: DeviceSize,
)
    ensures
        ({
            let scan = model.scanned(cache, tile_size, gutter, targets, texture_size);
            &&& scan.model.textures.len() <= model.textures.len()
            &&& scan.model.next_allocation == model.next_allocation
            &&& scan.entries.len() <= targets.len()
        }),
    decreases targets.len(),
{
    if targets.len() > 0 {
        let rest = targets.drop_last();
        scanning_adds_none(model, cache, tile_size, gutter, rest, texture_size);
        let scan = model.scanned(cache, tile_size, gutter, rest, texture_size);
        index_of_finds(scan.model.textures, target_key(cache.id, targets.last()));
    }
}

proof fn putting_adds_each(
    room: ResidencyModel,
    cache_id: u64,
    tile_size: DeviceSize,
    gutter: i32,
    bytes: usize,
    targets: Seq<PlacedTarget>,
)
    ensures
        all_put(room, cache_id, tile_size, gutter, bytes, targets).len() <= room.textures.len()
            + targets.len(),
    decreases targets.len(),
{
    if targets.len() > 0 {
        let rest = targets.drop_last();
        putting_adds_each(room, cache_id, tile_size, gutter, bytes, rest);
        index_of_finds(
            all_put(room, cache_id, tile_size, gutter, bytes, rest),
            target_key(cache_id, targets.last()),
        );
    }
}

/// Preparing a texture for a batch adds no more tiles than it has targets, and
/// numbers one allocation at most.
pub proof fn batch_preparing_adds_targets(
    model: ResidencyModel,
    cache: RasterCacheIdentity,
    tile_size: DeviceSize,
    gutter: i32,
    targets: Seq<PlacedTarget>,
    texture_size: DeviceSize,
    protected: Seq<CachedRasterTextureKey>,
)
    requires
        model.next_allocation < u64::MAX,
    ensures
        ({
            let after = model.batch_prepared(
                cache,
                tile_size,
                gutter,
                targets,
                texture_size,
                protected,
            ).0;
            &&& after.textures.len() <= model.textures.len() + targets.len()
            &&& after.next_allocation <= model.next_allocation + 1
        }),
{
    let bytes = texture_bytes(texture_size);
    let hard = cache.config.hard();
    scanning_adds_none(model, cache, tile_size, gutter, targets, texture_size);
    let scan = model.scanned(cache, tile_size, gutter, targets, texture_size);
    trimmed_is_no_longer(scan.model, cache.id, bytes, hard, protected);
    let room = scan.model.trimmed(cache.id, bytes, hard, protected);
    putting_adds_each(room, cache.id, tile_size, gutter, bytes as usize, scan.entries);
}

/// Whether a cache pays for no more than its hard limit.
pub open spec fn within_hard_limit(model: ResidencyModel, cache: RasterCacheIdentity) -> bool {
    model.resident_bytes(cache.id) <= cache.config.hard()
}

proof fn removing_frees_bytes(model: ResidencyModel, i: int, evicted: bool, cache_id: u64)
    requires
        0 <= i < model.textures.len(),
    ensures
        model.without(i, evicted).resident_bytes(cache_id) <= model.resident_bytes(cache_id),
{
    let after = model.without(i, evicted);
    account_of_finds(model.namespaces, cache_id);
    account_of_finds(model.namespaces, model.textures[i].key.cache_id);
    same_caches_same_places(model.namespaces, after.namespaces, cache_id);
}

proof fn trimming_frees_bytes(
    model: ResidencyModel,
    trimmed_id: u64,
    bytes: int,
    limit: usize,
    protected: Seq<CachedRasterTextureKey>,
    cache_id: u64,
)
    ensures
        model.trimmed(trimmed_id, bytes, limit, protected).resident_bytes(cache_id)
            <= model.resident_bytes(cache_id),
    decreases model.textures.len(),
{
    let i = model.victim(trimmed_id, protected);
    if !model.fits(trimmed_id, bytes, limit) && 0 <= i < model.textures.len() {
        removing_frees_bytes(model, i, true, cache_id);
        trimming_frees_bytes(
            model.without(i, true),
            trimmed_id,
            bytes,
            limit,
            protected,
            cache_id,
        );
    }
}

proof fn charging_adds_bytes(
    room: ResidencyModel,
    after: ResidencyModel,
    charged_id: u64,
    bytes: int,
    tiles: int,
    cache_id: u64,
)
    requires
        after.namespaces == room.accounts_with(charged_id, bytes, tiles),
        bytes >= 0,
    ensures
        charged_id != cache_id ==> after.resident_bytes(cache_id) == room.resident_bytes(cache_id),
        charged_id == cache_id ==> after.resident_bytes(cache_id) <= room.resident_bytes(cache_id)
            + bytes,
{
    let i = account_of(room.namespaces, charged_id);
    account_of_finds(room.namespaces, charged_id);
    account_of_finds(room.namespaces, cache_id);
    let opened = if i < 0 {
        room.namespaces.push(RasterNamespace::spec_new(charged_id, room.next_account))
    } else {
        room.namespaces
    };
    let at = if i < 0 {
        room.namespaces.len() as int
    } else {
        i
    };
    assert(opened.drop_last() =~= room.namespaces || i >= 0);
    same_caches_same_places(opened, after.namespaces, cache_id);
    account_of_finds(opened, cache_id);
    account_of_finds(after.namespaces, cache_id);
}

/// No tile that is prepared takes any cache above its hard limit.
pub proof fn preparing_keeps_the_hard_limit(
    model: ResidencyModel,
    cache: RasterCacheIdentity,
    key: CachedRasterTextureKey,
    size: DeviceSize,
    gutter: i32,
    protected: Seq<CachedRasterTextureKey>,
    any: RasterCacheIdentity,
)
    requires
        within_hard_limit(model, any),
        any.id == cache.id ==> any == cache,
    ensures
        within_hard_limit(model.prepared(cache, key, size, gutter, protected).0, any),
{
    let hard = cache.config.hard();
    let bytes = texture_bytes(size);
    let after = model.prepared(cache, key, size, gutter, protected).0;
    index_of_finds(model.textures, key);
    bytes_are_counted(size);
    if allocatable(size, hard) && !model.has_sized(key, size) {
        if index_of(model.textures, key) >= 0 {
            removing_frees_bytes(model, index_of(model.textures, key), false, any.id);
        }
        trimming_frees_bytes(model.removed(key, false), cache.id, bytes, hard, protected, any.id);
        let room = model.room_made(cache, key, size, protected);
        if room.fits(cache.id, bytes, hard) {
            charging_adds_bytes(room, after, cache.id, bytes, 1, any.id);
        }
    }
}

proof fn scanning_frees_bytes(
    model: ResidencyModel,
    cache: RasterCacheIdentity,
    tile_size: DeviceSize,
    gutter: i32,
    targets: Seq<PlacedTarget>,
    texture_size: DeviceSize,
    cache_id: u64,
)
    ensures
        model.scanned(cache, tile_size, gutter, targets, texture_size).model.resident_bytes(
            cache_id,
        ) <= model.resident_bytes(cache_id),
    decreases targets.len(),
{
    if targets.len() > 0 {
        let rest = targets.drop_last();
        scanning_frees_bytes(model, cache, tile_size, gutter, rest, texture_size, cache_id);
        let scan = model.scanned(cache, tile_size, gutter, rest, texture_size);
        let key = target_key(cache.id, targets.last());
        index_of_finds(scan.model.textures, key);
        if index_of(scan.model.textures, key) >= 0 {
            removing_frees_bytes(
                scan.model,
                index_of(scan.model.textures, key),
                false,
                cache_id,
            );
        }
    }
}

/// No batch that is prepared takes any cache above its hard limit.
pub proof fn batch_preparing_keeps_the_hard_limit(
    model: ResidencyModel,
    cache: RasterCacheIdentity,
    tile_size: DeviceSize,
    gutter: i32,
    targets: Seq<PlacedTarget>,
    texture_size: DeviceSize,
    protected: Seq<CachedRasterTextureKey>,
    any: RasterCacheIdentity,
)
    requires
        within_hard_limit(model, any),
        any.id == cache.id ==> any == cache,
    ensures
        within_hard_limit(
            model.batch_prepared(
                cache,
                tile_size,
                gutter,
                targets,
                texture_size,
                protected,
            ).0,
            any,
        ),
{
    let hard = cache.config.hard();
    let bytes = texture_bytes(texture_size);
    let after = model.batch_prepared(
        cache,
        tile_size,
        gutter,
        targets,
        texture_size,
        protected,
    ).0;
    bytes_are_counted(texture_size);
    if allocatable(texture_size, hard) {
        scanning_frees_bytes(
            model,
            cache,
            tile_size,
            gutter,
            targets,
            texture_size,
            any.id,
        );
        let scan = model.scanned(cache, tile_size, gutter, targets, texture_size);
        if !scan.misplaced && scan.entries.len() > 0 {
            trimming_frees_bytes(scan.model, cache.id, bytes, hard, protected, any.id);
            let room = scan.model.trimmed(cache.id, bytes, hard, protected);
            if room.fits(cache.id, bytes, hard) {
                charging_adds_bytes(
                    room,
                    after,
                    cache.id,
                    bytes,
                    scan.entries.len() as int,
                    any.id,
                );
            }
        }
    }
}

/// Trimming takes no cache above its hard limit.
pub proof fn trimming_keeps_the_hard_limit(
    model: ResidencyModel,
    trimmed_id: u64,
    bytes: int,
    limit: usize,
    protected: Seq<CachedRasterTextureKey>,
    any: RasterCacheIdentity,
)
    requires
        within_hard_limit(model, any),
    ensures
        within_hard_limit(model.trimmed(trimmed_id, bytes, limit, protected), any),
{
    trimming_frees_bytes(model, trimmed_id, bytes, limit, protected, any.id);
}

} // verus!
