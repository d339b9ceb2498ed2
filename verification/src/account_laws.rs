//! Accounts of caches go by numbers of their own, so that a comparison that comes late
//! never counts for an account that was opened after it was made.
use vstd::prelude::*;

use crate::geometry::DeviceSize;
use crate::image_comparison::{accumulated, RasterComparisonSample};
use crate::raster_cache::{RasterCacheIdentity, RasterTileKey, RasterTileRevision};
use crate::residency::{
    account_number, account_of, account_of_finds, index_of, index_of_finds, numbered_account,
    oldest_is_evictable, target_key, texture_bytes, CachedRasterTextureKey, PlacedTarget,
    RasterNamespace, ResidencyModel,
};
use crate::residency_laws::filtered_comes_from;

verus! {

/// Every account has a number that was given out, and no two have the same.
pub open spec fn numbered_apart(model: ResidencyModel) -> bool {
    &&& model.next_account > 0
    &&& forall|i: int|
        0 <= i < model.namespaces.len() ==> 0 < (#[trigger] model.namespaces[i]).number
            < model.next_account
    &&& forall|i: int, j: int|
        0 <= i < j < model.namespaces.len() ==> (#[trigger] model.namespaces[i]).number != (
        #[trigger] model.namespaces[j]).number
}

/// Whether two states have accounts of the same numbers.
spec fn same_numbers(before: ResidencyModel, after: ResidencyModel) -> bool {
    &&& after.next_account == before.next_account
    &&& after.namespaces.len() == before.namespaces.len()
    &&& forall|i: int|
        0 <= i < before.namespaces.len() ==> (#[trigger] after.namespaces[i]).number
            == before.namespaces[i].number
}

proof fn removing_keeps_numbers(model: ResidencyModel, i: int, evicted: bool)
    requires
        0 <= i < model.textures.len(),
    ensures
        same_numbers(model, model.without(i, evicted)),
{
    account_of_finds(model.namespaces, model.textures[i].key.cache_id);
}

proof fn trimming_keeps_numbers(
    model: ResidencyModel,
    cache_id: u64,
    bytes: int,
    limit: usize,
    protected: Seq<CachedRasterTextureKey>,
)
    ensures
        same_numbers(model, model.trimmed(cache_id, bytes, limit, protected)),
    decreases model.textures.len(),
{
    let i = model.victim(cache_id, protected);
    oldest_is_evictable(model.textures, cache_id, protected, model.textures.len() as int);
    if !model.fits(cache_id, bytes, limit) && i >= 0 {
        removing_keeps_numbers(model, i, true);
        trimming_keeps_numbers(model.without(i, true), cache_id, bytes, limit, protected);
    }
}

proof fn outdated_keeps_numbers(model: ResidencyModel, key: CachedRasterTextureKey)
    ensures
        same_numbers(model, model.removed(key, false)),
{
    index_of_finds(model.textures, key);
    let i = index_of(model.textures, key);
    if i >= 0 {
        removing_keeps_numbers(model, i, false);
    }
}

proof fn scanning_keeps_numbers(
    model: ResidencyModel,
    cache: RasterCacheIdentity,
    tile_size: DeviceSize,
    gutter: i32,
    targets: Seq<PlacedTarget>,
    texture_size: DeviceSize,
)
    ensures
        same_numbers(
            model,
            model.scanned(cache, tile_size, gutter, targets, texture_size).model,
        ),
    decreases targets.len(),
{
    if targets.len() > 0 {
        let rest = targets.drop_last();
        scanning_keeps_numbers(model, cache, tile_size, gutter, rest, texture_size);
        let scan = model.scanned(cache, tile_size, gutter, rest, texture_size);
        outdated_keeps_numbers(scan.model, target_key(cache.id, targets.last()));
    }
}

proof fn opening_keeps_apart(model: ResidencyModel, after: ResidencyModel, cache_id: u64)
    requires
        numbered_apart(model),
        model.next_account < u64::MAX,
        after.next_account == model.next_account_with(cache_id),
        account_of(model.namespaces, cache_id) >= 0 ==> after.namespaces.len()
            == model.namespaces.len(),
        account_of(model.namespaces, cache_id) < 0 ==> {
            &&& after.namespaces.len() == model.namespaces.len() + 1
            &&& after.namespaces.last().number == model.next_account
        },
        forall|i: int|
            0 <= i < model.namespaces.len() ==> (#[trigger] after.namespaces[i]).number
                == model.namespaces[i].number,
    ensures
        numbered_apart(after),
{
    assert forall|i: int, j: int| 0 <= i < j < after.namespaces.len() implies (
    #[trigger] after.namespaces[i]).number != (#[trigger] after.namespaces[j]).number by {
        assert(after.namespaces[i].number == model.namespaces[i].number);
        if j < model.namespaces.len() {
            assert(after.namespaces[j].number == model.namespaces[j].number);
        }
    }
}

/// A lookup keeps the accounts numbered apart.
pub proof fn looking_up_keeps_numbers_apart(
    model: ResidencyModel,
    cache: RasterCacheIdentity,
    tile_key: RasterTileKey,
    revision: RasterTileRevision,
)
    requires
        numbered_apart(model),
        model.next_account < u64::MAX,
    ensures
        numbered_apart(model.lookup(cache, tile_key, revision).0),
{
    let after = model.lookup(cache, tile_key, revision).0;
    account_of_finds(model.namespaces, cache.id);
    account_of_finds(model.opened(cache.id).namespaces, cache.id);
    opening_keeps_apart(model, after, cache.id);
}

/// Preparing a texture keeps the accounts numbered apart.
pub proof fn preparing_keeps_numbers_apart(
    model: ResidencyModel,
    cache: RasterCacheIdentity,
    key: CachedRasterTextureKey,
    size: DeviceSize,
    gutter: i32,
    protected: Seq<CachedRasterTextureKey>,
)
    requires
        numbered_apart(model),
        model.next_account < u64::MAX,
    ensures
        numbered_apart(model.prepared(cache, key, size, gutter, protected).0),
{
    let after = model.prepared(cache, key, size, gutter, protected).0;
    let removed = model.removed(key, false);
    let room = model.room_made(cache, key, size, protected);
    let bytes = texture_bytes(size);
    outdated_keeps_numbers(model, key);
    trimming_keeps_numbers(removed, cache.id, bytes, cache.config.hard(), protected);
    account_of_finds(room.namespaces, cache.id);
    if after.namespaces == room.accounts_with(cache.id, bytes, 1) && after.next_account
        == room.next_account_with(cache.id) {
        opening_keeps_apart(room, after, cache.id);
    }
}

/// Preparing a texture for a batch keeps the accounts numbered apart.
pub proof fn batch_preparing_keeps_numbers_apart(
    model: ResidencyModel,
    cache: RasterCacheIdentity,
    tile_size: DeviceSize,
    gutter: i32,
    targets: Seq<PlacedTarget>,
    texture_size: DeviceSize,
    protected: Seq<CachedRasterTextureKey>,
)
    requires
        numbered_apart(model),
        model.next_account < u64::MAX,
    ensures
        numbered_apart(
            model.batch_prepared(cache, tile_size, gutter, targets, texture_size, protected).0,
        ),
{
    let after = model.batch_prepared(
        cache,
        tile_size,
        gutter,
        targets,
        texture_size,
        protected,
    ).0;
    let scan = model.scanned(cache, tile_size, gutter, targets, texture_size);
    let bytes = texture_bytes(texture_size);
    let room = scan.model.trimmed(cache.id, bytes, cache.config.hard(), protected);
    scanning_keeps_numbers(model, cache, tile_size, gutter, targets, texture_size);
    trimming_keeps_numbers(scan.model, cache.id, bytes, cache.config.hard(), protected);
    account_of_finds(room.namespaces, cache.id);
    if after.namespaces == room.accounts_with(cache.id, bytes, scan.entries.len() as int)
        && after.next_account == room.next_account_with(cache.id) {
        opening_keeps_apart(room, after, cache.id);
    }
}

/// Giving caches up keeps the accounts numbered apart.
pub proof fn releasing_keeps_numbers_apart(model: ResidencyModel, kept: spec_fn(u64) -> bool)
    requires
        numbered_apart(model),
    ensures
        numbered_apart(model.keeping(kept)),
{
    let keeps = |namespace: RasterNamespace| kept(namespace.cache_id);
    filtering_keeps_apart(model.namespaces, keeps, model.next_account);
}

proof fn filtering_keeps_apart(
    namespaces: Seq<RasterNamespace>,
    keeps: spec_fn(RasterNamespace) -> bool,
    next_account: u64,
)
    requires
        forall|i: int|
            0 <= i < namespaces.len() ==> 0 < (#[trigger] namespaces[i]).number < next_account,
        forall|i: int, j: int|
            0 <= i < j < namespaces.len() ==> (#[trigger] namespaces[i]).number != (
            #[trigger] namespaces[j]).number,
    ensures
        forall|i: int|
            0 <= i < namespaces.filter(keeps).len() ==> 0 < (
            #[trigger] namespaces.filter(keeps)[i]).number < next_account,
        forall|i: int, j: int|
            0 <= i < j < namespaces.filter(keeps).len() ==> (
            #[trigger] namespaces.filter(keeps)[i]).number != (
            #[trigger] namespaces.filter(keeps)[j]).number,
    decreases namespaces.len(),
{
    reveal(Seq::filter);
    if namespaces.len() > 0 {
        let rest = namespaces.drop_last();
        assert forall|i: int| 0 <= i < rest.len() implies 0 < (#[trigger] rest[i]).number
            < next_account by {
            assert(rest[i] == namespaces[i]);
        }
        assert forall|i: int, j: int| 0 <= i < j < rest.len() implies (
        #[trigger] rest[i]).number != (#[trigger] rest[j]).number by {
            assert(rest[i] == namespaces[i] && rest[j] == namespaces[j]);
        }
        filtering_keeps_apart(rest, keeps, next_account);
        let last = namespaces.len() - 1;
        let before = rest.filter(keeps);
        if keeps(namespaces.last()) {
            assert(namespaces.filter(keeps) == before.push(namespaces[last]));
            assert forall|i: int, j: int| 0 <= i < j < namespaces.filter(keeps).len() implies (
            #[trigger] namespaces.filter(keeps)[i]).number != (
            #[trigger] namespaces.filter(keeps)[j]).number by {
                if j == before.len() {
                    let k = filtered_comes_from(rest, keeps, i);
                    assert(rest[k] == namespaces[k]);
                    assert(namespaces[k].number != namespaces[last].number);
                } else {
                    assert(before[i].number != before[j].number);
                }
            }
        }
    }
}

proof fn numbered_account_finds(namespaces: Seq<RasterNamespace>, number: u64)
    ensures
        -1 <= numbered_account(namespaces, number) < namespaces.len(),
        numbered_account(namespaces, number) >= 0 ==> namespaces[numbered_account(
            namespaces,
            number,
        )].number == number,
        (exists|i: int| 0 <= i < namespaces.len() && (#[trigger] namespaces[i]).number == number)
            ==> numbered_account(namespaces, number) >= 0,
    decreases namespaces.len(),
{
    if namespaces.len() > 0 && namespaces.last().number != number {
        let rest = namespaces.drop_last();
        numbered_account_finds(rest, number);
        if exists|i: int| 0 <= i < namespaces.len() && (#[trigger] namespaces[i]).number == number {
            let i = choose|i: int|
                0 <= i < namespaces.len() && (#[trigger] namespaces[i]).number == number;
            assert(rest[i].number == number);
        }
    }
}

/// A comparison counts for the account that its tiles were drawn for: the counters of
/// that cache take it in.
pub proof fn a_comparison_reaches_its_account(
    model: ResidencyModel,
    cache_id: u64,
    sample: RasterComparisonSample,
)
    requires
        numbered_apart(model),
        account_of(model.namespaces, cache_id) >= 0,
    ensures
        ({
            let number = account_number(model.namespaces, cache_id);
            let i = account_of(model.namespaces, cache_id);
            &&& number != 0
            &&& model.compared(number, sample).namespaces == model.namespaces.update(
                i,
                RasterNamespace {
                    comparisons: accumulated(model.namespaces[i].comparisons, sample),
                    ..model.namespaces[i]
                },
            )
        }),
{
    let number = account_number(model.namespaces, cache_id);
    let i = account_of(model.namespaces, cache_id);
    account_of_finds(model.namespaces, cache_id);
    assert(model.namespaces[i].number == number);
    numbered_account_finds(model.namespaces, number);
    let k = numbered_account(model.namespaces, number);
    assert(model.namespaces[k].number == number);
}

/// A comparison that comes late is lost: once the account that its tiles were drawn for
/// was given up, it changes nothing, also where the cache has got an account anew.
pub proof fn a_late_comparison_is_lost(
    model: ResidencyModel,
    kept: spec_fn(u64) -> bool,
    cache_id: u64,
    sample: RasterComparisonSample,
)
    requires
        numbered_apart(model),
        account_of(model.namespaces, cache_id) >= 0,
        !kept(cache_id),
    ensures
        ({
            let number = account_number(model.namespaces, cache_id);
            let released = model.keeping(kept);
            let anew = released.opened(cache_id);
            &&& released.compared(number, sample) == released
            &&& anew.compared(number, sample) == anew
        }),
{
    let number = account_number(model.namespaces, cache_id);
    let own = account_of(model.namespaces, cache_id);
    let released = model.keeping(kept);
    let anew = released.opened(cache_id);
    let keeps = |namespace: RasterNamespace| kept(namespace.cache_id);
    account_of_finds(model.namespaces, cache_id);
    assert(model.namespaces[own].number == number);
    numbered_account_finds(released.namespaces, number);
    numbered_account_finds(anew.namespaces, number);
    assert forall|i: int| 0 <= i < released.namespaces.len() implies (
    #[trigger] released.namespaces[i]).number != number by {
        let k = filtered_comes_from(model.namespaces, keeps, i);
        assert(model.namespaces[k] == released.namespaces[i]);
    }
    let k = numbered_account(anew.namespaces, number);
    if k >= 0 {
        if k < released.namespaces.len() {
            assert(anew.namespaces[k] == released.namespaces[k]);
        }
    }
}

} // verus!
