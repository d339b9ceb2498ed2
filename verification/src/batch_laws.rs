//! What preparing the texture of a batch does to the tiles of the batch and to all others.
use vstd::prelude::*;

use crate::geometry::DeviceSize;
use crate::raster_cache::RasterCacheIdentity;
use crate::residency::{
    all_put, index_of, index_of_finds, misplaced, put, side, target_key, texture_bytes,
    trimming_keeps_counters, CachedRasterTexture, CachedRasterTextureKey, PlacedTarget,
    PreparedRasterBatchTexture, ResidencyModel,
};
use crate::residency_laws::{keys_distinct, targets_distinct, trimming_spares_protected_tiles};
use crate::tile_laws::{a_pixel_takes_four_bytes, key_of};

verus! {

/// The tile of a key among some tiles, if it is there.
pub open spec fn tile(
    textures: Seq<CachedRasterTexture>,
    key: CachedRasterTextureKey,
) -> Option<CachedRasterTexture> {
    if exists|t: CachedRasterTexture| t.key == key && #[trigger] textures.contains(t) {
        Some(choose|t: CachedRasterTexture| t.key == key && #[trigger] textures.contains(t))
    } else {
        None
    }
}

/// Whether the tile of a key is there in exactly this size and with this gutter.
pub open spec fn ready(
    textures: Seq<CachedRasterTexture>,
    key: CachedRasterTextureKey,
    size: DeviceSize,
    gutter: i32,
) -> bool {
    tile(textures, key) matches Some(tile) && tile.source_size == size && tile.gutter == (if gutter
        > 0 {
        gutter as int
    } else {
        0
    })
}

/// The key of a target.
pub open spec fn state_of(
    cache: RasterCacheIdentity,
    target: PlacedTarget,
) -> CachedRasterTextureKey {
    key_of(cache.id, target.key.number, target.revision.number)
}

/// Whether a target begins before the texture or ends after it. Nothing ends after a
/// texture of the greatest length.
pub open spec fn outside(target: PlacedTarget, size: DeviceSize, texture_size: DeviceSize) -> bool {
    ||| target.source_x < 0
    ||| target.source_y < 0
    ||| texture_size.width < i32::MAX && target.source_x + size.width > texture_size.width
    ||| texture_size.height < i32::MAX && target.source_y + size.height > texture_size.height
}

/// Whether a texture has pixels and is within the hard limit of its cache.
pub open spec fn possible(cache: RasterCacheIdentity, size: DeviceSize) -> bool {
    size.width > 0 && size.height > 0 && size.width * size.height * 4 <= cache.config.hard()
}

proof fn a_tile_that_is_there(
    textures: Seq<CachedRasterTexture>,
    texture: CachedRasterTexture,
)
    requires
        keys_distinct(textures),
    ensures
        tile(textures, texture.key) == Some(texture) <==> textures.contains(texture),
{
    let key = texture.key;
    if textures.contains(texture) {
        let found = choose|t: CachedRasterTexture| t.key == key && #[trigger] textures.contains(t);
        let i = choose|i: int| 0 <= i < textures.len() && textures[i] == texture;
        let j = choose|j: int| 0 <= j < textures.len() && textures[j] == found;
        if i < j {
            assert(textures[i].key != textures[j].key);
        } else if j < i {
            assert(textures[j].key != textures[i].key);
        }
    }
}

proof fn a_tile_at_its_place(textures: Seq<CachedRasterTexture>, key: CachedRasterTextureKey)
    requires
        keys_distinct(textures),
    ensures
        ({
            let i = index_of(textures, key);
            &&& i < 0 ==> tile(textures, key) is None
            &&& i >= 0 ==> i < textures.len() && textures[i].key == key && tile(textures, key)
                == Some(textures[i])
        }),
{
    let i = index_of(textures, key);
    index_of_finds(textures, key);
    if i >= 0 {
        assert(textures.contains(textures[i]));
        a_tile_that_is_there(textures, textures[i]);
    } else {
        assert forall|t: CachedRasterTexture| t.key == key implies !(
        #[trigger] textures.contains(t)) by {
            if textures.contains(t) {
                let j = choose|j: int| 0 <= j < textures.len() && textures[j] == t;
                assert(textures[j].key != key);
            }
        }
    }
}

/// Where the same tiles of a key are there, the tile of the key is the same.
proof fn the_same_tile(
    before: Seq<CachedRasterTexture>,
    after: Seq<CachedRasterTexture>,
    key: CachedRasterTextureKey,
)
    requires
        keys_distinct(before),
        keys_distinct(after),
        forall|t: CachedRasterTexture|
            t.key == key ==> (#[trigger] before.contains(t) <==> after.contains(t)),
    ensures
        tile(before, key) == tile(after, key),
{
    a_tile_at_its_place(before, key);
    a_tile_at_its_place(after, key);
    let i = index_of(before, key);
    let j = index_of(after, key);
    if i >= 0 {
        assert(before.contains(before[i]));
        a_tile_that_is_there(after, before[i]);
    } else if j >= 0 {
        assert(after.contains(after[j]));
        assert(before.contains(after[j]));
        a_tile_that_is_there(before, after[j]);
    }
}

proof fn replacing_a_tile(
    textures: Seq<CachedRasterTexture>,
    i: int,
    texture: CachedRasterTexture,
    key: CachedRasterTextureKey,
)
    requires
        keys_distinct(textures),
        0 <= i < textures.len(),
        textures[i].key == texture.key,
    ensures
        keys_distinct(textures.update(i, texture)),
        tile(textures.update(i, texture), texture.key) == Some(texture),
        key != texture.key ==> tile(textures.update(i, texture), key) == tile(textures, key),
{
    let after = textures.update(i, texture);
    assert forall|j: int, k: int| 0 <= j < k < after.len() implies (#[trigger] after[j]).key != (
    #[trigger] after[k]).key by {
        assert(textures[j].key != textures[k].key);
    }
    assert(after[i] == texture);
    a_tile_that_is_there(after, texture);
    if key != texture.key {
        assert forall|t: CachedRasterTexture| t.key == key implies (#[trigger] textures.contains(t)
            <==> after.contains(t)) by {
            if textures.contains(t) {
                let j = choose|j: int| 0 <= j < textures.len() && textures[j] == t;
                assert(after[j] == t);
            }
            if after.contains(t) {
                let j = choose|j: int| 0 <= j < after.len() && after[j] == t;
                assert(textures[j] == t);
            }
        }
        the_same_tile(textures, after, key);
    }
}

proof fn taking_a_tile_out(
    textures: Seq<CachedRasterTexture>,
    i: int,
    key: CachedRasterTextureKey,
)
    requires
        keys_distinct(textures),
        0 <= i < textures.len(),
    ensures
        keys_distinct(textures.remove(i)),
        tile(textures.remove(i), textures[i].key) is None,
        key != textures[i].key ==> tile(textures.remove(i), key) == tile(textures, key),
{
    let after = textures.remove(i);
    assert forall|j: int| 0 <= j < after.len() implies #[trigger] after[j] == textures[if j < i {
        j
    } else {
        j + 1
    }] && after[j].key != textures[i].key by {
        if j < i {
            assert(textures[j].key != textures[i].key);
        } else {
            assert(textures[i].key != textures[j + 1].key);
        }
    }
    a_tile_at_its_place(after, textures[i].key);
    if key != textures[i].key {
        assert forall|t: CachedRasterTexture| t.key == key implies (#[trigger] textures.contains(t)
            <==> after.contains(t)) by {
            if textures.contains(t) {
                let j = choose|j: int| 0 <= j < textures.len() && textures[j] == t;
                if j < i {
                    assert(after[j] == t);
                } else {
                    assert(after[j - 1] == t);
                }
            }
            if after.contains(t) {
                let j = choose|j: int| 0 <= j < after.len() && after[j] == t;
                assert(textures.contains(after[j]));
            }
        }
        the_same_tile(textures, after, key);
    }
}

proof fn putting_a_tile(
    textures: Seq<CachedRasterTexture>,
    texture: CachedRasterTexture,
    key: CachedRasterTextureKey,
)
    requires
        keys_distinct(textures),
    ensures
        keys_distinct(put(textures, texture)),
        tile(put(textures, texture), texture.key) == Some(texture),
        key != texture.key ==> tile(put(textures, texture), key) == tile(textures, key),
{
    let i = index_of(textures, texture.key);
    index_of_finds(textures, texture.key);
    if i >= 0 {
        replacing_a_tile(textures, i, texture, key);
    } else {
        let after = put(textures, texture);
        assert(after == textures.push(texture));
        assert(after[textures.len() as int] == texture);
        a_tile_that_is_there(after, texture);
        if key != texture.key {
            assert forall|t: CachedRasterTexture| t.key == key implies (
            #[trigger] textures.contains(t) <==> after.contains(t)) by {
                if textures.contains(t) {
                    let j = choose|j: int| 0 <= j < textures.len() && textures[j] == t;
                    assert(after[j] == t);
                }
                if after.contains(t) {
                    let j = choose|j: int| 0 <= j < after.len() && after[j] == t;
                    assert(textures[j] == t);
                }
            }
            the_same_tile(textures, after, key);
        }
    }
}

proof fn trimming_keeps_keys_distinct(
    model: ResidencyModel,
    cache_id: u64,
    bytes: int,
    limit: usize,
    protected: Seq<CachedRasterTextureKey>,
)
    requires
        keys_distinct(model.textures),
    ensures
        keys_distinct(model.trimmed(cache_id, bytes, limit, protected).textures),
    decreases model.textures.len(),
{
    let i = model.victim(cache_id, protected);
    if !model.fits(cache_id, bytes, limit) && 0 <= i < model.textures.len() {
        taking_a_tile_out(model.textures, i, model.textures[i].key);
        trimming_keeps_keys_distinct(
            model.without(i, true),
            cache_id,
            bytes,
            limit,
            protected,
        );
    }
}

/// Trimming a cache leaves every tile of another cache, and every protected one, as it
/// was, and brings none back that was gone.
pub proof fn trimming_leaves_what_it_may_not_take(
    model: ResidencyModel,
    cache_id: u64,
    bytes: int,
    limit: usize,
    protected: Seq<CachedRasterTextureKey>,
    key: CachedRasterTextureKey,
)
    requires
        keys_distinct(model.textures),
    ensures
        keys_distinct(model.trimmed(cache_id, bytes, limit, protected).textures),
        key.cache_id != cache_id || protected.contains(key) || tile(model.textures, key) is None
            ==> tile(model.trimmed(cache_id, bytes, limit, protected).textures, key) == tile(
            model.textures,
            key,
        ),
{
    let after = model.trimmed(cache_id, bytes, limit, protected);
    trimming_keeps_keys_distinct(model, cache_id, bytes, limit, protected);
    if key.cache_id != cache_id || protected.contains(key) || tile(model.textures, key) is None {
        assert forall|t: CachedRasterTexture| t.key == key implies (
        #[trigger] model.textures.contains(t) <==> after.textures.contains(t)) by {
            trimming_spares_protected_tiles(model, cache_id, bytes, limit, protected, t);
            if model.textures.contains(t) {
                a_tile_that_is_there(model.textures, t);
            }
        }
        the_same_tile(model.textures, after.textures, key);
    }
}

/// Whether one of some targets has a key.
pub open spec fn targeted(
    cache: RasterCacheIdentity,
    targets: Seq<PlacedTarget>,
    key: CachedRasterTextureKey,
) -> bool {
    exists|j: int| 0 <= j < targets.len() && state_of(cache, #[trigger] targets[j]) == key
}

/// Whether one of some targets lies outside of its texture.
pub open spec fn any_outside(
    targets: Seq<PlacedTarget>,
    size: DeviceSize,
    texture_size: DeviceSize,
) -> bool {
    exists|j: int| 0 <= j < targets.len() && outside(#[trigger] targets[j], size, texture_size)
}

proof fn outside_is_misplaced(target: PlacedTarget, size: DeviceSize, texture_size: DeviceSize)
    ensures
        outside(target, size, texture_size) == misplaced(target, size, texture_size),
{
}

proof fn scanning_sorts_the_targets(
    model: ResidencyModel,
    cache: RasterCacheIdentity,
    size: DeviceSize,
    gutter: i32,
    targets: Seq<PlacedTarget>,
    texture_size: DeviceSize,
    key: CachedRasterTextureKey,
)
    requires
        keys_distinct(model.textures),
        targets_distinct(targets),
    ensures
        ({
            let scan = model.scanned(cache, size, gutter, targets, texture_size);
            &&& scan.model.next_allocation == model.next_allocation
            &&& scan.model.frame_index == model.frame_index
            &&& keys_distinct(scan.model.textures)
            &&& scan.misplaced == any_outside(targets, size, texture_size)
            &&& !targeted(cache, targets, key) ==> tile(scan.model.textures, key) == tile(
                model.textures,
                key,
            )
            &&& targeted(cache, targets, key) && !scan.misplaced ==> tile(scan.model.textures, key)
                == (if ready(model.textures, key, size, gutter) {
                Some(
                    CachedRasterTexture {
                        last_used_frame: model.frame_index,
                        ..tile(model.textures, key)->0
                    },
                )
            } else {
                None
            })
            &&& !scan.misplaced ==> forall|target: PlacedTarget| #[trigger]
                scan.entries.contains(target) <==> targets.contains(target) && !ready(
                    model.textures,
                    state_of(cache, target),
                    size,
                    gutter,
                )
        }),
    decreases targets.len(),
{
    let scan = model.scanned(cache, size, gutter, targets, texture_size);
    if targets.len() > 0 {
        let rest = targets.drop_last();
        let last = targets.len() - 1;
        let target = targets.last();
        let own = state_of(cache, target);
        assert(own == target_key(cache.id, target));
        outside_is_misplaced(target, size, texture_size);
        assert forall|i: int, j: int| 0 <= i < j < rest.len() implies target_key(
            0,
            #[trigger] rest[i],
        ) != target_key(0, #[trigger] rest[j]) by {
            assert(target_key(0, targets[i]) != target_key(0, targets[j]));
        }
        let before = model.scanned(cache, size, gutter, rest, texture_size);
        scanning_sorts_the_targets(model, cache, size, gutter, rest, texture_size, key);
        scanning_sorts_the_targets(model, cache, size, gutter, rest, texture_size, own);
        assert(any_outside(targets, size, texture_size) == (any_outside(rest, size, texture_size)
            || outside(target, size, texture_size))) by {
            if any_outside(rest, size, texture_size) {
                let j = choose|j: int|
                    0 <= j < rest.len() && outside(#[trigger] rest[j], size, texture_size);
                assert(outside(targets[j], size, texture_size));
            }
            if outside(target, size, texture_size) {
                assert(outside(targets[last], size, texture_size));
            }
            if any_outside(targets, size, texture_size) {
                let j = choose|j: int|
                    0 <= j < targets.len() && outside(#[trigger] targets[j], size, texture_size);
                if j < last {
                    assert(outside(rest[j], size, texture_size));
                }
            }
        }
        assert(!targeted(cache, rest, own)) by {
            if targeted(cache, rest, own) {
                let j = choose|j: int|
                    0 <= j < rest.len() && state_of(cache, #[trigger] rest[j]) == own;
                assert(target_key(0, targets[j]) != target_key(0, targets[last]));
            }
        }
        assert(targeted(cache, targets, key) == (targeted(cache, rest, key) || key == own)) by {
            if targeted(cache, rest, key) {
                let j = choose|j: int|
                    0 <= j < rest.len() && state_of(cache, #[trigger] rest[j]) == key;
                assert(state_of(cache, targets[j]) == key);
            }
            if key == own {
                assert(state_of(cache, targets[last]) == key);
            }
            if targeted(cache, targets, key) {
                let j = choose|j: int|
                    0 <= j < targets.len() && state_of(cache, #[trigger] targets[j]) == key;
                if j < last {
                    assert(state_of(cache, rest[j]) == key);
                }
            }
        }
        let i = index_of(before.model.textures, own);
        a_tile_at_its_place(before.model.textures, own);
        if !scan.misplaced {
            assert(before.model.has_ready(own, size, gutter) == ready(
                model.textures,
                own,
                size,
                gutter,
            ));
            if before.model.has_ready(own, size, gutter) {
                replacing_a_tile(
                    before.model.textures,
                    i,
                    CachedRasterTexture {
                        last_used_frame: model.frame_index,
                        ..before.model.textures[i]
                    },
                    key,
                );
                assert forall|t: PlacedTarget| #[trigger] scan.entries.contains(t) implies
                    targets.contains(t) by {
                    assert(before.entries.contains(t));
                    let j = choose|j: int| 0 <= j < rest.len() && rest[j] == t;
                    assert(targets[j] == t);
                }
                assert forall|t: PlacedTarget|
                    targets.contains(t) && !ready(
                        model.textures,
                        state_of(cache, t),
                        size,
                        gutter,
                    ) implies #[trigger] scan.entries.contains(t) by {
                    let j = choose|j: int| 0 <= j < targets.len() && targets[j] == t;
                    assert(j < last);
                    assert(rest[j] == t);
                    assert(before.entries.contains(t));
                }
            } else {
                if i >= 0 {
                    taking_a_tile_out(before.model.textures, i, key);
                }
                assert(scan.entries == before.entries.push(target));
                assert forall|t: PlacedTarget| #[trigger] scan.entries.contains(t) implies
                    targets.contains(t) && !ready(
                    model.textures,
                    state_of(cache, t),
                    size,
                    gutter,
                ) by {
                    let k = choose|k: int| 0 <= k < scan.entries.len() && scan.entries[k] == t;
                    if k < before.entries.len() {
                        assert(before.entries[k] == t);
                        assert(before.entries.contains(t));
                        let j = choose|j: int| 0 <= j < rest.len() && rest[j] == t;
                        assert(targets[j] == t);
                    } else {
                        assert(targets[last] == t);
                    }
                }
                assert forall|t: PlacedTarget|
                    targets.contains(t) && !ready(
                        model.textures,
                        state_of(cache, t),
                        size,
                        gutter,
                    ) implies #[trigger] scan.entries.contains(t) by {
                    let j = choose|j: int| 0 <= j < targets.len() && targets[j] == t;
                    if j < last {
                        assert(rest[j] == t);
                        assert(before.entries.contains(t));
                        let k = choose|k: int|
                            0 <= k < before.entries.len() && before.entries[k] == t;
                        assert(scan.entries[k] == t);
                    } else {
                        assert(scan.entries[before.entries.len() as int] == t);
                    }
                }
            }
        }
    }
}

proof fn all_are_put(
    room: ResidencyModel,
    cache: RasterCacheIdentity,
    size: DeviceSize,
    gutter: i32,
    bytes: usize,
    entries: Seq<PlacedTarget>,
    target: PlacedTarget,
    key: CachedRasterTextureKey,
)
    requires
        keys_distinct(room.textures),
        forall|t: PlacedTarget| #[trigger] entries.contains(t) && t != target ==> state_of(cache, t)
            != state_of(cache, target),
    ensures
        ({
            let after = all_put(room, cache.id, size, gutter, bytes, entries);
            &&& keys_distinct(after)
            &&& entries.contains(target) ==> tile(after, state_of(cache, target)) == Some(
                CachedRasterTexture {
                    key: state_of(cache, target),
                    allocation: room.next_allocation,
                    bytes,
                    source_x: target.source_x,
                    source_y: target.source_y,
                    source_size: size,
                    gutter: (if gutter > 0 {
                        gutter as int
                    } else {
                        0
                    }) as u32,
                    last_used_frame: room.frame_index,
                },
            )
            &&& !targeted(cache, entries, key) ==> tile(after, key) == tile(room.textures, key)
        }),
    decreases entries.len(),
{
    if entries.len() > 0 {
        let rest = entries.drop_last();
        let last = entries.len() - 1;
        assert(entries[last] == entries.last());
        assert(entries.contains(entries.last()));
        assert forall|t: PlacedTarget| #[trigger] rest.contains(t) && t != target implies state_of(
            cache,
            t,
        ) != state_of(cache, target) by {
            let k = choose|k: int| 0 <= k < rest.len() && rest[k] == t;
            assert(entries[k] == t);
            assert(entries.contains(t));
        }
        all_are_put(room, cache, size, gutter, bytes, rest, target, key);
        let before = all_put(room, cache.id, size, gutter, bytes, rest);
        let texture = crate::residency::target_texture(
            room,
            cache.id,
            size,
            gutter,
            bytes,
            entries.last(),
        );
        putting_a_tile(before, texture, state_of(cache, target));
        putting_a_tile(before, texture, key);
        if entries.contains(target) && entries.last() != target {
            let k = choose|k: int| 0 <= k < entries.len() && entries[k] == target;
            assert(rest[k] == target);
        }
        if !targeted(cache, entries, key) {
            assert(state_of(cache, entries[last]) != key);
            if targeted(cache, rest, key) {
                let k = choose|k: int|
                    0 <= k < rest.len() && state_of(cache, #[trigger] rest[k]) == key;
                assert(state_of(cache, entries[k]) == key);
            }
        }
    }
}

/// What comes of preparing the texture of a batch of different tiles. Nothing changes
/// where the texture has no pixels or is above the hard limit. Where a tile lies outside of
/// the texture there is none to be had. Else all tiles are ready exactly where each of them
/// is there in its size and with its gutter; where one is not, there is one new allocation
/// for all that are not, unless the cache has no room for it.
pub proof fn a_batch_is_prepared_as_a_whole(
    model: ResidencyModel,
    cache: RasterCacheIdentity,
    size: DeviceSize,
    gutter: i32,
    targets: Seq<PlacedTarget>,
    texture_size: DeviceSize,
    protected: Seq<CachedRasterTextureKey>,
)
    requires
        keys_distinct(model.textures),
        targets_distinct(targets),
        model.next_allocation < u64::MAX,
    ensures
        ({
            let (after, prepared) = model.batch_prepared(
                cache,
                size,
                gutter,
                targets,
                texture_size,
                protected,
            );
            let bytes = texture_size.width * texture_size.height * 4;
            &&& !possible(cache, texture_size) ==> prepared is None && after == model
            &&& any_outside(targets, size, texture_size) ==> prepared is None
            &&& prepared == Some(PreparedRasterBatchTexture::AlreadyReady) <==> {
                &&& possible(cache, texture_size)
                &&& !any_outside(targets, size, texture_size)
                &&& forall|j: int|
                    0 <= j < targets.len() ==> ready(
                        model.textures,
                        state_of(cache, #[trigger] targets[j]),
                        size,
                        gutter,
                    )
            }
            &&& prepared is Some && prepared->0 != PreparedRasterBatchTexture::AlreadyReady
                ==> prepared->0 == PreparedRasterBatchTexture::Allocated(model.next_allocation)
                && after.next_allocation == model.next_allocation + 1
            &&& prepared is None || prepared->0 == PreparedRasterBatchTexture::AlreadyReady
                ==> after.next_allocation == model.next_allocation
            &&& prepared is None && possible(cache, texture_size) && !any_outside(
                targets,
                size,
                texture_size,
            ) ==> after.resident_bytes(cache.id) + bytes > cache.config.hard()
            &&& after.frame_index == model.frame_index
        }),
{
    let bytes = texture_size.width * texture_size.height * 4;
    let hard = cache.config.hard();
    a_pixel_takes_four_bytes(texture_size, hard);
    let scan = model.scanned(cache, size, gutter, targets, texture_size);
    scanning_sorts_the_targets(
        model,
        cache,
        size,
        gutter,
        targets,
        texture_size,
        key_of(cache.id, 0, 0),
    );
    trimming_keeps_counters(scan.model, cache.id, texture_bytes(texture_size), hard, protected);
    if !scan.misplaced {
        if scan.entries.len() == 0 {
            assert forall|j: int| 0 <= j < targets.len() implies ready(
                model.textures,
                state_of(cache, #[trigger] targets[j]),
                size,
                gutter,
            ) by {
                assert(targets.contains(targets[j]));
                assert(!scan.entries.contains(targets[j]));
            }
        } else {
            let target = scan.entries[0];
            assert(scan.entries.contains(target));
            let j = choose|j: int| 0 <= j < targets.len() && targets[j] == target;
            assert(!ready(model.textures, state_of(cache, targets[j]), size, gutter));
        }
    }
}

/// Where the texture of a batch of different tiles is prepared, every tile of it that the
/// frame protects is there afterwards: one that was ready as it was, and noted as used now;
/// any other in the new allocation, at its own place in it, in its size and with its
/// gutter, used now, and paid for with the four bytes a pixel of the whole texture.
pub proof fn every_tile_of_a_batch_is_there(
    model: ResidencyModel,
    cache: RasterCacheIdentity,
    size: DeviceSize,
    gutter: i32,
    targets: Seq<PlacedTarget>,
    texture_size: DeviceSize,
    protected: Seq<CachedRasterTextureKey>,
    j: int,
)
    requires
        keys_distinct(model.textures),
        targets_distinct(targets),
        0 <= j < targets.len(),
        protected.contains(state_of(cache, targets[j])),
        model.batch_prepared(cache, size, gutter, targets, texture_size, protected).1 is Some,
    ensures
        ({
            let (after, prepared) = model.batch_prepared(
                cache,
                size,
                gutter,
                targets,
                texture_size,
                protected,
            );
            let target = targets[j];
            let key = state_of(cache, target);
            if ready(model.textures, key, size, gutter) {
                tile(after.textures, key) == Some(
                    CachedRasterTexture {
                        last_used_frame: model.frame_index,
                        ..tile(model.textures, key)->0
                    },
                )
            } else {
                &&& prepared->0 == PreparedRasterBatchTexture::Allocated(model.next_allocation)
                &&& tile(after.textures, key) matches Some(tile) && {
                    &&& tile.key == key
                    &&& tile.allocation == model.next_allocation
                    &&& tile.bytes == texture_size.width * texture_size.height * 4
                    &&& tile.source_x == target.source_x
                    &&& tile.source_y == target.source_y
                    &&& tile.source_size == size
                    &&& tile.gutter == (if gutter > 0 {
                        gutter as int
                    } else {
                        0
                    })
                    &&& tile.last_used_frame == model.frame_index
                }
            }
        }),
{
    let bytes = texture_bytes(texture_size);
    let hard = cache.config.hard();
    let target = targets[j];
    let key = state_of(cache, target);
    a_pixel_takes_four_bytes(texture_size, hard);
    let scan = model.scanned(cache, size, gutter, targets, texture_size);
    scanning_sorts_the_targets(model, cache, size, gutter, targets, texture_size, key);
    assert(targeted(cache, targets, key));
    assert(targets.contains(target));
    let room = scan.model.trimmed(cache.id, bytes, hard, protected);
    trimming_keeps_counters(scan.model, cache.id, bytes, hard, protected);
    trimming_leaves_what_it_may_not_take(scan.model, cache.id, bytes, hard, protected, key);
    assert(scan.entries.contains(target) == !ready(model.textures, key, size, gutter));
    if scan.entries.len() > 0 {
        assert forall|t: PlacedTarget| #[trigger] scan.entries.contains(t) && t != target implies
            state_of(cache, t) != key by {
            let k = choose|k: int| 0 <= k < targets.len() && targets[k] == t;
            if k < j {
                assert(target_key(0, targets[k]) != target_key(0, targets[j]));
            } else {
                assert(target_key(0, targets[j]) != target_key(0, targets[k]));
            }
        }
        all_are_put(room, cache, size, gutter, bytes as usize, scan.entries, target, key);
        if ready(model.textures, key, size, gutter) && targeted(cache, scan.entries, key) {
            let k = choose|k: int|
                0 <= k < scan.entries.len() && state_of(cache, #[trigger] scan.entries[k]) == key;
            assert(scan.entries.contains(scan.entries[k]));
        }
    }
}

/// Preparing the texture of a batch leaves every tile alone that is no tile of the batch
/// and that belongs to another cache or is protected.
pub proof fn a_batch_leaves_other_tiles_alone(
    model: ResidencyModel,
    cache: RasterCacheIdentity,
    size: DeviceSize,
    gutter: i32,
    targets: Seq<PlacedTarget>,
    texture_size: DeviceSize,
    protected: Seq<CachedRasterTextureKey>,
    key: CachedRasterTextureKey,
)
    requires
        keys_distinct(model.textures),
        targets_distinct(targets),
        !targeted(cache, targets, key),
        key.cache_id != cache.id || protected.contains(key) || tile(model.textures, key) is None,
    ensures
        tile(
            model.batch_prepared(cache, size, gutter, targets, texture_size, protected).0.textures,
            key,
        ) == tile(model.textures, key),
{
    let bytes = texture_bytes(texture_size);
    let hard = cache.config.hard();
    let scan = model.scanned(cache, size, gutter, targets, texture_size);
    scanning_sorts_the_targets(model, cache, size, gutter, targets, texture_size, key);
    let room = scan.model.trimmed(cache.id, bytes, hard, protected);
    trimming_leaves_what_it_may_not_take(scan.model, cache.id, bytes, hard, protected, key);
    if !scan.misplaced && scan.entries.len() > 0 {
        assert(!targeted(cache, scan.entries, key)) by {
            if targeted(cache, scan.entries, key) {
                let k = choose|k: int|
                    0 <= k < scan.entries.len() && state_of(cache, #[trigger] scan.entries[k])
                        == key;
                assert(scan.entries.contains(scan.entries[k]));
                let j = choose|j: int| 0 <= j < targets.len() && targets[j] == scan.entries[k];
                assert(state_of(cache, targets[j]) == key);
            }
        }
        let target = scan.entries[0];
        assert(scan.entries.contains(target));
        assert forall|t: PlacedTarget| #[trigger] scan.entries.contains(t) && t != target implies
            state_of(cache, t) != state_of(cache, target) by {
            let a = choose|a: int| 0 <= a < targets.len() && targets[a] == t;
            let b = choose|b: int| 0 <= b < targets.len() && targets[b] == target;
            if a < b {
                assert(target_key(0, targets[a]) != target_key(0, targets[b]));
            } else {
                assert(target_key(0, targets[b]) != target_key(0, targets[a]));
            }
        }
        all_are_put(room, cache, size, gutter, bytes as usize, scan.entries, target, key);
    }
}

/// Preparing a texture keeps every tile there at most once.
pub proof fn preparing_keeps_tiles_apart(
    model: ResidencyModel,
    cache: RasterCacheIdentity,
    key: CachedRasterTextureKey,
    size: DeviceSize,
    gutter: i32,
    protected: Seq<CachedRasterTextureKey>,
)
    requires
        keys_distinct(model.textures),
    ensures
        keys_distinct(model.prepared(cache, key, size, gutter, protected).0.textures),
{
    let hard = cache.config.hard();
    let bytes = texture_bytes(size);
    let i = index_of(model.textures, key);
    index_of_finds(model.textures, key);
    if i >= 0 {
        replacing_a_tile(
            model.textures,
            i,
            CachedRasterTexture { last_used_frame: model.frame_index, ..model.textures[i] },
            key,
        );
        taking_a_tile_out(model.textures, i, key);
    }
    let removed = model.removed(key, false);
    trimming_keeps_keys_distinct(removed, cache.id, bytes, hard, protected);
    let room = model.room_made(cache, key, size, protected);
    putting_a_tile(
        room.textures,
        CachedRasterTexture {
            key,
            allocation: room.next_allocation,
            bytes: bytes as usize,
            source_x: 0,
            source_y: 0,
            source_size: size,
            gutter: side(gutter) as u32,
            last_used_frame: room.frame_index,
        },
        key,
    );
}

/// Preparing the texture of a batch of different tiles keeps every tile there at most once.
pub proof fn batch_preparing_keeps_tiles_apart(
    model: ResidencyModel,
    cache: RasterCacheIdentity,
    size: DeviceSize,
    gutter: i32,
    targets: Seq<PlacedTarget>,
    texture_size: DeviceSize,
    protected: Seq<CachedRasterTextureKey>,
)
    requires
        keys_distinct(model.textures),
        targets_distinct(targets),
    ensures
        keys_distinct(
            model.batch_prepared(cache, size, gutter, targets, texture_size, protected).0.textures,
        ),
{
    let bytes = texture_bytes(texture_size);
    let hard = cache.config.hard();
    let key = key_of(cache.id, 0, 0);
    let scan = model.scanned(cache, size, gutter, targets, texture_size);
    scanning_sorts_the_targets(model, cache, size, gutter, targets, texture_size, key);
    let room = scan.model.trimmed(cache.id, bytes, hard, protected);
    trimming_keeps_keys_distinct(scan.model, cache.id, bytes, hard, protected);
    if !scan.misplaced && scan.entries.len() > 0 {
        let target = scan.entries[0];
        assert(scan.entries.contains(target));
        assert forall|t: PlacedTarget| #[trigger] scan.entries.contains(t) && t != target implies
            state_of(cache, t) != state_of(cache, target) by {
            let a = choose|a: int| 0 <= a < targets.len() && targets[a] == t;
            let b = choose|b: int| 0 <= b < targets.len() && targets[b] == target;
            if a < b {
                assert(target_key(0, targets[a]) != target_key(0, targets[b]));
            } else {
                assert(target_key(0, targets[b]) != target_key(0, targets[a]));
            }
        }
        all_are_put(room, cache, size, gutter, bytes as usize, scan.entries, target, key);
    }
}

} // verus!
