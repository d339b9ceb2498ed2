//! Which raster tiles are on the device.
//!
//! A tile lives in an allocation, alone or with the other tiles of its batch. A
//! cache pays for an allocation as long as one tile is left in it, and for every
//! tile one place. Before a cache grows past its hard limit, and after a frame
//! down to its soft limit, the tiles used longest ago are removed, but for those
//! that the frame needs.
use vstd::prelude::*;

use crate::geometry::DeviceSize;
use crate::image_comparison::{accumulated, RasterComparisonSample};
use crate::raster_cache::{
    one_more_handle, RasterCacheHandle, RasterCacheIdentity, RasterCacheOwners, RasterCacheStats,
    RasterTileHit, RasterTileKey, RasterTileLookup, RasterTileMiss, RasterTileRevision,
};

verus! {

/// Which state of which tile of which cache it is.
#[derive(Clone, Copy, Debug, PartialEq, Eq, Structural)]
pub struct CachedRasterTextureKey {
    pub cache_id: u64,
    pub tile_key: u64,
    pub revision: u64,
}

/// The key of a state of a tile of a cache.
pub fn cached_raster_texture_key(cache_id: u64, tile_key: u64, revision: u64) -> (key:
    CachedRasterTextureKey)
    ensures
        key == (CachedRasterTextureKey { cache_id, tile_key, revision }),
{
    CachedRasterTextureKey { cache_id, tile_key, revision }
}

/// A tile on the device.
#[derive(Clone, Copy, Debug, PartialEq, Eq, Structural)]
pub struct CachedRasterTexture {
    pub key: CachedRasterTextureKey,
    /// The allocation that holds the tile, and its size.
    pub allocation: u64,
    pub bytes: usize,
    /// Where the tile lies in the allocation.
    pub source_x: i32,
    pub source_y: i32,
    pub source_size: DeviceSize,
    pub gutter: u32,
    pub last_used_frame: u64,
}

/// What comparisons with a direct rendering have shown.
#[derive(Clone, Copy, Debug, PartialEq, Eq, Structural)]
pub struct RasterComparisonStats {
    pub samples: u64,
    pub min_ssim_ppb: u32,
    pub p99_channel_error: u8,
    pub max_channel_error: u8,
}

impl RasterComparisonStats {
    /// Nothing was compared.
    pub open spec fn zero() -> RasterComparisonStats {
        RasterComparisonStats {
            samples: 0,
            min_ssim_ppb: 0,
            p99_channel_error: 0,
            max_channel_error: 0,
        }
    }
}

/// The account of a cache. One that is opened after another was given up has another
/// number.
#[derive(Clone, Copy, Debug, PartialEq, Eq, Structural)]
pub struct RasterNamespace {
    pub cache_id: u64,
    pub number: u64,
    pub stats: RasterCacheStats,
    pub comparisons: RasterComparisonStats,
}

impl RasterNamespace {
    /// An account with nothing on it.
    pub open spec fn spec_new(cache_id: u64, number: u64) -> RasterNamespace {
        RasterNamespace {
            cache_id,
            number,
            stats: RasterCacheStats::zero(),
            comparisons: RasterComparisonStats::zero(),
        }
    }

    /// An account with nothing on it.
    pub fn new(cache_id: u64, number: u64) -> (namespace: RasterNamespace)
        ensures
            namespace == RasterNamespace::spec_new(cache_id, number),
    {
        RasterNamespace {
            cache_id,
            number,
            stats: RasterCacheStats::default(),
            comparisons: RasterComparisonStats {
                samples: 0,
                min_ssim_ppb: 0,
                p99_channel_error: 0,
                max_channel_error: 0,
            },
        }
    }
}

/// A tile of a batch, with its place in the batch's texture.
#[derive(Clone, Copy, Debug, PartialEq, Eq, Structural)]
pub struct PlacedTarget {
    pub key: RasterTileKey,
    pub revision: RasterTileRevision,
    pub source_x: i32,
    pub source_y: i32,
}

/// A texture to rasterize a tile into.
#[derive(Clone, Copy, Debug, PartialEq, Eq, Structural)]
pub struct PreparedRasterTexture {
    pub allocation: u64,
    /// The texture is still to be made.
    pub fresh: bool,
}

/// What a batch needs to have done.
#[derive(Clone, Copy, Debug, PartialEq, Eq, Structural)]
pub enum PreparedRasterBatchTexture {
    /// All tiles are there.
    AlreadyReady,
    /// A texture is to be made for the allocation, and the batch rasterized.
    Allocated(u64),
}

/// The tiles on the device and the accounts of the caches.
pub struct RasterResidency {
    pub textures: Vec<CachedRasterTexture>,
    pub namespaces: Vec<RasterNamespace>,
    pub next_account: u64,
    pub next_allocation: u64,
    pub frame_index: u64,
}

/// The contents of a `RasterResidency`.
pub struct ResidencyModel {
    pub textures: Seq<CachedRasterTexture>,
    pub namespaces: Seq<RasterNamespace>,
    pub next_account: u64,
    pub next_allocation: u64,
    pub frame_index: u64,
}

/// The place of a tile, or -1.
pub open spec fn index_of(
    textures: Seq<CachedRasterTexture>,
    key: CachedRasterTextureKey,
) -> int
    decreases textures.len(),
{
    if textures.len() == 0 {
        -1
    } else if textures.last().key == key {
        textures.len() - 1
    } else {
        index_of(textures.drop_last(), key)
    }
}

/// The place of a cache's account, or -1.
pub open spec fn account_of(namespaces: Seq<RasterNamespace>, cache_id: u64) -> int
    decreases namespaces.len(),
{
    if namespaces.len() == 0 {
        -1
    } else if namespaces.last().cache_id == cache_id {
        namespaces.len() - 1
    } else {
        account_of(namespaces.drop_last(), cache_id)
    }
}

/// The place of the account of a number, or -1.
pub open spec fn numbered_account(namespaces: Seq<RasterNamespace>, number: u64) -> int
    decreases namespaces.len(),
{
    if namespaces.len() == 0 {
        -1
    } else if namespaces.last().number == number {
        namespaces.len() - 1
    } else {
        numbered_account(namespaces.drop_last(), number)
    }
}

/// The number of a cache's account; zero, which no account has, where it has none.
pub open spec fn account_number(namespaces: Seq<RasterNamespace>, cache_id: u64) -> u64 {
    let i = account_of(namespaces, cache_id);
    if i < 0 {
        0
    } else {
        namespaces[i].number
    }
}

/// Whether a tile lies in the allocation.
pub open spec fn in_use(textures: Seq<CachedRasterTexture>, allocation: u64) -> bool {
    exists|i: int| 0 <= i < textures.len() && (#[trigger] textures[i]).allocation == allocation
}

/// A counter less some, but not below zero.
pub open spec fn less(a: int, b: int) -> int {
    if a >= b {
        a - b
    } else {
        0
    }
}

/// A counter of a machine word with some more on it, as far as it counts.
pub open spec fn more(a: usize, b: int) -> usize {
    if a + b > usize::MAX {
        usize::MAX
    } else {
        (a + b) as usize
    }
}

/// A counter of 64 bits with one more on it, as far as it counts.
pub open spec fn one_more(a: u64) -> u64 {
    if a == u64::MAX {
        u64::MAX
    } else {
        (a + 1) as u64
    }
}

/// Whether a tile may be removed for the sake of others of its cache.
pub open spec fn evictable(
    texture: CachedRasterTexture,
    cache_id: u64,
    protected: Seq<CachedRasterTextureKey>,
) -> bool {
    texture.key.cache_id == cache_id && !protected.contains(texture.key)
}

/// The place of the tile used longest ago among the first `n` that may be
/// removed, the first of several; -1 where there is none.
pub open spec fn oldest(
    textures: Seq<CachedRasterTexture>,
    cache_id: u64,
    protected: Seq<CachedRasterTextureKey>,
    n: int,
) -> int
    decreases n,
{
    if n <= 0 {
        -1
    } else {
        let best = oldest(textures, cache_id, protected, n - 1);
        if !evictable(textures[n - 1], cache_id, protected) {
            best
        } else if best < 0 || textures[n - 1].last_used_frame < textures[best].last_used_frame {
            n - 1
        } else {
            best
        }
    }
}

/// The bytes of a texture of four bytes a pixel; a negative side counts as none.
pub open spec fn texture_bytes(size: DeviceSize) -> int {
    side(size.width) * side(size.height) * 4
}

/// A side without a sign.
pub open spec fn side(length: i32) -> int {
    if length > 0 {
        length as int
    } else {
        0
    }
}

/// Whether a texture has pixels and fits a limit.
pub open spec fn allocatable(size: DeviceSize, limit: usize) -> bool {
    side(size.width) > 0 && side(size.height) > 0 && texture_bytes(size) <= limit
}

/// The account after a tile was removed.
pub open spec fn account_less_tile(
    namespace: RasterNamespace,
    texture: CachedRasterTexture,
    released: bool,
    evicted: bool,
) -> RasterNamespace {
    let stats = namespace.stats;
    RasterNamespace {
        stats: RasterCacheStats {
            resident_bytes: if released {
                less(stats.resident_bytes as int, texture.bytes as int) as usize
            } else {
                stats.resident_bytes
            },
            resident_tiles: less(stats.resident_tiles as int, 1) as usize,
            evicted_tiles: if evicted {
                one_more(stats.evicted_tiles)
            } else {
                stats.evicted_tiles
            },
            ..stats
        },
        ..namespace
    }
}

/// The tiles with one put in, in the place of the one it replaces.
pub open spec fn put(
    textures: Seq<CachedRasterTexture>,
    texture: CachedRasterTexture,
) -> Seq<CachedRasterTexture> {
    let i = index_of(textures, texture.key);
    if i < 0 {
        textures.push(texture)
    } else {
        textures.update(i, texture)
    }
}

/// What was done for the targets of a batch so far.
pub struct BatchScan {
    /// The tiles and accounts.
    pub model: ResidencyModel,
    /// The targets that are to be rasterized.
    pub entries: Seq<PlacedTarget>,
    /// A target lies outside of the texture.
    pub misplaced: bool,
}

impl ResidencyModel {
    /// The bytes that a cache pays for.
    pub open spec fn resident_bytes(self, cache_id: u64) -> int {
        let i = account_of(self.namespaces, cache_id);
        if i < 0 {
            0
        } else {
            self.namespaces[i].stats.resident_bytes as int
        }
    }

    /// The accounts after a tile was removed.
    pub open spec fn accounts_less_tile(
        self,
        texture: CachedRasterTexture,
        released: bool,
        evicted: bool,
    ) -> Seq<RasterNamespace> {
        let i = account_of(self.namespaces, texture.key.cache_id);
        if i < 0 {
            self.namespaces
        } else {
            self.namespaces.update(
                i,
                account_less_tile(self.namespaces[i], texture, released, evicted),
            )
        }
    }

    /// Without the tile at a place. Its allocation is released with its last tile.
    pub open spec fn without(self, i: int, evicted: bool) -> ResidencyModel {
        let texture = self.textures[i];
        let rest = self.textures.remove(i);
        ResidencyModel {
            textures: rest,
            namespaces: self.accounts_less_tile(
                texture,
                !in_use(rest, texture.allocation),
                evicted,
            ),
            ..self
        }
    }

    /// Without a tile.
    pub open spec fn removed(self, key: CachedRasterTextureKey, evicted: bool) -> ResidencyModel {
        let i = index_of(self.textures, key);
        if i < 0 {
            self
        } else {
            self.without(i, evicted)
        }
    }

    /// With the tile at a place used in the present frame.
    pub open spec fn touched(self, i: int) -> ResidencyModel {
        ResidencyModel {
            textures: self.textures.update(
                i,
                CachedRasterTexture { last_used_frame: self.frame_index, ..self.textures[i] },
            ),
            ..self
        }
    }

    /// Whether a cache can take on so many bytes within a limit.
    pub open spec fn fits(self, cache_id: u64, bytes: int, limit: usize) -> bool {
        self.resident_bytes(cache_id) + bytes <= limit
    }

    /// The place of the tile to remove next for a cache, or -1.
    pub open spec fn victim(self, cache_id: u64, protected: Seq<CachedRasterTextureKey>) -> int {
        oldest(self.textures, cache_id, protected, self.textures.len() as int)
    }

    /// Without the tiles of a cache that were used longest ago, until it can take
    /// on so many bytes within a limit, or no tile is left that may be removed.
    pub open spec fn trimmed(
        self,
        cache_id: u64,
        bytes: int,
        limit: usize,
        protected: Seq<CachedRasterTextureKey>,
    ) -> ResidencyModel
        decreases self.textures.len(),
    {
        if self.fits(cache_id, bytes, limit) {
            self
        } else {
            let i = self.victim(cache_id, protected);
            if !(0 <= i < self.textures.len()) {
                self
            } else {
                self.without(i, true).trimmed(cache_id, bytes, limit, protected)
            }
        }
    }

    /// The number of the next account, after the cache has got one.
    pub open spec fn next_account_with(self, cache_id: u64) -> u64 {
        if account_of(self.namespaces, cache_id) >= 0 {
            self.next_account
        } else if self.next_account == u64::MAX {
            1
        } else {
            (self.next_account + 1) as u64
        }
    }

    /// The accounts with an allocation of a cache and its tiles put on.
    pub open spec fn accounts_with(self, cache_id: u64, bytes: int, tiles: int) -> Seq<
        RasterNamespace,
    > {
        let i = account_of(self.namespaces, cache_id);
        let opened = if i < 0 {
            self.namespaces.push(RasterNamespace::spec_new(cache_id, self.next_account))
        } else {
            self.namespaces
        };
        let at = if i < 0 {
            self.namespaces.len() as int
        } else {
            i
        };
        let account = opened[at];
        opened.update(
            at,
            RasterNamespace {
                stats: RasterCacheStats {
                    resident_bytes: more(account.stats.resident_bytes, bytes),
                    resident_tiles: more(account.stats.resident_tiles, tiles),
                    ..account.stats
                },
                ..account
            },
        )
    }

    /// Whether a tile is there with a size.
    pub open spec fn has_sized(self, key: CachedRasterTextureKey, size: DeviceSize) -> bool {
        let i = index_of(self.textures, key);
        i >= 0 && side(self.textures[i].source_size.width) == side(size.width) && side(
            self.textures[i].source_size.height,
        ) == side(size.height)
    }

    /// Whether a tile is there with exactly this size and gutter.
    pub open spec fn has_ready(
        self,
        key: CachedRasterTextureKey,
        size: DeviceSize,
        gutter: i32,
    ) -> bool {
        let i = index_of(self.textures, key);
        i >= 0 && self.textures[i].source_size == size && self.textures[i].gutter as int == side(
            gutter,
        )
    }

    /// Room for a new tile is made in this state: the tile's outdated state is gone
    /// and so are the tiles that had to be evicted.
    pub open spec fn room_made(
        self,
        cache: RasterCacheIdentity,
        key: CachedRasterTextureKey,
        size: DeviceSize,
        protected: Seq<CachedRasterTextureKey>,
    ) -> ResidencyModel {
        self.removed(key, false).trimmed(
            cache.id,
            texture_bytes(size),
            cache.config.hard(),
            protected,
        )
    }

    /// After a texture was prepared for a tile, and the texture: none for a size
    /// without pixels or above the hard limit; the one that is there; else a new
    /// one, if room can be made for it.
    pub open spec fn prepared(
        self,
        cache: RasterCacheIdentity,
        key: CachedRasterTextureKey,
        size: DeviceSize,
        gutter: i32,
        protected: Seq<CachedRasterTextureKey>,
    ) -> (ResidencyModel, Option<PreparedRasterTexture>) {
        if !allocatable(size, cache.config.hard()) {
            (self, None)
        } else if self.has_sized(key, size) {
            let i = index_of(self.textures, key);
            (
                self.touched(i),
                Some(
                    PreparedRasterTexture { allocation: self.textures[i].allocation, fresh: false },
                ),
            )
        } else {
            let room = self.room_made(cache, key, size, protected);
            if !room.fits(cache.id, texture_bytes(size), cache.config.hard()) {
                (room, None)
            } else {
                (
                    ResidencyModel {
                        textures: put(
                            room.textures,
                            CachedRasterTexture {
                                key,
                                allocation: room.next_allocation,
                                bytes: texture_bytes(size) as usize,
                                source_x: 0,
                                source_y: 0,
                                source_size: size,
                                gutter: side(gutter) as u32,
                                last_used_frame: room.frame_index,
                            },
                        ),
                        namespaces: room.accounts_with(cache.id, texture_bytes(size), 1),
                        next_account: room.next_account_with(cache.id),
                        next_allocation: (room.next_allocation + 1) as u64,
                        ..room
                    },
                    Some(
                        PreparedRasterTexture { allocation: room.next_allocation, fresh: true },
                    ),
                )
            }
        }
    }

    /// What is done for one target of a batch: nothing more once one lies outside
    /// of the texture; a tile that is ready is used; an outdated one is removed.
    pub open spec fn scanned(
        self,
        cache: RasterCacheIdentity,
        tile_size: DeviceSize,
        gutter: i32,
        targets: Seq<PlacedTarget>,
        texture_size: DeviceSize,
    ) -> BatchScan
        decreases targets.len(),
    {
        if targets.len() == 0 {
            BatchScan { model: self, entries: Seq::empty(), misplaced: false }
        } else {
            let scan = self.scanned(cache, tile_size, gutter, targets.drop_last(), texture_size);
            let target = targets.last();
            let key = target_key(cache.id, target);
            if scan.misplaced || misplaced(target, tile_size, texture_size) {
                BatchScan { misplaced: true, ..scan }
            } else if scan.model.has_ready(key, tile_size, gutter) {
                BatchScan {
                    model: scan.model.touched(index_of(scan.model.textures, key)),
                    ..scan
                }
            } else {
                BatchScan {
                    model: scan.model.removed(key, false),
                    entries: scan.entries.push(target),
                    ..scan
                }
            }
        }
    }

    /// After a texture was prepared for a batch, and what is to be done: nothing
    /// for a texture without pixels or above the hard limit, or a target outside of
    /// it; nothing more where all tiles are ready; else one new allocation for all
    /// tiles that are not, if room can be made for it.
    pub open spec fn batch_prepared(
        self,
        cache: RasterCacheIdentity,
        tile_size: DeviceSize,
        gutter: i32,
        targets: Seq<PlacedTarget>,
        texture_size: DeviceSize,
        protected: Seq<CachedRasterTextureKey>,
    ) -> (ResidencyModel, Option<PreparedRasterBatchTexture>) {
        let bytes = texture_bytes(texture_size);
        let hard = cache.config.hard();
        if !allocatable(texture_size, hard) {
            (self, None)
        } else {
            let scan = self.scanned(cache, tile_size, gutter, targets, texture_size);
            if scan.misplaced {
                (scan.model, None)
            } else if scan.entries.len() == 0 {
                (scan.model, Some(PreparedRasterBatchTexture::AlreadyReady))
            } else {
                let room = scan.model.trimmed(cache.id, bytes, hard, protected);
                if !room.fits(cache.id, bytes, hard) {
                    (room, None)
                } else {
                    (
                        ResidencyModel {
                            textures: all_put(
                                room,
                                cache.id,
                                tile_size,
                                gutter,
                                bytes as usize,
                                scan.entries,
                            ),
                            namespaces: room.accounts_with(
                                cache.id,
                                bytes,
                                scan.entries.len() as int,
                            ),
                            next_account: room.next_account_with(cache.id),
                            next_allocation: (room.next_allocation + 1) as u64,
                            ..room
                        },
                        Some(PreparedRasterBatchTexture::Allocated(room.next_allocation)),
                    )
                }
            }
        }
    }

    /// With an account for the cache.
    pub open spec fn opened(self, cache_id: u64) -> ResidencyModel {
        if account_of(self.namespaces, cache_id) < 0 {
            ResidencyModel {
                namespaces: self.namespaces.push(
                    RasterNamespace::spec_new(cache_id, self.next_account),
                ),
                next_account: self.next_account_with(cache_id),
                ..self
            }
        } else {
            self
        }
    }

    /// With a lookup counted on a cache's account.
    pub open spec fn looked_up(self, cache_id: u64, hit: bool) -> ResidencyModel {
        let i = account_of(self.namespaces, cache_id);
        let account = self.namespaces[i];
        let stats = if hit {
            RasterCacheStats { hits: one_more(account.stats.hits), ..account.stats }
        } else {
            RasterCacheStats { misses: one_more(account.stats.misses), ..account.stats }
        };
        ResidencyModel {
            namespaces: self.namespaces.update(i, RasterNamespace { stats, ..account }),
            ..self
        }
    }

    /// After a lookup, and what it found.
    pub open spec fn lookup(
        self,
        cache: RasterCacheIdentity,
        key: RasterTileKey,
        revision: RasterTileRevision,
    ) -> (ResidencyModel, RasterTileLookup) {
        let opened = self.opened(cache.id);
        let i = index_of(
            self.textures,
            CachedRasterTextureKey {
                cache_id: cache.id,
                tile_key: key.number,
                revision: revision.number,
            },
        );
        if i >= 0 {
            (
                opened.touched(i).looked_up(cache.id, true),
                RasterTileLookup::Hit(
                    RasterTileHit {
                        cache: RasterCacheHandle { identity: cache },
                        key,
                        revision,
                        gutter: self.textures[i].gutter,
                    },
                ),
            )
        } else {
            (
                opened.looked_up(cache.id, false),
                RasterTileLookup::Miss(
                    RasterTileMiss {
                        cache: RasterCacheHandle { identity: cache },
                        key,
                        revision,
                    },
                ),
            )
        }
    }

    /// The counters of a cache.
    pub open spec fn stats_of(self, cache_id: u64) -> RasterCacheStats {
        let i = account_of(self.namespaces, cache_id);
        if i < 0 {
            RasterCacheStats::zero()
        } else {
            let account = self.namespaces[i];
            RasterCacheStats {
                comparison_samples: account.comparisons.samples,
                comparison_min_ssim_ppb: account.comparisons.min_ssim_ppb,
                comparison_p99_channel_error: account.comparisons.p99_channel_error,
                comparison_max_channel_error: account.comparisons.max_channel_error,
                ..account.stats
            }
        }
    }

    /// With a comparison on the account of a number, if it is still there.
    pub open spec fn compared(
        self,
        number: u64,
        sample: RasterComparisonSample,
    ) -> ResidencyModel {
        let i = numbered_account(self.namespaces, number);
        if i < 0 {
            self
        } else {
            ResidencyModel {
                namespaces: self.namespaces.update(
                    i,
                    RasterNamespace {
                        comparisons: accumulated(self.namespaces[i].comparisons, sample),
                        ..self.namespaces[i]
                    },
                ),
                ..self
            }
        }
    }

    /// Without the tiles and the accounts of all caches but those that `kept`
    /// names.
    pub open spec fn keeping(self, kept: spec_fn(u64) -> bool) -> ResidencyModel {
        ResidencyModel {
            textures: self.textures.filter(|texture: CachedRasterTexture| kept(
                texture.key.cache_id,
            )),
            namespaces: self.namespaces.filter(|namespace: RasterNamespace| kept(
                namespace.cache_id,
            )),
            ..self
        }
    }
}

/// The tile used longest ago may be removed, and none that may be removed was used
/// before it.
pub proof fn oldest_is_evictable(
    textures: Seq<CachedRasterTexture>,
    cache_id: u64,
    protected: Seq<CachedRasterTextureKey>,
    n: int,
)
    requires
        0 <= n <= textures.len(),
    ensures
        ({
            let i = oldest(textures, cache_id, protected, n);
            &&& -1 <= i < n
            &&& i >= 0 ==> evictable(textures[i], cache_id, protected)
            &&& i >= 0 ==> forall|j: int|
                0 <= j < n && evictable(#[trigger] textures[j], cache_id, protected)
                    ==> textures[i].last_used_frame <= textures[j].last_used_frame
            &&& i < 0 ==> forall|j: int|
                0 <= j < n ==> !evictable(#[trigger] textures[j], cache_id, protected)
        }),
    decreases n,
{
    if n > 0 {
        oldest_is_evictable(textures, cache_id, protected, n - 1);
    }
}

/// The key of a target of a batch.
pub open spec fn target_key(cache_id: u64, target: PlacedTarget) -> CachedRasterTextureKey {
    CachedRasterTextureKey {
        cache_id,
        tile_key: target.key.number,
        revision: target.revision.number,
    }
}

/// The sum of two coordinates as far as 32 bits hold it.
pub open spec fn far_edge(origin: i32, length: i32) -> int {
    if origin + length > i32::MAX {
        i32::MAX as int
    } else if origin + length < i32::MIN {
        i32::MIN as int
    } else {
        origin + length
    }
}

/// Whether a target lies outside of the texture of its batch.
pub open spec fn misplaced(
    target: PlacedTarget,
    tile_size: DeviceSize,
    texture_size: DeviceSize,
) -> bool {
    ||| target.source_x < 0
    ||| target.source_y < 0
    ||| far_edge(target.source_x, tile_size.width) > texture_size.width
    ||| far_edge(target.source_y, tile_size.height) > texture_size.height
}

/// The tile of a target in the next allocation.
pub open spec fn target_texture(
    room: ResidencyModel,
    cache_id: u64,
    tile_size: DeviceSize,
    gutter: i32,
    bytes: usize,
    target: PlacedTarget,
) -> CachedRasterTexture {
    CachedRasterTexture {
        key: target_key(cache_id, target),
        allocation: room.next_allocation,
        bytes,
        source_x: target.source_x,
        source_y: target.source_y,
        source_size: tile_size,
        gutter: side(gutter) as u32,
        last_used_frame: room.frame_index,
    }
}

/// The tiles with those of all targets put in, in sequence.
pub open spec fn all_put(
    room: ResidencyModel,
    cache_id: u64,
    tile_size: DeviceSize,
    gutter: i32,
    bytes: usize,
    targets: Seq<PlacedTarget>,
) -> Seq<CachedRasterTexture>
    decreases targets.len(),
{
    if targets.len() == 0 {
        room.textures
    } else {
        put(
            all_put(room, cache_id, tile_size, gutter, bytes, targets.drop_last()),
            target_texture(room, cache_id, tile_size, gutter, bytes, targets.last()),
        )
    }
}

/// A place that was found holds what was looked for.
pub proof fn index_of_finds(textures: Seq<CachedRasterTexture>, key: CachedRasterTextureKey)
    ensures
        -1 <= index_of(textures, key) < textures.len(),
        index_of(textures, key) >= 0 ==> textures[index_of(textures, key)].key == key,
        index_of(textures, key) < 0 ==> forall|i: int|
            0 <= i < textures.len() ==> (#[trigger] textures[i]).key != key,
    decreases textures.len(),
{
    if textures.len() > 0 && textures.last().key != key {
        let rest = textures.drop_last();
        index_of_finds(rest, key);
        if index_of(rest, key) < 0 {
            assert forall|i: int| 0 <= i < textures.len() implies (#[trigger] textures[i]).key
                != key by {
                if i < rest.len() {
                    assert(rest[i].key != key);
                }
            }
        }
    }
}

/// An account that was found is that of the cache.
pub proof fn account_of_finds(namespaces: Seq<RasterNamespace>, cache_id: u64)
    ensures
        -1 <= account_of(namespaces, cache_id) < namespaces.len(),
        account_of(namespaces, cache_id) >= 0 ==> namespaces[account_of(
            namespaces,
            cache_id,
        )].cache_id == cache_id,
        account_of(namespaces, cache_id) < 0 ==> forall|i: int|
            0 <= i < namespaces.len() ==> (#[trigger] namespaces[i]).cache_id != cache_id,
    decreases namespaces.len(),
{
    if namespaces.len() > 0 && namespaces.last().cache_id != cache_id {
        let rest = namespaces.drop_last();
        account_of_finds(rest, cache_id);
        if account_of(rest, cache_id) < 0 {
            assert forall|i: int| 0 <= i < namespaces.len() implies (
            #[trigger] namespaces[i]).cache_id != cache_id by {
                if i < rest.len() {
                    assert(rest[i].cache_id != cache_id);
                }
            }
        }
    }
}

fn is_protected(protected: &Vec<CachedRasterTextureKey>, key: CachedRasterTextureKey) -> (found: bool)
    ensures
        found == protected@.contains(key),
{
    let mut i: usize = 0;
    while i < protected.len()
        invariant
            i <= protected@.len(),
            forall|k: int| 0 <= k < i ==> protected@[k] != key,
        decreases protected@.len() - i,
    {
        if protected[i] == key {
            assert(protected@[i as int] == key);
            return true;
        }
        i = i + 1;
    }
    false
}

fn side_of(length: i32) -> (result: u64)
    ensures
        result as int == side(length),
        result <= i32::MAX,
{
    if length > 0 {
        length as u64
    } else {
        0
    }
}

/// The bytes of a texture that has pixels and fits a limit.
fn allocation_bytes(size: DeviceSize, limit: usize) -> (bytes: Option<usize>)
    ensures
        bytes is Some <==> allocatable(size, limit),
        bytes is Some ==> bytes->0 as int == texture_bytes(size),
{
    let width: u64 = side_of(size.width);
    let height: u64 = side_of(size.height);
    proof {
        assert(0 <= width * height <= 0x7fff_ffff * 0x7fff_ffff) by (nonlinear_arith)
            requires
                0 <= width <= 0x7fff_ffff,
                0 <= height <= 0x7fff_ffff,
        ;
        assert(0x7fff_ffff * 0x7fff_ffff * 4 <= u64::MAX);
    }
    let bytes: u64 = width * height * 4;
    if width == 0 || height == 0 || bytes > limit as u64 {
        None
    } else {
        Some(bytes as usize)
    }
}

fn is_misplaced(target: PlacedTarget, tile_size: DeviceSize, texture_size: DeviceSize) -> (result:
    bool)
    ensures
        result == misplaced(target, tile_size, texture_size),
{
    target.source_x < 0 || target.source_y < 0 || edge_of(target.source_x, tile_size.width)
        > texture_size.width as i64 || edge_of(target.source_y, tile_size.height)
        > texture_size.height as i64
}

fn edge_of(origin: i32, length: i32) -> (edge: i64)
    ensures
        edge as int == far_edge(origin, length),
{
    let sum: i64 = origin as i64 + length as i64;
    if sum > i32::MAX as i64 {
        i32::MAX as i64
    } else if sum < i32::MIN as i64 {
        i32::MIN as i64
    } else {
        sum
    }
}

impl RasterResidency {
    /// The contents.
    pub open spec fn view(&self) -> ResidencyModel {
        ResidencyModel {
            textures: self.textures@,
            namespaces: self.namespaces@,
            next_account: self.next_account,
            next_allocation: self.next_allocation,
            frame_index: self.frame_index,
        }
    }

    /// Nothing is on the device.
    pub fn new() -> (residency: RasterResidency)
        ensures
            residency@ == (ResidencyModel {
                textures: Seq::empty(),
                namespaces: Seq::empty(),
                next_account: 1,
                next_allocation: 0,
                frame_index: 0,
            }),
    {
        RasterResidency {
            textures: Vec::new(),
            namespaces: Vec::new(),
            next_account: 1,
            next_allocation: 0,
            frame_index: 0,
        }
    }

    /// Begins the next frame.
    pub fn advance_frame(&mut self) -> (frame_index: u64)
        ensures
            frame_index == (if old(self)@.frame_index == u64::MAX {
                0u64
            } else {
                (old(self)@.frame_index + 1) as u64
            }),
            final(self)@ == (ResidencyModel { frame_index, ..old(self)@ }),
    {
        self.frame_index = self.frame_index.wrapping_add(1);
        self.frame_index
    }

    /// The place of a tile on the device.
    pub fn find(&self, key: CachedRasterTextureKey) -> (place: Option<usize>)
        ensures
            place is Some <==> index_of(self@.textures, key) >= 0,
            place is Some ==> place->0 as int == index_of(self@.textures, key) && place->0
                < self@.textures.len(),
    {
        let mut i: usize = self.textures.len();
        proof {
            assert(self.textures@.take(i as int) =~= self.textures@);
        }
        while i > 0
            invariant
                i <= self.textures@.len(),
                index_of(self.textures@, key) == index_of(self.textures@.take(i as int), key),
            decreases i,
        {
            i = i - 1;
            proof {
                let part = self.textures@.take(i + 1);
                assert(part.last() == self.textures@[i as int]);
                assert(part.drop_last() =~= self.textures@.take(i as int));
            }
            if self.textures[i].key == key {
                return Some(i);
            }
        }
        None
    }

    fn find_account(&self, cache_id: u64) -> (place: Option<usize>)
        ensures
            place is Some <==> account_of(self@.namespaces, cache_id) >= 0,
            place is Some ==> place->0 as int == account_of(self@.namespaces, cache_id)
                && place->0 < self@.namespaces.len(),
    {
        let mut i: usize = self.namespaces.len();
        proof {
            assert(self.namespaces@.take(i as int) =~= self.namespaces@);
        }
        while i > 0
            invariant
                i <= self.namespaces@.len(),
                account_of(self.namespaces@, cache_id) == account_of(
                    self.namespaces@.take(i as int),
                    cache_id,
                ),
            decreases i,
        {
            i = i - 1;
            proof {
                let part = self.namespaces@.take(i + 1);
                assert(part.last() == self.namespaces@[i as int]);
                assert(part.drop_last() =~= self.namespaces@.take(i as int));
            }
            if self.namespaces[i].cache_id == cache_id {
                return Some(i);
            }
        }
        None
    }

    fn is_in_use(&self, allocation: u64) -> (result: bool)
        ensures
            result == in_use(self@.textures, allocation),
    {
        let mut i: usize = 0;
        while i < self.textures.len()
            invariant
                i <= self.textures@.len(),
                forall|k: int| 0 <= k < i ==> (#[trigger] self.textures@[k]).allocation
                    != allocation,
            decreases self.textures@.len() - i,
        {
            if self.textures[i].allocation == allocation {
                assert(self@.textures[i as int].allocation == allocation);
                return true;
            }
            i = i + 1;
        }
        false
    }

    fn remove_at(&mut self, place: usize, evicted: bool)
        requires
            place < old(self)@.textures.len(),
        ensures
            final(self)@ == old(self)@.without(place as int, evicted),
    {
        let texture = self.textures.remove(place);
        let released = !self.is_in_use(texture.allocation);
        if let Some(account) = self.find_account(texture.key.cache_id) {
            let mut namespace = self.namespaces[account];
            if released {
                namespace.stats.resident_bytes =
                namespace.stats.resident_bytes.saturating_sub(texture.bytes);
            }
            namespace.stats.resident_tiles = namespace.stats.resident_tiles.saturating_sub(1);
            if evicted {
                namespace.stats.evicted_tiles = namespace.stats.evicted_tiles.saturating_add(1);
            }
            self.namespaces.set(account, namespace);
        }
    }

    /// Removes a tile, if it is there. Its cache no longer pays for its place, nor
    /// for its allocation if no other tile lies in it.
    pub fn remove_raster_texture(&mut self, key: CachedRasterTextureKey, evicted: bool)
        ensures
            final(self)@ == old(self)@.removed(key, evicted),
    {
        if let Some(place) = self.find(key) {
            self.remove_at(place, evicted);
        }
    }

    fn touch(&mut self, place: usize)
        requires
            place < old(self)@.textures.len(),
        ensures
            final(self)@ == old(self)@.touched(place as int),
    {
        let mut texture = self.textures[place];
        texture.last_used_frame = self.frame_index;
        self.textures.set(place, texture);
    }

    fn find_victim(&self, cache_id: u64, protected: &Vec<CachedRasterTextureKey>) -> (place: Option<
        usize,
    >)
        ensures
            place is Some <==> self@.victim(cache_id, protected@) >= 0,
            place is Some ==> place->0 as int == self@.victim(cache_id, protected@) && place->0
                < self@.textures.len(),
    {
        let mut best: Option<usize> = None;
        let mut i: usize = 0;
        while i < self.textures.len()
            invariant
                i <= self.textures@.len(),
                best is Some <==> oldest(self.textures@, cache_id, protected@, i as int) >= 0,
                best is Some ==> best->0 as int == oldest(
                    self.textures@,
                    cache_id,
                    protected@,
                    i as int,
                ) && best->0 < i,
            decreases self.textures@.len() - i,
        {
            let texture = self.textures[i];
            if texture.key.cache_id == cache_id && !is_protected(protected, texture.key) {
                match best {
                    Some(place) => {
                        if texture.last_used_frame < self.textures[place].last_used_frame {
                            best = Some(i);
                        }
                    },
                    None => {
                        best = Some(i);
                    },
                }
            }
            i = i + 1;
        }
        best
    }

    fn has_room_for(&self, cache_id: u64, bytes: usize, limit: usize) -> (result: bool)
        ensures
            result == self@.fits(cache_id, bytes as int, limit),
    {
        match self.find_account(cache_id) {
            Some(account) => {
                let resident: usize = self.namespaces[account].stats.resident_bytes;
                resident <= limit && bytes <= limit - resident
            },
            None => bytes <= limit,
        }
    }

    /// Removes the tiles of a cache that were used longest ago, until it can take
    /// on so many bytes within a limit. Tiles that are protected stay. Returns
    /// whether the bytes now fit.
    pub fn trim(
        &mut self,
        cache_id: u64,
        bytes: usize,
        limit: usize,
        protected: &Vec<CachedRasterTextureKey>,
    ) -> (fits: bool)
        ensures
            final(self)@ == old(self)@.trimmed(cache_id, bytes as int, limit, protected@),
            fits == final(self)@.fits(cache_id, bytes as int, limit),
    {
        let ghost before = self@;
        while !self.has_room_for(cache_id, bytes, limit)
            invariant
                before == old(self)@,
                before.trimmed(cache_id, bytes as int, limit, protected@) == self@.trimmed(
                    cache_id,
                    bytes as int,
                    limit,
                    protected@,
                ),
            decreases self@.textures.len(),
        {
            match self.find_victim(cache_id, protected) {
                Some(place) => {
                    self.remove_at(place, true);
                },
                None => {
                    return false;
                },
            }
        }
        true
    }

    fn put_texture(&mut self, texture: CachedRasterTexture)
        ensures
            final(self)@ == (ResidencyModel {
                textures: put(old(self)@.textures, texture),
                ..old(self)@
            }),
    {
        match self.find(texture.key) {
            Some(place) => {
                self.textures.set(place, texture);
            },
            None => {
                self.textures.push(texture);
            },
        }
    }

    fn open_account(&mut self, cache_id: u64) -> (account: usize)
        ensures
            final(self)@ == old(self)@.opened(cache_id),
            account as int == account_of(final(self)@.namespaces, cache_id),
            account < final(self)@.namespaces.len(),
            account as int == (if account_of(old(self)@.namespaces, cache_id) < 0 {
                old(self)@.namespaces.len() as int
            } else {
                account_of(old(self)@.namespaces, cache_id)
            }),
    {
        match self.find_account(cache_id) {
            Some(account) => account,
            None => {
                self.namespaces.push(RasterNamespace::new(cache_id, self.next_account));
                self.next_account = if self.next_account == u64::MAX {
                    1
                } else {
                    self.next_account + 1
                };
                proof {
                    assert(self@.namespaces.last().cache_id == cache_id);
                }
                self.namespaces.len() - 1
            },
        }
    }

    fn charge(&mut self, cache_id: u64, bytes: usize, tiles: usize)
        ensures
            final(self)@ == (ResidencyModel {
                namespaces: old(self)@.accounts_with(cache_id, bytes as int, tiles as int),
                next_account: old(self)@.next_account_with(cache_id),
                ..old(self)@
            }),
    {
        let account: usize = self.open_account(cache_id);
        let mut namespace = self.namespaces[account];
        namespace.stats.resident_bytes = namespace.stats.resident_bytes.saturating_add(bytes);
        namespace.stats.resident_tiles = namespace.stats.resident_tiles.saturating_add(tiles);
        self.namespaces.set(account, namespace);
    }

    /// Prepares a texture for a tile: the one that is there with the same size, or
    /// a new allocation after room was made for it within the hard limit. There is
    /// none for a size without pixels or above the limit, nor where the protected
    /// tiles leave too little room.
    pub fn prepare_raster_texture_fields(
        &mut self,
        cache: RasterCacheIdentity,
        tile_key: RasterTileKey,
        tile_revision: RasterTileRevision,
        texture_size: DeviceSize,
        gutter: i32,
        protected: &Vec<CachedRasterTextureKey>,
    ) -> (texture: Option<PreparedRasterTexture>)
        requires
            old(self)@.next_allocation < u64::MAX,
        ensures
            (final(self)@, texture) == old(self)@.prepared(
                cache,
                CachedRasterTextureKey {
                    cache_id: cache.id,
                    tile_key: tile_key.number,
                    revision: tile_revision.number,
                },
                texture_size,
                gutter,
                protected@,
            ),
    {
        let key = cached_raster_texture_key(cache.id, tile_key.value(), tile_revision.value());
        let hard: usize = cache.config.hard_limit_bytes();
        let bytes: usize = match allocation_bytes(texture_size, hard) {
            Some(bytes) => bytes,
            None => {
                return None;
            },
        };
        if let Some(place) = self.find(key) {
            let existing = self.textures[place];
            if side_of(existing.source_size.width) == side_of(texture_size.width) && side_of(
                existing.source_size.height,
            ) == side_of(texture_size.height) {
                self.touch(place);
                return Some(
                    PreparedRasterTexture { allocation: existing.allocation, fresh: false },
                );
            }
        }
        self.remove_raster_texture(key, false);
        let ghost cleared = self@;
        if !self.trim(cache.id, bytes, hard, protected) {
            return None;
        }
        proof {
            trimming_keeps_counters(cleared, cache.id, bytes as int, hard, protected@);
        }
        let allocation: u64 = self.next_allocation;
        self.next_allocation = allocation + 1;
        self.put_texture(
            CachedRasterTexture {
                key,
                allocation,
                bytes,
                source_x: 0,
                source_y: 0,
                source_size: texture_size,
                gutter: side_of(gutter) as u32,
                last_used_frame: self.frame_index,
            },
        );
        self.charge(cache.id, bytes, 1);
        Some(PreparedRasterTexture { allocation, fresh: true })
    }

    /// Prepares one texture for a batch of tiles: tiles that are ready are used as
    /// they are, the others get a place in one new allocation, after room was made
    /// for it within the hard limit. There is none for a texture without pixels or
    /// above the limit, for a tile outside of it, nor where the protected tiles
    /// leave too little room.
    pub fn prepare_raster_batch_texture(
        &mut self,
        cache: RasterCacheIdentity,
        tile_size: DeviceSize,
        gutter: i32,
        targets: &Vec<PlacedTarget>,
        texture_size: DeviceSize,
        protected: &Vec<CachedRasterTextureKey>,
    ) -> (prepared: Option<PreparedRasterBatchTexture>)
        requires
            old(self)@.next_allocation < u64::MAX,
        ensures
            (final(self)@, prepared) == old(self)@.batch_prepared(
                cache,
                tile_size,
                gutter,
                targets@,
                texture_size,
                protected@,
            ),
    {
        let ghost before = self@;
        let hard: usize = cache.config.hard_limit_bytes();
        let bytes: usize = match allocation_bytes(texture_size, hard) {
            Some(bytes) => bytes,
            None => {
                return None;
            },
        };
        let mut entries: Vec<PlacedTarget> = Vec::new();
        let mut i: usize = 0;
        proof {
            assert(targets@.take(0) =~= Seq::<PlacedTarget>::empty());
        }
        while i < targets.len()
            invariant
                i <= targets@.len(),
                before == old(self)@,
                hard == cache.config.hard(),
                allocatable(texture_size, hard),
                self@.next_allocation == before.next_allocation,
                ({
                    let scan = before.scanned(
                        cache,
                        tile_size,
                        gutter,
                        targets@.take(i as int),
                        texture_size,
                    );
                    &&& scan.model == self@
                    &&& scan.entries == entries@
                    &&& !scan.misplaced
                }),
            decreases targets@.len() - i,
        {
            let target = targets[i];
            proof {
                let part = targets@.take(i + 1);
                assert(part.last() == target);
                assert(part.drop_last() =~= targets@.take(i as int));
            }
            if is_misplaced(target, tile_size, texture_size) {
                proof {
                    misplaced_for_good(
                        before,
                        cache,
                        tile_size,
                        gutter,
                        targets@,
                        texture_size,
                        i + 1,
                    );
                }
                return None;
            }
            let key = cached_raster_texture_key(
                cache.id,
                target.key.value(),
                target.revision.value(),
            );
            let mut ready: bool = false;
            if let Some(place) = self.find(key) {
                let existing = self.textures[place];
                if existing.source_size == tile_size && existing.gutter as u64 == side_of(gutter) {
                    self.touch(place);
                    ready = true;
                }
            }
            if !ready {
                self.remove_raster_texture(key, false);
                entries.push(target);
            }
            i = i + 1;
        }
        proof {
            assert(targets@.take(i as int) =~= targets@);
        }
        if entries.len() == 0 {
            return Some(PreparedRasterBatchTexture::AlreadyReady);
        }
        let ghost cleared = self@;
        if !self.trim(cache.id, bytes, hard, protected) {
            return None;
        }
        proof {
            trimming_keeps_counters(cleared, cache.id, bytes as int, hard, protected@);
        }
        let ghost room = self@;
        let allocation: u64 = self.next_allocation;
        let mut k: usize = 0;
        proof {
            assert(entries@.take(0) =~= Seq::<PlacedTarget>::empty());
        }
        while k < entries.len()
            invariant
                k <= entries@.len(),
                allocation == room.next_allocation,
                self@ == (ResidencyModel {
                    textures: all_put(
                        room,
                        cache.id,
                        tile_size,
                        gutter,
                        bytes,
                        entries@.take(k as int),
                    ),
                    ..room
                }),
            decreases entries@.len() - k,
        {
            let target = entries[k];
            proof {
                let part = entries@.take(k + 1);
                assert(part.last() == target);
                assert(part.drop_last() =~= entries@.take(k as int));
            }
            let key = cached_raster_texture_key(
                cache.id,
                target.key.value(),
                target.revision.value(),
            );
            self.put_texture(
                CachedRasterTexture {
                    key,
                    allocation,
                    bytes,
                    source_x: target.source_x,
                    source_y: target.source_y,
                    source_size: tile_size,
                    gutter: side_of(gutter) as u32,
                    last_used_frame: self.frame_index,
                },
            );
            k = k + 1;
        }
        proof {
            assert(entries@.take(k as int) =~= entries@);
        }
        self.next_allocation = allocation + 1;
        self.charge(cache.id, bytes, entries.len());
        Some(PreparedRasterBatchTexture::Allocated(allocation))
    }

    /// Looks a tile up for the present frame, after the caches that nobody holds
    /// were given up. What is found has a handle of its own.
    pub fn raster_tile_lookup(
        &mut self,
        owners: &mut RasterCacheOwners,
        cache: &RasterCacheHandle,
        key: RasterTileKey,
        revision: RasterTileRevision,
    ) -> (found: RasterTileLookup)
        requires
            old(owners).shareable(cache.identity.id),
        ensures
            (final(self)@, found) == old(self)@.keeping(|id: u64| old(owners).held(id)).lookup(
                cache.identity,
                key,
                revision,
            ),
            final(owners).next_id == old(owners).next_id,
            final(owners)@ == one_more_handle(old(owners)@, cache.identity.id),
            final(owners).wf(),
    {
        self.prune_released_raster_caches(owners);
        let ghost pruned = self@;
        let account: usize = self.open_account(cache.id());
        let texture_key = cached_raster_texture_key(cache.id(), key.value(), revision.value());
        let mut namespace = self.namespaces[account];
        match self.find(texture_key) {
            Some(place) => {
                let gutter: u32 = self.textures[place].gutter;
                self.touch(place);
                namespace.stats.hits = namespace.stats.hits.saturating_add(1);
                self.namespaces.set(account, namespace);
                RasterTileLookup::Hit(cache.tile_hit(owners, key, revision, gutter))
            },
            None => {
                namespace.stats.misses = namespace.stats.misses.saturating_add(1);
                self.namespaces.set(account, namespace);
                RasterTileLookup::Miss(cache.tile_miss(owners, key, revision))
            },
        }
    }

    /// The counters of a cache; zeros for one without an account.
    pub fn raster_cache_stats(&self, cache: &RasterCacheHandle) -> (stats: RasterCacheStats)
        ensures
            stats == self@.stats_of(cache.identity.id),
    {
        match self.find_account(cache.id()) {
            Some(account) => {
                let namespace = self.namespaces[account];
                let mut stats = namespace.stats;
                stats.comparison_samples = namespace.comparisons.samples;
                stats.comparison_min_ssim_ppb = namespace.comparisons.min_ssim_ppb;
                stats.comparison_p99_channel_error = namespace.comparisons.p99_channel_error;
                stats.comparison_max_channel_error = namespace.comparisons.max_channel_error;
                stats
            },
            None => RasterCacheStats::default(),
        }
    }

    /// The number of a cache's account; zero where it has none.
    pub fn account_number(&self, cache_id: u64) -> (number: u64)
        ensures
            number == account_number(self@.namespaces, cache_id),
    {
        match self.find_account(cache_id) {
            Some(account) => self.namespaces[account].number,
            None => 0,
        }
    }

    /// Takes a comparison of tiles in on the account that the cache had when they were
    /// drawn. Where that was given up meanwhile the comparison is lost, also if the
    /// cache has another account by now.
    pub fn record_comparison(&mut self, number: u64, sample: RasterComparisonSample)
        ensures
            final(self)@ == old(self)@.compared(number, sample),
    {
        let mut i: usize = self.namespaces.len();
        proof {
            assert(self.namespaces@.take(i as int) =~= self.namespaces@);
        }
        while i > 0
            invariant
                self@ == old(self)@,
                i <= self.namespaces@.len(),
                numbered_account(self.namespaces@, number) == numbered_account(
                    self.namespaces@.take(i as int),
                    number,
                ),
            decreases i,
        {
            i = i - 1;
            proof {
                let part = self.namespaces@.take(i + 1);
                assert(part.last() == self.namespaces@[i as int]);
                assert(part.drop_last() =~= self.namespaces@.take(i as int));
            }
            if self.namespaces[i].number == number {
                let mut namespace = self.namespaces[i];
                namespace.comparisons.accumulate(sample);
                self.namespaces.set(i, namespace);
                return;
            }
        }
    }

    /// Gives up a cache with all of its tiles.
    pub fn release_raster_cache(&mut self, cache: &RasterCacheHandle)
        ensures
            final(self)@ == old(self)@.keeping(|id: u64| id != cache.identity.id),
    {
        let ghost kept = |id: u64| id != cache.identity.id;
        let ghost keeps_texture = |texture: CachedRasterTexture| kept(texture.key.cache_id);
        let ghost keeps_account = |namespace: RasterNamespace| kept(namespace.cache_id);
        let id: u64 = cache.id();
        let mut textures: Vec<CachedRasterTexture> = Vec::new();
        let mut i: usize = 0;
        while i < self.textures.len()
            invariant
                i <= self.textures@.len(),
                id == cache.identity.id,
                keeps_texture == (|texture: CachedRasterTexture| kept(texture.key.cache_id)),
                kept == (|id: u64| id != cache.identity.id),
                textures@ == self.textures@.take(i as int).filter(keeps_texture),
            decreases self.textures@.len() - i,
        {
            let texture = self.textures[i];
            proof {
                filter_one_more(self.textures@, keeps_texture, i as int);
            }
            if texture.key.cache_id != id {
                textures.push(texture);
            }
            i = i + 1;
        }
        let mut namespaces: Vec<RasterNamespace> = Vec::new();
        let mut j: usize = 0;
        while j < self.namespaces.len()
            invariant
                j <= self.namespaces@.len(),
                id == cache.identity.id,
                keeps_account == (|namespace: RasterNamespace| kept(namespace.cache_id)),
                kept == (|id: u64| id != cache.identity.id),
                namespaces@ == self.namespaces@.take(j as int).filter(keeps_account),
            decreases self.namespaces@.len() - j,
        {
            let namespace = self.namespaces[j];
            proof {
                filter_one_more(self.namespaces@, keeps_account, j as int);
            }
            if namespace.cache_id != id {
                namespaces.push(namespace);
            }
            j = j + 1;
        }
        proof {
            assert(self.textures@.take(i as int) =~= self.textures@);
            assert(self.namespaces@.take(j as int) =~= self.namespaces@);
        }
        self.textures = textures;
        self.namespaces = namespaces;
    }

    /// Gives up the caches that nobody holds any more, with all of their tiles.
    pub fn prune_released_raster_caches(&mut self, owners: &RasterCacheOwners)
        ensures
            final(self)@ == old(self)@.keeping(|id: u64| owners.held(id)),
    {
        let ghost kept = |id: u64| owners.held(id);
        let ghost keeps_texture = |texture: CachedRasterTexture| kept(texture.key.cache_id);
        let ghost keeps_account = |namespace: RasterNamespace| kept(namespace.cache_id);
        let mut textures: Vec<CachedRasterTexture> = Vec::new();
        let mut i: usize = 0;
        while i < self.textures.len()
            invariant
                i <= self.textures@.len(),
                keeps_texture == (|texture: CachedRasterTexture| kept(texture.key.cache_id)),
                kept == (|id: u64| owners.held(id)),
                textures@ == self.textures@.take(i as int).filter(keeps_texture),
            decreases self.textures@.len() - i,
        {
            let texture = self.textures[i];
            proof {
                filter_one_more(self.textures@, keeps_texture, i as int);
            }
            if owners.is_held(texture.key.cache_id) {
                textures.push(texture);
            }
            i = i + 1;
        }
        let mut namespaces: Vec<RasterNamespace> = Vec::new();
        let mut j: usize = 0;
        while j < self.namespaces.len()
            invariant
                j <= self.namespaces@.len(),
                keeps_account == (|namespace: RasterNamespace| kept(namespace.cache_id)),
                kept == (|id: u64| owners.held(id)),
                namespaces@ == self.namespaces@.take(j as int).filter(keeps_account),
            decreases self.namespaces@.len() - j,
        {
            let namespace = self.namespaces[j];
            proof {
                filter_one_more(self.namespaces@, keeps_account, j as int);
            }
            if owners.is_held(namespace.cache_id) {
                namespaces.push(namespace);
            }
            j = j + 1;
        }
        proof {
            assert(self.textures@.take(i as int) =~= self.textures@);
            assert(self.namespaces@.take(j as int) =~= self.namespaces@);
        }
        self.textures = textures;
        self.namespaces = namespaces;
    }
}

/// What a filter keeps of one item more.
pub proof fn filter_one_more<T>(items: Seq<T>, keeps: spec_fn(T) -> bool, i: int)
    requires
        0 <= i < items.len(),
    ensures
        items.take(i + 1).filter(keeps) == if keeps(items[i]) {
            items.take(i).filter(keeps).push(items[i])
        } else {
            items.take(i).filter(keeps)
        },
        i == 0 ==> items.take(0).filter(keeps) == Seq::<T>::empty(),
{
    reveal(Seq::filter);
    assert(items.take(i + 1).drop_last() =~= items.take(i));
    assert(items.take(i + 1).last() == items[i]);
}

proof fn misplaced_for_good(
    model: ResidencyModel,
    cache: RasterCacheIdentity,
    tile_size: DeviceSize,
    gutter: i32,
    targets: Seq<PlacedTarget>,
    texture_size: DeviceSize,
    n: int,
)
    requires
        0 <= n <= targets.len(),
        model.scanned(cache, tile_size, gutter, targets.take(n), texture_size).misplaced,
    ensures
        model.scanned(cache, tile_size, gutter, targets, texture_size) == model.scanned(
            cache,
            tile_size,
            gutter,
            targets.take(n),
            texture_size,
        ),
    decreases targets.len() - n,
{
    if n == targets.len() {
        assert(targets.take(n) =~= targets);
    } else {
        let part = targets.take(n + 1);
        assert(part.drop_last() =~= targets.take(n));
        misplaced_for_good(model, cache, tile_size, gutter, targets, texture_size, n + 1);
    }
}

/// Trimming neither numbers an allocation nor begins a frame.
pub proof fn trimming_keeps_counters(
    model: ResidencyModel,
    cache_id: u64,
    bytes: int,
    limit: usize,
    protected: Seq<CachedRasterTextureKey>,
)
    ensures
        ({
            let after = model.trimmed(cache_id, bytes, limit, protected);
            &&& after.next_allocation == model.next_allocation
            &&& after.frame_index == model.frame_index
        }),
    decreases model.textures.len(),
{
    if !model.fits(cache_id, bytes, limit) {
        let i = model.victim(cache_id, protected);
        oldest_is_evictable(model.textures, cache_id, protected, model.textures.len() as int);
        if i >= 0 {
            trimming_keeps_counters(model.without(i, true), cache_id, bytes, limit, protected);
        }
    }
}

} // verus!
