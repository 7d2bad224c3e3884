//! TTL-based client cache for FUSE metadata, directory listings and file content, and
//! the write-back buffer.
//!
//! Times are milliseconds on the cache's own monotonic clock. An entry stored at `t` is
//! valid at `now` while less than the TTL has passed. Small writes are buffered per path
//! and flushed on release or once the buffered total reaches the flush size.
use vstd::prelude::*;
use crate::client::types::{FileMetadataResponse, DirectoryListResponse};
use crate::path::{path_key, path_key_of, parent, parent_of};
use dashmap::DashMap;
use crate::clock::{instant_now, elapsed_millis};
use crate::fuse::segments::{ends_fit, seg_views, segments_fit};

verus! {

/// Default TTL for cached entries (seconds).
pub const DEFAULT_TTL_SECS: u64 = 1;

/// Max size of a single write to buffer (writes larger than this go straight to the
/// server).
pub const DEFAULT_WRITE_BACK_MAX_CHUNK: usize = 64 * 1024;

/// Flush the write-back buffer when the bytes buffered for a file reach this.
pub const DEFAULT_WRITE_BACK_FLUSH_SIZE: usize = 256 * 1024;

/// A cached value and when it was stored.
pub struct CacheEntry<T> {
    pub value: T,
    pub stored_at: u64,
}

/// An entry stored at `stored_at` is still valid at `now`: less than `ttl` has passed.
pub open spec fn entry_valid(stored_at: u64, ttl: u64, now: u64) -> bool {
    now < stored_at + ttl
}

impl<T> CacheEntry<T> {
    /// An entry holding `value`, stored at `now`.
    pub fn new(value: T, now: u64) -> (r: Self)
        ensures
            r.value == value,
            r.stored_at == now,
    {
        CacheEntry { value, stored_at: now }
    }

    /// Whether the entry is still valid at `now` for a TTL of `ttl`.
    pub fn is_valid(&self, ttl: u64, now: u64) -> (r: bool)
        ensures
            r == entry_valid(self.stored_at, ttl, now),
    {
        now < self.stored_at || now - self.stored_at < ttl
    }
}

/// Pending write segments of one file, and how many bytes they hold.
pub struct WriteBackEntry {
    pub segments: Vec<(u64, Vec<u8>)>,
    pub total_bytes: usize,
}

/// Write segments as mathematical values.
pub open spec fn segment_views(v: Seq<(u64, Vec<u8>)>) -> Seq<(u64, Seq<u8>)> {
    Seq::new(v.len(), |i: int| (v[i].0, v[i].1@))
}

impl WriteBackEntry {
    /// Appends a segment; returns the bytes buffered after it.
    pub fn push(&mut self, offset: u64, data: Vec<u8>) -> (r: usize)
        requires
            old(self).total_bytes + data@.len() <= usize::MAX,
        ensures
            segment_views(final(self).segments@) == segment_views(old(self).segments@).push((offset, data@)),
            final(self).total_bytes == old(self).total_bytes + data@.len(),
            r == final(self).total_bytes,
    {
        let len = data.len();
        let ghost d = data@;
        self.segments.push((offset, data));
        self.total_bytes = self.total_bytes + len;
        proof {
            assert(segment_views(self.segments@) =~= segment_views(old(self).segments@).push((offset, d)));
        }
        self.total_bytes
    }

    /// Takes the segments out, leaving none.
    pub fn take_segments(&mut self) -> (r: Vec<(u64, Vec<u8>)>)
        ensures
            r@ == old(self).segments@,
            final(self).segments@.len() == 0,
            final(self).total_bytes == 0,
    {
        self.total_bytes = 0;
        let mut out: Vec<(u64, Vec<u8>)> = Vec::new();
        std::mem::swap(&mut out, &mut self.segments);
        out
    }
}

// ---------------------------------------------------------------------------
// The four tables, each a DashMap keyed by path key
// ---------------------------------------------------------------------------

/// What a metadata table holds: each key's metadata and when it was stored.
pub uninterp spec fn stat_table(m: DashMap<String, CacheEntry<FileMetadataResponse>>) -> Map<Seq<char>, (FileMetadataResponse, u64)>;

/// What a listing table holds: each key's entries and when they were stored.
pub uninterp spec fn dir_table(m: DashMap<String, CacheEntry<DirectoryListResponse>>) -> Map<Seq<char>, (Seq<crate::client::types::DirectoryEntry>, u64)>;

/// What a content table holds: each key's bytes.
pub uninterp spec fn content_table(m: DashMap<String, Vec<u8>>) -> Map<Seq<char>, Seq<u8>>;

/// What a write-back table holds: each key's segments and the bytes they hold.
pub uninterp spec fn write_back_table(m: DashMap<String, WriteBackEntry>) -> Map<Seq<char>, (Seq<(u64, Seq<u8>)>, usize)>;

/// `DashMap::new` for metadata: an empty table.
#[verifier::external_body]
fn new_stat_table() -> (r: DashMap<String, CacheEntry<FileMetadataResponse>>)
    ensures
        stat_table(r).dom().is_empty(),
{
    DashMap::new()
}

/// `DashMap::new` for listings: an empty table.
#[verifier::external_body]
fn new_dir_table() -> (r: DashMap<String, CacheEntry<DirectoryListResponse>>)
    ensures
        dir_table(r).dom().is_empty(),
{
    DashMap::new()
}

/// `DashMap::new` for contents: an empty table.
#[verifier::external_body]
fn new_content_table() -> (r: DashMap<String, Vec<u8>>)
    ensures
        content_table(r).dom().is_empty(),
{
    DashMap::new()
}

/// `DashMap::new` for buffered writes: an empty table.
#[verifier::external_body]
fn new_write_back_table() -> (r: DashMap<String, WriteBackEntry>)
    ensures
        write_back_table(r).dom().is_empty(),
{
    DashMap::new()
}

/// `DashMap::get` of metadata: the metadata (cloned) and when it was stored.
#[verifier::external_body]
fn stat_get(m: &DashMap<String, CacheEntry<FileMetadataResponse>>, key: &str) -> (r: Option<(FileMetadataResponse, u64)>)
    ensures
        match r {
            Some(v) => stat_table(*m).contains_key(key@) && v == stat_table(*m)[key@],
            None => !stat_table(*m).contains_key(key@),
        },
{
    m.get(key).map(|e| (e.value.clone(), e.stored_at))
}

/// `DashMap::insert` of metadata: `key` now holds the entry, the others stay.
#[verifier::external_body]
fn stat_insert(m: &mut DashMap<String, CacheEntry<FileMetadataResponse>>, key: String, e: CacheEntry<FileMetadataResponse>)
    ensures
        stat_table(*final(m)) == stat_table(*old(m)).insert(key@, (e.value, e.stored_at)),
{
    m.insert(key, e);
}

/// `DashMap::remove` of metadata: the table without `key`.
#[verifier::external_body]
fn stat_remove(m: &mut DashMap<String, CacheEntry<FileMetadataResponse>>, key: &str)
    ensures
        stat_table(*final(m)) == stat_table(*old(m)).remove(key@),
{
    m.remove(key);
}

/// `DashMap::get` of a listing: the listing (cloned) and when it was stored.
#[verifier::external_body]
fn dir_get(m: &DashMap<String, CacheEntry<DirectoryListResponse>>, key: &str) -> (r: Option<(DirectoryListResponse, u64)>)
    ensures
        match r {
            Some(v) => dir_table(*m).contains_key(key@) && v.0.entries@ == dir_table(*m)[key@].0 && v.1 == dir_table(*m)[key@].1,
            None => !dir_table(*m).contains_key(key@),
        },
{
    m.get(key).map(|e| (e.value.clone(), e.stored_at))
}

/// `DashMap::insert` of a listing: `key` now holds the entry, the others stay.
#[verifier::external_body]
fn dir_insert(m: &mut DashMap<String, CacheEntry<DirectoryListResponse>>, key: String, e: CacheEntry<DirectoryListResponse>)
    ensures
        dir_table(*final(m)) == dir_table(*old(m)).insert(key@, (e.value.entries@, e.stored_at)),
{
    m.insert(key, e);
}

/// `DashMap::remove` of a listing: the table without `key`.
#[verifier::external_body]
fn dir_remove(m: &mut DashMap<String, CacheEntry<DirectoryListResponse>>, key: &str)
    ensures
        dir_table(*final(m)) == dir_table(*old(m)).remove(key@),
{
    m.remove(key);
}

/// `DashMap::get` of content: the bytes, copied out of the guard.
#[verifier::external_body]
fn content_get(m: &DashMap<String, Vec<u8>>, key: &str) -> (r: Option<Vec<u8>>)
    ensures
        match r {
            Some(d) => content_table(*m).contains_key(key@) && d@ == content_table(*m)[key@],
            None => !content_table(*m).contains_key(key@),
        },
{
    m.get(key).map(|e| e.value().clone())
}

/// `DashMap::insert` of content: `key` now holds `data`, the others stay.
#[verifier::external_body]
fn content_insert(m: &mut DashMap<String, Vec<u8>>, key: String, data: Vec<u8>)
    ensures
        content_table(*final(m)) == content_table(*old(m)).insert(key@, data@),
{
    m.insert(key, data);
}

/// `DashMap::remove` of content: the table without `key`.
#[verifier::external_body]
fn content_remove(m: &mut DashMap<String, Vec<u8>>, key: &str)
    ensures
        content_table(*final(m)) == content_table(*old(m)).remove(key@),
{
    m.remove(key);
}

/// `DashMap::insert` of buffered writes: `key` now holds `e`, the others stay; the entry
/// it held before, if any, comes back.
#[verifier::external_body]
fn write_back_insert(m: &mut DashMap<String, WriteBackEntry>, key: String, e: WriteBackEntry) -> (r: Option<WriteBackEntry>)
    ensures
        write_back_table(*final(m)) == write_back_table(*old(m)).insert(key@, (segment_views(e.segments@), e.total_bytes)),
        match r {
            Some(o) => write_back_table(*old(m)).contains_key(key@)
                && (segment_views(o.segments@), o.total_bytes) == write_back_table(*old(m))[key@],
            None => !write_back_table(*old(m)).contains_key(key@),
        },
{
    m.insert(key, e)
}

/// `DashMap::remove` of buffered writes: the entry `key` held, if any, and the table
/// without it.
#[verifier::external_body]
fn write_back_remove(m: &mut DashMap<String, WriteBackEntry>, key: &str) -> (r: Option<WriteBackEntry>)
    ensures
        write_back_table(*final(m)) == write_back_table(*old(m)).remove(key@),
        match r {
            Some(o) => write_back_table(*old(m)).contains_key(key@)
                && (segment_views(o.segments@), o.total_bytes) == write_back_table(*old(m))[key@],
            None => !write_back_table(*old(m)).contains_key(key@),
        },
{
    m.remove(key).map(|(_, e)| e)
}

/// `DashMap::get` of buffered writes: the segments (cloned) and the bytes they hold.
#[verifier::external_body]
fn write_back_get(m: &DashMap<String, WriteBackEntry>, key: &str) -> (r: Option<(Vec<(u64, Vec<u8>)>, usize)>)
    ensures
        match r {
            Some(v) => write_back_table(*m).contains_key(key@)
                && (segment_views(v.0@), v.1) == write_back_table(*m)[key@],
            None => !write_back_table(*m).contains_key(key@),
        },
{
    m.get(key).map(|e| (e.segments.clone(), e.total_bytes))
}

/// TTL cache for stat, readdir and file content, with the write-back buffer.
pub struct FuseCache {
    ttl_ms: u64,
    epoch: std::time::Instant,
    stat_cache: DashMap<String, CacheEntry<FileMetadataResponse>>,
    readdir_cache: DashMap<String, CacheEntry<DirectoryListResponse>>,
    file_content_cache: DashMap<String, Vec<u8>>,
    write_back: DashMap<String, WriteBackEntry>,
    hits: u64,
    misses: u64,
}

/// A metadata lookup of `path` at time `now` that took the cache from `a` to `b` and
/// returned `r`: a valid entry is returned and counted as a hit; otherwise the entry (if
/// any) is dropped, a miss is counted and nothing is returned. The rest stays.
pub open spec fn stat_lookup(a: FuseCache, b: FuseCache, path: Seq<char>, now: u64, r: Option<FileMetadataResponse>) -> bool {
    let k = path_key(path);
    let s = a.stats();
    &&& if s.contains_key(k) && entry_valid(s[k].1, a.ttl(), now) {
        r == Some(s[k].0) && b.stats() == s
            && b.hit_count() == a.hit_count().wrapping_add(1)
            && b.miss_count() == a.miss_count()
    } else {
        r is None && b.stats() == s.remove(k)
            && b.miss_count() == a.miss_count().wrapping_add(1)
            && b.hit_count() == a.hit_count()
    }
    &&& b.dirs() == a.dirs()
    &&& b.contents() == a.contents()
    &&& b.pending() == a.pending()
    &&& b.ttl() == a.ttl()
}

/// A listing lookup of `path` at time `now` that took the cache from `a` to `b` and
/// returned `r`, as [`stat_lookup`] does for metadata.
pub open spec fn dir_lookup(a: FuseCache, b: FuseCache, path: Seq<char>, now: u64, r: Option<DirectoryListResponse>) -> bool {
    let k = path_key(path);
    let d = a.dirs();
    &&& if d.contains_key(k) && entry_valid(d[k].1, a.ttl(), now) {
        (r matches Some(l) && l.entries@ == d[k].0) && b.dirs() == d
            && b.hit_count() == a.hit_count().wrapping_add(1)
            && b.miss_count() == a.miss_count()
    } else {
        r is None && b.dirs() == d.remove(k)
            && b.miss_count() == a.miss_count().wrapping_add(1)
            && b.hit_count() == a.hit_count()
    }
    &&& b.stats() == a.stats()
    &&& b.contents() == a.contents()
    &&& b.pending() == a.pending()
    &&& b.ttl() == a.ttl()
}

impl FuseCache {
    /// The TTL in milliseconds.
    pub closed spec fn ttl(&self) -> u64 {
        self.ttl_ms
    }

    /// Cached metadata by path key, with when it was stored.
    pub closed spec fn stats(&self) -> Map<Seq<char>, (FileMetadataResponse, u64)> {
        stat_table(self.stat_cache)
    }

    /// Cached listings by path key, with when they were stored.
    pub closed spec fn dirs(&self) -> Map<Seq<char>, (Seq<crate::client::types::DirectoryEntry>, u64)> {
        dir_table(self.readdir_cache)
    }

    /// Cached file content by path key.
    pub closed spec fn contents(&self) -> Map<Seq<char>, Seq<u8>> {
        content_table(self.file_content_cache)
    }

    /// Buffered writes by path key, with the bytes they hold.
    pub closed spec fn pending(&self) -> Map<Seq<char>, (Seq<(u64, Seq<u8>)>, usize)> {
        write_back_table(self.write_back)
    }

    pub closed spec fn hit_count(&self) -> u64 {
        self.hits
    }

    pub closed spec fn miss_count(&self) -> u64 {
        self.misses
    }

    /// An empty cache with a TTL of `ttl_ms` milliseconds.
    pub fn new(ttl_ms: u64) -> (r: Self)
        ensures
            r.ttl() == ttl_ms,
            r.stats().dom().is_empty(),
            r.dirs().dom().is_empty(),
            r.contents().dom().is_empty(),
            r.pending().dom().is_empty(),
            r.hit_count() == 0,
            r.miss_count() == 0,
    {
        let r = FuseCache {
            ttl_ms,
            epoch: instant_now(),
            stat_cache: new_stat_table(),
            readdir_cache: new_dir_table(),
            file_content_cache: new_content_table(),
            write_back: new_write_back_table(),
            hits: 0,
            misses: 0,
        };
        proof {
            assert(r.stats().dom() =~= Set::<Seq<char>>::empty());
            assert(r.dirs().dom() =~= Set::<Seq<char>>::empty());
            assert(r.contents().dom() =~= Set::<Seq<char>>::empty());
            assert(r.pending().dom() =~= Set::<Seq<char>>::empty());
        }
        r
    }

    /// A cache with the default TTL (one second).
    pub fn with_default_ttl() -> (r: Self)
        ensures
            r.ttl() == DEFAULT_TTL_SECS * 1000,
            r.stats().dom().is_empty(),
            r.hit_count() == 0,
            r.miss_count() == 0,
    {
        FuseCache::new(DEFAULT_TTL_SECS * 1000)
    }

    /// Milliseconds since the cache was made.
    pub fn now_ms(&self) -> u64 {
        elapsed_millis(&self.epoch)
    }

    /// The cached metadata of `path` if present and valid at `now`; an expired entry is
    /// dropped. Counts a hit or a miss.
    pub fn get_stat_at(&mut self, path: &str, now: u64) -> (r: Option<FileMetadataResponse>)
        ensures
            ({
                let k = path_key(path@);
                let s = old(self).stats();
                if s.contains_key(k) && entry_valid(s[k].1, old(self).ttl(), now) {
                    r == Some(s[k].0) && final(self).stats() == s
                        && final(self).hit_count() == old(self).hit_count().wrapping_add(1)
                        && final(self).miss_count() == old(self).miss_count()
                } else {
                    r is None && final(self).stats() == s.remove(k)
                        && final(self).miss_count() == old(self).miss_count().wrapping_add(1)
                        && final(self).hit_count() == old(self).hit_count()
                }
            }),
            final(self).dirs() == old(self).dirs(),
            final(self).contents() == old(self).contents(),
            final(self).pending() == old(self).pending(),
            final(self).ttl() == old(self).ttl(),
    {
        let key = path_key_of(path);
        let found = match stat_get(&self.stat_cache, key.as_str()) {
            None => None,
            Some((v, at)) => {
                let e = CacheEntry::new(v, at);
                Some((e.is_valid(self.ttl_ms, now), e.value))
            },
        };
        match found {
            None => {
                self.misses = self.misses.wrapping_add(1);
                proof {
                    assert(self.stats() =~= old(self).stats().remove(path_key(path@)));
                }
                None
            },
            Some((true, v)) => {
                self.hits = self.hits.wrapping_add(1);
                Some(v)
            },
            Some((false, _)) => {
                stat_remove(&mut self.stat_cache, key.as_str());
                self.misses = self.misses.wrapping_add(1);
                proof {
                    assert(self.stats() =~= old(self).stats().remove(path_key(path@)));
                }
                None
            },
        }
    }

    /// The cached metadata of `path` if present and valid now.
    pub fn get_stat(&mut self, path: &str) -> (r: Option<FileMetadataResponse>)
        ensures
            exists|now: u64| #[trigger] stat_lookup(*old(self), *final(self), path@, now, r),
    {
        let ghost before = *self;
        let now = self.now_ms();
        let r = self.get_stat_at(path, now);
        proof {
            assert(stat_lookup(before, *self, path@, now, r));
        }
        r
    }

    /// The cached metadata of `path`, even if expired.
    pub fn get_stat_stale(&self, path: &str) -> (r: Option<FileMetadataResponse>)
        ensures
            match r {
                Some(m) => self.stats().contains_key(path_key(path@)) && m == self.stats()[path_key(path@)].0,
                None => !self.stats().contains_key(path_key(path@)),
            },
    {
        let key = path_key_of(path);
        match stat_get(&self.stat_cache, key.as_str()) {
            Some((v, _at)) => Some(v),
            None => None,
        }
    }

    /// Stores the metadata of `path`, at `now`.
    pub fn put_stat_at(&mut self, path: &str, metadata: FileMetadataResponse, now: u64)
        ensures
            final(self).stats() == old(self).stats().insert(path_key(path@), (metadata, now)),
            final(self).dirs() == old(self).dirs(),
            final(self).contents() == old(self).contents(),
            final(self).pending() == old(self).pending(),
            final(self).ttl() == old(self).ttl(),
            final(self).hit_count() == old(self).hit_count(),
            final(self).miss_count() == old(self).miss_count(),
    {
        let key = path_key_of(path);
        let ghost m = metadata;
        stat_insert(&mut self.stat_cache, key, CacheEntry::new(metadata, now));
        proof {
            assert(self.stats() =~= old(self).stats().insert(path_key(path@), (m, now)));
        }
    }

    /// Stores the metadata of `path`, now.
    pub fn put_stat(&mut self, path: &str, metadata: FileMetadataResponse)
        ensures
            exists|now: u64| final(self).stats() == old(self).stats().insert(path_key(path@), (metadata, now)),
    {
        let now = self.now_ms();
        self.put_stat_at(path, metadata, now);
    }

    /// The cached listing of `path` if present and valid at `now`; an expired entry is
    /// dropped. Counts a hit or a miss.
    pub fn get_readdir_at(&mut self, path: &str, now: u64) -> (r: Option<DirectoryListResponse>)
        ensures
            ({
                let k = path_key(path@);
                let d = old(self).dirs();
                if d.contains_key(k) && entry_valid(d[k].1, old(self).ttl(), now) {
                    (r matches Some(l) && l.entries@ == d[k].0) && final(self).dirs() == d
                        && final(self).hit_count() == old(self).hit_count().wrapping_add(1)
                        && final(self).miss_count() == old(self).miss_count()
                } else {
                    r is None && final(self).dirs() == d.remove(k)
                        && final(self).miss_count() == old(self).miss_count().wrapping_add(1)
                        && final(self).hit_count() == old(self).hit_count()
                }
            }),
            final(self).stats() == old(self).stats(),
            final(self).contents() == old(self).contents(),
            final(self).pending() == old(self).pending(),
            final(self).ttl() == old(self).ttl(),
    {
        let key = path_key_of(path);
        let found = match dir_get(&self.readdir_cache, key.as_str()) {
            None => None,
            Some((v, at)) => {
                let e = CacheEntry::new(v, at);
                Some((e.is_valid(self.ttl_ms, now), e.value))
            },
        };
        match found {
            None => {
                self.misses = self.misses.wrapping_add(1);
                proof {
                    assert(self.dirs() =~= old(self).dirs().remove(path_key(path@)));
                }
                None
            },
            Some((true, v)) => {
                self.hits = self.hits.wrapping_add(1);
                Some(v)
            },
            Some((false, _)) => {
                dir_remove(&mut self.readdir_cache, key.as_str());
                self.misses = self.misses.wrapping_add(1);
                proof {
                    assert(self.dirs() =~= old(self).dirs().remove(path_key(path@)));
                }
                None
            },
        }
    }

    /// The cached listing of `path` if present and valid now.
    pub fn get_readdir(&mut self, path: &str) -> (r: Option<DirectoryListResponse>)
        ensures
            exists|now: u64| #[trigger] dir_lookup(*old(self), *final(self), path@, now, r),
    {
        let ghost before = *self;
        let now = self.now_ms();
        let r = self.get_readdir_at(path, now);
        proof {
            assert(dir_lookup(before, *self, path@, now, r));
        }
        r
    }

    /// The cached listing of `path`, even if expired.
    pub fn get_readdir_stale(&self, path: &str) -> (r: Option<DirectoryListResponse>)
        ensures
            match r {
                Some(l) => self.dirs().contains_key(path_key(path@)) && l.entries@ == self.dirs()[path_key(path@)].0,
                None => !self.dirs().contains_key(path_key(path@)),
            },
    {
        let key = path_key_of(path);
        match dir_get(&self.readdir_cache, key.as_str()) {
            Some((v, _at)) => Some(v),
            None => None,
        }
    }

    /// Stores the listing of `path`, at `now`.
    pub fn put_readdir_at(&mut self, path: &str, list: DirectoryListResponse, now: u64)
        ensures
            final(self).dirs() == old(self).dirs().insert(path_key(path@), (list.entries@, now)),
            final(self).stats() == old(self).stats(),
            final(self).contents() == old(self).contents(),
            final(self).pending() == old(self).pending(),
            final(self).ttl() == old(self).ttl(),
            final(self).hit_count() == old(self).hit_count(),
            final(self).miss_count() == old(self).miss_count(),
    {
        let key = path_key_of(path);
        let ghost l = list.entries@;
        dir_insert(&mut self.readdir_cache, key, CacheEntry::new(list, now));
        proof {
            assert(self.dirs() =~= old(self).dirs().insert(path_key(path@), (l, now)));
        }
    }

    /// Stores the listing of `path`, now.
    pub fn put_readdir(&mut self, path: &str, list: DirectoryListResponse)
        ensures
            exists|now: u64| final(self).dirs() == old(self).dirs().insert(path_key(path@), (list.entries@, now)),
    {
        let now = self.now_ms();
        self.put_readdir_at(path, list, now);
    }

    /// Drops everything cached for `path` (metadata, listing, content, buffered writes)
    /// and the listing of its parent.
    pub fn invalidate(&mut self, path: &str)
        ensures
            final(self).stats() == old(self).stats().remove(path_key(path@)),
            final(self).dirs() == match parent_of(path@) {
                Some(p) => old(self).dirs().remove(path_key(path@)).remove(path_key(p)),
                None => old(self).dirs().remove(path_key(path@)),
            },
            final(self).contents() == old(self).contents().remove(path_key(path@)),
            final(self).pending() == old(self).pending().remove(path_key(path@)),
            final(self).ttl() == old(self).ttl(),
            final(self).hit_count() == old(self).hit_count(),
            final(self).miss_count() == old(self).miss_count(),
    {
        let key = path_key_of(path);
        stat_remove(&mut self.stat_cache, key.as_str());
        dir_remove(&mut self.readdir_cache, key.as_str());
        content_remove(&mut self.file_content_cache, key.as_str());
        let _ = write_back_remove(&mut self.write_back, key.as_str());
        let ghost mid = self.dirs();
        proof {
            assert(self.stats() =~= old(self).stats().remove(path_key(path@)));
            assert(mid =~= old(self).dirs().remove(path_key(path@)));
            assert(self.contents() =~= old(self).contents().remove(path_key(path@)));
            assert(self.pending() =~= old(self).pending().remove(path_key(path@)));
        }
        match parent(path) {
            Some(p) => {
                let pk = path_key_of(p.as_str());
                dir_remove(&mut self.readdir_cache, pk.as_str());
                proof {
                    assert(self.dirs() =~= mid.remove(pk@));
                }
            },
            None => {},
        }
    }

    /// Drops what is cached for both paths of a rename, and the listings of their parents.
    pub fn invalidate_rename(&mut self, old_path: &str, new_path: &str)
        ensures
            final(self).stats() == old(self).stats().remove(path_key(old_path@)).remove(path_key(new_path@)),
            final(self).contents() == old(self).contents().remove(path_key(old_path@)).remove(path_key(new_path@)),
            final(self).pending() == old(self).pending().remove(path_key(old_path@)).remove(path_key(new_path@)),
            !final(self).dirs().contains_key(path_key(old_path@)),
            !final(self).dirs().contains_key(path_key(new_path@)),
            parent_of(old_path@) matches Some(p) ==> !final(self).dirs().contains_key(path_key(p)),
            parent_of(new_path@) matches Some(p) ==> !final(self).dirs().contains_key(path_key(p)),
            forall|k: Seq<char>| #[trigger] final(self).dirs().contains_key(k) ==> old(self).dirs().contains_key(k) && final(self).dirs()[k] == old(self).dirs()[k],
            final(self).ttl() == old(self).ttl(),
            final(self).hit_count() == old(self).hit_count(),
            final(self).miss_count() == old(self).miss_count(),
    {
        self.invalidate(old_path);
        let ghost d1 = self.dirs();
        proof {
            assert(!d1.contains_key(path_key(old_path@)));
            if parent_of(old_path@) is Some {
                assert(!d1.contains_key(path_key(parent_of(old_path@)->0)));
            }
        }
        self.invalidate(new_path);
        let ghost d2 = self.dirs();
        proof {
            assert(!d2.contains_key(path_key(old_path@)));
            assert(!d2.contains_key(path_key(new_path@)));
        }
        match parent(new_path) {
            Some(p) => {
                let pk = path_key_of(p.as_str());
                dir_remove(&mut self.readdir_cache, pk.as_str());
                proof {
                    assert(self.dirs() =~= d2.remove(pk@));
                }
            },
            None => {},
        }
        let ok = path_key_of(old_path);
        let nk = path_key_of(new_path);
        let ghost c = self.contents();
        let ghost w = self.pending();
        content_remove(&mut self.file_content_cache, ok.as_str());
        content_remove(&mut self.file_content_cache, nk.as_str());
        let _ = write_back_remove(&mut self.write_back, ok.as_str());
        let _ = write_back_remove(&mut self.write_back, nk.as_str());
        proof {
            assert(!self.dirs().contains_key(path_key(old_path@)));
            assert(!self.dirs().contains_key(path_key(new_path@)));
            assert(self.contents() =~= c.remove(ok@).remove(nk@));
            assert(self.pending() =~= w.remove(ok@).remove(nk@));
            assert(self.contents() =~= old(self).contents().remove(path_key(old_path@)).remove(path_key(new_path@)));
            assert(self.pending() =~= old(self).pending().remove(path_key(old_path@)).remove(path_key(new_path@)));
        }
    }

    /// The cached content of `path`.
    pub fn get_file_content(&self, path: &str) -> (r: Option<Vec<u8>>)
        ensures
            match r {
                Some(d) => self.contents().contains_key(path_key(path@)) && d@ == self.contents()[path_key(path@)],
                None => !self.contents().contains_key(path_key(path@)),
            },
    {
        let key = path_key_of(path);
        content_get(&self.file_content_cache, key.as_str())
    }

    /// Stores the content of `path`.
    pub fn put_file_content(&mut self, path: &str, data: Vec<u8>)
        ensures
            final(self).contents() == old(self).contents().insert(path_key(path@), data@),
            final(self).stats() == old(self).stats(),
            final(self).dirs() == old(self).dirs(),
            final(self).pending() == old(self).pending(),
    {
        let key = path_key_of(path);
        let ghost d = data@;
        content_insert(&mut self.file_content_cache, key, data);
        proof {
            assert(self.contents() =~= old(self).contents().insert(path_key(path@), d));
        }
    }

    /// Drops the cached content of `path`.
    pub fn invalidate_file_content(&mut self, path: &str)
        ensures
            final(self).contents() == old(self).contents().remove(path_key(path@)),
            final(self).stats() == old(self).stats(),
            final(self).dirs() == old(self).dirs(),
            final(self).pending() == old(self).pending(),
    {
        let key = path_key_of(path);
        content_remove(&mut self.file_content_cache, key.as_str());
        proof {
            assert(self.contents() =~= old(self).contents().remove(path_key(path@)));
        }
    }

    /// Buffers a write to `path` at `offset`; returns the bytes buffered for the path.
    pub fn push_write_back(&mut self, path: &str, offset: u64, data: Vec<u8>) -> (r: usize)
        requires
            old(self).pending().contains_key(path_key(path@)) ==> old(self).pending()[path_key(path@)].1 + data@.len() <= usize::MAX,
        ensures
            ({
                let k = path_key(path@);
                let (segs, total) = if old(self).pending().contains_key(k) {
                    old(self).pending()[k]
                } else {
                    (Seq::<(u64, Seq<u8>)>::empty(), 0usize)
                };
                &&& final(self).pending() == old(self).pending().insert(k, (segs.push((offset, data@)), (total + data@.len()) as usize))
                &&& r == total + data@.len()
            }),
            final(self).stats() == old(self).stats(),
            final(self).dirs() == old(self).dirs(),
            final(self).contents() == old(self).contents(),
    {
        let key = path_key_of(path);
        let n = data.len();
        let mut entry = match write_back_insert(&mut self.write_back, key.clone(), WriteBackEntry { segments: Vec::new(), total_bytes: 0 }) {
            Some(e) => {
                proof {
                    assert(old(self).pending()[key@] == (segment_views(e.segments@), e.total_bytes));
                }
                e
            },
            None => {
                let e = WriteBackEntry { segments: Vec::new(), total_bytes: 0 };
                proof {
                    assert(segment_views(e.segments@) =~= Seq::<(u64, Seq<u8>)>::empty());
                }
                e
            },
        };
        let total = entry.push(offset, data);
        let _ = write_back_insert(&mut self.write_back, key, entry);
        proof {
            let k = path_key(path@);
            assert(self.pending() =~= old(self).pending().insert(k, self.pending()[k]));
        }
        total
    }

    /// Takes the buffered writes of `path` (none when there are none).
    pub fn take_pending_writes(&mut self, path: &str) -> (r: Vec<(u64, Vec<u8>)>)
        ensures
            old(self).pending().contains_key(path_key(path@)) ==> segment_views(r@) == old(self).pending()[path_key(path@)].0,
            !old(self).pending().contains_key(path_key(path@)) ==> r@.len() == 0,
            final(self).pending() == old(self).pending().remove(path_key(path@)),
            final(self).stats() == old(self).stats(),
            final(self).dirs() == old(self).dirs(),
            final(self).contents() == old(self).contents(),
    {
        let key = path_key_of(path);
        let removed = write_back_remove(&mut self.write_back, key.as_str());
        proof {
            assert(self.pending() =~= old(self).pending().remove(path_key(path@)));
        }
        match removed {
            Some(mut e) => e.take_segments(),
            None => Vec::new(),
        }
    }

    /// The bytes buffered for `path` (0 when none are).
    pub fn pending_total(&self, path: &str) -> (r: usize)
        ensures
            self.pending().contains_key(path_key(path@)) ==> r == self.pending()[path_key(path@)].1,
            !self.pending().contains_key(path_key(path@)) ==> r == 0,
    {
        let key = path_key_of(path);
        match write_back_get(&self.write_back, key.as_str()) {
            Some((_segs, total)) => total,
            None => 0,
        }
    }

    /// Whether every buffered segment of `path` ends within `usize`.
    pub fn pending_fits(&self, path: &str) -> (r: bool)
        ensures
            r == (self.pending().contains_key(path_key(path@)) ==> ends_fit(self.pending()[path_key(path@)].0)),
    {
        let key = path_key_of(path);
        match write_back_get(&self.write_back, key.as_str()) {
            Some((segs, _total)) => {
                let r = segments_fit(&segs);
                proof {
                    assert(seg_views(segs@) =~= segment_views(segs@));
                }
                r
            },
            None => true,
        }
    }

    /// Cache hit count.
    pub fn hits(&self) -> (r: u64)
        ensures
            r == self.hit_count(),
    {
        self.hits
    }

    /// Cache miss count.
    pub fn misses(&self) -> (r: u64)
        ensures
            r == self.miss_count(),
    {
        self.misses
    }
}

impl Default for FuseCache {
    fn default() -> (r: Self)
        ensures
            r.ttl() == DEFAULT_TTL_SECS * 1000,
    {
        FuseCache::with_default_ttl()
    }
}

/// An entry read back before its TTL has passed is the one stored: what a lookup finds
/// just after storing metadata at `stored` is that metadata, while `now` is within the
/// TTL.
pub proof fn lemma_fresh_entry_is_valid(stored: u64, ttl: u64, now: u64)
    requires
        stored <= now,
        now - stored < ttl,
    ensures
        entry_valid(stored, ttl, now),
{
}

} // verus!
