//! The hash cache: full-content hashes of files, reused while a file's size
//! and modification time are unchanged.
//!
//! Reading and writing the cache file is left to the caller; this module
//! holds the cache in memory and decides hits and misses.

use vstd::prelude::*;
use std::collections::HashMap;
use crate::paths::{join_path, join_spec};
use crate::types::CacheConfig;

verus! {

/// A single cached entry: maps a file to its previously computed hash.
#[derive(Debug, Clone)]
pub struct CacheEntry {
    /// Full content hash (BLAKE3).
    pub hash: String,
    /// File size when hash was computed.
    pub size: u64,
    /// Modification time when hash was computed (as seconds since epoch).
    pub mtime_secs: u64,
}

/// Cache entries keyed by path.
pub type CacheEntries = HashMap<String, CacheEntry>;

/// The entries of a cache map, keys taken by their characters.
pub uninterp spec fn entries_view(m: CacheEntries) -> Map<Seq<char>, CacheEntry>;

/// `HashMap::new()`: no entries.
#[verifier::external_body]
pub(crate) fn entries_new() -> (r: CacheEntries)
    ensures
        entries_view(r).dom() == Set::<Seq<char>>::empty(),
{
    HashMap::new()
}

/// `HashMap::get`: the entry stored under an equal key, if any.
#[verifier::external_body]
pub(crate) fn entries_get<'a>(m: &'a CacheEntries, k: &str) -> (r: Option<&'a CacheEntry>)
    ensures
        match r {
            Some(e) => entries_view(*m).contains_key(k@) && *e == entries_view(*m)[k@],
            None => !entries_view(*m).contains_key(k@),
        },
{
    m.get(k)
}

/// `HashMap::insert`: stores `v` under `k`, replacing an equal key's entry.
/// A map holds finitely many entries, before the call and after it.
#[verifier::external_body]
pub(crate) fn entries_insert(m: &mut CacheEntries, k: String, v: CacheEntry)
    ensures
        entries_view(*final(m)) == entries_view(*old(m)).insert(k@, v),
        entries_view(*old(m)).dom().finite(),
        entries_view(*final(m)).dom().finite(),
{
    m.insert(k, v);
}

/// `HashMap::len`: the number of entries.
#[verifier::external_body]
pub(crate) fn entries_len(m: &CacheEntries) -> (r: usize)
    ensures
        r == entries_view(*m).dom().len(),
{
    m.len()
}

/// `HashMap::clear`: removes every entry.
#[verifier::external_body]
pub(crate) fn entries_clear(m: &mut CacheEntries)
    ensures
        entries_view(*final(m)).dom() == Set::<Seq<char>>::empty(),
{
    m.clear();
}

/// The on-disk cache structure.
#[derive(Debug, Clone)]
pub struct CacheData {
    /// Version of the cache format.
    pub version: u32,
    /// Map from file path to cached hash entry.
    pub entries: CacheEntries,
}

impl CacheData {
    /// A cache of the given format version with no entries.
    pub fn empty(version: u32) -> (r: CacheData)
        ensures
            r.version == version,
            entries_view(r.entries).dom() == Set::<Seq<char>>::empty(),
    {
        CacheData { version, entries: entries_new() }
    }
}

/// Seconds since the epoch of a modification time given in nanoseconds;
/// times before the epoch count as zero.
pub open spec fn mtime_secs_of(mtime: i128) -> int {
    if mtime < 0 {
        0
    } else {
        mtime / 1_000_000_000
    }
}

/// Whether a modification time is one a file can have: its seconds fit in
/// an `i64`.
pub open spec fn mtime_in_range(mtime: i128) -> bool {
    mtime_secs_of(mtime) <= i64::MAX
}

/// Seconds since the epoch of a modification time (zero before the epoch).
pub fn mtime_secs(mtime: i128) -> (r: u64)
    requires
        mtime_in_range(mtime),
    ensures
        r == mtime_secs_of(mtime),
{
    if mtime < 0 {
        0
    } else {
        (mtime / 1_000_000_000) as u64
    }
}

/// The cached hash for a file, when its entry's size and modification
/// seconds match.
pub open spec fn cached_hash(
    entries: Map<Seq<char>, CacheEntry>,
    path: Seq<char>,
    size: u64,
    mtime: i128,
) -> Option<Seq<char>> {
    if entries.contains_key(path) && entries[path].size == size && entries[path].mtime_secs
        == mtime_secs_of(mtime) {
        Some(entries[path].hash@)
    } else {
        None
    }
}

/// Hash cache manager.
pub struct HashCache {
    /// Where the cache file lives.
    cache_path: String,
    /// In-memory cache data.
    data: CacheData,
    /// Whether the cache has been modified and needs writing.
    dirty: bool,
}

impl HashCache {
    /// The cached entries.
    pub closed spec fn entries(&self) -> Map<Seq<char>, CacheEntry> {
        entries_view(self.data.entries)
    }

    /// Where the cache file lives.
    pub closed spec fn path_view(&self) -> Seq<char> {
        self.cache_path@
    }

    /// Whether the cache has changed since it was loaded.
    pub closed spec fn is_dirty(&self) -> bool {
        self.dirty
    }

    /// The cache format version.
    pub closed spec fn version(&self) -> u32 {
        self.data.version
    }

    /// A cache as loaded from `cache_path`: `loaded` is `None` when there was
    /// no cache file (a fresh cache of format 1), `Some(None)` when the file
    /// did not parse (an empty cache of format 0), `Some(Some(data))` when it
    /// did.
    pub fn from_loaded(cache_path: String, loaded: Option<Option<CacheData>>) -> (r: HashCache)
        ensures
            r.path_view() == cache_path@,
            !r.is_dirty(),
            match loaded {
                None => r.version() == 1 && r.entries().dom() == Set::<Seq<char>>::empty(),
                Some(None) => r.version() == 0 && r.entries().dom() == Set::<Seq<char>>::empty(),
                Some(Some(d)) => r.version() == d.version && r.entries() == entries_view(d.entries),
            },
    {
        let data = match loaded {
            None => CacheData::empty(1),
            Some(None) => CacheData::empty(0),
            Some(Some(d)) => d,
        };
        HashCache { cache_path, data, dirty: false }
    }

    /// Look up a file's hash; found when the entry's size and modification
    /// seconds match.
    pub fn lookup(&self, path: &str, size: u64, mtime: i128) -> (r: Option<&str>)
        requires
            mtime_in_range(mtime),
        ensures
            match r {
                Some(h) => cached_hash(self.entries(), path@, size, mtime) == Some(h@),
                None => cached_hash(self.entries(), path@, size, mtime) is None,
            },
    {
        let entry = match entries_get(&self.data.entries, path) {
            Some(e) => e,
            None => return None,
        };
        let secs = mtime_secs(mtime);
        if entry.size == size && entry.mtime_secs == secs {
            Some(entry.hash.as_str())
        } else {
            None
        }
    }

    /// Insert or update a file's hash: the entry count grows by one unless
    /// the path already had an entry, which is replaced.
    pub fn insert(&mut self, path: &str, size: u64, mtime: i128, hash: String)
        requires
            mtime_in_range(mtime),
        ensures
            final(self).entries() == old(self).entries().insert(
                path@,
                (CacheEntry { hash, size, mtime_secs: mtime_secs_of(mtime) as u64 }),
            ),
            final(self).entries().dom().finite(),
            final(self).entries().dom().len() == old(self).entries().dom().len() + (if old(
                self,
            ).entries().dom().contains(path@) {
                0int
            } else {
                1int
            }),
            final(self).is_dirty(),
            final(self).path_view() == old(self).path_view(),
            final(self).version() == old(self).version(),
    {
        let secs = mtime_secs(mtime);
        let key = crate::text::string_from_str(path);
        entries_insert(&mut self.data.entries, key, CacheEntry { hash, size, mtime_secs: secs });
        self.dirty = true;
    }

    /// Whether the cache has been modified and needs writing.
    pub fn needs_save(&self) -> (r: bool)
        ensures
            r == self.is_dirty(),
    {
        self.dirty
    }

    /// The cache data, for writing it out.
    pub fn data(&self) -> (r: &CacheData)
        ensures
            entries_view(r.entries) == self.entries(),
            r.version == self.version(),
    {
        &self.data
    }

    /// Get the number of entries in the cache.
    pub fn entry_count(&self) -> (r: usize)
        ensures
            r == self.entries().dom().len(),
    {
        entries_len(&self.data.entries)
    }

    /// Get the cache file path.
    pub fn cache_path(&self) -> (r: &str)
        ensures
            r@ == self.path_view(),
    {
        self.cache_path.as_str()
    }

    /// Clear all cached entries.
    pub fn clear(&mut self)
        ensures
            final(self).entries().dom() == Set::<Seq<char>>::empty(),
            final(self).is_dirty(),
            final(self).path_view() == old(self).path_view(),
            final(self).version() == old(self).version(),
    {
        entries_clear(&mut self.data.entries);
        self.dirty = true;
    }
}

/// The platform cache directory (`dirs::cache_dir`), as a string.
#[verifier::external_body]
fn platform_cache_dir() -> (r: Option<String>) {
    dirs::cache_dir().map(|p| p.to_string_lossy().into_owned())
}

/// The user's home directory (`dirs::home_dir`), as a string.
#[verifier::external_body]
fn platform_home_dir() -> (r: Option<String>) {
    dirs::home_dir().map(|p| p.to_string_lossy().into_owned())
}

/// The cache directory for a configuration, given the platform's cache and
/// home directories: the configured directory; else `dupfinder` in the
/// cache directory; else `.dupfinder` in the home directory (or in `.`).
pub open spec fn cache_dir_spec(
    config_dir: Option<Seq<char>>,
    cache: Option<Seq<char>>,
    home: Option<Seq<char>>,
) -> Seq<char> {
    match config_dir {
        Some(d) => d,
        None => match cache {
            Some(c) => join_spec(c, "dupfinder"@),
            None => join_spec(
                match home {
                    Some(h) => h,
                    None => "."@,
                },
                ".dupfinder"@,
            ),
        },
    }
}

/// The views of an optional string.
pub open spec fn opt_view(o: Option<String>) -> Option<Seq<char>> {
    match o {
        Some(s) => Some(s@),
        None => None,
    }
}

/// The cache directory for a configuration, given the platform's cache and
/// home directories (`cache_dir_spec`).
pub fn cache_dir_from(config: &CacheConfig, cache: Option<String>, home: Option<String>) -> (r: String)
    ensures
        r@ == cache_dir_spec(opt_view(config.cache_dir), opt_view(cache), opt_view(home)),
{
    if let Some(d) = &config.cache_dir {
        return d.clone();
    }
    match cache {
        Some(c) => join_path(c.as_str(), "dupfinder"),
        None => {
            let base = match home {
                Some(h) => h,
                None => crate::text::string_from_str("."),
            };
            join_path(base.as_str(), ".dupfinder")
        },
    }
}

/// Determine the cache directory based on configuration and platform.
pub fn cache_dir(config: &CacheConfig) -> (r: String)
    ensures
        config.cache_dir matches Some(d) ==> r@ == d@,
        exists|cache: Option<Seq<char>>, home: Option<Seq<char>>| r@ == cache_dir_spec(opt_view(config.cache_dir), cache, home),
{
    if let Some(d) = &config.cache_dir {
        assert(d@ == cache_dir_spec(opt_view(config.cache_dir), None, None));
        return d.clone();
    }
    let cache = platform_cache_dir();
    let home = if cache.is_none() {
        platform_home_dir()
    } else {
        None
    };
    let ghost (cv, hv) = (opt_view(cache), opt_view(home));
    let r = cache_dir_from(config, cache, home);
    assert(r@ == cache_dir_spec(opt_view(config.cache_dir), cv, hv));
    r
}

/// The cache file inside a cache directory.
pub fn cache_file_path(dir: &str) -> (r: String)
    ensures
        r@ == join_spec(dir@, "cache.json"@),
{
    join_path(dir, "cache.json")
}

/// Information about the cache (for `dupfinder cache info`).
pub struct CacheInfo {
    pub path: String,
    pub entry_count: usize,
    pub file_size_bytes: u64,
    pub exists: bool,
}

/// A lookup right after an insert for the same path, size and modification
/// time finds the inserted hash.
pub proof fn law_lookup_after_insert(
    entries: Map<Seq<char>, CacheEntry>,
    path: Seq<char>,
    size: u64,
    mtime: i128,
    hash: String,
)
    requires
        mtime_in_range(mtime),
    ensures
        cached_hash(
            entries.insert(path, CacheEntry { hash, size, mtime_secs: mtime_secs_of(mtime) as u64 }),
            path,
            size,
            mtime,
        ) == Some(hash@),
{
}

/// An insert adds one entry to a finite cache map, or none when the path
/// already had one.
pub proof fn law_count_after_insert(entries: Map<Seq<char>, CacheEntry>, path: Seq<char>, e: CacheEntry)
    requires
        entries.dom().finite(),
    ensures
        entries.insert(path, e).dom().finite(),
        entries.insert(path, e).dom().len() == entries.dom().len() + (if entries.dom().contains(path) {
            0int
        } else {
            1int
        }),
{
    assert(entries.insert(path, e).dom() =~= entries.dom().insert(path));
}

/// An insert for one path changes no lookup of another.
pub proof fn law_insert_keeps_others(
    entries: Map<Seq<char>, CacheEntry>,
    path: Seq<char>,
    e: CacheEntry,
    other: Seq<char>,
    size: u64,
    mtime: i128,
)
    requires
        other != path,
    ensures
        cached_hash(entries.insert(path, e), other, size, mtime) == cached_hash(entries, other, size, mtime),
{
}

/// An entry no longer answers once the file's size or modification second changed.
pub proof fn law_stale_entry_misses(
    entries: Map<Seq<char>, CacheEntry>,
    path: Seq<char>,
    size: u64,
    mtime: i128,
)
    requires
        entries.contains_key(path),
        entries[path].size != size || entries[path].mtime_secs != mtime_secs_of(mtime),
    ensures
        cached_hash(entries, path, size, mtime) is None,
{
}

} // verus!
