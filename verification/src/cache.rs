//! The cache of a player: direct stream addresses kept in memory for a
//! few hours, and the places of cached audio and analysis files.
//!
//! Time is given by the caller as nanoseconds on a monotonic clock; the files
//! themselves are read and written by the caller at the paths given here.
use crate::text::{join_path, join_spec};
use vstd::hash_map::StringHashMap;
use vstd::prelude::*;

verus! {

/// How long a cached address stays usable: four hours, in nanoseconds.
pub const URL_TTL_NANOS: u64 = 14_400_000_000_000;

/// A cached direct stream address and when it was fetched.
pub struct UrlCacheEntry {
    pub url: String,
    /// Nanoseconds on the caller's monotonic clock.
    pub fetched_at: u64,
}

/// Cached stream addresses, keyed by video id, and the cache directory.
pub struct CacheManager {
    cache_dir: String,
    url_cache: StringHashMap<UrlCacheEntry>,
}

/// Time passed from `then` to `now`; zero where `now` is earlier, as
/// `Instant::elapsed` gives it.
pub open spec fn elapsed(now: u64, then: u64) -> nat {
    if now >= then {
        (now - then) as nat
    } else {
        0
    }
}

/// The address cached for `id` that is still fresh at `now`.
pub open spec fn cached_url(m: Map<Seq<char>, UrlCacheEntry>, id: Seq<char>, now: u64) -> Option<
    Seq<char>,
> {
    if m.contains_key(id) && elapsed(now, m[id].fetched_at) < URL_TTL_NANOS {
        Some(m[id].url@)
    } else {
        None
    }
}

/// The directory that [`CacheManager::default_dir`] uses.
pub open spec fn default_cache_dir() -> Seq<char> {
    "./cache"@
}

impl CacheManager {
    /// The cache directory.
    pub closed spec fn dir(&self) -> Seq<char> {
        self.cache_dir@
    }

    /// The cached addresses.
    pub closed spec fn urls(&self) -> Map<Seq<char>, UrlCacheEntry> {
        self.url_cache@
    }

    /// A cache in `cache_dir` with no address cached; the caller creates the directory.
    pub fn new(cache_dir: String) -> (c: Self)
        ensures
            c.dir() == cache_dir@,
            c.urls() == Map::<Seq<char>, UrlCacheEntry>::empty(),
    {
        CacheManager { cache_dir, url_cache: StringHashMap::new() }
    }

    /// A cache in `./cache`.
    pub fn default_dir() -> (c: Self)
        ensures
            c.dir() == default_cache_dir(),
            c.urls() == Map::<Seq<char>, UrlCacheEntry>::empty(),
    {
        Self::new(String::from_str("./cache"))
    }

    /// The cache directory.
    pub fn cache_dir(&self) -> (r: &String)
        ensures
            r@ == self.dir(),
    {
        &self.cache_dir
    }

    /// The address cached for `video_id`, if it was fetched less than four
    /// hours before `now`.
    pub fn get_cached_url(&self, video_id: &str, now: u64) -> (r: Option<String>)
        ensures
            match r {
                Some(u) => cached_url(self.urls(), video_id@, now) == Some(u@),
                None => cached_url(self.urls(), video_id@, now) is None,
            },
    {
        match self.url_cache.get(video_id) {
            Some(entry) => {
                let age = if now >= entry.fetched_at {
                    now - entry.fetched_at
                } else {
                    0
                };
                if age < URL_TTL_NANOS {
                    Some(entry.url.clone())
                } else {
                    None
                }
            },
            None => None,
        }
    }

    /// Caches `url` for `video_id`, fetched at `now`; replaces an earlier entry.
    pub fn save_url_cache(&mut self, video_id: String, url: String, now: u64)
        ensures
            final(self).dir() == old(self).dir(),
            final(self).urls() == old(self).urls().insert(
                video_id@,
                UrlCacheEntry { url, fetched_at: now },
            ),
    {
        self.url_cache.insert(video_id, UrlCacheEntry { url, fetched_at: now });
    }

    /// Where the audio file of `video_id` is cached: `<dir>/<video_id>.wav`.
    pub fn audio_path(&self, video_id: &str) -> (r: String)
        ensures
            r@ == join_spec(self.dir(), video_id@ + ".wav"@),
    {
        let mut name = String::from_str(video_id);
        name.append(".wav");
        join_path(self.cache_dir.as_str(), name.as_str())
    }

    /// Where the analysis of `video_id` is cached: `<dir>/<video_id>.json`.
    pub fn analysis_path(&self, video_id: &str) -> (r: String)
        ensures
            r@ == join_spec(self.dir(), video_id@ + ".json"@),
    {
        let mut name = String::from_str(video_id);
        name.append(".json");
        join_path(self.cache_dir.as_str(), name.as_str())
    }

    /// The cached audio file of `video_id`, given whether a file exists at
    /// [`CacheManager::audio_path`].
    pub fn get_audio_path(&self, video_id: &str, file_exists: bool) -> (r: Option<String>)
        ensures
            file_exists ==> (r matches Some(p) && p@ == join_spec(self.dir(), video_id@ + ".wav"@)),
            !file_exists ==> r is None,
    {
        if file_exists {
            Some(self.audio_path(video_id))
        } else {
            None
        }
    }
}

/// An address just cached is found again while it is fresh.
pub proof fn lemma_saved_url_found(
    m: Map<Seq<char>, UrlCacheEntry>,
    id: Seq<char>,
    entry: UrlCacheEntry,
    now: u64,
)
    requires
        entry.fetched_at <= now < entry.fetched_at + URL_TTL_NANOS,
    ensures
        cached_url(m.insert(id, entry), id, now) == Some(entry.url@),
{
}

/// An address is not given out once four hours have passed since it was fetched.
pub proof fn lemma_stale_url_dropped(
    m: Map<Seq<char>, UrlCacheEntry>,
    id: Seq<char>,
    now: u64,
)
    requires
        m.contains_key(id),
        now >= m[id].fetched_at + URL_TTL_NANOS,
    ensures
        cached_url(m, id, now) is None,
{
}

/// Caching an address for one video leaves the addresses of all others as they were.
pub proof fn lemma_save_keeps_others(
    m: Map<Seq<char>, UrlCacheEntry>,
    id: Seq<char>,
    entry: UrlCacheEntry,
    other: Seq<char>,
    now: u64,
)
    requires
        other != id,
    ensures
        cached_url(m.insert(id, entry), other, now) == cached_url(m, other, now),
{
}

/// The cached addresses after the saves `saves` (video id and entry), one
/// after the other, as [`CacheManager::save_url_cache`] makes them.
pub open spec fn after_saves(
    m: Map<Seq<char>, UrlCacheEntry>,
    saves: Seq<(Seq<char>, UrlCacheEntry)>,
) -> Map<Seq<char>, UrlCacheEntry>
    decreases saves.len(),
{
    if saves.len() == 0 {
        m
    } else {
        after_saves(m, saves.drop_last()).insert(saves.last().0, saves.last().1)
    }
}

/// The last save wins: after any run of saves, the address given for `id` is
/// the one of the last save for `id`, while it is fresh. Every handle on one
/// cache sees the same run of saves, so this holds of whichever handle made
/// each save.
pub proof fn lemma_last_save_wins(
    m: Map<Seq<char>, UrlCacheEntry>,
    saves: Seq<(Seq<char>, UrlCacheEntry)>,
    k: int,
    now: u64,
)
    requires
        0 <= k < saves.len(),
        forall|j: int| k < j < saves.len() ==> (#[trigger] saves[j]).0 != saves[k].0,
        saves[k].1.fetched_at <= now < saves[k].1.fetched_at + URL_TTL_NANOS,
    ensures
        cached_url(after_saves(m, saves), saves[k].0, now) == Some(saves[k].1.url@),
    decreases saves.len(),
{
    if k < saves.len() - 1 {
        let shorter = saves.drop_last();
        assert forall|j: int| k < j < shorter.len() implies (#[trigger] shorter[j]).0 != shorter[k].0 by {
            assert(shorter[j] == saves[j]);
        }
        lemma_last_save_wins(m, shorter, k, now);
        assert(saves.last() == saves[saves.len() - 1]);
    }
}

} // verus!
