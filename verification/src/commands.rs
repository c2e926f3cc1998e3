//! Choices made by the player's commands: where the stream address of a
//! track comes from, and which tracks get their addresses fetched ahead.
use crate::cache::{cached_url, CacheManager};
use crate::search::{first_n, texts};
use crate::text::{all_white, is_blank};
use vstd::prelude::*;

verus! {

/// Tracks whose addresses are fetched ahead of time.
pub const PREFETCH_COUNT: usize = 3;

/// Where the stream address of a track comes from.
pub enum UrlSource {
    /// The address the caller gave.
    Direct(String),
    /// A fresh address from the cache.
    Cached(String),
    /// None is at hand: the download tool has to find it (and the result is
    /// cached).
    Extract,
}

/// Whether the caller gave an address that is not blank.
pub open spec fn direct_usable(direct: Option<String>) -> bool {
    direct matches Some(u) && !all_white(u@)
}

/// The caller's address where it is not blank.
pub fn usable_direct_url(direct_url: Option<String>) -> (r: Option<String>)
    ensures
        match direct_url {
            Some(u) => if all_white(u@) {
                r is None
            } else {
                r == Some(u)
            },
            None => r is None,
        },
{
    match direct_url {
        Some(u) => if is_blank(u.as_str()) {
            None
        } else {
            Some(u)
        },
        None => None,
    }
}

/// Where the stream address of `video_id` comes from at time `now`.
pub fn resolve_url_source(
    direct_url: Option<String>,
    cache: &CacheManager,
    video_id: &str,
    now: u64,
) -> (r: UrlSource)
    ensures
        direct_usable(direct_url) ==> r == UrlSource::Direct(direct_url->0),
        !direct_usable(direct_url) ==> match cached_url(cache.urls(), video_id@, now) {
            Some(c) => r matches UrlSource::Cached(u) && u@ == c,
            None => r is Extract,
        },
{
    match usable_direct_url(direct_url) {
        Some(u) => UrlSource::Direct(u),
        None => match cache.get_cached_url(video_id, now) {
            Some(c) => UrlSource::Cached(c),
            None => UrlSource::Extract,
        },
    }
}

/// The tracks whose addresses are fetched ahead: the first three asked for.
pub fn prefetch_ids(video_ids: Vec<String>) -> (r: Vec<String>)
    ensures
        texts(r@) == first_n(texts(video_ids@), PREFETCH_COUNT as nat),
{
    let n = video_ids.len();
    let end = if n <= PREFETCH_COUNT {
        n
    } else {
        PREFETCH_COUNT
    };
    let mut r: Vec<String> = Vec::new();
    for i in 0..end
        invariant
            end <= n,
            n == video_ids@.len(),
            end == if n <= PREFETCH_COUNT {
                n
            } else {
                PREFETCH_COUNT
            },
            texts(r@) == texts(video_ids@).take(i as int),
    {
        let ghost old_r = r@;
        let id = video_ids[i].clone();
        r.push(id);
        assert(r@ == old_r.push(video_ids@[i as int]));
        assert(texts(r@) =~= texts(old_r).push(video_ids@[i as int]@));
        assert(texts(r@) =~= texts(video_ids@).take(i + 1));
    }
    assert(texts(r@) =~= first_n(texts(video_ids@), PREFETCH_COUNT as nat));
    r
}

/// Whether a track's address has to be fetched ahead: there is no fresh one cached.
pub fn needs_prefetch(cache: &CacheManager, video_id: &str, now: u64) -> (r: bool)
    ensures
        r == (cached_url(cache.urls(), video_id@, now) is None),
{
    cache.get_cached_url(video_id, now).is_none()
}

} // verus!
