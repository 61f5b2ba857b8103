//! The command-line tool's cache of working proxies.
use vstd::prelude::*;
use crate::codec::unix_now_secs;
use crate::cli::proxy_type::Proxy;
use crate::proxy_cache::age_hours;

verus! {

#[derive(Debug)]
pub struct ProxyCache {
    pub proxies: Vec<Proxy>,
    pub last_updated: u64,
}

impl ProxyCache {
    /// A cache of `proxies` saved at `now` (seconds since the Unix epoch).
    pub fn saved_at(proxies: Vec<Proxy>, now: u64) -> (c: Self)
        ensures
            c.proxies == proxies,
            c.last_updated == now,
    {
        ProxyCache { proxies, last_updated: now }
    }

    /// A cache of `proxies`, saved now: [`Self::saved_at`] with the clock's
    /// reading, of which nothing is promised.
    pub fn new(proxies: Vec<Proxy>) -> (c: Self)
        ensures
            c.proxies == proxies,
    {
        Self::saved_at(proxies, unix_now_secs())
    }
}

/// The cached proxies still usable at `now`: all of them when the cache is
/// at most 24 hours old, none when it is older; a cache dated later than
/// the clock counts as older (wrapping subtraction, on purpose).
pub fn fresh_proxies(cache: ProxyCache, now: u64) -> (r: Vec<Proxy>)
    ensures
        age_hours(now, cache.last_updated) > 24 ==> r@.len() == 0,
        age_hours(now, cache.last_updated) <= 24 ==> r == cache.proxies,
        now < cache.last_updated && cache.last_updated - now <= 0x1_0000_0000_0000_0000 - 90000 ==> r@.len() == 0,
{
    proof {
        if now < cache.last_updated && cache.last_updated - now <= 0x1_0000_0000_0000_0000 - 90000 {
            crate::proxy_cache::lemma_future_cache_dropped(now, cache.last_updated);
        }
    }
    let age = now.wrapping_sub(cache.last_updated) / 3600;
    if age > 24 {
        Vec::new()
    } else {
        cache.proxies
    }
}

} // verus!
