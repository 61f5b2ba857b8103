//! The cache of working proxies: its freshness and its counts by protocol.
use vstd::prelude::*;
use crate::codec::unix_now_secs;
use crate::proxy_type::{Proxy, ProxyProtocol};

verus! {

/// How many cached proxies there are, by protocol.
#[derive(Debug, Clone, Copy, PartialEq, Eq, Structural)]
pub struct ProxyCacheStats {
    pub total: usize,
    pub socks5: usize,
    pub socks4: usize,
    /// HTTP and HTTPS proxies.
    pub http: usize,
    pub last_updated: u64,
}

/// The cache as it is saved: the proxies and when they were saved.
#[derive(Debug)]
pub struct ProxyCache {
    pub proxies: Vec<Proxy>,
    pub last_updated: u64,
}

impl ProxyCache {
    /// A cache of `proxies` saved at `now` (seconds since the Unix epoch).
    pub fn saved_at(proxies: Vec<Proxy>, now: u64) -> (c: Self)
        ensures
            c.proxies == proxies,
            c.last_updated == now,
    {
        ProxyCache { proxies, last_updated: now }
    }

    /// A cache of `proxies`, saved now: [`Self::saved_at`] with the clock's
    /// reading, of which nothing is promised.
    pub fn new(proxies: Vec<Proxy>) -> (c: Self)
        ensures
            c.proxies == proxies,
    {
        Self::saved_at(proxies, unix_now_secs())
    }
}

/// Hours since the cache was saved (wrapping, as unsigned subtraction does
/// in release builds, when the clock reads earlier).
pub open spec fn age_hours(now: u64, last_updated: u64) -> u64 {
    (((now - last_updated) % 0x1_0000_0000_0000_0000) / 3600) as u64
}

/// A cache dated `ahead` seconds later than the clock: the age computed
/// with wrapping subtraction is then 2^64 - `ahead` seconds, more than a
/// day unless the date is absurdly far ahead, so such a cache is dropped.
pub proof fn lemma_future_cache_dropped(now: u64, last_updated: u64)
    requires
        now < last_updated,
        last_updated - now <= 0x1_0000_0000_0000_0000 - 90000,
    ensures
        age_hours(now, last_updated) > 24,
{
    let d = now - last_updated;
    assert(d % 0x1_0000_0000_0000_0000 == d + 0x1_0000_0000_0000_0000);
}

/// The cached proxies still usable at `now`: all of them when the cache is
/// at most 24 hours old, none when it is older. The age is taken with
/// wrapping subtraction, on purpose: a cache dated later than the clock
/// (by less than 2^64 - 90000 seconds) counts as older than a day and is
/// dropped.
pub fn fresh_proxies(cache: ProxyCache, now: u64) -> (r: Vec<Proxy>)
    ensures
        age_hours(now, cache.last_updated) > 24 ==> r@.len() == 0,
        age_hours(now, cache.last_updated) <= 24 ==> r == cache.proxies,
        now < cache.last_updated && cache.last_updated - now <= 0x1_0000_0000_0000_0000 - 90000 ==> r@.len() == 0,
{
    proof {
        if now < cache.last_updated && cache.last_updated - now <= 0x1_0000_0000_0000_0000 - 90000 {
            lemma_future_cache_dropped(now, cache.last_updated);
        }
    }
    let age = now.wrapping_sub(cache.last_updated) / 3600;
    if age > 24 {
        Vec::new()
    } else {
        cache.proxies
    }
}

/// How many proxies of `s` satisfy a protocol test.
pub open spec fn count_protocol(s: Seq<Proxy>, f: spec_fn(ProxyProtocol) -> bool) -> nat
    decreases s.len(),
{
    if s.len() == 0 {
        0
    } else {
        count_protocol(s.drop_last(), f) + if f(s.last().protocol) {
            1nat
        } else {
            0nat
        }
    }
}

pub open spec fn is_socks5(p: ProxyProtocol) -> bool {
    p == ProxyProtocol::Socks5
}

pub open spec fn is_socks4(p: ProxyProtocol) -> bool {
    p == ProxyProtocol::Socks4
}

pub open spec fn is_http(p: ProxyProtocol) -> bool {
    p == ProxyProtocol::Http || p == ProxyProtocol::Https
}

pub proof fn lemma_count_le(s: Seq<Proxy>, f: spec_fn(ProxyProtocol) -> bool)
    ensures
        count_protocol(s, f) <= s.len(),
    decreases s.len(),
{
    if s.len() > 0 {
        lemma_count_le(s.drop_last(), f);
    }
}

/// No proxy is counted under two protocols: the counts add up to at most
/// the total.
pub proof fn lemma_counts_within_total(s: Seq<Proxy>)
    ensures
        count_protocol(s, |p: ProxyProtocol| is_socks5(p)) + count_protocol(s, |p: ProxyProtocol| is_socks4(p))
            + count_protocol(s, |p: ProxyProtocol| is_http(p)) <= s.len(),
    decreases s.len(),
{
    if s.len() > 0 {
        lemma_counts_within_total(s.drop_last());
    }
}

/// The counts of a cache; zeros when there is none (missing or unreadable).
pub fn cache_stats(cache: &Option<ProxyCache>) -> (r: ProxyCacheStats)
    ensures
        match cache {
            None => r == (ProxyCacheStats { total: 0, socks5: 0, socks4: 0, http: 0, last_updated: 0 }),
            Some(c) => r.total == c.proxies@.len() && r.socks5 == count_protocol(c.proxies@, |p: ProxyProtocol| is_socks5(p))
                && r.socks4 == count_protocol(c.proxies@, |p: ProxyProtocol| is_socks4(p)) && r.http
                == count_protocol(c.proxies@, |p: ProxyProtocol| is_http(p)) && r.last_updated == c.last_updated,
        },
{
    match cache {
        None => ProxyCacheStats { total: 0, socks5: 0, socks4: 0, http: 0, last_updated: 0 },
        Some(c) => {
            let ghost s = c.proxies@;
            let mut socks5: usize = 0;
            let mut socks4: usize = 0;
            let mut http: usize = 0;
            let mut i: usize = 0;
            while i < c.proxies.len()
                invariant
                    s == c.proxies@,
                    i <= s.len(),
                    socks5 == count_protocol(s.take(i as int), |p: ProxyProtocol| is_socks5(p)),
                    socks4 == count_protocol(s.take(i as int), |p: ProxyProtocol| is_socks4(p)),
                    http == count_protocol(s.take(i as int), |p: ProxyProtocol| is_http(p)),
                decreases s.len() - i,
            {
                proof {
                    assert(s.take(i + 1).drop_last() =~= s.take(i as int));
                    lemma_count_le(s.take(i as int), |p: ProxyProtocol| is_socks5(p));
                    lemma_count_le(s.take(i as int), |p: ProxyProtocol| is_socks4(p));
                    lemma_count_le(s.take(i as int), |p: ProxyProtocol| is_http(p));
                }
                let pr = c.proxies[i].protocol;
                if pr == ProxyProtocol::Socks5 {
                    socks5 = socks5 + 1;
                }
                if pr == ProxyProtocol::Socks4 {
                    socks4 = socks4 + 1;
                }
                if pr == ProxyProtocol::Http || pr == ProxyProtocol::Https {
                    http = http + 1;
                }
                i = i + 1;
            }
            assert(s.take(s.len() as int) =~= s);
            ProxyCacheStats { total: c.proxies.len(), socks5, socks4, http, last_updated: c.last_updated }
        },
    }
}

} // verus!
