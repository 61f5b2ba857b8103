//! Choosing upstreams: which tested proxies are new, how the cache of
//! working proxies is merged, and which proxy a rotation switches to.
use vstd::prelude::*;
use crate::proxy_type::{Proxy, ProxyView, ProxyProtocol, clone_proxy, same_proxy, same_endpoint};
use crate::proxy_lists::proxy_views;
use crate::speed_test::{ProxyWithSpeed, is_fastest, select_fastest, by_latency, rank_by_latency};
use crate::proxy_type::{proxy_url, protocol_name};
use crate::proxy_lists::ProxyListConfig;
use crate::proxy_instance::texts;
use crate::text::{cat, decimal, decimal_string, chars_of, string_of, extend_str, push_decimal, push_decimal_u128};

verus! {

/// The rotation interval in minutes: the instance's, else 5, within 1..1440.
pub open spec fn interval_minutes(m: Option<u64>) -> u64 {
    let x = match m {
        Some(v) => v,
        None => 5,
    };
    if x < 1 {
        1
    } else if x > 1440 {
        1440
    } else {
        x
    }
}

pub fn rotation_interval_minutes(m: Option<u64>) -> (r: u64)
    ensures
        r == interval_minutes(m),
        1 <= r <= 1440,
{
    let x = match m {
        Some(v) => v,
        None => 5,
    };
    if x < 1 {
        1
    } else if x > 1440 {
        1440
    } else {
        x
    }
}

/// `p` is on another endpoint (host or port) than the current upstream.
pub open spec fn other_endpoint(p: ProxyView, current: Option<ProxyView>) -> bool {
    match current {
        Some(c) => c.host != p.host || c.port != p.port,
        None => true,
    }
}

/// The tested proxies on another endpoint than the current upstream, in order.
pub open spec fn rotation_candidates(s: Seq<ProxyWithSpeed>, current: Option<ProxyView>) -> Seq<ProxyWithSpeed>
    decreases s.len(),
{
    if s.len() == 0 {
        Seq::empty()
    } else {
        let rest = rotation_candidates(s.drop_last(), current);
        if other_endpoint(s.last().proxy@, current) {
            rest.push(s.last())
        } else {
            rest
        }
    }
}

/// Every candidate is a tested proxy on another endpoint.
pub proof fn lemma_candidates_differ(s: Seq<ProxyWithSpeed>, current: Option<ProxyView>)
    ensures
        forall|i: int| 0 <= i < rotation_candidates(s, current).len() ==> other_endpoint(
            #[trigger] rotation_candidates(s, current)[i].proxy@,
            current,
        ) && s.contains(rotation_candidates(s, current)[i]),
    decreases s.len(),
{
    if s.len() > 0 {
        let t = s.drop_last();
        lemma_candidates_differ(t, current);
        let rest = rotation_candidates(t, current);
        let all = rotation_candidates(s, current);
        assert forall|i: int| 0 <= i < all.len() implies other_endpoint(
            #[trigger] all[i].proxy@,
            current,
        ) && s.contains(all[i]) by {
            if i < rest.len() {
                assert(all[i] == rest[i]);
                let x = rest[i];
                assert(other_endpoint(rotation_candidates(t, current)[i].proxy@, current));
                assert(t.contains(x));
                let k = choose|k: int| 0 <= k < t.len() && t[k] == x;
                assert(s[k] == x);
            } else {
                assert(all[i] == s.last());
                assert(s[s.len() - 1] == s.last());
            }
        }
    }
}

/// When some tested proxy is on another endpoint than the current
/// upstream, there are candidates, and the fastest of them (the one a
/// rotation picks) is on another endpoint.
pub proof fn lemma_rotation_changes_endpoint(s: Seq<ProxyWithSpeed>, current: Option<ProxyView>)
    requires
        exists|j: int| 0 <= j < s.len() && other_endpoint(#[trigger] s[j].proxy@, current),
    ensures
        rotation_candidates(s, current).len() > 0,
        forall|i: int| #[trigger] is_fastest(rotation_candidates(s, current), i) ==> other_endpoint(
            rotation_candidates(s, current)[i].proxy@,
            current,
        ),
    decreases s.len(),
{
    lemma_candidates_differ(s, current);
    let t = s.drop_last();
    if !other_endpoint(s.last().proxy@, current) {
        let j = choose|j: int| 0 <= j < s.len() && other_endpoint(#[trigger] s[j].proxy@, current);
        assert(j != s.len() - 1);
        assert(t[j] == s[j]);
        lemma_rotation_changes_endpoint(t, current);
    }
}

/// A sequence with one more element contains exactly that element besides
/// what it contained.
pub proof fn lemma_push_contains<A>(s: Seq<A>, a: A, x: A)
    ensures
        s.push(a).contains(x) <==> (s.contains(x) || x == a),
{
    if s.push(a).contains(x) && x != a {
        let k = choose|k: int| 0 <= k < s.push(a).len() && s.push(a)[k] == x;
        assert(s[k] == x);
    }
    if s.contains(x) {
        let k = choose|k: int| 0 <= k < s.len() && s[k] == x;
        assert(s.push(a)[k] == x);
    }
    if x == a {
        assert(s.push(a)[s.len() as int] == x);
    }
}

/// The option view of the current upstream.
pub open spec fn current_view(c: Option<Proxy>) -> Option<ProxyView> {
    match c {
        Some(p) => Some(p@),
        None => None,
    }
}

fn differs_from_current(p: &Proxy, current: &Option<Proxy>) -> (r: bool)
    ensures
        r == other_endpoint(p@, current_view(*current)),
{
    match current {
        Some(c) => !same_endpoint(c, p),
        None => true,
    }
}

/// The proxy a rotation switches to: the fastest of the tested proxies on
/// another endpoint than the current upstream; when there is none, the
/// fastest of all. `None` when nothing was tested.
pub fn choose_rotation(tested: Vec<ProxyWithSpeed>, current: &Option<Proxy>) -> (r: Option<ProxyWithSpeed>)
    ensures
        r is None <==> tested@.len() == 0,
        rotation_candidates(tested@, current_view(*current)).len() > 0 ==> (r matches Some(p)
            && exists|i: int| is_fastest(rotation_candidates(tested@, current_view(*current)), i)
            && p == rotation_candidates(tested@, current_view(*current))[i]),
        rotation_candidates(tested@, current_view(*current)).len() == 0 ==> (r matches Some(p) ==> exists|i: int|
            is_fastest(tested@, i) && p == tested@[i]),
{
    let ghost cur = current_view(*current);
    let mut candidates: Vec<ProxyWithSpeed> = Vec::new();
    let mut i: usize = 0;
    while i < tested.len()
        invariant
            i <= tested@.len(),
            cur == current_view(*current),
            candidates@ == rotation_candidates(tested@.take(i as int), cur),
        decreases tested.len() - i,
    {
        let p = &tested[i];
        assert(tested@.take(i + 1).drop_last() =~= tested@.take(i as int));
        if differs_from_current(&p.proxy, current) {
            candidates.push(ProxyWithSpeed { proxy: clone_proxy(&p.proxy), latency_nanos: p.latency_nanos });
        }
        i = i + 1;
    }
    assert(tested@.take(tested@.len() as int) =~= tested@);
    if candidates.len() == 0 {
        select_fastest(tested)
    } else {
        let r = select_fastest(candidates);
        proof {
            lemma_candidates_differ(tested@, cur);
            if tested@.len() == 0 {
                assert(rotation_candidates(tested@, cur).len() == 0);
            }
        }
        r
    }
}

/// Whether switching to `new` changes the endpoint of the current upstream.
pub fn upstream_changed(current: &Option<Proxy>, new: &Proxy) -> (r: bool)
    ensures
        r == other_endpoint(new@, current_view(*current)),
{
    differs_from_current(new, current)
}

/// Whether `v` holds a proxy with the value `p`.
pub fn contains_proxy(v: &Vec<Proxy>, p: &Proxy) -> (r: bool)
    ensures
        r == proxy_views(v@).contains(p@),
{
    let mut i: usize = 0;
    while i < v.len()
        invariant
            i <= v@.len(),
            forall|k: int| 0 <= k < i ==> v@[k]@ != p@,
        decreases v.len() - i,
    {
        if same_proxy(&v[i], p) {
            assert(proxy_views(v@)[i as int] == p@);
            return true;
        }
        i = i + 1;
    }
    assert forall|k: int| 0 <= k < proxy_views(v@).len() implies proxy_views(v@)[k] != p@ by {
        assert(proxy_views(v@)[k] == v@[k]@);
    }
    false
}

/// The fetched proxies that are not cached, each once, in the order first
/// fetched.
pub fn new_unique_proxies(fetched: &Vec<Proxy>, cached: &Vec<Proxy>) -> (r: Vec<Proxy>)
    ensures
        proxy_views(r@).no_duplicates(),
        forall|x: ProxyView| #[trigger] proxy_views(r@).contains(x) <==> (proxy_views(fetched@).contains(x)
            && !proxy_views(cached@).contains(x)),
{
    let mut r: Vec<Proxy> = Vec::new();
    let mut i: usize = 0;
    while i < fetched.len()
        invariant
            i <= fetched@.len(),
            proxy_views(r@).no_duplicates(),
            forall|x: ProxyView| #[trigger] proxy_views(r@).contains(x) <==> (proxy_views(fetched@).take(i as int).contains(x)
                && !proxy_views(cached@).contains(x)),
        decreases fetched.len() - i,
    {
        let p = &fetched[i];
        let ghost old_r = r@;
        let ghost ft = proxy_views(fetched@).take(i as int);
        proof {
            assert(proxy_views(fetched@).take(i + 1) =~= ft.push(p@));
        }
        let in_cache = contains_proxy(cached, p);
        let seen = contains_proxy(&r, p);
        if !in_cache && !seen {
            r.push(clone_proxy(p));
            proof {
                assert(proxy_views(r@) =~= proxy_views(old_r).push(p@));
            }
        }
        proof {
            assert forall|x: ProxyView| #[trigger] proxy_views(r@).contains(x) <==> (proxy_views(fetched@).take(i + 1).contains(x)
                && !proxy_views(cached@).contains(x)) by {
                lemma_push_contains(ft, p@, x);
                if !in_cache && !seen {
                    lemma_push_contains(proxy_views(old_r), p@, x);
                }
            }
            if !in_cache && !seen {
                lemma_push_contains(proxy_views(old_r), p@, p@);
                assert(proxy_views(r@).no_duplicates()) by {
                    let pv = proxy_views(r@);
                    assert forall|a: int, b: int| 0 <= a < pv.len() && 0 <= b < pv.len() && a != b implies pv[a] != pv[b] by {
                        if a == old_r.len() {
                            assert(proxy_views(old_r)[b] == pv[b]);
                        } else if b == old_r.len() {
                            assert(proxy_views(old_r)[a] == pv[a]);
                        } else {
                            assert(proxy_views(old_r)[a] == pv[a]);
                            assert(proxy_views(old_r)[b] == pv[b]);
                        }
                    }
                }
            }
        }
        i = i + 1;
    }
    assert(proxy_views(fetched@).take(fetched@.len() as int) =~= proxy_views(fetched@));
    r
}

/// The proxies of `v` with the given protocol, in order.
pub open spec fn of_protocol(v: Seq<ProxyView>, protocol: ProxyProtocol) -> Seq<ProxyView>
    decreases v.len(),
{
    if v.len() == 0 {
        Seq::empty()
    } else if v.last().protocol == protocol {
        of_protocol(v.drop_last(), protocol).push(v.last())
    } else {
        of_protocol(v.drop_last(), protocol)
    }
}

/// The proxies of `v` with another protocol, in order.
pub open spec fn not_of_protocol(v: Seq<ProxyView>, protocol: ProxyProtocol) -> Seq<ProxyView>
    decreases v.len(),
{
    if v.len() == 0 {
        Seq::empty()
    } else if v.last().protocol != protocol {
        not_of_protocol(v.drop_last(), protocol).push(v.last())
    } else {
        not_of_protocol(v.drop_last(), protocol)
    }
}

/// The cached proxies of one protocol.
pub fn filter_protocol(v: &Vec<Proxy>, protocol: ProxyProtocol, keep: bool) -> (r: Vec<Proxy>)
    ensures
        keep ==> proxy_views(r@) == of_protocol(proxy_views(v@), protocol),
        !keep ==> proxy_views(r@) == not_of_protocol(proxy_views(v@), protocol),
{
    let mut r: Vec<Proxy> = Vec::new();
    let mut i: usize = 0;
    while i < v.len()
        invariant
            i <= v@.len(),
            keep ==> proxy_views(r@) == of_protocol(proxy_views(v@).take(i as int), protocol),
            !keep ==> proxy_views(r@) == not_of_protocol(proxy_views(v@).take(i as int), protocol),
        decreases v.len() - i,
    {
        let ghost old_r = r@;
        proof {
            assert(proxy_views(v@).take(i + 1).drop_last() =~= proxy_views(v@).take(i as int));
            assert(proxy_views(v@).take(i + 1).last() == v@[i as int]@);
        }
        if (v[i].protocol == protocol) == keep {
            r.push(clone_proxy(&v[i]));
            proof {
                assert(proxy_views(r@) =~= proxy_views(old_r).push(v@[i as int]@));
            }
        }
        i = i + 1;
    }
    assert(proxy_views(v@).take(v@.len() as int) =~= proxy_views(v@));
    r
}

/// The cache after a test of one protocol: the proxies of other protocols
/// it held, followed by the working proxies just found.
pub fn merge_cache(cache: &Vec<Proxy>, protocol: ProxyProtocol, working: &Vec<Proxy>) -> (r: Vec<Proxy>)
    ensures
        proxy_views(r@) == not_of_protocol(proxy_views(cache@), protocol) + proxy_views(working@),
{
    let mut r = filter_protocol(cache, protocol, false);
    let ghost base = r@;
    let mut i: usize = 0;
    while i < working.len()
        invariant
            i <= working@.len(),
            proxy_views(r@) == proxy_views(base) + proxy_views(working@).take(i as int),
        decreases working.len() - i,
    {
        let ghost old_r = r@;
        r.push(clone_proxy(&working[i]));
        proof {
            assert(proxy_views(r@) =~= proxy_views(old_r).push(working@[i as int]@));
            assert(proxy_views(working@).take(i + 1) =~= proxy_views(working@).take(i as int).push(working@[i as int]@));
        }
        i = i + 1;
    }
    assert(proxy_views(working@).take(working@.len() as int) =~= proxy_views(working@));
    r
}


/// Some proxy of `w` is on the host and port of `p`.
pub open spec fn endpoint_in(p: ProxyView, w: Seq<ProxyView>) -> bool {
    exists|i: int| 0 <= i < w.len() && (#[trigger] w[i]).host == p.host && w[i].port == p.port
}

/// The proxies of `v` on an endpoint that no proxy of `w` is on, in order.
pub open spec fn off_endpoints(v: Seq<ProxyView>, w: Seq<ProxyView>) -> Seq<ProxyView>
    decreases v.len(),
{
    if v.len() == 0 {
        Seq::empty()
    } else if !endpoint_in(v.last(), w) {
        off_endpoints(v.drop_last(), w).push(v.last())
    } else {
        off_endpoints(v.drop_last(), w)
    }
}

/// Whether some proxy of `w` is on the host and port of `p`.
pub fn on_endpoint_of(p: &Proxy, w: &Vec<Proxy>) -> (r: bool)
    ensures
        r == endpoint_in(p@, proxy_views(w@)),
{
    let mut i: usize = 0;
    while i < w.len()
        invariant
            i <= w@.len(),
            forall|k: int| 0 <= k < i ==> !((#[trigger] proxy_views(w@)[k]).host == p@.host && proxy_views(w@)[k].port
                == p@.port),
        decreases w.len() - i,
    {
        if same_endpoint(&w[i], p) {
            assert(proxy_views(w@)[i as int] == w@[i as int]@);
            return true;
        }
        i = i + 1;
    }
    false
}

/// The cache after a custom list was refreshed: the cached proxies on
/// another endpoint than every working one, then the working ones.
pub fn merge_by_endpoint(cache: &Vec<Proxy>, working: &Vec<Proxy>) -> (r: Vec<Proxy>)
    ensures
        proxy_views(r@) == off_endpoints(proxy_views(cache@), proxy_views(working@)) + proxy_views(working@),
{
    let ghost w = proxy_views(working@);
    let mut r: Vec<Proxy> = Vec::new();
    let mut i: usize = 0;
    while i < cache.len()
        invariant
            i <= cache@.len(),
            w == proxy_views(working@),
            proxy_views(r@) == off_endpoints(proxy_views(cache@).take(i as int), w),
        decreases cache.len() - i,
    {
        let ghost o = r@;
        proof {
            assert(proxy_views(cache@).take(i + 1).drop_last() =~= proxy_views(cache@).take(i as int));
            assert(proxy_views(cache@).take(i + 1).last() == cache@[i as int]@);
        }
        if !on_endpoint_of(&cache[i], working) {
            r.push(clone_proxy(&cache[i]));
            assert(proxy_views(r@) =~= proxy_views(o).push(cache@[i as int]@));
        }
        i = i + 1;
    }
    assert(proxy_views(cache@).take(cache@.len() as int) =~= proxy_views(cache@));
    let ghost base = r@;
    let mut j: usize = 0;
    while j < working.len()
        invariant
            j <= working@.len(),
            w == proxy_views(working@),
            proxy_views(r@) == proxy_views(base) + w.take(j as int),
        decreases working.len() - j,
    {
        let ghost o = r@;
        r.push(clone_proxy(&working[j]));
        assert(proxy_views(r@) =~= proxy_views(o).push(working@[j as int]@));
        assert(w.take(j + 1) =~= w.take(j as int).push(working@[j as int]@));
        j = j + 1;
    }
    assert(w.take(working@.len() as int) =~= w);
    r
}

/// No proxy that a refresh keeps from the cache shares its endpoint with a
/// working proxy, and every working proxy is in the new cache.
pub proof fn lemma_merge_by_endpoint(v: Seq<ProxyView>, w: Seq<ProxyView>)
    ensures
        forall|k: int| 0 <= k < off_endpoints(v, w).len() ==> !endpoint_in(#[trigger] off_endpoints(v, w)[k], w),
        forall|k: int| 0 <= k < off_endpoints(v, w).len() ==> v.contains(#[trigger] off_endpoints(v, w)[k]),
        forall|x: ProxyView| w.contains(x) ==> #[trigger] (off_endpoints(v, w) + w).contains(x),
    decreases v.len(),
{
    let r = off_endpoints(v, w);
    if v.len() > 0 {
        lemma_merge_by_endpoint(v.drop_last(), w);
        let t = off_endpoints(v.drop_last(), w);
        assert forall|k: int| 0 <= k < r.len() implies !endpoint_in(#[trigger] r[k], w) && v.contains(r[k]) by {
            if k < t.len() {
                assert(r[k] == t[k]);
                assert(v.drop_last().contains(t[k]));
                let m = choose|m: int| 0 <= m < v.drop_last().len() && v.drop_last()[m] == t[k];
                assert(v[m] == t[k]);
            } else {
                assert(r[k] == v.last());
                assert(v[v.len() - 1] == v.last());
            }
        }
    }
    assert forall|x: ProxyView| w.contains(x) implies #[trigger] (r + w).contains(x) by {
        let m = choose|m: int| 0 <= m < w.len() && w[m] == x;
        assert((r + w)[r.len() + m] == x);
    }
}

/// The tested proxies ranked by latency, fastest first (equally fast ones
/// in the order they were tested), and the proxies alone in that order:
/// what a standalone check returns and the cache it saves.
pub fn rank_tested(tested: Vec<ProxyWithSpeed>) -> (r: (Vec<ProxyWithSpeed>, Vec<Proxy>))
    ensures
        r.0@ == by_latency(tested@),
        proxy_views(r.1@) == r.0@.map_values(|t: ProxyWithSpeed| t.proxy@),
{
    let ranked = rank_by_latency(tested);
    let mut working: Vec<Proxy> = Vec::new();
    let mut i: usize = 0;
    while i < ranked.len()
        invariant
            i <= ranked@.len(),
            proxy_views(working@) == ranked@.take(i as int).map_values(|t: ProxyWithSpeed| t.proxy@),
        decreases ranked.len() - i,
    {
        let ghost o = working@;
        working.push(clone_proxy(&ranked[i].proxy));
        assert(proxy_views(working@) =~= proxy_views(o).push(ranked@[i as int].proxy@));
        assert(ranked@.take(i + 1).map_values(|t: ProxyWithSpeed| t.proxy@) =~= ranked@.take(i as int).map_values(
            |t: ProxyWithSpeed| t.proxy@,
        ).push(ranked@[i as int].proxy@));
        i = i + 1;
    }
    assert(ranked@.take(ranked@.len() as int) =~= ranked@);
    (ranked, working)
}

/// The refusal of a refresh when the list gave no proxy.
pub open spec fn empty_list_msg() -> Seq<char> {
    "No proxies found in this list"@
}

/// The cache after refreshing a custom list: refused when the list gave no
/// proxy; else the cache merged by endpoint with the proxies that answered,
/// in the order they were tested.
pub fn refresh_list_merge(fetched: usize, tested: &Vec<ProxyWithSpeed>, cache: &Vec<Proxy>) -> (r: Result<Vec<Proxy>, String>)
    ensures
        fetched == 0 ==> (r matches Err(m) && m@ == empty_list_msg()),
        fetched > 0 ==> (r matches Ok(v) && proxy_views(v@) == off_endpoints(
            proxy_views(cache@),
            tested@.map_values(|t: ProxyWithSpeed| t.proxy@),
        ) + tested@.map_values(|t: ProxyWithSpeed| t.proxy@)),
{
    if fetched == 0 {
        return Err(String::from_str("No proxies found in this list"));
    }
    let mut working: Vec<Proxy> = Vec::new();
    let mut i: usize = 0;
    while i < tested.len()
        invariant
            i <= tested@.len(),
            proxy_views(working@) == tested@.take(i as int).map_values(|t: ProxyWithSpeed| t.proxy@),
        decreases tested.len() - i,
    {
        let ghost o = working@;
        working.push(clone_proxy(&tested[i].proxy));
        assert(proxy_views(working@) =~= proxy_views(o).push(tested@[i as int].proxy@));
        assert(tested@.take(i + 1).map_values(|t: ProxyWithSpeed| t.proxy@) =~= tested@.take(i as int).map_values(
            |t: ProxyWithSpeed| t.proxy@,
        ).push(tested@[i as int].proxy@));
        i = i + 1;
    }
    assert(tested@.take(tested@.len() as int) =~= tested@);
    Ok(merge_by_endpoint(cache, &working))
}

/// The proxy "Change IP" switches to: the fastest tested proxy on another
/// endpoint than the current upstream; refused when there is none.
pub fn choose_change_ip(tested: Vec<ProxyWithSpeed>, current: &Option<Proxy>) -> (r: Result<ProxyWithSpeed, String>)
    ensures
        rotation_candidates(tested@, current_view(*current)).len() == 0 ==> (r matches Err(m) && m@
            == "No alternative working proxies available"@),
        rotation_candidates(tested@, current_view(*current)).len() > 0 ==> (r matches Ok(p) && exists|i: int|
            is_fastest(rotation_candidates(tested@, current_view(*current)), i) && p == rotation_candidates(
                tested@,
                current_view(*current),
            )[i]),
{
    let ghost cur = current_view(*current);
    let mut candidates: Vec<ProxyWithSpeed> = Vec::new();
    let mut i: usize = 0;
    while i < tested.len()
        invariant
            i <= tested@.len(),
            cur == current_view(*current),
            candidates@ == rotation_candidates(tested@.take(i as int), cur),
        decreases tested.len() - i,
    {
        let p = &tested[i];
        assert(tested@.take(i + 1).drop_last() =~= tested@.take(i as int));
        if differs_from_current(&p.proxy, current) {
            candidates.push(ProxyWithSpeed { proxy: clone_proxy(&p.proxy), latency_nanos: p.latency_nanos });
        }
        i = i + 1;
    }
    assert(tested@.take(tested@.len() as int) =~= tested@);
    match select_fastest(candidates) {
        Some(p) => Ok(p),
        None => Err(String::from_str("No alternative working proxies available")),
    }
}

/// The cached proxies "Change IP" tests: those of the instance's protocol;
/// refused when there are none.
pub fn change_ip_pool(cache: &Vec<Proxy>, protocol: ProxyProtocol) -> (r: Result<Vec<Proxy>, String>)
    ensures
        of_protocol(proxy_views(cache@), protocol).len() == 0 ==> (r matches Err(m) && m@
            == "No cached proxies available"@),
        of_protocol(proxy_views(cache@), protocol).len() > 0 ==> (r matches Ok(v) && proxy_views(v@)
            == of_protocol(proxy_views(cache@), protocol)),
{
    let v = filter_protocol(cache, protocol, true);
    if v.len() == 0 {
        Err(String::from_str("No cached proxies available"))
    } else {
        Ok(v)
    }
}

/// The log line after a rotation: the proxy switched to, or the one kept
/// when there was no alternative, with its latency.
pub open spec fn rotation_msg(p: ProxyView, latency_ms: u64, changed: bool) -> Seq<char> {
    if changed {
        "Rotation: switched to "@ + proxy_url(p) + " ("@ + decimal(latency_ms as nat) + "ms)"@
    } else {
        "Rotation: keeping "@ + proxy_url(p) + " ("@ + decimal(latency_ms as nat) + "ms) — no alternatives"@
    }
}

pub fn rotation_message(p: &Proxy, latency_ms: u64, changed: bool) -> (r: String)
    ensures
        r@ == rotation_msg(p@, latency_ms, changed),
{
    let head = if changed {
        String::from_str("Rotation: switched to ")
    } else {
        String::from_str("Rotation: keeping ")
    };
    let tail = if changed {
        String::from_str("ms)")
    } else {
        String::from_str("ms) — no alternatives")
    };
    let a = cat(head.as_str(), p.url().as_str());
    let b = cat(a.as_str(), " (");
    let c = cat(b.as_str(), decimal_string(latency_ms).as_str());
    cat(c.as_str(), tail.as_str())
}

/// The log line after "Change IP" switched the upstream.
pub open spec fn change_ip_msg(p: ProxyView, latency_ms: u64) -> Seq<char> {
    "Change IP: switched to "@ + proxy_url(p) + " ("@ + decimal(latency_ms as nat) + "ms)"@
}

pub fn change_ip_message(p: &Proxy, latency_ms: u64) -> (r: String)
    ensures
        r@ == change_ip_msg(p@, latency_ms),
{
    let a = cat("Change IP: switched to ", p.url().as_str());
    let b = cat(a.as_str(), " (");
    let c = cat(b.as_str(), decimal_string(latency_ms).as_str());
    cat(c.as_str(), "ms)")
}


// ---------------------------------------------------------------------------
// Automatic discovery of an upstream
// ---------------------------------------------------------------------------

pub open spec fn discovery_start_msg(p: ProxyProtocol, label: Seq<char>) -> Seq<char> {
    "Auto-discovery for "@ + protocol_name(p) + " proxies (source: "@ + label + ")…"@
}

pub open spec fn checking_cached_msg(n: nat, p: ProxyProtocol) -> Seq<char> {
    "Checking "@ + decimal(n) + " cached "@ + protocol_name(p) + " proxies…"@
}

pub open spec fn fetching_msg(p: ProxyProtocol) -> Seq<char> {
    "Fetching "@ + protocol_name(p) + " proxy lists…"@
}

pub open spec fn testing_new_msg(n: nat, p: ProxyProtocol) -> Seq<char> {
    "Testing "@ + decimal(n) + " new "@ + protocol_name(p) + " proxies…"@
}

pub open spec fn found_msg(n: nat, p: ProxyProtocol) -> Seq<char> {
    "Found "@ + decimal(n) + " working "@ + protocol_name(p) + " proxies"@
}

/// Milliseconds of a latency in nanoseconds (`Duration::as_millis`).
pub open spec fn millis(nanos: u128) -> nat {
    (nanos / 1_000_000) as nat
}

pub open spec fn selected_msg(p: ProxyView, nanos: u128) -> Seq<char> {
    "Selected: "@ + proxy_url(p) + " ("@ + decimal(millis(nanos)) + "ms)"@
}

pub open spec fn none_available_msg(p: ProxyProtocol) -> Seq<char> {
    "No "@ + protocol_name(p) + " proxies available"@
}

pub open spec fn unreachable_msg(p: ProxyProtocol) -> Seq<char> {
    "All "@ + protocol_name(p) + " proxies are unreachable"@
}

/// The name of the source searched: the custom list's, else `built-in`.
pub open spec fn source_label(custom: Option<ProxyListConfig>) -> Seq<char> {
    match custom {
        Some(c) => c.name@,
        None => "built-in"@,
    }
}

pub fn discovery_source_label(custom: &Option<ProxyListConfig>) -> (r: String)
    ensures
        r@ == source_label(*custom),
{
    match custom {
        Some(c) => c.name.clone(),
        None => String::from_str("built-in"),
    }
}

fn message_with_count(a: &str, n: usize, b: &str, p: ProxyProtocol, c: &str) -> (r: String)
    ensures
        r@ == a@ + decimal(n as nat) + b@ + protocol_name(p) + c@,
{
    let mut v = chars_of(a);
    push_decimal(&mut v, n as u64);
    extend_str(&mut v, b);
    extend_str(&mut v, p.to_string().as_str());
    extend_str(&mut v, c);
    string_of(&v)
}

/// The first step of a discovery: the cached proxies of the protocol, to be
/// tested first, and the lines logged.
pub fn discovery_start(protocol: ProxyProtocol, label: &str, cache: &Vec<Proxy>) -> (r: (Vec<Proxy>, Vec<String>))
    ensures
        proxy_views(r.0@) == of_protocol(proxy_views(cache@), protocol),
        texts(r.1@) == if r.0@.len() > 0 {
            seq![discovery_start_msg(protocol, label@), checking_cached_msg(r.0@.len(), protocol)]
        } else {
            seq![discovery_start_msg(protocol, label@)]
        },
{
    let cached = filter_protocol(cache, protocol, true);
    let first = cat(cat(cat(cat("Auto-discovery for ", protocol.to_string().as_str()).as_str(), " proxies (source: ").as_str(), label).as_str(), ")…");
    let mut logs = vec![first];
    if cached.len() > 0 {
        logs.push(message_with_count("Checking ", cached.len(), " cached ", protocol, " proxies…"));
    }
    proof {
        assert(proxy_views(cached@).len() == cached@.len());
    }
    assert(texts(logs@) =~= if cached@.len() > 0 {
        seq![discovery_start_msg(protocol, label@), checking_cached_msg(cached@.len(), protocol)]
    } else {
        seq![discovery_start_msg(protocol, label@)]
    });
    (cached, logs)
}

/// The line logged before the lists are fetched.
pub fn fetching_message(protocol: ProxyProtocol) -> (r: String)
    ensures
        r@ == fetching_msg(protocol),
{
    cat(cat("Fetching ", protocol.to_string().as_str()).as_str(), " proxy lists…")
}

/// After the lists were fetched: refused when nothing was fetched and no
/// cached proxy worked; else the fetched proxies that are not cached (each
/// once), to be tested, and the line logged when there are any.
pub fn discovery_new_proxies(protocol: ProxyProtocol, fetched: &Vec<Proxy>, cached: &Vec<Proxy>, cached_working: usize) -> (r: Result<(Vec<Proxy>, Option<String>), String>)
    ensures
        fetched@.len() == 0 && cached_working == 0 ==> (r matches Err(m) && m@ == none_available_msg(protocol)),
        !(fetched@.len() == 0 && cached_working == 0) ==> (r matches Ok((v, log)) && proxy_views(v@).no_duplicates()
            && (forall|x: ProxyView| #[trigger] proxy_views(v@).contains(x) <==> (proxy_views(fetched@).contains(x)
            && !proxy_views(cached@).contains(x))) && match log {
            Some(l) => v@.len() > 0 && l@ == testing_new_msg(v@.len(), protocol),
            None => v@.len() == 0,
        }),
{
    if fetched.len() == 0 && cached_working == 0 {
        return Err(cat(cat("No ", protocol.to_string().as_str()).as_str(), " proxies available"));
    }
    let v = new_unique_proxies(fetched, cached);
    proof {
        assert(proxy_views(v@).len() == v@.len());
    }
    if v.len() > 0 {
        let log = message_with_count("Testing ", v.len(), " new ", protocol, " proxies…");
        Ok((v, Some(log)))
    } else {
        Ok((v, None))
    }
}

/// The last step of a discovery, given every proxy that answered: refused
/// when none did; else the fastest of them, the cache with this protocol's
/// proxies replaced by the working ones, and the lines logged.
pub fn discovery_finish(protocol: ProxyProtocol, tested: Vec<ProxyWithSpeed>, cache: &Vec<Proxy>) -> (r: Result<(ProxyWithSpeed, Vec<Proxy>, Vec<String>), String>)
    ensures
        tested@.len() == 0 ==> (r matches Err(m) && m@ == unreachable_msg(protocol)),
        tested@.len() > 0 ==> (r matches Ok((best, merged, logs)) && (exists|i: int| is_fastest(tested@, i) && best
            == tested@[i]) && proxy_views(merged@) == not_of_protocol(proxy_views(cache@), protocol) + tested@.map_values(
            |t: ProxyWithSpeed| t.proxy@,
        ) && texts(logs@) == seq![found_msg(tested@.len(), protocol), selected_msg(best.proxy@, best.latency_nanos)]),
{
    if tested.len() == 0 {
        return Err(cat(cat("All ", protocol.to_string().as_str()).as_str(), " proxies are unreachable"));
    }
    let mut working: Vec<Proxy> = Vec::new();
    let mut i: usize = 0;
    while i < tested.len()
        invariant
            i <= tested@.len(),
            proxy_views(working@) == tested@.take(i as int).map_values(|t: ProxyWithSpeed| t.proxy@),
        decreases tested.len() - i,
    {
        let ghost o = working@;
        working.push(clone_proxy(&tested[i].proxy));
        assert(proxy_views(working@) =~= proxy_views(o).push(tested@[i as int].proxy@));
        assert(tested@.take(i + 1).map_values(|t: ProxyWithSpeed| t.proxy@) =~= tested@.take(i as int).map_values(
            |t: ProxyWithSpeed| t.proxy@,
        ).push(tested@[i as int].proxy@));
        i = i + 1;
    }
    assert(tested@.take(tested@.len() as int) =~= tested@);
    let merged = merge_cache(cache, protocol, &working);
    let found = message_with_count("Found ", tested.len(), " working ", protocol, " proxies");
    let n = tested.len();
    let best = match select_fastest(tested) {
        Some(b) => b,
        None => {
            assert(false);
            return Err(String::new());
        },
    };
    let mut sel = chars_of("Selected: ");
    extend_str(&mut sel, best.proxy.url().as_str());
    extend_str(&mut sel, " (");
    push_decimal_u128(&mut sel, best.latency_nanos / 1_000_000);
    extend_str(&mut sel, "ms)");
    let logs = vec![found, string_of(&sel)];
    assert(texts(logs@) =~= seq![found_msg(n as nat, protocol), selected_msg(best.proxy@, best.latency_nanos)]);
    Ok((best, merged, logs))
}


/// The periodic progress line of a test run.
pub open spec fn progress_msg(tested: nat, total: nat, working: nat) -> Seq<char> {
    "  progress: "@ + decimal(tested) + "/"@ + decimal(total) + " tested, "@ + decimal(working) + " working"@
}

pub fn progress_message(tested: usize, total: usize, working: usize) -> (r: String)
    ensures
        r@ == progress_msg(tested as nat, total as nat, working as nat),
{
    let mut v = chars_of("  progress: ");
    push_decimal(&mut v, tested as u64);
    extend_str(&mut v, "/");
    push_decimal(&mut v, total as u64);
    extend_str(&mut v, " tested, ");
    push_decimal(&mut v, working as u64);
    extend_str(&mut v, " working");
    string_of(&v)
}

/// The line closing a test run.
pub open spec fn done_msg(working: nat, total: nat) -> Seq<char> {
    "  done: "@ + decimal(working) + "/"@ + decimal(total) + " working"@
}

pub fn done_message(working: usize, total: usize) -> (r: String)
    ensures
        r@ == done_msg(working as nat, total as nat),
{
    let mut v = chars_of("  done: ");
    push_decimal(&mut v, working as u64);
    extend_str(&mut v, "/");
    push_decimal(&mut v, total as u64);
    extend_str(&mut v, " working");
    string_of(&v)
}


/// What a rotation round has learnt so far: how many cached proxies of the
/// protocol there are, how many of them answered, how many fresh proxies
/// were fetched, how many of those answered.
#[derive(Debug, Clone, Copy, PartialEq, Eq, Structural)]
pub enum RoundEvent {
    CachedFound(usize),
    CachedTested(usize),
    FreshFetched(usize),
    FreshTested(usize),
}

/// What a rotation round does next.
#[derive(Debug)]
pub enum RoundAction {
    /// Log the line and wait for the next round.
    Skip(String),
    /// Test the cached proxies.
    TestCached,
    /// Log the line and fetch fresh proxies.
    FetchFresh(String),
    /// Test the fresh proxies.
    TestFresh,
    /// Choose among those that answered; save them to the cache first when
    /// they came from it.
    Choose { save_cache: bool },
}

/// The next step of a rotation round: with no cached proxy the round is
/// skipped; when none of them answers fresh proxies are fetched, and the
/// round is skipped when none is fetched or none of those answers; the
/// working proxies are saved to the cache only when they came from it.
pub fn rotation_round_step(event: RoundEvent) -> (r: RoundAction)
    ensures
        match event {
            RoundEvent::CachedFound(n) => if n == 0 {
                r matches RoundAction::Skip(m) && m@ == "Rotation: no cached proxies to test"@
            } else {
                r is TestCached
            },
            RoundEvent::CachedTested(n) => if n == 0 {
                r matches RoundAction::FetchFresh(m) && m@ == "Rotation: all cached proxies unreachable, trying fresh…"@
            } else {
                r == RoundAction::Choose { save_cache: true }
            },
            RoundEvent::FreshFetched(n) => if n == 0 {
                r matches RoundAction::Skip(m) && m@ == "Rotation: failed to fetch fresh proxies"@
            } else {
                r is TestFresh
            },
            RoundEvent::FreshTested(n) => if n == 0 {
                r matches RoundAction::Skip(m) && m@ == "Rotation: no working fresh proxies found"@
            } else {
                r == RoundAction::Choose { save_cache: false }
            },
        },
{
    match event {
        RoundEvent::CachedFound(n) => if n == 0 {
            RoundAction::Skip(String::from_str("Rotation: no cached proxies to test"))
        } else {
            RoundAction::TestCached
        },
        RoundEvent::CachedTested(n) => if n == 0 {
            RoundAction::FetchFresh(String::from_str("Rotation: all cached proxies unreachable, trying fresh…"))
        } else {
            RoundAction::Choose { save_cache: true }
        },
        RoundEvent::FreshFetched(n) => if n == 0 {
            RoundAction::Skip(String::from_str("Rotation: failed to fetch fresh proxies"))
        } else {
            RoundAction::TestFresh
        },
        RoundEvent::FreshTested(n) => if n == 0 {
            RoundAction::Skip(String::from_str("Rotation: no working fresh proxies found"))
        } else {
            RoundAction::Choose { save_cache: false }
        },
    }
}

/// The line opening a rotation round.
pub open spec fn round_start_msg(protocol: ProxyProtocol) -> Seq<char> {
    "Rotation: re-testing "@ + protocol_name(protocol) + " proxies…"@
}

pub fn round_start_message(protocol: ProxyProtocol) -> (r: String)
    ensures
        r@ == round_start_msg(protocol),
{
    cat(cat("Rotation: re-testing ", protocol.to_string().as_str()).as_str(), " proxies…")
}

} // verus!
