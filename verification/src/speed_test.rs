//! Choosing among tested proxies by measured latency.
use vstd::prelude::*;
use crate::proxy_type::{Proxy, ProxyView, clone_proxy};

verus! {

/// A proxy that answered a test, with the time the test took.
#[derive(Debug, Clone)]
pub struct ProxyWithSpeed {
    pub proxy: Proxy,
    /// Measured latency in nanoseconds.
    pub latency_nanos: u128,
}

/// Entry `i` is the fastest of `s`: no entry is faster, and no earlier
/// entry is as fast (the first of equally fast entries wins).
pub open spec fn is_fastest(s: Seq<ProxyWithSpeed>, i: int) -> bool {
    &&& 0 <= i < s.len()
    &&& forall|j: int| 0 <= j < s.len() ==> s[i].latency_nanos <= #[trigger] s[j].latency_nanos
    &&& forall|j: int| 0 <= j < i ==> s[i].latency_nanos < #[trigger] s[j].latency_nanos
}

/// At most one entry is the fastest.
pub proof fn lemma_fastest_unique(s: Seq<ProxyWithSpeed>, i: int, k: int)
    requires
        is_fastest(s, i),
        is_fastest(s, k),
    ensures
        i == k,
{
    if i < k {
        assert(s[k].latency_nanos < s[i].latency_nanos);
    } else if k < i {
        assert(s[i].latency_nanos < s[k].latency_nanos);
    }
}

/// The index of the fastest entry (the first of the equally fast).
pub fn fastest_index(s: &Vec<ProxyWithSpeed>) -> (r: Option<usize>)
    ensures
        match r {
            Some(i) => is_fastest(s@, i as int),
            None => s@.len() == 0,
        },
{
    if s.len() == 0 {
        return None;
    }
    let mut best: usize = 0;
    let mut i: usize = 1;
    while i < s.len()
        invariant
            0 < i <= s@.len(),
            best < i,
            forall|j: int| 0 <= j < i ==> s@[best as int].latency_nanos <= #[trigger] s@[j].latency_nanos,
            forall|j: int| 0 <= j < best ==> s@[best as int].latency_nanos < #[trigger] s@[j].latency_nanos,
        decreases s.len() - i,
    {
        if s[i].latency_nanos < s[best].latency_nanos {
            best = i;
        }
        i = i + 1;
    }
    Some(best)
}

/// The fastest proxy: the first of those with the least latency, or `None`
/// when there is none.
pub fn select_fastest(proxies: Vec<ProxyWithSpeed>) -> (r: Option<ProxyWithSpeed>)
    ensures
        r is None <==> proxies@.len() == 0,
        r matches Some(p) ==> exists|i: int| is_fastest(proxies@, i) && p == proxies@[i],
{
    let mut proxies = proxies;
    match fastest_index(&proxies) {
        None => None,
        Some(i) => {
            let ghost before = proxies@;
            let p = proxies.remove(i);
            assert(is_fastest(before, i as int) && p == before[i as int]);
            Some(p)
        },
    }
}


/// Where a stable insertion puts `x` in `t`: after the last entry, counted
/// from the end, that is no slower than `x`.
pub open spec fn insert_pos(t: Seq<ProxyWithSpeed>, x: ProxyWithSpeed) -> int
    decreases t.len(),
{
    if t.len() == 0 {
        0
    } else if t.last().latency_nanos <= x.latency_nanos {
        t.len() as int
    } else {
        insert_pos(t.drop_last(), x)
    }
}

/// `s` ordered by latency, fastest first; equally fast entries keep their
/// order (a stable sort by latency).
pub open spec fn by_latency(s: Seq<ProxyWithSpeed>) -> Seq<ProxyWithSpeed>
    decreases s.len(),
{
    if s.len() == 0 {
        Seq::empty()
    } else {
        let t = by_latency(s.drop_last());
        t.insert(insert_pos(t, s.last()), s.last())
    }
}

/// Ordered by latency, fastest first.
pub open spec fn latency_sorted(s: Seq<ProxyWithSpeed>) -> bool {
    forall|i: int, j: int| 0 <= i < j < s.len() ==> #[trigger] s[i].latency_nanos <= #[trigger] s[j].latency_nanos
}

proof fn lemma_insert_pos(t: Seq<ProxyWithSpeed>, x: ProxyWithSpeed)
    ensures
        0 <= insert_pos(t, x) <= t.len(),
        forall|k: int| insert_pos(t, x) <= k < t.len() ==> x.latency_nanos < #[trigger] t[k].latency_nanos,
        insert_pos(t, x) > 0 ==> t[insert_pos(t, x) - 1].latency_nanos <= x.latency_nanos,
    decreases t.len(),
{
    if t.len() > 0 && t.last().latency_nanos > x.latency_nanos {
        lemma_insert_pos(t.drop_last(), x);
        assert forall|k: int| insert_pos(t, x) <= k < t.len() implies x.latency_nanos < #[trigger] t[k].latency_nanos by {
            if k < t.len() - 1 {
                assert(t[k] == t.drop_last()[k]);
            }
        }
    }
}

/// Sorting by latency orders the entries fastest first and keeps every
/// entry, each as often as it was there.
pub proof fn lemma_by_latency(s: Seq<ProxyWithSpeed>)
    ensures
        latency_sorted(by_latency(s)),
        by_latency(s).to_multiset() == s.to_multiset(),
        by_latency(s).len() == s.len(),
    decreases s.len(),
{
    broadcast use vstd::seq_lib::group_to_multiset_ensures;
    if s.len() > 0 {
        let t = by_latency(s.drop_last());
        let x = s.last();
        lemma_by_latency(s.drop_last());
        lemma_insert_pos(t, x);
        let p = insert_pos(t, x);
        let r = t.insert(p, x);
        assert forall|i: int, j: int| 0 <= i < j < r.len() implies #[trigger] r[i].latency_nanos
            <= #[trigger] r[j].latency_nanos by {
            if j < p {
                assert(r[i] == t[i] && r[j] == t[j]);
            } else if j == p {
                assert(r[i] == t[i] && r[j] == x);
                assert(t[i].latency_nanos <= t[p - 1].latency_nanos || i == p - 1);
            } else if i < p {
                assert(r[i] == t[i] && r[j] == t[j - 1]);
            } else if i == p {
                assert(r[i] == x && r[j] == t[j - 1]);
            } else {
                assert(r[i] == t[i - 1] && r[j] == t[j - 1]);
            }
        }
        assert(s =~= s.drop_last().push(x));
    }
}

/// The tested proxies ordered by latency, fastest first; equally fast ones
/// keep their order.
pub fn rank_by_latency(tested: Vec<ProxyWithSpeed>) -> (r: Vec<ProxyWithSpeed>)
    ensures
        r@ == by_latency(tested@),
{
    let ghost s = tested@;
    let mut rest = tested;
    let mut r: Vec<ProxyWithSpeed> = Vec::new();
    let ghost mut done: int = 0;
    while rest.len() > 0
        invariant
            0 <= done <= s.len(),
            rest@ == s.skip(done),
            r@ == by_latency(s.take(done)),
        decreases rest@.len(),
    {
        let x = rest.remove(0);
        let mut j: usize = r.len();
        assert(r@.take(j as int) =~= r@);
        while j > 0 && r[j - 1].latency_nanos > x.latency_nanos
            invariant
                j <= r@.len(),
                insert_pos(r@, x) == insert_pos(r@.take(j as int), x),
            decreases j,
        {
            assert(r@.take(j as int).drop_last() =~= r@.take(j - 1));
            j = j - 1;
        }
        proof {
            assert(insert_pos(r@.take(j as int), x) == j) by {
                if j > 0 {
                    assert(r@.take(j as int).last() == r@[j - 1]);
                }
            }
            assert(s.take(done + 1).drop_last() =~= s.take(done));
            assert(s.take(done + 1).last() == x);
        }
        r.insert(j, x);
        proof {
            done = done + 1;
            assert(rest@ =~= s.skip(done));
        }
    }
    assert(s.take(done) =~= s);
    r
}

} // verus!
