//! Split tunnelling: rules that send the traffic for some domains through a
//! chosen instance.
use vstd::prelude::*;
use crate::codec::{new_uuid, uuid_to_string};
use crate::proxy_instance::texts;
use crate::text::{
    trim, trim_str, chars_of, lemma_trim_lower_trim, string_of, ascii_lower_seq, ascii_lowercase, chars_eq, clone_opt_string,
};

verus! {

broadcast use vstd::string::group_string_axioms;

#[derive(Debug)]
pub struct RoutingRule {
    pub id: String,
    pub name: String,
    pub domains: Vec<String>,
    pub proxy_instance_id: Option<String>,
    pub enabled: bool,
}

#[derive(Debug)]
pub struct SaveRoutingRuleRequest {
    pub id: Option<String>,
    pub name: String,
    pub domains: Vec<String>,
    pub proxy_instance_id: Option<String>,
    pub enabled: bool,
}

/// A domain as kept in a rule: trimmed, ASCII letters in lower case.
pub open spec fn norm_domain(d: Seq<char>) -> Seq<char> {
    ascii_lower_seq(trim(d))
}

/// The domains of a rule: normalized, blanks dropped, in order.
pub open spec fn normalized_domains(s: Seq<Seq<char>>) -> Seq<Seq<char>>
    decreases s.len(),
{
    if s.len() == 0 {
        Seq::empty()
    } else {
        let rest = normalized_domains(s.drop_last());
        let d = norm_domain(s.last());
        if d.len() > 0 {
            rest.push(d)
        } else {
            rest
        }
    }
}

/// Each domain that normalizing keeps is non-blank and already normal.
proof fn lemma_normalized_fixed(s: Seq<Seq<char>>)
    ensures
        forall|k: int|
            0 <= k < normalized_domains(s).len() ==> #[trigger] normalized_domains(s)[k].len() > 0
                && norm_domain(normalized_domains(s)[k]) == normalized_domains(s)[k],
    decreases s.len(),
{
    if s.len() > 0 {
        lemma_normalized_fixed(s.drop_last());
        lemma_trim_lower_trim(s.last());
        let rest = normalized_domains(s.drop_last());
        let r = normalized_domains(s);
        assert forall|k: int| 0 <= k < r.len() implies #[trigger] r[k].len() > 0 && norm_domain(r[k])
            == r[k] by {
            if k < rest.len() {
                assert(r[k] == rest[k]);
            }
        }
    }
}

/// A list of non-blank, normal domains normalizes to itself.
proof fn lemma_normal_list_unchanged(t: Seq<Seq<char>>)
    requires
        forall|k: int| 0 <= k < t.len() ==> #[trigger] t[k].len() > 0 && norm_domain(t[k]) == t[k],
    ensures
        normalized_domains(t) == t,
    decreases t.len(),
{
    if t.len() > 0 {
        lemma_normal_list_unchanged(t.drop_last());
        assert(norm_domain(t.last()) == t.last());
        assert(t.drop_last().push(t.last()) =~= t);
    }
}

/// Normalizing the domains of a rule twice gives what normalizing them once
/// gave: a saved rule's domains are kept as they are when it is saved again.
pub proof fn lemma_normalize_idempotent(s: Seq<Seq<char>>)
    ensures
        normalized_domains(normalized_domains(s)) == normalized_domains(s),
{
    lemma_normalized_fixed(s);
    lemma_normal_list_unchanged(normalized_domains(s));
}

pub fn normalize_domains(domains: Vec<String>) -> (r: Vec<String>)
    ensures
        texts(r@) == normalized_domains(texts(domains@)),
{
    let mut r: Vec<String> = Vec::new();
    let mut i: usize = 0;
    while i < domains.len()
        invariant
            i <= domains@.len(),
            texts(r@) == normalized_domains(texts(domains@).take(i as int)),
        decreases domains.len() - i,
    {
        assert(texts(domains@).take(i + 1).drop_last() =~= texts(domains@).take(i as int));
        let t = trim_str(domains[i].as_str());
        let tv = chars_of(t.as_str());
        let lower = ascii_lowercase(&tv);
        if lower.len() > 0 {
            let ghost o = r@;
            r.push(string_of(&lower));
            assert(texts(r@) =~= texts(o).push(norm_domain(domains@[i as int]@)));
        }
        i = i + 1;
    }
    assert(texts(domains@).take(domains@.len() as int) =~= texts(domains@));
    r
}

/// `host` is `pattern` or one of its subdomains; `*.example.com` stands for
/// `example.com` and its subdomains.
pub open spec fn domain_match(host: Seq<char>, pattern: Seq<char>) -> bool {
    let base = if "*."@.is_prefix_of(pattern) {
        pattern.skip(2)
    } else {
        pattern
    };
    host == base || (seq!['.'] + base).is_suffix_of(host)
}

/// A pattern covers a host on whole labels only: the host is the pattern's
/// domain or ends with a dot followed by it (`example.com` covers
/// `a.example.com` but not `badexample.com`), and `*.example.com` covers
/// exactly what `example.com` covers.
pub proof fn lemma_domain_match_whole_labels(host: Seq<char>, base: Seq<char>)
    requires
        !"*."@.is_prefix_of(base),
    ensures
        domain_match(host, base) <==> (host == base || (host.len() > base.len() && host[host.len() - base.len() - 1]
            == '.' && host.skip(host.len() - base.len()) == base)),
        domain_match(host, "*."@ + base) <==> domain_match(host, base),
{
    reveal_strlit("*.");
    let n = host.len();
    let m = base.len();
    let dotted = seq!['.'] + base;
    if dotted.is_suffix_of(host) {
        let sub = host.subrange(n - m - 1, n as int);
        assert(sub[0] == dotted[0]);
        assert(host.skip(n - m) =~= base) by {
            assert forall|i: int| 0 <= i < m implies host.skip(n - m)[i] == base[i] by {
                assert(sub[i + 1] == dotted[i + 1]);
            }
        }
    }
    if host.len() > base.len() && host[n - m - 1] == '.' && host.skip(n - m) == base {
        assert(dotted =~= host.subrange(n - m - 1, n as int)) by {
            assert forall|i: int| 0 <= i < m + 1 implies dotted[i] == host.subrange(n - m - 1, n as int)[i] by {
                if i > 0 {
                    assert(host.skip(n - m)[i - 1] == base[i - 1]);
                }
            }
        }
    }
    let p = "*."@ + base;
    assert("*."@.is_prefix_of(p)) by {
        assert(p.subrange(0, 2) =~= "*."@);
    }
    assert(p.skip(2) =~= base);
}

fn ends_with(v: &[char], suffix: &[char]) -> (r: bool)
    ensures
        r == suffix@.is_suffix_of(v@),
{
    let vn = v.len();
    let sn = suffix.len();
    if sn > vn {
        return false;
    }
    let off = vn - sn;
    let mut i: usize = 0;
    while i < sn
        invariant
            sn == suffix@.len(),
            vn == v@.len(),
            off + sn == vn,
            i <= suffix@.len(),
            forall|k: int| 0 <= k < i ==> v@[off + k] == suffix@[k],
        decreases suffix.len() - i,
    {
        if v[off + i] != suffix[i] {
            assert(v@.subrange(off as int, v@.len() as int)[i as int] != suffix@[i as int]);
            return false;
        }
        i = i + 1;
    }
    assert(v@.subrange(off as int, v@.len() as int) =~= suffix@);
    true
}

pub fn domain_matches(host: &str, pattern: &str) -> (r: bool)
    ensures
        r == domain_match(host@, pattern@),
{
    let hv = chars_of(host);
    let pv = chars_of(pattern);
    proof {
        reveal_strlit("*.");
    }
    let star = pv.len() >= 2 && pv[0] == '*' && pv[1] == '.';
    assert(star == "*."@.is_prefix_of(pv@)) by {
        if "*."@.is_prefix_of(pv@) {
            assert(pv@[0] == "*."@[0] && pv@[1] == "*."@[1]);
        }
        if star {
            assert(pv@.subrange(0, 2) =~= "*."@);
        }
    }
    let base = if star {
        crate::text::sub_chars(&pv, 2, pv.len())
    } else {
        pv
    };
    assert(star ==> base@ =~= pv@.skip(2));
    let mut dotted: Vec<char> = vec!['.'];
    crate::text::extend_chars(&mut dotted, &base);
    chars_eq(&hv, &base) || ends_with(&hv, &dotted)
}

/// The rule that decides `host`: the first enabled rule with a matching
/// domain, giving the instance it names (which may be none).
pub open spec fn rule_for(rules: Seq<RoutingRule>, host: Seq<char>) -> Option<Option<String>>
    decreases rules.len(),
{
    if rules.len() == 0 {
        None
    } else {
        let r = rules[0];
        if r.enabled && exists|k: int| 0 <= k < r.domains@.len() && domain_match(host, #[trigger] r.domains@[k]@) {
            Some(r.proxy_instance_id)
        } else {
            rule_for(rules.skip(1), host)
        }
    }
}

/// The instance for a host name: the host is trimmed and lower-cased; none
/// for an empty host or when no enabled rule matches.
pub open spec fn match_domain_spec(rules: Seq<RoutingRule>, hostname: Seq<char>) -> Option<String> {
    let host = ascii_lower_seq(trim(hostname));
    if host.len() == 0 {
        None
    } else {
        match rule_for(rules, host) {
            Some(o) => o,
            None => None,
        }
    }
}

/// Rule `rule` is on and one of its domains covers `host`.
pub open spec fn rule_covers(rule: RoutingRule, host: Seq<char>) -> bool {
    &&& rule.enabled
    &&& exists|d: int| 0 <= d < rule.domains@.len() && domain_match(host, #[trigger] rule.domains@[d]@)
}

proof fn lemma_rule_for_first(rules: Seq<RoutingRule>, host: Seq<char>, k: int)
    requires
        0 <= k < rules.len(),
        rule_covers(rules[k], host),
        forall|j: int| 0 <= j < k ==> !rule_covers(#[trigger] rules[j], host),
    ensures
        rule_for(rules, host) == Some(rules[k].proxy_instance_id),
    decreases k,
{
    if k > 0 {
        assert(!rule_covers(rules[0], host));
        let t = rules.skip(1);
        assert forall|j: int| 0 <= j < k - 1 implies !rule_covers(#[trigger] t[j], host) by {
            assert(t[j] == rules[j + 1]);
        }
        assert(t[k - 1] == rules[k]);
        lemma_rule_for_first(t, host, k - 1);
    }
}

proof fn lemma_rule_for_none(rules: Seq<RoutingRule>, host: Seq<char>)
    requires
        forall|j: int| 0 <= j < rules.len() ==> !rule_covers(#[trigger] rules[j], host),
    ensures
        rule_for(rules, host) is None,
    decreases rules.len(),
{
    if rules.len() > 0 {
        assert(!rule_covers(rules[0], host));
        let t = rules.skip(1);
        assert forall|j: int| 0 <= j < t.len() implies !rule_covers(#[trigger] t[j], host) by {
            assert(t[j] == rules[j + 1]);
        }
        lemma_rule_for_none(t, host);
    }
}

/// The first enabled rule with a domain covering the host decides, whatever
/// it names: its instance, or a direct connection when it names none. Later
/// rules, and rules that are off, play no part; when no enabled rule covers
/// the host, or the host is blank, the connection is direct.
pub proof fn lemma_first_covering_rule_decides(rules: Seq<RoutingRule>, hostname: Seq<char>, k: int)
    requires
        ascii_lower_seq(trim(hostname)).len() > 0,
        0 <= k < rules.len(),
        rule_covers(rules[k], ascii_lower_seq(trim(hostname))),
        forall|j: int| 0 <= j < k ==> !rule_covers(#[trigger] rules[j], ascii_lower_seq(trim(hostname))),
    ensures
        match_domain_spec(rules, hostname) == rules[k].proxy_instance_id,
{
    lemma_rule_for_first(rules, ascii_lower_seq(trim(hostname)), k);
}

/// A host that no enabled rule covers, or a blank one, goes direct.
pub proof fn lemma_uncovered_host_goes_direct(rules: Seq<RoutingRule>, hostname: Seq<char>)
    requires
        ascii_lower_seq(trim(hostname)).len() == 0 || forall|j: int| 0 <= j < rules.len()
            ==> !rule_covers(#[trigger] rules[j], ascii_lower_seq(trim(hostname))),
    ensures
        match_domain_spec(rules, hostname) is None,
{
    if ascii_lower_seq(trim(hostname)).len() > 0 {
        lemma_rule_for_none(rules, ascii_lower_seq(trim(hostname)));
    }
}

fn rule_matches(rule: &RoutingRule, host: &str) -> (r: bool)
    ensures
        r == (rule.enabled && exists|k: int| 0 <= k < rule.domains@.len() && domain_match(host@, #[trigger] rule.domains@[k]@)),
{
    if !rule.enabled {
        return false;
    }
    let mut k: usize = 0;
    while k < rule.domains.len()
        invariant
            rule.enabled,
            k <= rule.domains@.len(),
            forall|j: int| 0 <= j < k ==> !domain_match(host@, #[trigger] rule.domains@[j]@),
        decreases rule.domains.len() - k,
    {
        if domain_matches(host, rule.domains[k].as_str()) {
            assert(domain_match(host@, rule.domains@[k as int]@));
            return true;
        }
        k = k + 1;
    }
    false
}

pub fn match_domain(hostname: &str, rules: &Vec<RoutingRule>) -> (r: Option<String>)
    ensures
        r == match_domain_spec(rules@, hostname@),
{
    let t = trim_str(hostname);
    let tv = chars_of(t.as_str());
    let lower = ascii_lowercase(&tv);
    if lower.len() == 0 {
        return None;
    }
    let host = string_of(&lower);
    let mut i: usize = 0;
    assert(rules@.skip(0) =~= rules@);
    while i < rules.len()
        invariant
            i <= rules@.len(),
            host@ == ascii_lower_seq(trim(hostname@)),
            host@.len() > 0,
            rule_for(rules@, host@) == rule_for(rules@.skip(i as int), host@),
        decreases rules.len() - i,
    {
        if rule_matches(&rules[i], host.as_str()) {
            return clone_opt_string(&rules[i].proxy_instance_id);
        }
        assert(rules@.skip(i as int).skip(1) =~= rules@.skip(i + 1));
        i = i + 1;
    }
    None
}

fn find_rule(v: &Vec<RoutingRule>, id: &str) -> (r: Option<usize>)
    ensures
        match r {
            Some(i) => i < v@.len() && v@[i as int].id@ == id@,
            None => forall|k: int| 0 <= k < v@.len() ==> v@[k].id@ != id@,
        },
{
    let idv = chars_of(id);
    let mut i: usize = 0;
    while i < v.len()
        invariant
            i <= v@.len(),
            idv@ == id@,
            forall|k: int| 0 <= k < i ==> v@[k].id@ != id@,
        decreases v.len() - i,
    {
        let x = chars_of(v[i].id.as_str());
        if chars_eq(&x, &idv) {
            return Some(i);
        }
        i = i + 1;
    }
    None
}

/// Some rule has the identifier `id`.
pub open spec fn has_rule_id(rules: Seq<RoutingRule>, id: Option<String>) -> bool {
    match id {
        Some(i) => exists|k: int| 0 <= k < rules.len() && #[trigger] rules[k].id@ == i@,
        None => false,
    }
}

/// Save a rule: the rule with the request's identifier is updated, else a
/// new rule with a fresh identifier is appended; its domains are
/// normalized. Returns its position.
pub fn upsert_rule(rules: &mut Vec<RoutingRule>, req: SaveRoutingRuleRequest) -> (r: usize)
    ensures
        r < final(rules)@.len(),
        final(rules)@[r as int].name == req.name,
        texts(final(rules)@[r as int].domains@) == normalized_domains(texts(req.domains@)),
        final(rules)@[r as int].proxy_instance_id == req.proxy_instance_id,
        final(rules)@[r as int].enabled == req.enabled,
        forall|k: int| 0 <= k < old(rules)@.len() && k != r ==> #[trigger] final(rules)@[k] == old(rules)@[k],
        has_rule_id(old(rules)@, req.id) ==> final(rules)@.len() == old(rules)@.len()
            && final(rules)@[r as int].id == old(rules)@[r as int].id && old(rules)@[r as int].id@
            == req.id.unwrap()@,
        !has_rule_id(old(rules)@, req.id) ==> final(rules)@.len() == old(rules)@.len() + 1 && r
            == old(rules)@.len(),
{
    let found = match &req.id {
        Some(id) => find_rule(rules, id.as_str()),
        None => None,
    };
    let domains = normalize_domains(req.domains);
    match found {
        Some(i) => {
            let mut x = rules.remove(i);
            x.name = req.name;
            x.domains = domains;
            x.proxy_instance_id = req.proxy_instance_id;
            x.enabled = req.enabled;
            rules.insert(i, x);
            i
        },
        None => {
            rules.push(RoutingRule {
                id: uuid_to_string(new_uuid()),
                name: req.name,
                domains,
                proxy_instance_id: req.proxy_instance_id,
                enabled: req.enabled,
            });
            rules.len() - 1
        },
    }
}

/// The rules other than those with identifier `id`.
pub open spec fn other_rule(id: Seq<char>) -> spec_fn(RoutingRule) -> bool {
    |r: RoutingRule| r.id@ != id
}

/// Remove every rule with identifier `id`; the others keep their order.
/// Returns whether one was removed.
pub fn delete_rule(rules: &mut Vec<RoutingRule>, id: &str) -> (removed: bool)
    ensures
        final(rules)@ == old(rules)@.filter(other_rule(id@)),
        removed == exists|k: int| 0 <= k < old(rules)@.len() && #[trigger] old(rules)@[k].id@ == id@,
{
    let idv = chars_of(id);
    let ghost orig = rules@;
    let ghost keep = other_rule(id@);
    let mut kept: Vec<RoutingRule> = Vec::new();
    let mut all: Vec<RoutingRule> = Vec::new();
    std::mem::swap(&mut all, rules);
    let mut removed = false;
    let mut i: usize = 0;
    let n = all.len();
    proof {
        reveal(Seq::filter);
        assert(orig.take(0) =~= Seq::<RoutingRule>::empty());
    }
    while i < n
        invariant
            n == orig.len(),
            all@.len() == n - i,
            forall|k: int| 0 <= k < all@.len() ==> all@[k] == orig[k + i],
            idv@ == id@,
            keep == other_rule(id@),
            kept@ == orig.take(i as int).filter(keep),
            removed == exists|k: int| 0 <= k < i && #[trigger] orig[k].id@ == id@,
        decreases n - i,
    {
        let x = all.remove(0);
        let xv = chars_of(x.id.as_str());
        proof {
            reveal(Seq::filter);
            assert(orig.take(i + 1).drop_last() =~= orig.take(i as int));
            assert(orig.take(i + 1).last() == x);
        }
        if !chars_eq(&xv, &idv) {
            kept.push(x);
        } else {
            removed = true;
        }
        proof {
            if removed && !(exists|k: int| 0 <= k < i && #[trigger] orig[k].id@ == id@) {
                assert(orig[i as int].id@ == id@);
            }
        }
        i = i + 1;
    }
    assert(orig.take(n as int) =~= orig);
    *rules = kept;
    removed
}

} // verus!
