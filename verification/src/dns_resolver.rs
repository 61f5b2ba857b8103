//! DNS over HTTPS: the resolver's configuration, the order in which its
//! servers are asked, and how a DNS check's answers are read.
use vstd::prelude::*;
use crate::proxy_instance::texts;
use crate::text::{chars_of, contains_pat, find_pat};

verus! {

broadcast use vstd::string::group_string_axioms;

/// DoH server presets.
pub const DOH_CLOUDFLARE: &'static str = "https://cloudflare-dns.com/dns-query";
pub const DOH_GOOGLE: &'static str = "https://dns.google/dns-query";
pub const DOH_QUAD9: &'static str = "https://dns.quad9.net:5053/dns-query";

#[derive(Debug, Clone)]
pub struct DnsResolverConfig {
    pub enabled: bool,
    pub primary_server: String,
    pub fallback_servers: Vec<String>,
}

impl Default for DnsResolverConfig {
    fn default() -> (c: Self)
        ensures
            !c.enabled,
            c.primary_server@ == DOH_CLOUDFLARE@,
            texts(c.fallback_servers@) == seq![DOH_GOOGLE@],
    {
        let fallback = vec![String::from_str(DOH_GOOGLE)];
        assert(texts(fallback@) =~= seq![DOH_GOOGLE@]);
        DnsResolverConfig {
            enabled: false,
            primary_server: String::from_str(DOH_CLOUDFLARE),
            fallback_servers: fallback,
        }
    }
}

/// The servers asked, in order: the primary one, then the fallbacks.
pub fn doh_servers(c: &DnsResolverConfig) -> (r: Vec<String>)
    ensures
        texts(r@) == seq![c.primary_server@] + texts(c.fallback_servers@),
{
    let mut r: Vec<String> = vec![c.primary_server.clone()];
    let mut i: usize = 0;
    while i < c.fallback_servers.len()
        invariant
            i <= c.fallback_servers@.len(),
            texts(r@) == seq![c.primary_server@] + texts(c.fallback_servers@).take(i as int),
        decreases c.fallback_servers.len() - i,
    {
        let ghost o = r@;
        r.push(c.fallback_servers[i].clone());
        assert(texts(r@) =~= texts(o).push(c.fallback_servers@[i as int]@));
        assert(texts(c.fallback_servers@).take(i + 1) =~= texts(c.fallback_servers@).take(i as int).push(
            c.fallback_servers@[i as int]@,
        ));
        i = i + 1;
    }
    assert(texts(c.fallback_servers@).take(c.fallback_servers@.len() as int) =~= texts(c.fallback_servers@));
    r
}

/// The servers to ask for a resolution, in order, or the refusal when the
/// resolver is off.
pub fn doh_plan(c: &DnsResolverConfig) -> (r: Result<Vec<String>, String>)
    ensures
        !c.enabled ==> (r matches Err(m) && m@ == "DoH resolver is disabled"@),
        c.enabled ==> (r matches Ok(v) && texts(v@) == seq![c.primary_server@] + texts(c.fallback_servers@)),
{
    if !c.enabled {
        return Err(String::from_str("DoH resolver is disabled"));
    }
    Ok(doh_servers(c))
}

/// What one server's answer decides, given how many addresses it gave or
/// why it failed: a non-empty answer ends the resolution (`None`); an empty
/// answer or a failure becomes the error to report if no later server
/// answers.
pub fn doh_answer(server: &str, answer: Result<usize, String>) -> (r: Option<String>)
    ensures
        match answer {
            Ok(n) => if n > 0 {
                r is None
            } else {
                r matches Some(m) && m@ == "No addresses returned from "@ + server@
            },
            Err(e) => r == Some(e),
        },
{
    match answer {
        Ok(n) => if n > 0 {
            None
        } else {
            let mut m = chars_of("No addresses returned from ");
            crate::text::extend_str(&mut m, server);
            Some(crate::text::string_of(&m))
        },
        Err(e) => Some(e),
    }
}

/// The error of a resolution that no server answered: the last server's,
/// or, when none was asked, that none is configured.
pub fn doh_failure(last_error: Option<String>) -> (r: String)
    ensures
        match last_error {
            Some(e) => r == e,
            None => r@ == "No DoH servers configured"@,
        },
{
    match last_error {
        Some(e) => e,
        None => String::from_str("No DoH servers configured"),
    }
}

/// DNS answer record types read: A (1) and AAAA (28).
pub open spec fn is_address_record(rtype: u64) -> bool {
    rtype == 1 || rtype == 28
}

pub fn is_address_record_type(rtype: u64) -> (r: bool)
    ensures
        r == is_address_record(rtype),
{
    rtype == 1 || rtype == 28
}

/// The label of the DNS service a check reply names, if any.
pub open spec fn dns_label(body: Seq<char>) -> Option<Seq<char>> {
    if contains_pat(body, "cloudflare"@) || contains_pat(body, "1.1.1.1"@) {
        Some("1.1.1.1 (Cloudflare)"@)
    } else if contains_pat(body, "google"@) || contains_pat(body, "8.8.8.8"@) {
        Some("8.8.8.8 (Google)"@)
    } else {
        None
    }
}

fn has_text(body: &[char], pat: &str) -> (r: bool)
    ensures
        r == contains_pat(body@, pat@),
{
    let p = chars_of(pat);
    find_pat(body, &p).is_some()
}

/// Name the DNS service a check reply points to.
pub fn classify_dns_body(body: &str) -> (r: Option<String>)
    ensures
        match dns_label(body@) {
            Some(l) => r matches Some(s) && s@ == l,
            None => r is None,
        },
{
    let v = chars_of(body);
    if has_text(&v, "cloudflare") || has_text(&v, "1.1.1.1") {
        Some(String::from_str("1.1.1.1 (Cloudflare)"))
    } else if has_text(&v, "google") || has_text(&v, "8.8.8.8") {
        Some(String::from_str("8.8.8.8 (Google)"))
    } else {
        None
    }
}

/// The services named by the replies, in order; "System DNS" when none is.
pub open spec fn dns_server_list(labels: Seq<Option<Seq<char>>>) -> Seq<Seq<char>>
    decreases labels.len(),
{
    if labels.len() == 0 {
        Seq::empty()
    } else {
        let rest = dns_server_list(labels.drop_last());
        match labels.last() {
            Some(l) => rest.push(l),
            None => rest,
        }
    }
}

pub open spec fn opt_texts(v: Seq<Option<String>>) -> Seq<Option<Seq<char>>> {
    v.map_values(|o: Option<String>| match o {
        Some(s) => Some(s@),
        None => None,
    })
}

/// The DNS servers detected from the replies of the check services.
pub fn detected_dns_servers(labels: &Vec<Option<String>>) -> (r: Vec<String>)
    ensures
        dns_server_list(opt_texts(labels@)).len() > 0 ==> texts(r@) == dns_server_list(opt_texts(labels@)),
        dns_server_list(opt_texts(labels@)).len() == 0 ==> texts(r@) == seq!["System DNS"@],
{
    let mut r: Vec<String> = Vec::new();
    let mut i: usize = 0;
    while i < labels.len()
        invariant
            i <= labels@.len(),
            texts(r@) == dns_server_list(opt_texts(labels@).take(i as int)),
        decreases labels.len() - i,
    {
        assert(opt_texts(labels@).take(i + 1).drop_last() =~= opt_texts(labels@).take(i as int));
        match &labels[i] {
            Some(s) => {
                let ghost o = r@;
                r.push(s.clone());
                assert(texts(r@) =~= texts(o).push(s@));
            },
            None => {},
        }
        i = i + 1;
    }
    assert(opt_texts(labels@).take(labels@.len() as int) =~= opt_texts(labels@));
    if r.len() == 0 {
        let v = vec![String::from_str("System DNS")];
        assert(texts(v@) =~= seq!["System DNS"@]);
        return v;
    }
    r
}


/// The records of a DoH JSON answer, read as JSON
/// (`serde_json::from_str::<serde_json::Value>`): `None` when the text is
/// not JSON; `Some(None)` when it has no `Answer` array; else, for each
/// member of that array in order, its `type` when it is an unsigned number
/// and its `data` when it is a string.
pub uninterp spec fn doh_records(body: Seq<char>) -> Option<Option<Seq<(Option<u64>, Option<Seq<char>>)>>>;

pub open spec fn record_views(v: Seq<(Option<u64>, Option<String>)>) -> Seq<(Option<u64>, Option<Seq<char>>)> {
    v.map_values(|x: (Option<u64>, Option<String>)| (x.0, match x.1 {
        Some(d) => Some(d@),
        None => None,
    }))
}

/// `serde_json::from_str::<serde_json::Value>` on a DoH answer, then, when
/// it has an `Answer` array (`get`, `as_array`), each member's `type`
/// (`as_u64`) and `data` (`as_str`).
#[verifier::external_body]
fn doh_answer_records(body: &str) -> (r: Option<Option<Vec<(Option<u64>, Option<String>)>>>)
    ensures
        match doh_records(body@) {
            Some(Some(k)) => r matches Some(Some(v)) && record_views(v@) == k,
            Some(None) => r == Some(None::<Vec<(Option<u64>, Option<String>)>>),
            None => r is None,
        },
{
    let json: serde_json::Value = serde_json::from_str(body).ok()?;
    Some(json.get("Answer").and_then(|a| a.as_array()).map(|arr| {
        arr.iter().map(|a| (a.get("type").and_then(|t| t.as_u64()), a.get("data").and_then(|d| d.as_str()).map(|d| d.to_string()))).collect()
    }))
}

/// A record's type: 0 when the answer gave none that is a number.
pub open spec fn record_type(t: Option<u64>) -> u64 {
    match t {
        Some(x) => x,
        None => 0,
    }
}

/// The data of the address records (A and AAAA) that carry some, in order.
pub open spec fn address_data(k: Seq<(Option<u64>, Option<Seq<char>>)>) -> Seq<Seq<char>>
    decreases k.len(),
{
    if k.len() == 0 {
        Seq::empty()
    } else {
        let rest = address_data(k.drop_last());
        match k.last().1 {
            Some(d) => if is_address_record(record_type(k.last().0)) {
                rest.push(d)
            } else {
                rest
            },
            None => rest,
        }
    }
}

/// The addresses a DoH JSON answer gives, as text (each still to be read as
/// an IP address): `None` when the answer is not JSON, none when it has no
/// `Answer` array.
pub fn doh_answer_addresses(body: &str) -> (r: Option<Vec<String>>)
    ensures
        match doh_records(body@) {
            Some(Some(k)) => r matches Some(v) && texts(v@) == address_data(k),
            Some(None) => r matches Some(v) && v@.len() == 0,
            None => r is None,
        },
{
    let recs = match doh_answer_records(body) {
        Some(Some(v)) => v,
        Some(None) => return Some(Vec::new()),
        None => return None,
    };
    let ghost k = record_views(recs@);
    let mut out: Vec<String> = Vec::new();
    let mut i: usize = 0;
    while i < recs.len()
        invariant
            i <= recs@.len(),
            k == record_views(recs@),
            texts(out@) == address_data(k.take(i as int)),
        decreases recs.len() - i,
    {
        assert(k.take(i + 1).drop_last() =~= k.take(i as int));
        assert(k.take(i + 1).last() == k[i as int]);
        let (t, d) = &recs[i];
        let ty: u64 = match t {
            Some(x) => *x,
            None => 0,
        };
        match d {
            Some(data) => {
                if is_address_record_type(ty) {
                    let ghost o = out@;
                    out.push(data.clone());
                    assert(texts(out@) =~= texts(o).push(data@));
                }
            },
            None => {},
        }
        i = i + 1;
    }
    assert(k.take(recs@.len() as int) =~= k);
    Some(out)
}

} // verus!
