//! Classifying how much a proxy reveals, from the request headers an
//! echo service saw through it.
use vstd::prelude::*;
use crate::text::{chars_of, string_of, extend_str, lower_text, to_lowercase, push_decimal};
use crate::proxy_type::{Proxy, ProxyProtocol, host_port};
use crate::proxy_instance::texts;

verus! {

#[derive(Debug, Clone, Copy, PartialEq, Eq, Structural)]
pub enum AnonymityLevel {
    Transparent,
    Anonymous,
    Elite,
}

pub open spec fn anonymity_name(a: AnonymityLevel) -> Seq<char> {
    match a {
        AnonymityLevel::Transparent => "Transparent"@,
        AnonymityLevel::Anonymous => "Anonymous"@,
        AnonymityLevel::Elite => "Elite"@,
    }
}

impl AnonymityLevel {
    pub fn to_string(&self) -> (s: String)
        ensures
            s@ == anonymity_name(*self),
    {
        match self {
            AnonymityLevel::Transparent => String::from_str("Transparent"),
            AnonymityLevel::Anonymous => String::from_str("Anonymous"),
            AnonymityLevel::Elite => String::from_str("Elite"),
        }
    }
}

/// Headers that reveal a proxy in between.
pub open spec fn revealing_headers() -> Seq<Seq<char>> {
    seq![
        "x-forwarded-for"@,
        "x-real-ip"@,
        "via"@,
        "proxy-connection"@,
        "x-proxy-id"@,
        "forwarded"@,
        "x-forwarded-proto"@,
        "x-forwarded-host"@,
        "x-forwarded-server"@,
    ]
}

/// Some header name, lowercased, is `name`.
pub open spec fn has_header(keys: Seq<Seq<char>>, name: Seq<char>) -> bool {
    exists|i: int| 0 <= i < keys.len() && lower_text(keys[i]) == name
}

/// Some header name, lowercased, reveals a proxy.
pub open spec fn has_revealing_header(keys: Seq<Seq<char>>) -> bool {
    exists|i: int| 0 <= i < keys.len() && revealing_headers().contains(lower_text(keys[i]))
}

/// `X-Forwarded-For` makes a proxy transparent; any other revealing header
/// makes it anonymous; none makes it elite.
pub open spec fn anonymity_of(keys: Seq<Seq<char>>) -> AnonymityLevel {
    if has_header(keys, "x-forwarded-for"@) {
        AnonymityLevel::Transparent
    } else if has_revealing_header(keys) {
        AnonymityLevel::Anonymous
    } else {
        AnonymityLevel::Elite
    }
}

fn seq_eq_str(v: &Vec<char>, s: &str) -> (r: bool)
    ensures
        r == (v@ == s@),
{
    let w = chars_of(s);
    crate::text::chars_eq(v, &w)
}

/// Classify the header names echoed back through a proxy.
pub fn classify_anonymity(header_keys: &Vec<String>) -> (r: AnonymityLevel)
    ensures
        r == anonymity_of(texts(header_keys@)),
{
    let mut forwarded_for = false;
    let mut revealing = false;
    let mut i: usize = 0;
    proof {
        reveal_strlit("x-forwarded-for");
        reveal_strlit("x-real-ip");
        reveal_strlit("via");
        reveal_strlit("proxy-connection");
        reveal_strlit("x-proxy-id");
        reveal_strlit("forwarded");
        reveal_strlit("x-forwarded-proto");
        reveal_strlit("x-forwarded-host");
        reveal_strlit("x-forwarded-server");
    }
    while i < header_keys.len()
        invariant
            i <= header_keys@.len(),
            forwarded_for == (exists|k: int|
                0 <= k < i && lower_text(header_keys@[k]@) == "x-forwarded-for"@),
            revealing == (exists|k: int|
                0 <= k < i && revealing_headers().contains(lower_text(header_keys@[k]@))),
        decreases header_keys.len() - i,
    {
        let lower = chars_of(to_lowercase(header_keys[i].as_str()).as_str());
        let ghost l = lower_text(header_keys@[i as int]@);
        let is_xff = seq_eq_str(&lower, "x-forwarded-for");
        let is_rev = is_xff || seq_eq_str(&lower, "x-real-ip") || seq_eq_str(&lower, "via")
            || seq_eq_str(&lower, "proxy-connection") || seq_eq_str(&lower, "x-proxy-id")
            || seq_eq_str(&lower, "forwarded") || seq_eq_str(&lower, "x-forwarded-proto")
            || seq_eq_str(&lower, "x-forwarded-host") || seq_eq_str(&lower, "x-forwarded-server");
        proof {
            let rh = revealing_headers();
            if is_rev {
                if lower@ == "x-forwarded-for"@ { assert(rh[0] == l); }
                else if lower@ == "x-real-ip"@ { assert(rh[1] == l); }
                else if lower@ == "via"@ { assert(rh[2] == l); }
                else if lower@ == "proxy-connection"@ { assert(rh[3] == l); }
                else if lower@ == "x-proxy-id"@ { assert(rh[4] == l); }
                else if lower@ == "forwarded"@ { assert(rh[5] == l); }
                else if lower@ == "x-forwarded-proto"@ { assert(rh[6] == l); }
                else if lower@ == "x-forwarded-host"@ { assert(rh[7] == l); }
                else { assert(rh[8] == l); }
                assert(rh.contains(l));
            } else {
                assert(!rh.contains(l)) by {
                    if rh.contains(l) {
                        let j = choose|j: int| 0 <= j < rh.len() && rh[j] == l;
                        assert(0 <= j < 9);
                    }
                }
            }
        }
        forwarded_for = forwarded_for || is_xff;
        revealing = revealing || is_rev;
        i = i + 1;
    }
    proof {
        let t = texts(header_keys@);
        assert forall|k: int| 0 <= k < t.len() implies #[trigger] t[k] == header_keys@[k]@ by {}
        if has_header(t, "x-forwarded-for"@) {
            let k = choose|k: int| 0 <= k < t.len() && lower_text(t[k]) == "x-forwarded-for"@;
            assert(t[k] == header_keys@[k]@);
        }
        if has_revealing_header(t) {
            let k = choose|k: int| 0 <= k < t.len() && revealing_headers().contains(lower_text(t[k]));
            assert(t[k] == header_keys@[k]@);
        }
        if forwarded_for {
            let k = choose|k: int| 0 <= k < i && lower_text(header_keys@[k]@) == "x-forwarded-for"@;
            assert(t[k] == header_keys@[k]@);
        }
        if revealing {
            let k = choose|k: int| 0 <= k < i && revealing_headers().contains(lower_text(header_keys@[k]@));
            assert(t[k] == header_keys@[k]@);
        }
    }
    if forwarded_for {
        AnonymityLevel::Transparent
    } else if revealing {
        AnonymityLevel::Anonymous
    } else {
        AnonymityLevel::Elite
    }
}

/// The proxy URL the anonymity check uses: HTTP(S) proxies as `http://`,
/// SOCKS5 as `socks5://`; other protocols are not checked.
pub open spec fn anonymity_proxy_url(p: crate::proxy_type::ProxyView) -> Option<Seq<char>> {
    match p.protocol {
        ProxyProtocol::Http | ProxyProtocol::Https => Some("http://"@ + host_port(p.host, p.port)),
        ProxyProtocol::Socks5 => Some("socks5://"@ + host_port(p.host, p.port)),
        _ => None,
    }
}

pub fn check_proxy_url(proxy: &Proxy) -> (r: Option<String>)
    ensures
        match anonymity_proxy_url(proxy@) {
            Some(u) => r matches Some(s) && s@ == u,
            None => r is None,
        },
{
    let scheme = match proxy.protocol {
        ProxyProtocol::Http | ProxyProtocol::Https => "http://",
        ProxyProtocol::Socks5 => "socks5://",
        _ => return None,
    };
    let mut v = chars_of(scheme);
    extend_str(&mut v, proxy.address().as_str());
    Some(string_of(&v))
}


/// What the header echo service's reply gives, read as JSON
/// (`serde_json::from_str::<serde_json::Value>`): the names of the members
/// of its `headers` object, or `None` when the reply is not JSON or has no
/// such object.
pub uninterp spec fn echo_header_keys(body: Seq<char>) -> Option<Seq<Seq<char>>>;

/// The header names in an echo reply: `serde_json::from_str` into a
/// `serde_json::Value`, then the keys of its `headers` object, in the
/// order the parsed object gives them.
#[verifier::external_body]
fn echo_reply_header_keys(body: &str) -> (r: Option<Vec<String>>)
    ensures
        match echo_header_keys(body@) {
            Some(k) => r matches Some(v) && texts(v@) == k,
            None => r is None,
        },
{
    let json: serde_json::Value = serde_json::from_str(body).ok()?;
    Some(json.get("headers")?.as_object()?.keys().cloned().collect())
}

/// How much a proxy reveals, from the echo service's reply through it:
/// `None` when the reply cannot be read, else the level its header names
/// give.
pub fn anonymity_of_reply(body: &str) -> (r: Option<AnonymityLevel>)
    ensures
        match echo_header_keys(body@) {
            Some(k) => r == Some(anonymity_of(k)),
            None => r is None,
        },
{
    match echo_reply_header_keys(body) {
        Some(keys) => Some(classify_anonymity(&keys)),
        None => None,
    }
}

} // verus!
