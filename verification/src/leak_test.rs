//! Leak tests: is the address seen through the proxy the real one, and do
//! DNS queries bypass the protected resolver.
use vstd::prelude::*;
use crate::proxy_instance::texts;
use crate::proxy_type::{Proxy, ProxyProtocol, ProxyView, proxy_url, host_port};
use crate::text::{chars_of, trim, trim_str, contains_pat, find_pat, cat};

verus! {

broadcast use vstd::string::group_string_axioms;

#[derive(Debug)]
pub struct IpLeakResult {
    pub real_ip: Option<String>,
    pub proxy_ip: Option<String>,
    pub leak_detected: bool,
    pub proxy_used: Option<String>,
}

#[derive(Debug)]
pub struct DnsLeakResult {
    pub dns_servers: Vec<String>,
    pub leak_detected: bool,
}

#[derive(Debug)]
pub struct LeakTestResult {
    pub ip: IpLeakResult,
    pub dns: DnsLeakResult,
}

/// Services that answer with the caller's address, asked in order.
pub open spec fn ip_check_services() -> Seq<Seq<char>> {
    seq!["https://api.ipify.org?format=text"@, "https://icanhazip.com"@, "https://ifconfig.me/ip"@]
}

pub fn ip_check_services_list() -> (r: Vec<String>)
    ensures
        texts(r@) == ip_check_services(),
{
    let r = vec![
        String::from_str("https://api.ipify.org?format=text"),
        String::from_str("https://icanhazip.com"),
        String::from_str("https://ifconfig.me/ip"),
    ];
    assert(texts(r@) =~= ip_check_services());
    r
}

/// The address in a service's reply: the trimmed text, when not empty and
/// shorter than 50 bytes.
pub open spec fn ip_reply(text: Seq<char>) -> Option<Seq<char>> {
    let t = trim(text);
    if t.len() > 0 && vstd::utf8::encode_utf8(t).len() < 50 {
        Some(t)
    } else {
        None
    }
}

pub fn accept_ip_reply(text: &str) -> (r: Option<String>)
    ensures
        match ip_reply(text@) {
            Some(ip) => r matches Some(s) && s@ == ip,
            None => r is None,
        },
{
    let t = trim_str(text);
    let n = t.as_str().as_bytes().len();
    if t.as_str().unicode_len() > 0 && n < 50 {
        Some(t)
    } else {
        None
    }
}

/// The URL through which the address is checked behind a proxy: HTTP for
/// HTTP(S) proxies, SOCKS5 for SOCKS5 and Tor; SOCKS4 is not supported.
pub open spec fn check_proxy_url(p: ProxyView) -> Option<Seq<char>> {
    match p.protocol {
        ProxyProtocol::Http | ProxyProtocol::Https => Some("http://"@ + host_port(p.host, p.port)),
        ProxyProtocol::Socks5 | ProxyProtocol::Tor => Some("socks5://"@ + host_port(p.host, p.port)),
        ProxyProtocol::Socks4 => None,
    }
}

pub fn proxy_check_url(p: &Proxy) -> (r: Option<String>)
    ensures
        match check_proxy_url(p@) {
            Some(u) => r matches Some(s) && s@ == u,
            None => r is None,
        },
{
    let hp = crate::proxy_type::format_host_port(p.host.as_str(), p.port);
    match p.protocol {
        ProxyProtocol::Http | ProxyProtocol::Https => Some(cat("http://", hp.as_str())),
        ProxyProtocol::Socks5 | ProxyProtocol::Tor => Some(cat("socks5://", hp.as_str())),
        ProxyProtocol::Socks4 => None,
    }
}

/// An address leaks when the proxy shows the real address, or when the
/// real address is known and none could be seen through the proxy.
pub open spec fn ip_leak(seen: Option<Seq<char>>, proxied: Option<Seq<char>>) -> bool {
    match (seen, proxied) {
        (Some(r), Some(p)) => r == p,
        (Some(_), None) => true,
        _ => false,
    }
}

/// The outcome of an address check.
pub fn ip_leak_result(real_ip: Option<String>, proxy_ip: Option<String>, proxy: Option<&Proxy>) -> (r: IpLeakResult)
    ensures
        r.real_ip == real_ip,
        r.proxy_ip == proxy_ip,
        r.leak_detected == ip_leak(crate::proxy_instance::opt_text(real_ip), crate::proxy_instance::opt_text(proxy_ip)),
        match proxy {
            Some(p) => r.proxy_used matches Some(u) && u@ == proxy_url(p@),
            None => r.proxy_used is None,
        },
{
    let leak = match (&real_ip, &proxy_ip) {
        (Some(a), Some(b)) => {
            let av = chars_of(a.as_str());
            let bv = chars_of(b.as_str());
            crate::text::chars_eq(&av, &bv)
        },
        (Some(_), None) => true,
        _ => false,
    };
    let used = match proxy {
        Some(p) => Some(p.url()),
        None => None,
    };
    IpLeakResult { real_ip, proxy_ip, leak_detected: leak, proxy_used: used }
}

/// DNS leaks when the check found the system resolver in use.
pub open spec fn dns_leak(servers: Seq<Seq<char>>) -> bool {
    exists|i: int| 0 <= i < servers.len() && contains_pat(#[trigger] servers[i], "System DNS"@)
}

pub fn dns_leak_result(dns_servers: Vec<String>) -> (r: DnsLeakResult)
    ensures
        r.dns_servers == dns_servers,
        r.leak_detected == dns_leak(texts(dns_servers@)),
{
    let pat = chars_of("System DNS");
    let mut leak = false;
    let mut i: usize = 0;
    while i < dns_servers.len()
        invariant
            i <= dns_servers@.len(),
            pat@ == "System DNS"@,
            leak == exists|k: int| 0 <= k < i && contains_pat(#[trigger] texts(dns_servers@)[k], "System DNS"@),
        decreases dns_servers.len() - i,
    {
        let v = chars_of(dns_servers[i].as_str());
        if find_pat(&v, &pat).is_some() {
            assert(contains_pat(texts(dns_servers@)[i as int], "System DNS"@));
            leak = true;
        }
        i = i + 1;
    }
    DnsLeakResult { dns_servers, leak_detected: leak }
}

} // verus!
