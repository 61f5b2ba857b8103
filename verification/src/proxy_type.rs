//! Proxy descriptions: protocol, operating mode and `host:port` endpoints.
use vstd::prelude::*;
use crate::text::{decimal, push_decimal, chars_of, string_of, chars_eq};

verus! {

/// The protocol spoken by a proxy.
#[derive(Debug, Clone, Copy, PartialEq, Eq, Hash, Structural)]
pub enum ProxyProtocol {
    Http,
    Https,
    Socks4,
    Socks5,
    /// Tor circuit — reserved for future implementation.
    Tor,
}

/// The lowercase name of a protocol, as it appears in URLs.
pub open spec fn protocol_name(p: ProxyProtocol) -> Seq<char> {
    match p {
        ProxyProtocol::Http => "http"@,
        ProxyProtocol::Https => "https"@,
        ProxyProtocol::Socks4 => "socks4"@,
        ProxyProtocol::Socks5 => "socks5"@,
        ProxyProtocol::Tor => "tor"@,
    }
}

impl ProxyProtocol {
    /// The protocol's display name (`http`, `https`, `socks4`, `socks5`, `tor`).
    pub fn to_string(&self) -> (s: String)
        ensures
            s@ == protocol_name(*self),
    {
        match self {
            ProxyProtocol::Http => String::from_str("http"),
            ProxyProtocol::Https => String::from_str("https"),
            ProxyProtocol::Socks4 => String::from_str("socks4"),
            ProxyProtocol::Socks5 => String::from_str("socks5"),
            ProxyProtocol::Tor => String::from_str("tor"),
        }
    }
}

/// Operating mode for a proxy instance.
#[derive(Debug, Clone, Copy, PartialEq, Eq, Hash, Structural)]
pub enum ProxyMode {
    /// Automatically find and rotate upstream proxies.
    Auto,
    /// Use a manually specified upstream proxy.
    Manual,
    /// Route through Tor.
    Tor,
}

pub open spec fn mode_name(m: ProxyMode) -> Seq<char> {
    match m {
        ProxyMode::Auto => "Auto"@,
        ProxyMode::Manual => "Manual"@,
        ProxyMode::Tor => "Tor"@,
    }
}

impl ProxyMode {
    /// The mode's display name (`Auto`, `Manual`, `Tor`).
    pub fn to_string(&self) -> (s: String)
        ensures
            s@ == mode_name(*self),
    {
        match self {
            ProxyMode::Auto => String::from_str("Auto"),
            ProxyMode::Manual => String::from_str("Manual"),
            ProxyMode::Tor => String::from_str("Tor"),
        }
    }
}

impl Default for ProxyMode {
    fn default() -> (m: Self)
        ensures
            m == ProxyMode::Auto,
    {
        ProxyMode::Auto
    }
}

/// A proxy endpoint.
#[derive(Debug, Clone, PartialEq, Eq, Hash)]
pub struct Proxy {
    pub host: String,
    pub port: u16,
    pub protocol: ProxyProtocol,
}

/// The mathematical value of a [`Proxy`].
pub struct ProxyView {
    pub host: Seq<char>,
    pub port: u16,
    pub protocol: ProxyProtocol,
}

impl View for Proxy {
    type V = ProxyView;

    open spec fn view(&self) -> ProxyView {
        ProxyView { host: self.host@, port: self.port, protocol: self.protocol }
    }
}

/// `host:port`.
pub open spec fn host_port(host: Seq<char>, port: u16) -> Seq<char> {
    host + seq![':'] + decimal(port as nat)
}

/// `protocol://host:port`.
pub open spec fn proxy_url(p: ProxyView) -> Seq<char> {
    protocol_name(p.protocol) + "://"@ + host_port(p.host, p.port)
}

/// Clone of a proxy with the same value.
pub fn clone_proxy(p: &Proxy) -> (r: Proxy)
    ensures
        r == *p,
        r@ == p@,
{
    Proxy { host: p.host.clone(), port: p.port, protocol: p.protocol }
}

/// Whether two proxies have the same host, port and protocol.
pub fn same_proxy(a: &Proxy, b: &Proxy) -> (r: bool)
    ensures
        r == (a@ == b@),
{
    let ha = chars_of(a.host.as_str());
    let hb = chars_of(b.host.as_str());
    chars_eq(&ha, &hb) && a.port == b.port && a.protocol == b.protocol
}

/// Whether two proxies have the same host and port (the protocol is not compared).
pub fn same_endpoint(a: &Proxy, b: &Proxy) -> (r: bool)
    ensures
        r == (a.host@ == b.host@ && a.port == b.port),
{
    let ha = chars_of(a.host.as_str());
    let hb = chars_of(b.host.as_str());
    chars_eq(&ha, &hb) && a.port == b.port
}

/// `host:port` as a string.
pub fn format_host_port(host: &str, port: u16) -> (s: String)
    ensures
        s@ == host_port(host@, port),
{
    let mut v = chars_of(host);
    v.push(':');
    push_decimal(&mut v, port as u64);
    string_of(&v)
}

impl Proxy {
    pub fn new(host: String, port: u16, protocol: ProxyProtocol) -> (p: Self)
        ensures
            p.host == host,
            p.port == port,
            p.protocol == protocol,
    {
        Proxy { host, port, protocol }
    }

    /// `host:port`.
    pub fn address(&self) -> (s: String)
        ensures
            s@ == host_port(self.host@, self.port),
    {
        format_host_port(self.host.as_str(), self.port)
    }

    /// `protocol://host:port`.
    pub fn url(&self) -> (s: String)
        ensures
            s@ == proxy_url(self@),
    {
        let mut v = chars_of(self.protocol.to_string().as_str());
        v.push(':');
        v.push('/');
        v.push('/');
        let hp = chars_of(self.address().as_str());
        let ghost before = v@;
        let mut i: usize = 0;
        while i < hp.len()
            invariant
                i <= hp@.len(),
                v@ == before + hp@.take(i as int),
            decreases hp.len() - i,
        {
            v.push(hp[i]);
            i = i + 1;
            assert(v@ =~= before + hp@.take(i as int));
        }
        proof {
            assert(hp@.take(i as int) =~= hp@);
            reveal_strlit("://");
            assert(before =~= protocol_name(self.protocol) + "://"@);
        }
        string_of(&v)
    }

    /// The display form, `protocol://host:port`.
    pub fn to_string(&self) -> (s: String)
        ensures
            s@ == proxy_url(self@),
    {
        self.url()
    }
}

} // verus!
