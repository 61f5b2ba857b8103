//! Proxies as the command-line tool knows them.
use vstd::prelude::*;
use crate::text::{chars_of, string_of, push_decimal, decimal, chars_eq};

verus! {

broadcast use vstd::string::group_string_axioms;

#[derive(Debug, Clone, Copy, PartialEq, Eq, Hash, Structural)]
pub enum ProxyProtocol {
    Http,
    Https,
    Socks4,
    Socks5,
}

pub open spec fn protocol_name(p: ProxyProtocol) -> Seq<char> {
    match p {
        ProxyProtocol::Http => "http"@,
        ProxyProtocol::Https => "https"@,
        ProxyProtocol::Socks4 => "socks4"@,
        ProxyProtocol::Socks5 => "socks5"@,
    }
}

impl ProxyProtocol {
    /// The protocol's name as written in URLs.
    pub fn to_string(&self) -> (s: String)
        ensures
            s@ == protocol_name(*self),
    {
        match self {
            ProxyProtocol::Http => String::from_str("http"),
            ProxyProtocol::Https => String::from_str("https"),
            ProxyProtocol::Socks4 => String::from_str("socks4"),
            ProxyProtocol::Socks5 => String::from_str("socks5"),
        }
    }
}

#[derive(Debug, Clone, PartialEq, Eq, Hash)]
pub struct Proxy {
    pub host: String,
    pub port: u16,
    pub protocol: ProxyProtocol,
}

/// `host:port`.
pub open spec fn address_of(host: Seq<char>, port: u16) -> Seq<char> {
    host + seq![':'] + decimal(port as nat)
}

/// `protocol://host:port`.
pub open spec fn url_of(p: Proxy) -> Seq<char> {
    protocol_name(p.protocol) + "://"@ + address_of(p.host@, p.port)
}

/// A copy of a proxy.
pub fn clone_proxy(p: &Proxy) -> (r: Proxy)
    ensures
        r == *p,
{
    Proxy { host: p.host.clone(), port: p.port, protocol: p.protocol }
}

/// Two proxies are the same: host, port and protocol.
pub fn same_proxy(a: &Proxy, b: &Proxy) -> (r: bool)
    ensures
        r == (a.host@ == b.host@ && a.port == b.port && a.protocol == b.protocol),
{
    let ha = chars_of(a.host.as_str());
    let hb = chars_of(b.host.as_str());
    chars_eq(&ha, &hb) && a.port == b.port && a.protocol == b.protocol
}

impl Proxy {
    pub fn new(host: String, port: u16, protocol: ProxyProtocol) -> (p: Self)
        ensures
            p.host == host,
            p.port == port,
            p.protocol == protocol,
    {
        Proxy { host, port, protocol }
    }

    /// `host:port`.
    pub fn address(&self) -> (s: String)
        ensures
            s@ == address_of(self.host@, self.port),
    {
        let mut v = chars_of(self.host.as_str());
        v.push(':');
        push_decimal(&mut v, self.port as u64);
        string_of(&v)
    }

    /// `protocol://host:port`.
    pub fn url(&self) -> (s: String)
        ensures
            s@ == url_of(*self),
    {
        let mut v = chars_of(self.protocol.to_string().as_str());
        crate::text::extend_str(&mut v, "://");
        crate::text::extend_str(&mut v, self.address().as_str());
        string_of(&v)
    }

    /// The display form, `protocol://host:port`.
    pub fn to_string(&self) -> (s: String)
        ensures
            s@ == url_of(*self),
    {
        self.url()
    }
}

} // verus!
