//! Chains of proxies and the client side of the proxy handshakes: the
//! bytes sent to an upstream HTTP, SOCKS4a or SOCKS5 proxy and how its
//! replies are judged.
use vstd::prelude::*;
use crate::text::{
    chars_of, string_of, extend_str, push_decimal, decimal, lines, lines_of, views, find_pat,
    contains_pat, utf8_lossy, utf8_lossy_of,
};
use crate::proxy_type::{Proxy, ProxyProtocol, ProxyView, clone_proxy};
use crate::proxy_lists::{proxy_views, lemma_proxy_views_push, lemma_proxy_views_take};

verus! {

broadcast use vstd::string::group_string_axioms;

/// Maximum number of proxies in a chain.
pub const MAX_CHAIN_DEPTH: usize = 10;

#[derive(Debug, Clone)]
pub struct ProxyChainConfig {
    pub enabled: bool,
    pub proxies: Vec<Proxy>,
}

impl Default for ProxyChainConfig {
    fn default() -> (c: Self)
        ensures
            !c.enabled,
            c.proxies@.len() == 0,
    {
        ProxyChainConfig { enabled: false, proxies: Vec::new() }
    }
}

/// The value of a chain configuration.
pub struct ChainConfigView {
    pub enabled: bool,
    pub proxies: Seq<ProxyView>,
}

impl View for ProxyChainConfig {
    type V = ChainConfigView;

    open spec fn view(&self) -> ChainConfigView {
        ChainConfigView { enabled: self.enabled, proxies: proxy_views(self.proxies@) }
    }
}

/// A copy of a list of proxies with the same values.
pub fn clone_proxies(v: &Vec<Proxy>) -> (r: Vec<Proxy>)
    ensures
        proxy_views(r@) == proxy_views(v@),
{
    let mut r: Vec<Proxy> = Vec::new();
    let mut i: usize = 0;
    while i < v.len()
        invariant
            i <= v@.len(),
            proxy_views(r@) == proxy_views(v@).take(i as int),
        decreases v.len() - i,
    {
        let ghost old_r = r@;
        r.push(clone_proxy(&v[i]));
        proof {
            lemma_proxy_views_push(old_r, r@.last());
            lemma_proxy_views_take(v@, i as int);
            assert(r@ == old_r.push(r@.last()));
        }
        i = i + 1;
    }
    assert(proxy_views(v@).take(v@.len() as int) =~= proxy_views(v@));
    r
}

/// A copy of a chain configuration with the same value.
pub fn clone_chain_config(c: &ProxyChainConfig) -> (r: ProxyChainConfig)
    ensures
        r@ == c@,
{
    ProxyChainConfig { enabled: c.enabled, proxies: clone_proxies(&c.proxies) }
}

/// One hop of a chain: speak `proxy`'s protocol on the stream to reach `next`.
#[derive(Debug, Clone)]
pub struct Hop {
    pub proxy: Proxy,
    pub next_host: String,
    pub next_port: u16,
}

#[derive(Debug, Clone, Copy, PartialEq, Eq, Structural)]
pub enum ChainError {
    /// No proxy in the chain.
    Empty,
    /// More than [`MAX_CHAIN_DEPTH`] proxies.
    TooLong(usize),
}

/// How to reach a target through a chain.
#[derive(Debug, Clone)]
pub enum ChainPlan {
    /// A single proxy: connect through it as usual.
    Single(Proxy),
    /// Connect to the first proxy, then perform each hop's handshake in order.
    Hops(Vec<Hop>),
}

pub open spec fn chain_plan_matches(
    chain: Seq<ProxyView>,
    host: Seq<char>,
    port: u16,
    r: Result<ChainPlan, ChainError>,
) -> bool {
    if chain.len() == 0 {
        r == Err::<ChainPlan, ChainError>(ChainError::Empty)
    } else if chain.len() > MAX_CHAIN_DEPTH {
        r == Err::<ChainPlan, ChainError>(ChainError::TooLong(chain.len() as usize))
    } else if chain.len() == 1 {
        r matches Ok(ChainPlan::Single(p)) && p@ == chain[0]
    } else {
        r matches Ok(ChainPlan::Hops(hops)) && hops@.len() == chain.len() && forall|i: int|
            0 <= i < chain.len() ==> #[trigger] hop_matches(hops@[i], chain, host, port, i)
    }
}

/// Hop `i` of a chain speaks proxy `i`'s protocol to reach proxy `i + 1`,
/// or the target after the last proxy.
pub open spec fn hop_matches(hop: Hop, chain: Seq<ProxyView>, host: Seq<char>, port: u16, i: int) -> bool {
    &&& hop.proxy@ == chain[i]
    &&& if i + 1 < chain.len() {
        hop.next_host@ == chain[i + 1].host && hop.next_port == chain[i + 1].port
    } else {
        hop.next_host@ == host && hop.next_port == port
    }
}

/// Plan the connection through `chain` to `target_host:target_port`: each
/// proxy's handshake reaches the next proxy, the last one the target.
pub fn connect_through_chain(chain: &Vec<Proxy>, target_host: &str, target_port: u16) -> (r:
    Result<ChainPlan, ChainError>)
    ensures
        chain_plan_matches(proxy_views(chain@), target_host@, target_port, r),
{
    if chain.len() == 0 {
        return Err(ChainError::Empty);
    }
    if chain.len() > MAX_CHAIN_DEPTH {
        return Err(ChainError::TooLong(chain.len()));
    }
    if chain.len() == 1 {
        return Ok(ChainPlan::Single(clone_proxy(&chain[0])));
    }
    let ghost cv = proxy_views(chain@);
    let mut hops: Vec<Hop> = Vec::new();
    let mut i: usize = 0;
    while i < chain.len()
        invariant
            i <= chain@.len(),
            cv == proxy_views(chain@),
            hops@.len() == i,
            forall|k: int|
                0 <= k < i ==> #[trigger] hop_matches(hops@[k], cv, target_host@, target_port, k),
        decreases chain.len() - i,
    {
        let (next_host, next_port) = if i + 1 < chain.len() {
            (chain[i + 1].host.clone(), chain[i + 1].port)
        } else {
            (String::from_str(target_host), target_port)
        };
        let ghost old_hops = hops@;
        let hop = Hop { proxy: clone_proxy(&chain[i]), next_host, next_port };
        assert(hop.proxy@ == cv[i as int]);
        assert(cv.len() == chain@.len());
        if i + 1 < chain.len() {
            assert(cv[i + 1] == chain@[i + 1]@);
            assert(hop.next_host@ == cv[i + 1].host);
            assert(hop.next_port == cv[i + 1].port);
        } else {
            assert(hop.next_host@ == target_host@);
            assert(hop.next_port == target_port);
        }
        let ghost h = hop;
        assert(hop_matches(h, cv, target_host@, target_port, i as int));
        hops.push(hop);
        proof {
            assert(hops@ == old_hops.push(h));
            assert forall|k: int| 0 <= k < i + 1 implies #[trigger] hop_matches(
                hops@[k],
                cv,
                target_host@,
                target_port,
                k,
            ) by {
                if k < i {
                    assert(hops@[k] == old_hops[k]);
                } else {
                    assert(hops@[k] == h);
                }
            }
        }
        i = i + 1;
    }
    Ok(ChainPlan::Hops(hops))
}

/// The chain used for a connection: the configured intermediate proxies
/// followed by the upstream, or nothing when there are none.
pub open spec fn full_chain(chain: Option<Seq<ProxyView>>, upstream: ProxyView) -> Option<Seq<ProxyView>> {
    match chain {
        Some(c) => if c.len() > 0 {
            Some(c.push(upstream))
        } else {
            None
        },
        None => None,
    }
}

/// The chain `connect_upstream` goes through, or `None` to use the upstream alone.
pub fn upstream_chain(chain: &Option<Vec<Proxy>>, upstream: &Proxy) -> (r: Option<Vec<Proxy>>)
    ensures
        match full_chain(
            match chain {
                Some(c) => Some(proxy_views(c@)),
                None => None,
            },
            upstream@,
        ) {
            Some(c) => r matches Some(v) && proxy_views(v@) == c,
            None => r is None,
        },
{
    match chain {
        Some(c) => {
            if c.len() == 0 {
                return None;
            }
            let mut full: Vec<Proxy> = Vec::new();
            let mut i: usize = 0;
            while i < c.len()
                invariant
                    i <= c@.len(),
                    proxy_views(full@) == proxy_views(c@).take(i as int),
                decreases c.len() - i,
            {
                let ghost old_full = full@;
                full.push(clone_proxy(&c[i]));
                proof {
                    lemma_proxy_views_push(old_full, full@.last());
                    lemma_proxy_views_take(c@, i as int);
                    assert(full@ == old_full.push(full@.last()));
                }
                i = i + 1;
            }
            let ghost old_full = full@;
            full.push(clone_proxy(upstream));
            proof {
                assert(proxy_views(c@).take(c@.len() as int) =~= proxy_views(c@));
                lemma_proxy_views_push(old_full, full@.last());
                assert(full@ == old_full.push(full@.last()));
            }
            Some(full)
        },
        None => None,
    }
}

// ---------------------------------------------------------------------------
// HTTP CONNECT
// ---------------------------------------------------------------------------

/// `CONNECT host:port HTTP/1.1\r\nHost: host:port\r\n\r\n`.
pub open spec fn http_connect_text(host: Seq<char>, port: u16) -> Seq<char> {
    let hp = host + seq![':'] + decimal(port as nat);
    "CONNECT "@ + hp + " HTTP/1.1\r\nHost: "@ + hp + "\r\n\r\n"@
}

pub fn http_connect_request(host: &str, port: u16) -> (r: String)
    ensures
        r@ == http_connect_text(host@, port),
{
    let mut v = chars_of("CONNECT ");
    extend_str(&mut v, host);
    v.push(':');
    push_decimal(&mut v, port as u64);
    extend_str(&mut v, " HTTP/1.1\r\nHost: ");
    extend_str(&mut v, host);
    v.push(':');
    push_decimal(&mut v, port as u64);
    extend_str(&mut v, "\r\n\r\n");
    assert(v@ =~= http_connect_text(host@, port));
    string_of(&v)
}

/// The longest proxy response header read.
pub const MAX_HTTP_RESPONSE: usize = 8192;

/// A proxy's response header read so far.
#[derive(Debug, Clone, Copy, PartialEq, Eq, Structural)]
pub enum ResponseStep {
    NeedMore,
    Complete,
    TooLong,
}

pub open spec fn response_step(b: Seq<u8>) -> ResponseStep {
    if crate::local_proxy::ends_with_blank_line(b) {
        ResponseStep::Complete
    } else if b.len() > MAX_HTTP_RESPONSE {
        ResponseStep::TooLong
    } else {
        ResponseStep::NeedMore
    }
}

pub fn http_response_step(buf: &[u8]) -> (r: ResponseStep)
    ensures
        r == response_step(buf@),
{
    match crate::local_proxy::http_header_step(buf) {
        crate::local_proxy::HeaderStep::Complete => ResponseStep::Complete,
        _ => if buf.len() > MAX_HTTP_RESPONSE {
            ResponseStep::TooLong
        } else {
            ResponseStep::NeedMore
        },
    }
}

/// The CONNECT succeeded: the response's first line (read as lossy UTF-8)
/// contains ` 200`.
pub open spec fn connect_succeeded(response: Seq<u8>) -> bool {
    let ls = lines(utf8_lossy(response));
    let first = if ls.len() > 0 {
        ls[0]
    } else {
        seq![]
    };
    contains_pat(first, " 200"@)
}

pub fn http_connect_ok(response: &[u8]) -> (r: bool)
    ensures
        r == connect_succeeded(response@),
{
    let text = utf8_lossy_of(response);
    let v = chars_of(text.as_str());
    let ls = lines_of(&v);
    let first: Vec<char> = if ls.len() > 0 {
        ls[0].clone()
    } else {
        Vec::new()
    };
    assert(ls@.len() > 0 ==> views(ls@)[0] == ls@[0]@);
    let pat = chars_of(" 200");
    find_pat(&first, &pat).is_some()
}

// ---------------------------------------------------------------------------
// SOCKS5 client (no authentication)
// ---------------------------------------------------------------------------

/// The greeting: version 5, one method, "no authentication".
pub fn socks5_client_greeting() -> (r: [u8; 3])
    ensures
        r@ == seq![5u8, 1u8, 0u8],
{
    let r = [5u8, 1, 0];
    assert(r@ =~= seq![5u8, 1u8, 0u8]);
    r
}

/// The proxy accepted "no authentication".
pub open spec fn socks5_method_ok(resp: Seq<u8>) -> bool {
    resp[0] == 5 && resp[1] == 0
}

/// Check the two-byte answer to the greeting.
pub fn socks5_method_accepted(resp: &[u8; 2]) -> (r: bool)
    ensures
        r == socks5_method_ok(resp@),
{
    resp[0] == 5 && resp[1] == 0
}

/// The reply to the CONNECT request (its first four bytes) reports success.
pub open spec fn socks5_connected(header: Seq<u8>) -> bool {
    header[1] == 0
}

/// Check the header of the reply to the CONNECT request.
pub fn socks5_connect_accepted(header: &[u8; 4]) -> (r: bool)
    ensures
        r == socks5_connected(header@),
{
    header[1] == 0
}

/// The CONNECT request by domain name: the length byte is the name's byte
/// length modulo 256, as the `as u8` cast in the request gives.
pub open spec fn socks5_connect_bytes(host: Seq<u8>, port: u16) -> Seq<u8> {
    seq![5u8, 1u8, 0u8, 3u8, (host.len() % 256) as u8] + host + seq![(port / 256) as u8, (port % 256) as u8]
}

pub fn socks5_client_request(host: &str, port: u16) -> (r: Vec<u8>)
    ensures
        r@ == socks5_connect_bytes(vstd::utf8::encode_utf8(host@), port),
{
    let hb = host.as_bytes();
    let mut r: Vec<u8> = vec![5u8, 1, 0, 3, (hb.len() % 256) as u8];
    let mut i: usize = 0;
    while i < hb.len()
        invariant
            i <= hb@.len(),
            r@ == seq![5u8, 1u8, 0u8, 3u8, (hb@.len() % 256) as u8] + hb@.take(i as int),
        decreases hb.len() - i,
    {
        r.push(hb[i]);
        i = i + 1;
        assert(r@ =~= seq![5u8, 1u8, 0u8, 3u8, (hb@.len() % 256) as u8] + hb@.take(i as int));
    }
    r.push((port / 256) as u8);
    r.push((port % 256) as u8);
    assert(hb@.take(i as int) =~= hb@);
    assert(r@ =~= socks5_connect_bytes(vstd::utf8::encode_utf8(host@), port));
    r
}

/// How many bytes of bound address and port follow a SOCKS5 reply header;
/// for a domain, `domain_len` is the length byte read after the header.
pub open spec fn socks5_bound_len(atyp: u8, domain_len: u8) -> nat {
    if atyp == 1 {
        6
    } else if atyp == 3 {
        domain_len as nat + 2
    } else if atyp == 4 {
        18
    } else {
        0
    }
}

pub fn socks5_bound_address_len(atyp: u8, domain_len: u8) -> (r: usize)
    ensures
        r == socks5_bound_len(atyp, domain_len),
{
    if atyp == 1 {
        6
    } else if atyp == 3 {
        domain_len as usize + 2
    } else if atyp == 4 {
        18
    } else {
        0
    }
}

// ---------------------------------------------------------------------------
// SOCKS4a client
// ---------------------------------------------------------------------------

/// CONNECT by domain: port, IP 0.0.0.1, empty USERID, then the name and a NUL.
pub open spec fn socks4a_connect_bytes(host: Seq<u8>, port: u16) -> Seq<u8> {
    seq![4u8, 1u8, (port / 256) as u8, (port % 256) as u8, 0u8, 0u8, 0u8, 1u8, 0u8] + host + seq![0u8]
}

pub fn socks4a_client_request(host: &str, port: u16) -> (r: Vec<u8>)
    ensures
        r@ == socks4a_connect_bytes(vstd::utf8::encode_utf8(host@), port),
{
    let hb = host.as_bytes();
    let mut r: Vec<u8> = vec![4u8, 1, (port / 256) as u8, (port % 256) as u8, 0, 0, 0, 1, 0];
    let ghost head = r@;
    let mut i: usize = 0;
    while i < hb.len()
        invariant
            i <= hb@.len(),
            r@ == head + hb@.take(i as int),
        decreases hb.len() - i,
    {
        r.push(hb[i]);
        i = i + 1;
        assert(r@ =~= head + hb@.take(i as int));
    }
    r.push(0);
    assert(hb@.take(i as int) =~= hb@);
    assert(r@ =~= socks4a_connect_bytes(vstd::utf8::encode_utf8(host@), port));
    r
}

/// The SOCKS4 proxy granted the request.
pub open spec fn socks4_granted_reply(resp: Seq<u8>) -> bool {
    resp[1] == 0x5A
}

/// Check the eight-byte SOCKS4 reply.
pub fn socks4_request_granted(resp: &[u8; 8]) -> (r: bool)
    ensures
        r == socks4_granted_reply(resp@),
{
    resp[1] == 0x5A
}

/// The handshake a proxy in a chain speaks, or `None` when its protocol
/// cannot be chained (Tor).
#[derive(Debug, Clone, Copy, PartialEq, Eq, Structural)]
pub enum Handshake {
    HttpConnect,
    Socks5,
    Socks4a,
}

pub open spec fn handshake_of(p: ProxyProtocol) -> Option<Handshake> {
    match p {
        ProxyProtocol::Http | ProxyProtocol::Https => Some(Handshake::HttpConnect),
        ProxyProtocol::Socks5 => Some(Handshake::Socks5),
        ProxyProtocol::Socks4 => Some(Handshake::Socks4a),
        ProxyProtocol::Tor => None,
    }
}

/// Each proxy of a chain is spoken to in its own protocol: HTTP and HTTPS
/// proxies with HTTP CONNECT, SOCKS5 proxies with SOCKS5, SOCKS4 proxies
/// with SOCKS4a, and a Tor entry is never a hop; each handshake is used for
/// those protocols alone.
pub proof fn lemma_handshake_follows_protocol(p: ProxyProtocol)
    ensures
        (p == ProxyProtocol::Http || p == ProxyProtocol::Https) <==> handshake_of(p) == Some(Handshake::HttpConnect),
        (p == ProxyProtocol::Socks5) <==> handshake_of(p) == Some(Handshake::Socks5),
        (p == ProxyProtocol::Socks4) <==> handshake_of(p) == Some(Handshake::Socks4a),
        (p == ProxyProtocol::Tor) <==> handshake_of(p) is None,
{
}

pub fn do_proxy_handshake(p: &Proxy) -> (r: Option<Handshake>)
    ensures
        r == handshake_of(p.protocol),
        (p.protocol == ProxyProtocol::Http || p.protocol == ProxyProtocol::Https) <==> r == Some(Handshake::HttpConnect),
        (p.protocol == ProxyProtocol::Socks5) <==> r == Some(Handshake::Socks5),
        (p.protocol == ProxyProtocol::Socks4) <==> r == Some(Handshake::Socks4a),
        (p.protocol == ProxyProtocol::Tor) <==> r is None,
{
    match p.protocol {
        ProxyProtocol::Http | ProxyProtocol::Https => Some(Handshake::HttpConnect),
        ProxyProtocol::Socks5 => Some(Handshake::Socks5),
        ProxyProtocol::Socks4 => Some(Handshake::Socks4a),
        ProxyProtocol::Tor => None,
    }
}

} // verus!
