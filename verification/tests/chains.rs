use relay::proxy_chain::{
    connect_through_chain, do_proxy_handshake, http_connect_ok, http_connect_request, http_response_step,
    socks4_request_granted, socks4a_client_request, socks5_bound_address_len, socks5_client_greeting,
    socks5_client_request, socks5_connect_accepted, socks5_method_accepted, upstream_chain, ChainError, ChainPlan,
    Handshake, ResponseStep,
};
use relay::proxy_type::{Proxy, ProxyProtocol};

fn p(host: &str, port: u16, protocol: ProxyProtocol) -> Proxy {
    Proxy { host: host.to_string(), port, protocol }
}

#[test]
fn chain_plans() {
    assert!(matches!(connect_through_chain(&vec![], "t", 1), Err(ChainError::Empty)));
    let long: Vec<Proxy> = (0..11).map(|k| p("h", k, ProxyProtocol::Socks5)).collect();
    assert!(matches!(connect_through_chain(&long, "t", 1), Err(ChainError::TooLong(11))));
    match connect_through_chain(&vec![p("a", 1, ProxyProtocol::Http)], "t", 80) {
        Ok(ChainPlan::Single(x)) => assert_eq!(x, p("a", 1, ProxyProtocol::Http)),
        other => panic!("unexpected {:?}", other),
    }
    let chain = vec![p("a", 1, ProxyProtocol::Socks5), p("b", 2, ProxyProtocol::Http), p("c", 3, ProxyProtocol::Socks4)];
    match connect_through_chain(&chain, "target", 443) {
        Ok(ChainPlan::Hops(h)) => {
            assert_eq!(h.len(), 3);
            assert_eq!((h[0].proxy.host.as_str(), h[0].next_host.as_str(), h[0].next_port), ("a", "b", 2));
            assert_eq!((h[1].proxy.host.as_str(), h[1].next_host.as_str(), h[1].next_port), ("b", "c", 3));
            assert_eq!((h[2].proxy.host.as_str(), h[2].next_host.as_str(), h[2].next_port), ("c", "target", 443));
        }
        other => panic!("unexpected {:?}", other),
    }
}

#[test]
fn full_chain_ends_with_the_upstream() {
    let up = p("u", 9, ProxyProtocol::Socks5);
    assert_eq!(upstream_chain(&None, &up), None);
    assert_eq!(upstream_chain(&Some(vec![]), &up), None);
    assert_eq!(upstream_chain(&Some(vec![p("a", 1, ProxyProtocol::Http)]), &up), Some(vec![p("a", 1, ProxyProtocol::Http), up.clone()]));
}

#[test]
fn http_connect_exchange() {
    assert_eq!(http_connect_request("example.com", 443), "CONNECT example.com:443 HTTP/1.1\r\nHost: example.com:443\r\n\r\n");
    assert_eq!(http_response_step(b"HTTP/1.1 200 OK\r\n"), ResponseStep::NeedMore);
    assert_eq!(http_response_step(b"HTTP/1.1 200 OK\r\n\r\n"), ResponseStep::Complete);
    assert_eq!(http_response_step(&vec![b'x'; 8193]), ResponseStep::TooLong);
    assert!(http_connect_ok(b"HTTP/1.1 200 Connection established\r\n\r\n"));
    assert!(!http_connect_ok(b"HTTP/1.1 403 Forbidden\r\n\r\n"));
}

#[test]
fn socks_client_messages() {
    assert_eq!(socks5_client_greeting(), [5, 1, 0]);
    assert!(socks5_method_accepted(&[5, 0]));
    assert!(!socks5_method_accepted(&[5, 2]));
    let mut expected = vec![5u8, 1, 0, 3, 5];
    expected.extend_from_slice(b"a.com");
    expected.extend_from_slice(&[1, 187]);
    assert_eq!(socks5_client_request("a.com", 443), expected);
    assert!(socks5_connect_accepted(&[5, 0, 0, 1]));
    assert!(!socks5_connect_accepted(&[5, 1, 0, 1]));
    assert_eq!(socks5_bound_address_len(1, 0), 6);
    assert_eq!(socks5_bound_address_len(3, 7), 9);
    assert_eq!(socks5_bound_address_len(4, 0), 18);
    assert_eq!(socks5_bound_address_len(9, 0), 0);
    let mut s4 = vec![4u8, 1, 0, 80, 0, 0, 0, 1, 0];
    s4.extend_from_slice(b"a.com");
    s4.push(0);
    assert_eq!(socks4a_client_request("a.com", 80), s4);
    assert!(socks4_request_granted(&[0, 0x5a, 0, 0, 0, 0, 0, 0]));
    assert!(!socks4_request_granted(&[0, 0x5b, 0, 0, 0, 0, 0, 0]));
}

#[test]
fn handshake_by_protocol() {
    assert_eq!(do_proxy_handshake(&p("h", 1, ProxyProtocol::Https)), Some(Handshake::HttpConnect));
    assert_eq!(do_proxy_handshake(&p("h", 1, ProxyProtocol::Socks5)), Some(Handshake::Socks5));
    assert_eq!(do_proxy_handshake(&p("h", 1, ProxyProtocol::Socks4)), Some(Handshake::Socks4a));
    assert_eq!(do_proxy_handshake(&p("h", 1, ProxyProtocol::Tor)), None);
}
