use relay::local_proxy::{
    parse_host_port, parse_http_url, http_header_step, http_request_plan, parse_basic_credentials,
    check_http_auth, socks5_greeting, socks5_auth_request, socks5_request, socks5_reply,
    socks4_request, socks4_rejected, socks4_granted, format_ipv4, format_ipv6, ct_str_eq,
    AuthKey, HeaderStep, HttpPlan, Socks5Greeting, Socks5Auth, Socks5Request, Socks4Request,
    AuthRateLimiter,
};

#[test]
fn host_port_split_at_last_colon() {
    assert_eq!(parse_host_port("example.com:8443", 443), ("example.com".to_string(), 8443));
    assert_eq!(parse_host_port("example.com", 443), ("example.com".to_string(), 443));
    assert_eq!(parse_host_port("example.com:abc", 443), ("example.com".to_string(), 443));
    assert_eq!(parse_host_port("[::1]:8080", 80), ("[::1]".to_string(), 8080));
}

#[test]
fn http_url_parts() {
    assert_eq!(
        parse_http_url("http://example.com:8080/a/b?c=1"),
        ("example.com".to_string(), 8080, "/a/b?c=1".to_string())
    );
    assert_eq!(parse_http_url("https://example.com"), ("example.com".to_string(), 80, "/".to_string()));
    assert_eq!(parse_http_url("example.com/x"), ("example.com".to_string(), 80, "/x".to_string()));
}

#[test]
fn header_steps() {
    assert_eq!(http_header_step(b"GET / HTTP/1.1\r\n"), HeaderStep::NeedMore);
    assert_eq!(http_header_step(b"GET / HTTP/1.1\r\n\r\n"), HeaderStep::Complete);
    let long = vec![b'a'; 16385];
    assert_eq!(http_header_step(&long), HeaderStep::TooLong);
    let limit = vec![b'a'; 16384];
    assert_eq!(http_header_step(&limit), HeaderStep::NeedMore);
}

#[test]
fn connect_plan_defaults_to_port_443() {
    match http_request_plan("connect example.com HTTP/1.1\r\nHost: example.com\r\n\r\n") {
        HttpPlan::Connect { host, port, log_line } => {
            assert_eq!(host, "example.com");
            assert_eq!(port, 443);
            assert_eq!(log_line, "CONNECT example.com:443");
        }
        other => panic!("unexpected plan {:?}", other),
    }
}

#[test]
fn forward_plan_rewrites_request_without_proxy_authorization() {
    let req = "GET http://example.com/index.html HTTP/1.0\r\nHost: example.com\r\nProxy-Authorization: Basic eDp5\r\nAccept: */*\r\n\r\n";
    match http_request_plan(req) {
        HttpPlan::Forward { host, port, request, log_line } => {
            assert_eq!(host, "example.com");
            assert_eq!(port, 80);
            assert_eq!(log_line, "GET example.com:80/index.html");
            assert_eq!(request, "GET /index.html HTTP/1.0\r\nHost: example.com\r\nAccept: */*\r\n\r\n");
        }
        other => panic!("unexpected plan {:?}", other),
    }
}

#[test]
fn forward_plan_default_version() {
    match http_request_plan("get http://a.b/\r\n\r\n") {
        HttpPlan::Forward { request, log_line, .. } => {
            assert_eq!(request, "GET / HTTP/1.1\r\n\r\n");
            assert_eq!(log_line, "GET a.b:80/");
        }
        other => panic!("unexpected plan {:?}", other),
    }
}

#[test]
fn one_word_request_is_bad() {
    assert!(matches!(http_request_plan("GET\r\n\r\n"), HttpPlan::BadRequest));
    assert!(matches!(http_request_plan(""), HttpPlan::BadRequest));
}

#[test]
fn basic_credentials_are_decoded() {
    // "user:pa:ss" in base64
    let req = "GET / HTTP/1.1\r\nproxy-authorization: Basic dXNlcjpwYTpzcw==\r\n\r\n";
    assert_eq!(parse_basic_credentials(req), Some(("user".to_string(), "pa:ss".to_string())));
    // "user" alone: empty password
    let req2 = "GET / HTTP/1.1\r\nProxy-Authorization: basic dXNlcg==\r\n\r\n";
    assert_eq!(parse_basic_credentials(req2), Some(("user".to_string(), "".to_string())));
    let req3 = "GET / HTTP/1.1\r\nProxy-Authorization: Bearer abc\r\n\r\n";
    assert_eq!(parse_basic_credentials(req3), None);
    assert_eq!(parse_basic_credentials("GET / HTTP/1.1\r\n\r\n"), None);
}

#[test]
fn http_auth_checks_both_fields() {
    let key = AuthKey::new();
    let req = "GET / HTTP/1.1\r\nProxy-Authorization: Basic dXNlcjpwYTpzcw==\r\n\r\n";
    assert!(check_http_auth(&key, req, "user", "pa:ss"));
    assert!(!check_http_auth(&key, req, "user", "other"));
    assert!(!check_http_auth(&key, req, "someone", "pa:ss"));
    assert!(!check_http_auth(&key, "GET / HTTP/1.1\r\n\r\n", "user", "pa:ss"));
}

#[test]
fn constant_time_equality() {
    let key = AuthKey::new();
    assert!(ct_str_eq(&key, "secret", "secret"));
    assert!(!ct_str_eq(&key, "secret", "secreT"));
    assert!(!ct_str_eq(&key, "a", "aa"));
    assert!(ct_str_eq(&key, "", ""));
}

#[test]
fn socks5_greeting_cases() {
    assert_eq!(socks5_greeting(&[5], false), Socks5Greeting::NeedMore(2));
    assert_eq!(socks5_greeting(&[4, 1, 0], false), Socks5Greeting::BadVersion);
    assert_eq!(socks5_greeting(&[5, 2, 0], false), Socks5Greeting::NeedMore(4));
    assert_eq!(
        socks5_greeting(&[5, 2, 0, 2], false),
        Socks5Greeting::Accept { consumed: 4, method: 0, auth: false }
    );
    assert_eq!(
        socks5_greeting(&[5, 2, 0, 2], true),
        Socks5Greeting::Accept { consumed: 4, method: 2, auth: true }
    );
    assert_eq!(socks5_greeting(&[5, 1, 0], true), Socks5Greeting::NoAcceptableMethod);
    // without authentication the methods offered are not examined
    assert_eq!(
        socks5_greeting(&[5, 1, 2], false),
        Socks5Greeting::Accept { consumed: 3, method: 0, auth: false }
    );
}

#[test]
fn socks5_auth_parsing() {
    let buf = [1u8, 3, b'b', b'o', b'b', 2, b'p', b'w'];
    match socks5_auth_request(&buf) {
        Socks5Auth::Parsed { consumed, user, pass } => {
            assert_eq!(consumed, 8);
            assert_eq!(user, b"bob".to_vec());
            assert_eq!(pass, b"pw".to_vec());
        }
        other => panic!("unexpected {:?}", other),
    }
    assert!(matches!(socks5_auth_request(&[2, 0, 0]), Socks5Auth::BadVersion));
    assert!(matches!(socks5_auth_request(&[1, 3, b'b']), Socks5Auth::NeedMore(6)));
}

fn expect_target(r: Socks5Request, c: usize, h: &str, p: u16) {
    match r {
        Socks5Request::Target { consumed, host, port } => {
            assert_eq!(consumed, c);
            assert_eq!(host, h);
            assert_eq!(port, p);
        }
        other => panic!("unexpected {:?}", other),
    }
}

#[test]
fn socks5_connect_requests() {
    let ipv4 = [5u8, 1, 0, 1, 127, 0, 0, 1, 0x1f, 0x90];
    expect_target(socks5_request(&ipv4), 10, "127.0.0.1", 8080);
    let mut dom = vec![5u8, 1, 0, 3, 11];
    dom.extend_from_slice(b"example.com");
    dom.extend_from_slice(&[0x01, 0xbb]);
    expect_target(socks5_request(&dom), 18, "example.com", 443);
    assert!(matches!(socks5_request(&[5, 2, 0, 1, 1, 2, 3, 4, 0, 80]), Socks5Request::Reject(7)));
    assert!(matches!(socks5_request(&[5, 1, 0, 9, 1, 2, 3, 4, 0, 80]), Socks5Request::Reject(8)));
    assert!(matches!(socks5_request(&[4, 1, 0, 1]), Socks5Request::BadVersion));
    assert!(matches!(socks5_request(&[5, 1]), Socks5Request::NeedMore(4)));
    assert!(matches!(socks5_request(&[5, 1, 0, 3, 2, 0xff, 0xfe, 0, 80]), Socks5Request::InvalidDomain));
}

#[test]
fn socks5_ipv6_target() {
    let mut buf = vec![5u8, 1, 0, 4];
    buf.extend_from_slice(&[0x20, 0x01, 0x0d, 0xb8, 0, 0, 0, 0, 0, 0, 0, 0, 0, 0, 0, 1]);
    buf.extend_from_slice(&[0, 80]);
    expect_target(socks5_request(&buf), 22, "2001:db8:0:0:0:0:0:1", 80);
}

#[test]
fn socks5_reply_bytes() {
    assert_eq!(socks5_reply(0), [5, 0, 0, 1, 0, 0, 0, 0, 0, 0]);
    assert_eq!(socks5_reply(5), [5, 5, 0, 1, 0, 0, 0, 0, 0, 0]);
}

#[test]
fn address_formatting() {
    assert_eq!(format_ipv4(10, 0, 0, 254), "10.0.0.254");
    assert_eq!(format_ipv6(&[0xfe, 0x80, 0, 0, 0, 0, 0, 0, 0, 0, 0, 0, 0xab, 0xcd, 0, 1]), "fe80:0:0:0:0:0:abcd:1");
}

#[test]
fn socks4_requests() {
    let buf = [4u8, 1, 0, 80, 10, 0, 0, 1, b'u', 0];
    match socks4_request(&buf) {
        Socks4Request::Target { consumed, host, port, header } => {
            assert_eq!(consumed, 10);
            assert_eq!(host, "10.0.0.1");
            assert_eq!(port, 80);
            assert_eq!(header, [4, 1, 0, 80, 10, 0, 0, 1]);
        }
        other => panic!("unexpected {:?}", other),
    }
    let mut a = vec![4u8, 1, 0, 80, 0, 0, 0, 1, 0];
    a.extend_from_slice(b"example.com");
    a.push(0);
    match socks4_request(&a) {
        Socks4Request::Target { host, port, .. } => {
            assert_eq!(host, "example.com");
            assert_eq!(port, 80);
        }
        other => panic!("unexpected {:?}", other),
    }
    assert!(matches!(socks4_request(&[5, 1, 0, 80, 1, 2, 3, 4, 0]), Socks4Request::BadVersion(5)));
    assert!(matches!(socks4_request(&[4, 2, 0, 80, 1, 2, 3, 4, 0]), Socks4Request::Reject));
    assert!(matches!(socks4_request(&[4, 1, 0, 80, 1, 2, 3, 4, b'u']), Socks4Request::NeedMore(10)));
}

#[test]
fn socks4_replies() {
    assert_eq!(socks4_rejected(), [0, 0x5b, 0, 0, 0, 0, 0, 0]);
    assert_eq!(socks4_granted(&[4, 1, 0, 80, 10, 0, 0, 1]), [0, 0x5a, 0, 80, 10, 0, 0, 1]);
}

#[test]
fn rate_limiter_blocks_after_five_failures() {
    let mut l = AuthRateLimiter::new();
    for k in 0..4u64 {
        assert_eq!(l.delay_after_failure("1.2.3.4", 1_000 + k), 2000);
    }
    assert_eq!(l.delay_after_failure("1.2.3.4", 1_010), 60000);
    assert_eq!(l.delay_after_failure("5.6.7.8", 1_010), 2000);
    // outside the window of the first failure the delay is short again
    assert_eq!(l.delay_after_failure("1.2.3.4", 1_000 + 60_000), 2000);
    // after an hour the record is forgotten and counting restarts
    for _ in 0..4 {
        assert_eq!(l.delay_after_failure("1.2.3.4", 1_000 + 3_600_000), 2000);
    }
}
