use relay::cli::proxy_cache::{fresh_proxies, ProxyCache};
use relay::cli::proxy_type::{Proxy, ProxyProtocol};
use relay::cli::rotation::{
    auto_rotate_interval_secs, choose_rotation_target, is_double_press, parse_upstream_proxy, perform_proxy_rotation,
    poll_timeout_secs, rotation_possible, RotationHistory, RotationRefusal, TestedProxy, UpstreamError,
};
use relay::cli::sources::{parse_proxy_list, socks5_sources};

fn p(host: &str, port: u16) -> Proxy {
    Proxy::new(host.to_string(), port, ProxyProtocol::Socks5)
}

fn t(host: &str, port: u16) -> TestedProxy {
    TestedProxy { proxy: p(host, port), latency_nanos: 1 }
}

#[test]
fn upstream_argument() {
    let x = parse_upstream_proxy("SOCKS5://10.0.0.1:1080").unwrap();
    assert_eq!(x, Proxy::new("10.0.0.1".to_string(), 1080, ProxyProtocol::Socks5));
    assert_eq!(parse_upstream_proxy("https://h:443").unwrap().protocol, ProxyProtocol::Http);
    assert!(matches!(parse_upstream_proxy("h:80"), Err(UpstreamError::MissingScheme)));
    assert!(matches!(parse_upstream_proxy("a://b://c:1"), Err(UpstreamError::BadFormat)));
    match parse_upstream_proxy("ftp://h:21") {
        Err(e @ UpstreamError::UnsupportedProtocol(_)) => {
            assert_eq!(e.message(), "Неподдерживаемый протокол: ftp. Используйте: http, https, socks4, socks5");
        }
        other => panic!("unexpected {:?}", other),
    }
    assert!(matches!(parse_upstream_proxy("http://h"), Err(UpstreamError::BadHostPort)));
    assert!(matches!(parse_upstream_proxy("http://h:1:2"), Err(UpstreamError::BadHostPort)));
    assert!(matches!(parse_upstream_proxy("http://h:70000"), Err(UpstreamError::BadPort)));
    assert_eq!(UpstreamError::BadPort.message(), "Неверный номер порта");
}

#[test]
fn display_forms() {
    let x = p("1.2.3.4", 9050);
    assert_eq!(x.address(), "1.2.3.4:9050");
    assert_eq!(x.to_string(), "socks5://1.2.3.4:9050");
}

#[test]
fn history_keeps_ten() {
    let mut h = RotationHistory::new();
    for k in 0..12u16 {
        h.record(p("h", k));
    }
    assert_eq!(h.len(), 10);
    assert!(!h.contains(&p("h", 0)));
    assert!(!h.contains(&p("h", 1)));
    assert!(h.contains(&p("h", 2)));
    assert!(h.contains(&p("h", 11)));
}

#[test]
fn rotation_target_choice() {
    let current = p("cur", 1);
    let mut h = RotationHistory::new();
    h.record(p("used", 1));
    let tested = vec![t("cur", 1), t("used", 1), t("fresh", 1)];
    assert_eq!(choose_rotation_target(&tested, &current, &h), Some(2));
    let no_fresh = vec![t("cur", 1), t("used", 1)];
    assert_eq!(choose_rotation_target(&no_fresh, &current, &h), Some(1));
    let only_current = vec![t("cur", 1)];
    assert_eq!(choose_rotation_target(&only_current, &current, &h), Some(0));
    assert_eq!(choose_rotation_target(&vec![], &current, &h), None);
}

#[test]
fn rotation_records_the_proxy_left() {
    let current = p("cur", 1);
    let mut h = RotationHistory::new();
    let tested = vec![t("cur", 1), t("next", 1)];
    assert_eq!(perform_proxy_rotation(&tested, &current, &mut h), Ok(1));
    assert!(h.contains(&current));
    assert_eq!(h.len(), 1);
    let mut h2 = RotationHistory::new();
    assert_eq!(perform_proxy_rotation(&vec![], &current, &mut h2), Err(RotationRefusal::AllUnavailable));
    assert_eq!(h2.len(), 0);
    assert_eq!(rotation_possible(1), Err(RotationRefusal::NotEnoughProxies));
    assert_eq!(rotation_possible(2), Ok(()));
}

#[test]
fn timing_rules() {
    assert!(is_double_press(499));
    assert!(!is_double_press(500));
    assert_eq!(auto_rotate_interval_secs(Some(3)), Some(180));
    assert_eq!(auto_rotate_interval_secs(Some(0)), None);
    assert_eq!(auto_rotate_interval_secs(None), None);
    assert_eq!(poll_timeout_secs(Some(180)), 10);
    assert_eq!(poll_timeout_secs(None), 60);
}

#[test]
fn list_text_and_cache() {
    let text = "1.1.1.1:1080\r\n bad \n2.2.2.2:99999\n3.3.3.3:3128:x\n  4.4.4.4:80  \n";
    assert_eq!(parse_proxy_list(text, ProxyProtocol::Socks5), vec![p("1.1.1.1", 1080), p("4.4.4.4", 80)]);
    assert_eq!(socks5_sources().len(), 2);
    let c = ProxyCache { proxies: vec![p("a", 1)], last_updated: 0 };
    assert_eq!(fresh_proxies(c, 24 * 3600), vec![p("a", 1)]);
}

#[test]
fn upstream_url_reads_back() {
    for proto in [ProxyProtocol::Http, ProxyProtocol::Socks4, ProxyProtocol::Socks5] {
        let q = Proxy::new("10.0.0.7".to_string(), 3128, proto);
        assert_eq!(parse_upstream_proxy(&q.url()).unwrap(), q);
    }
    let z = Proxy::new("h".to_string(), 0, ProxyProtocol::Socks5);
    assert_eq!(parse_upstream_proxy(&z.url()).unwrap(), z);
    assert_eq!(parse_upstream_proxy("HTTPS://Host:8080").unwrap(), Proxy::new("Host".to_string(), 8080, ProxyProtocol::Http));
}

#[test]
fn cache_saved_at_a_time() {
    let c = ProxyCache::saved_at(vec![p("a", 1)], 1_700_000_000);
    assert_eq!(c.last_updated, 1_700_000_000);
    assert_eq!(fresh_proxies(c, 1_700_000_000 + 3600), vec![p("a", 1)]);
}
