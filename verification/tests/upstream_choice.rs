use relay::discovery::{
    change_ip_message, change_ip_pool, done_message, progress_message, choose_change_ip, choose_rotation, contains_proxy, discovery_finish,
    discovery_new_proxies, discovery_source_label, discovery_start, fetching_message, filter_protocol, merge_cache,
    new_unique_proxies, rotation_interval_minutes, rotation_message, upstream_changed, merge_by_endpoint, on_endpoint_of,
    rank_tested, refresh_list_merge,
};
use relay::proxy_lists::ProxyListConfig;
use relay::proxy_cache::{cache_stats, fresh_proxies, ProxyCache};
use relay::proxy_type::{Proxy, ProxyProtocol};
use relay::speed_test::{fastest_index, rank_by_latency, select_fastest, ProxyWithSpeed};
use relay::tls_fingerprint::{
    chrome_cipher_order, cipher_order, compute_fingerprint_hash, encode_simple, random_cipher_order, simple_hash,
    CipherSuite, TlsFingerprintConfig, TlsFingerprintPreset,
};

fn p(host: &str, port: u16, protocol: ProxyProtocol) -> Proxy {
    Proxy { host: host.to_string(), port, protocol }
}

fn ws(host: &str, port: u16, nanos: u128) -> ProxyWithSpeed {
    ProxyWithSpeed { proxy: p(host, port, ProxyProtocol::Socks5), latency_nanos: nanos }
}

#[test]
fn fastest_is_first_of_the_quickest() {
    let v = vec![ws("a", 1, 30), ws("b", 1, 10), ws("c", 1, 10), ws("d", 1, 20)];
    assert_eq!(fastest_index(&v), Some(1));
    assert_eq!(select_fastest(v).unwrap().proxy.host, "b");
    assert!(select_fastest(vec![]).is_none());
    assert_eq!(fastest_index(&vec![]), None);
}

#[test]
fn rotation_prefers_another_endpoint() {
    let current = Some(p("b", 1, ProxyProtocol::Socks5));
    let tested = vec![ws("a", 1, 30), ws("b", 1, 5), ws("c", 1, 20)];
    assert_eq!(choose_rotation(tested, &current).unwrap().proxy.host, "c");
    // only the current one answered: it is kept
    let only = vec![ws("b", 1, 5)];
    assert_eq!(choose_rotation(only, &current).unwrap().proxy.host, "b");
    assert!(choose_rotation(vec![], &current).is_none());
    // another port is another endpoint
    let ports = vec![ws("b", 1, 5), ws("b", 2, 50)];
    assert_eq!(choose_rotation(ports, &current).unwrap().proxy.port, 2);
}

#[test]
fn upstream_change_and_interval() {
    let cur = Some(p("h", 1, ProxyProtocol::Http));
    assert!(!upstream_changed(&cur, &p("h", 1, ProxyProtocol::Socks5)));
    assert!(upstream_changed(&cur, &p("h", 2, ProxyProtocol::Http)));
    assert!(upstream_changed(&None, &p("h", 1, ProxyProtocol::Http)));
    assert_eq!(rotation_interval_minutes(None), 5);
    assert_eq!(rotation_interval_minutes(Some(0)), 1);
    assert_eq!(rotation_interval_minutes(Some(2000)), 1440);
}

#[test]
fn new_proxies_are_unique_and_uncached() {
    let fetched = vec![p("a", 1, ProxyProtocol::Http), p("b", 1, ProxyProtocol::Http), p("a", 1, ProxyProtocol::Http), p("c", 1, ProxyProtocol::Http)];
    let cached = vec![p("b", 1, ProxyProtocol::Http)];
    assert_eq!(new_unique_proxies(&fetched, &cached), vec![p("a", 1, ProxyProtocol::Http), p("c", 1, ProxyProtocol::Http)]);
    assert!(contains_proxy(&cached, &p("b", 1, ProxyProtocol::Http)));
    assert!(!contains_proxy(&cached, &p("b", 1, ProxyProtocol::Socks4)));
}

#[test]
fn cache_merge_replaces_one_protocol() {
    let cache = vec![p("a", 1, ProxyProtocol::Http), p("b", 1, ProxyProtocol::Socks5), p("c", 1, ProxyProtocol::Socks4)];
    assert_eq!(filter_protocol(&cache, ProxyProtocol::Socks5, true), vec![p("b", 1, ProxyProtocol::Socks5)]);
    let working = vec![p("d", 1, ProxyProtocol::Socks5)];
    assert_eq!(
        merge_cache(&cache, ProxyProtocol::Socks5, &working),
        vec![p("a", 1, ProxyProtocol::Http), p("c", 1, ProxyProtocol::Socks4), p("d", 1, ProxyProtocol::Socks5)]
    );
}

#[test]
fn cache_freshness_and_counts() {
    let c = ProxyCache { proxies: vec![p("a", 1, ProxyProtocol::Http)], last_updated: 1000 };
    assert_eq!(fresh_proxies(c, 1000 + 24 * 3600 + 3599).len(), 1);
    let c2 = ProxyCache { proxies: vec![p("a", 1, ProxyProtocol::Http)], last_updated: 1000 };
    assert_eq!(fresh_proxies(c2, 1000 + 25 * 3600).len(), 0);
    let c3 = ProxyCache {
        proxies: vec![p("a", 1, ProxyProtocol::Http), p("b", 1, ProxyProtocol::Https), p("c", 1, ProxyProtocol::Socks5), p("d", 1, ProxyProtocol::Tor)],
        last_updated: 77,
    };
    let s = cache_stats(&Some(c3));
    assert_eq!((s.total, s.socks5, s.socks4, s.http, s.last_updated), (4, 1, 0, 2, 77));
    let z = cache_stats(&None);
    assert_eq!(z.total, 0);
}

#[test]
fn fnv_hashes() {
    assert_eq!(simple_hash(""), "cbf29ce484222325");
    assert_eq!(simple_hash("a"), "af63dc4c8601ec8c");
    assert_eq!(encode_simple(&[0, 15, 255]), "000fff");
    let chrome = TlsFingerprintConfig { enabled: true, preset: TlsFingerprintPreset::Chrome };
    assert_eq!(compute_fingerprint_hash(&chrome), simple_hash("chrome-default"));
    let off = TlsFingerprintConfig::default();
    assert_eq!(compute_fingerprint_hash(&off), simple_hash("system-default"));
    let random = TlsFingerprintConfig { enabled: true, preset: TlsFingerprintPreset::Random };
    let h = compute_fingerprint_hash(&random);
    assert_eq!(h.len(), 32);
    assert!(h.chars().all(|c| c.is_ascii_hexdigit()));
}

#[test]
fn cipher_orders() {
    assert_eq!(chrome_cipher_order()[0], CipherSuite::Tls13Aes128GcmSha256);
    assert_eq!(chrome_cipher_order().len(), 9);
    assert_eq!(cipher_order(&TlsFingerprintConfig::default()), None);
    let ff = TlsFingerprintConfig { enabled: true, preset: TlsFingerprintPreset::Firefox };
    assert_eq!(cipher_order(&ff).unwrap()[1], CipherSuite::Tls13Chacha20Poly1305Sha256);
    let def = TlsFingerprintConfig { enabled: true, preset: TlsFingerprintPreset::Default };
    assert_eq!(cipher_order(&def), None);
    let r = random_cipher_order();
    assert_eq!(r.len(), 9);
    let mut head: Vec<String> = r[..3].iter().map(|c| format!("{:?}", c)).collect();
    head.sort();
    assert!(head.iter().all(|n| n.starts_with("Tls13")));
    assert!(r[3..].iter().all(|c| !format!("{:?}", c).starts_with("Tls13")));
}

#[test]
fn change_ip_needs_another_endpoint() {
    let current = Some(p("b", 1, ProxyProtocol::Socks5));
    let tested = vec![ws("b", 1, 1), ws("c", 1, 30), ws("d", 1, 20)];
    assert_eq!(choose_change_ip(tested, &current).unwrap().proxy.host, "d");
    assert_eq!(choose_change_ip(vec![ws("b", 1, 1)], &current).unwrap_err(), "No alternative working proxies available");
    let cache = vec![p("a", 1, ProxyProtocol::Http), p("s", 1, ProxyProtocol::Socks5)];
    assert_eq!(change_ip_pool(&cache, ProxyProtocol::Socks5), Ok(vec![p("s", 1, ProxyProtocol::Socks5)]));
    assert_eq!(change_ip_pool(&cache, ProxyProtocol::Socks4), Err("No cached proxies available".to_string()));
    assert_eq!(change_ip_message(&p("1.2.3.4", 80, ProxyProtocol::Http), 42), "Change IP: switched to http://1.2.3.4:80 (42ms)");
    assert_eq!(rotation_message(&p("h", 1, ProxyProtocol::Socks5), 7, true), "Rotation: switched to socks5://h:1 (7ms)");
    assert_eq!(rotation_message(&p("h", 1, ProxyProtocol::Socks5), 7, false), "Rotation: keeping socks5://h:1 (7ms) — no alternatives");
}

#[test]
fn discovery_steps() {
    assert_eq!(discovery_source_label(&None), "built-in");
    let cfg = ProxyListConfig { id: "i".to_string(), name: "Mine".to_string(), urls: vec![], inline_proxies: vec![] };
    assert_eq!(discovery_source_label(&Some(cfg)), "Mine");
    let cache = vec![p("a", 1, ProxyProtocol::Http), p("s", 1, ProxyProtocol::Socks5), p("t", 2, ProxyProtocol::Socks5)];
    let (cached, logs) = discovery_start(ProxyProtocol::Socks5, "built-in", &cache);
    assert_eq!(cached.len(), 2);
    assert_eq!(logs, vec!["Auto-discovery for socks5 proxies (source: built-in)…".to_string(), "Checking 2 cached socks5 proxies…".to_string()]);
    let (none, logs2) = discovery_start(ProxyProtocol::Socks4, "x", &cache);
    assert!(none.is_empty());
    assert_eq!(logs2.len(), 1);
    assert_eq!(fetching_message(ProxyProtocol::Http), "Fetching http proxy lists…");
    assert_eq!(discovery_new_proxies(ProxyProtocol::Socks5, &vec![], &cached, 0).unwrap_err(), "No socks5 proxies available");
    let fetched = vec![p("s", 1, ProxyProtocol::Socks5), p("n", 3, ProxyProtocol::Socks5), p("n", 3, ProxyProtocol::Socks5)];
    let (fresh, log) = discovery_new_proxies(ProxyProtocol::Socks5, &fetched, &cached, 1).unwrap();
    assert_eq!(fresh, vec![p("n", 3, ProxyProtocol::Socks5)]);
    assert_eq!(log, Some("Testing 1 new socks5 proxies…".to_string()));
    let (nothing, nolog) = discovery_new_proxies(ProxyProtocol::Socks5, &vec![], &cached, 1).unwrap();
    assert!(nothing.is_empty() && nolog.is_none());
    assert_eq!(discovery_finish(ProxyProtocol::Socks5, vec![], &cache).unwrap_err(), "All socks5 proxies are unreachable");
    let tested = vec![ws("x", 1, 9_000_000), ws("y", 2, 3_500_000)];
    let (best, merged, logs3) = discovery_finish(ProxyProtocol::Socks5, tested, &cache).unwrap();
    assert_eq!(best.proxy.host, "y");
    assert_eq!(merged, vec![p("a", 1, ProxyProtocol::Http), p("x", 1, ProxyProtocol::Socks5), p("y", 2, ProxyProtocol::Socks5)]);
    assert_eq!(logs3, vec!["Found 2 working socks5 proxies".to_string(), "Selected: socks5://y:2 (3ms)".to_string()]);
}

#[test]
fn test_run_progress_lines() {
    assert_eq!(progress_message(12, 300, 4), "  progress: 12/300 tested, 4 working");
    assert_eq!(done_message(40, 300), "  done: 40/300 working");
}

fn hosts(v: &[ProxyWithSpeed]) -> Vec<String> {
    v.iter().map(|t| t.proxy.host.clone()).collect()
}

#[test]
fn ranking_is_a_stable_sort_by_latency() {
    let v = vec![ws("a", 1, 30), ws("b", 1, 10), ws("c", 1, 20), ws("d", 1, 10), ws("e", 1, 30)];
    let r = rank_by_latency(v);
    assert_eq!(hosts(&r), vec!["b", "d", "c", "a", "e"]);
    assert!(rank_by_latency(vec![]).is_empty());
    let (ranked, working) = rank_tested(vec![ws("x", 2, 7), ws("y", 3, 1)]);
    assert_eq!(hosts(&ranked), vec!["y", "x"]);
    assert_eq!(working, vec![p("y", 3, ProxyProtocol::Socks5), p("x", 2, ProxyProtocol::Socks5)]);
}

#[test]
fn refresh_merges_by_endpoint() {
    let cache = vec![
        p("a", 1, ProxyProtocol::Http),
        p("b", 2, ProxyProtocol::Socks4),
        p("a", 2, ProxyProtocol::Socks5),
    ];
    let working = vec![p("a", 1, ProxyProtocol::Socks5)];
    assert!(on_endpoint_of(&cache[0], &working));
    assert!(!on_endpoint_of(&cache[2], &working));
    assert_eq!(
        merge_by_endpoint(&cache, &working),
        vec![p("b", 2, ProxyProtocol::Socks4), p("a", 2, ProxyProtocol::Socks5), p("a", 1, ProxyProtocol::Socks5)]
    );
    let tested = vec![ws("b", 2, 9)];
    assert_eq!(
        refresh_list_merge(3, &tested, &cache).unwrap(),
        vec![p("a", 1, ProxyProtocol::Http), p("a", 2, ProxyProtocol::Socks5), p("b", 2, ProxyProtocol::Socks5)]
    );
    assert_eq!(refresh_list_merge(0, &tested, &cache).unwrap_err(), "No proxies found in this list");
}

#[test]
fn desktop_cache_saved_at_a_time() {
    let c = ProxyCache::saved_at(vec![p("a", 1, ProxyProtocol::Http)], 42);
    assert_eq!(c.last_updated, 42);
    assert_eq!(cache_stats(&Some(c)).last_updated, 42);
}
