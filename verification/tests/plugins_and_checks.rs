use relay::anonymity_check::{check_proxy_url, classify_anonymity, AnonymityLevel};
use relay::builtin_plugins::{
    check_archive_entry, check_bundle_sha256, check_mmdb_download, expected_sha256, geoip_download_urls, is_tor_binary_name, sha256_hex,
    tor_binary_name_error, tor_download_url, validate_tor_binary_path, TorPathCheck,
};
use relay::dns_resolver::{
    classify_dns_body, detected_dns_servers, doh_answer, doh_failure, doh_plan, doh_servers, is_address_record_type,
    DnsResolverConfig,
};
use relay::geoip::{country_info_from, filter_by_countries, normalize_country_codes};
use relay::import_export::export_file_name;
use relay::leak_test::{accept_ip_reply, dns_leak_result, ip_check_services_list, ip_leak_result, proxy_check_url};
use relay::notifications::{can_send, should_send};
use relay::plugin_manager::{plugin_info, sort_plugins, PluginOp, PluginRuntimeState, PluginStates};
use relay::plugin_sdk::{check_external_allowed, check_plugin_id, check_register, PluginInfo, PluginType};
use relay::proxy_type::{Proxy, ProxyProtocol};
use relay::settings::NotificationSettings;
use relay::sources::{parse_proxy_list, process_source_result, sources_for};
use relay::speed_test::ProxyWithSpeed;

fn p(host: &str, port: u16, protocol: ProxyProtocol) -> Proxy {
    Proxy { host: host.to_string(), port, protocol }
}

#[test]
fn external_plugins_need_the_variable() {
    assert!(check_external_allowed(&Some("1".to_string())).is_ok());
    assert!(check_external_allowed(&Some("true".to_string())).unwrap_err().starts_with("External plugins are disabled"));
    assert!(check_external_allowed(&None).is_err());
    assert!(check_plugin_id("a", "a").is_ok());
    assert_eq!(check_plugin_id("a", "b"), Err("Plugin id mismatch: manifest='a', runtime='b'".to_string()));
    assert_eq!(check_register(&vec!["x".to_string()], "x"), Err("Plugin with id 'x' already registered".to_string()));
    assert!(check_register(&vec!["x".to_string()], "y").is_ok());
}

#[test]
fn plugin_state_updates() {
    let mut s = PluginStates::new();
    let g = s.get("geo");
    assert!(!g.installed && !g.enabled && g.last_error.is_none());
    assert!(s.record_outcome("geo", PluginOp::Install, Ok(())).is_ok());
    assert!(s.record_outcome("geo", PluginOp::Enable, Ok(())).is_ok());
    let g = s.get("geo");
    assert!(g.installed && g.enabled);
    assert_eq!(s.record_outcome("geo", PluginOp::Disable, Err("boom".to_string())), Err("boom".to_string()));
    let g = s.get("geo");
    assert!(g.enabled);
    assert_eq!(g.last_error, Some("boom".to_string()));
    assert!(s.record_outcome("geo", PluginOp::Uninstall, Ok(())).is_ok());
    let g = s.get("geo");
    assert!(!g.installed && !g.enabled && g.last_error.is_none());
    assert!(!s.get("other").installed);
}

fn info(id: &str) -> PluginInfo {
    plugin_info(
        id.to_string(),
        "n".to_string(),
        "1.0".to_string(),
        "d".to_string(),
        PluginType::Builtin,
        PluginRuntimeState { installed: false, enabled: true, last_error: None },
        true,
    )
}

#[test]
fn plugin_listing() {
    let i = info("a");
    assert!(i.installed && i.enabled);
    let sorted = sort_plugins(vec![info("tor"), info("geoip"), info("b"), info("system-proxy")]);
    let ids: Vec<&str> = sorted.iter().map(|x| x.id.as_str()).collect();
    assert_eq!(ids, vec!["b", "geoip", "system-proxy", "tor"]);
}

#[test]
fn geoip_and_tor_downloads() {
    assert_eq!(geoip_download_urls(&None).len(), 2);
    assert_eq!(geoip_download_urls(&Some("  ".to_string())).len(), 1);
    assert_eq!(geoip_download_urls(&Some("https://m/x.mmdb".to_string())), vec!["https://m/x.mmdb".to_string()]);
    assert!(check_mmdb_download(&[0u8; 10], "u").unwrap_err().contains("is too small (10 bytes)"));
    let mut good = vec![0u8; 600];
    good.extend_from_slice(&[0xab, 0xcd, 0xef, b'M', b'a', b'x', b'M', b'i', b'n', b'd', b'.', b'c', b'o', b'm']);
    assert!(check_mmdb_download(&good, "u").is_ok());
    assert!(check_mmdb_download(&[1u8; 600], "u").unwrap_err().contains("magic bytes not found"));
    assert_eq!(tor_download_url(&None, false), Err("Tor Downloader currently supports only Windows x86_64".to_string()));
    assert!(tor_download_url(&None, true).unwrap().ends_with("tor-expert-bundle-windows-x86_64-14.5.7.tar.gz"));
    assert_eq!(tor_download_url(&Some("https://mirror/t.tgz".to_string()), true), Ok("https://mirror/t.tgz".to_string()));
}

#[test]
fn bundle_hash_checks() {
    let sums = "abc123  other.tar.gz\nDEADBEEF *tor-expert-bundle.tar.gz\n";
    assert_eq!(expected_sha256(sums, "tor-expert-bundle.tar.gz"), Some("deadbeef".to_string()));
    assert_eq!(expected_sha256(sums, "missing.tar.gz"), None);
    assert_eq!(sha256_hex(b"abc"), "ba7816bf8f01cfea414140de5dae2223b00361a396177a9cb410ff61f20015ad");
    assert!(check_bundle_sha256("aa", "aa").is_ok());
    assert_eq!(check_bundle_sha256("aa", "bb"), Err("Tor bundle SHA256 mismatch! expected=aa actual=bb".to_string()));
}

#[test]
fn tor_binary_paths() {
    assert!(is_tor_binary_name("Tor.EXE"));
    assert!(!is_tor_binary_name("tor.sh"));
    assert!(tor_binary_name_error("tor").is_none());
    assert!(tor_binary_name_error("evil").is_some());
    assert!(matches!(validate_tor_binary_path("  tor ", '\\'), Ok(TorPathCheck::Command)));
    match validate_tor_binary_path(" /usr/bin/tor ", '/') {
        Ok(TorPathCheck::File(f)) => assert_eq!(f, "/usr/bin/tor"),
        other => panic!("unexpected {:?}", other),
    }
    assert_eq!(validate_tor_binary_path("   ", '/').unwrap_err(), "Tor binary path is empty");
}

#[test]
fn dns_and_leaks() {
    let c = DnsResolverConfig::default();
    assert_eq!(doh_servers(&c), vec!["https://cloudflare-dns.com/dns-query".to_string(), "https://dns.google/dns-query".to_string()]);
    assert!(is_address_record_type(1));
    assert!(is_address_record_type(28));
    assert!(!is_address_record_type(5));
    assert_eq!(classify_dns_body("resolver: 1.1.1.1"), Some("1.1.1.1 (Cloudflare)".to_string()));
    assert_eq!(classify_dns_body("served by google"), Some("8.8.8.8 (Google)".to_string()));
    assert_eq!(classify_dns_body("unknown"), None);
    assert_eq!(detected_dns_servers(&vec![None, None]), vec!["System DNS".to_string()]);
    assert_eq!(detected_dns_servers(&vec![Some("x".to_string()), None]), vec!["x".to_string()]);
    assert!(dns_leak_result(vec!["System DNS".to_string()]).leak_detected);
    assert!(!dns_leak_result(vec!["1.1.1.1 (Cloudflare)".to_string()]).leak_detected);
    assert_eq!(ip_check_services_list().len(), 3);
    assert_eq!(accept_ip_reply(" 1.2.3.4\n"), Some("1.2.3.4".to_string()));
    assert_eq!(accept_ip_reply("   "), None);
    assert_eq!(accept_ip_reply(&"x".repeat(60)), None);
    assert_eq!(proxy_check_url(&p("h", 1, ProxyProtocol::Https)), Some("http://h:1".to_string()));
    assert_eq!(proxy_check_url(&p("h", 1, ProxyProtocol::Tor)), Some("socks5://h:1".to_string()));
    assert_eq!(proxy_check_url(&p("h", 1, ProxyProtocol::Socks4)), None);
    let same = ip_leak_result(Some("1.1.1.1".to_string()), Some("1.1.1.1".to_string()), None);
    assert!(same.leak_detected);
    let diff = ip_leak_result(Some("1.1.1.1".to_string()), Some("2.2.2.2".to_string()), Some(&p("h", 1, ProxyProtocol::Http)));
    assert!(!diff.leak_detected);
    assert_eq!(diff.proxy_used, Some("http://h:1".to_string()));
    assert!(ip_leak_result(Some("1.1.1.1".to_string()), None, None).leak_detected);
    assert!(!ip_leak_result(None, None, None).leak_detected);
}

#[test]
fn anonymity_levels() {
    assert_eq!(classify_anonymity(&vec!["X-Forwarded-For".to_string()]), AnonymityLevel::Transparent);
    assert_eq!(classify_anonymity(&vec!["Via".to_string(), "Host".to_string()]), AnonymityLevel::Anonymous);
    assert_eq!(classify_anonymity(&vec!["Host".to_string()]), AnonymityLevel::Elite);
    assert_eq!(AnonymityLevel::Elite.to_string(), "Elite");
    assert_eq!(check_proxy_url(&p("h", 2, ProxyProtocol::Socks5)), Some("socks5://h:2".to_string()));
}

#[test]
fn countries() {
    let c = country_info_from(Some("de"), Some("Germany")).unwrap();
    assert_eq!(c.country_code, "DE");
    assert_eq!(c.country_name, Some("Germany".to_string()));
    assert!(country_info_from(None, Some("x")).is_none());
    assert_eq!(normalize_country_codes(&vec![" de ".to_string(), "".to_string(), "nl".to_string()]), vec!["DE".to_string(), "NL".to_string()]);
    let tested = vec![
        ProxyWithSpeed { proxy: p("a", 1, ProxyProtocol::Socks5), latency_nanos: 1 },
        ProxyWithSpeed { proxy: p("b", 1, ProxyProtocol::Socks5), latency_nanos: 2 },
        ProxyWithSpeed { proxy: p("c", 1, ProxyProtocol::Socks5), latency_nanos: 3 },
    ];
    let countries = vec![Some("DE".to_string()), Some("US".to_string()), None];
    let kept = filter_by_countries(tested.clone(), &countries, &vec!["de".to_string()]);
    assert_eq!(kept.len(), 1);
    assert_eq!(kept[0].proxy.host, "a");
    assert_eq!(filter_by_countries(tested, &countries, &vec![" ".to_string()]).len(), 3);
}

#[test]
fn notification_switches() {
    let s = NotificationSettings::default();
    assert!(can_send(&s, "proxy_start"));
    assert!(!can_send(&s, "proxy_stop"));
    assert!(should_send(&s, "leak"));
    let off = NotificationSettings { enabled: false, ..NotificationSettings::default() };
    assert!(!should_send(&off, "leak"));
    assert_eq!(export_file_name(1700000000), "relay-export-1700000000.json");
}

#[test]
fn source_lists() {
    // a host must begin with a numeric character, in the Unicode sense
    assert_eq!(parse_proxy_list("\u{0663}x:80\nx1:80\n", ProxyProtocol::Http), vec![p("\u{0663}x", 80, ProxyProtocol::Http)]);
    let text = "# comment\n1.2.3.4:80 extra\nhost.example:81\n5.6.7.8:99999\n 9.9.9.9 : 8080\n";
    assert_eq!(parse_proxy_list(text, ProxyProtocol::Http), vec![p("1.2.3.4", 80, ProxyProtocol::Http), p("9.9.9.9", 8080, ProxyProtocol::Http)]);
    let mut all = vec![p("x", 1, ProxyProtocol::Http)];
    assert_eq!(process_source_result("List", Some(vec![p("y", 2, ProxyProtocol::Http)]), &mut all), Some("  List -> 1 proxies".to_string()));
    assert_eq!(all.len(), 2);
    assert_eq!(process_source_result("List", Some(vec![]), &mut all), None);
    assert_eq!(process_source_result("List", None, &mut all), None);
    assert_eq!(all.len(), 2);
}

#[test]
fn archive_entries_stay_inside() {
    let parts = |v: &[&str]| v.iter().map(|s| s.to_string()).collect::<Vec<String>>();
    assert!(check_archive_entry("tor/tor.exe", false, &parts(&["tor", "tor.exe"]), false).is_ok());
    assert_eq!(
        check_archive_entry("/etc/passwd", true, &parts(&["/", "etc", "passwd"]), true).unwrap_err(),
        "Tor archive contains absolute path (possible path traversal): /etc/passwd"
    );
    assert_eq!(
        check_archive_entry("a/../../x", false, &parts(&["a", "..", "..", "x"]), true).unwrap_err(),
        "Tor archive contains '..' component (path traversal attempt): a/../../x"
    );
    assert_eq!(
        check_archive_entry("link/x", false, &parts(&["link", "x"]), true).unwrap_err(),
        "Tor archive entry escapes destination directory: link/x"
    );
}

#[test]
fn public_lists_by_protocol() {
    let s5 = sources_for(ProxyProtocol::Socks5);
    assert_eq!(s5.len(), 14);
    assert_eq!(s5[0].name, "OpenProxyList");
    assert_eq!(s5[0].url, "https://api.openproxylist.xyz/socks5.txt");
    assert_eq!(sources_for(ProxyProtocol::Socks4).len(), 9);
    assert_eq!(sources_for(ProxyProtocol::Https).len(), 10);
    assert_eq!(sources_for(ProxyProtocol::Http)[9].name, "ProxyListOrg/HTTP");
    assert!(sources_for(ProxyProtocol::Tor).is_empty());
}

#[test]
fn doh_decisions() {
    let mut c = DnsResolverConfig::default();
    assert_eq!(doh_plan(&c).unwrap_err(), "DoH resolver is disabled");
    c.enabled = true;
    assert_eq!(doh_plan(&c).unwrap(), vec!["https://cloudflare-dns.com/dns-query".to_string(), "https://dns.google/dns-query".to_string()]);
    assert_eq!(doh_answer("https://a", Ok(2)), None);
    assert_eq!(doh_answer("https://a", Ok(0)), Some("No addresses returned from https://a".to_string()));
    assert_eq!(doh_answer("https://a", Err("timeout".to_string())), Some("timeout".to_string()));
    assert_eq!(doh_failure(Some("timeout".to_string())), "timeout");
    assert_eq!(doh_failure(None), "No DoH servers configured");
}
