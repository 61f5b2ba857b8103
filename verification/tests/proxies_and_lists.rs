use relay::proxy_lists::{
    check_list_url, fetched_report, find_list, inline_report, is_proxy_list_url_allowed, parse_inline_proxies,
    parse_proxy_line, parse_proxy_text, ProxyListConfig, upsert_list, delete_list,
};
use relay::proxy_type::{Proxy, ProxyMode, ProxyProtocol, format_host_port, same_proxy, same_endpoint};

fn p(host: &str, port: u16, protocol: ProxyProtocol) -> Proxy {
    Proxy { host: host.to_string(), port, protocol }
}

#[test]
fn proxy_display_forms() {
    let x = Proxy::new("1.2.3.4".to_string(), 1080, ProxyProtocol::Socks5);
    assert_eq!(x.address(), "1.2.3.4:1080");
    assert_eq!(x.url(), "socks5://1.2.3.4:1080");
    assert_eq!(x.to_string(), "socks5://1.2.3.4:1080");
    assert_eq!(ProxyProtocol::Https.to_string(), "https");
    assert_eq!(ProxyProtocol::Tor.to_string(), "tor");
    assert_eq!(ProxyMode::Manual.to_string(), "Manual");
    assert_eq!(ProxyMode::default(), ProxyMode::Auto);
    assert_eq!(format_host_port("h", 0), "h:0");
}

#[test]
fn proxy_equality_helpers() {
    let a = p("h", 1, ProxyProtocol::Http);
    let b = p("h", 1, ProxyProtocol::Socks5);
    assert!(!same_proxy(&a, &b));
    assert!(same_endpoint(&a, &b));
    assert!(same_proxy(&a, &a.clone()));
}

#[test]
fn line_formats() {
    let d = ProxyProtocol::Http;
    assert_eq!(parse_proxy_line("1.2.3.4:8080", &d), Some(p("1.2.3.4", 8080, ProxyProtocol::Http)));
    assert_eq!(parse_proxy_line("  1.2.3.4 : 8080 ", &d), Some(p("1.2.3.4", 8080, ProxyProtocol::Http)));
    assert_eq!(parse_proxy_line("1.2.3.4:8080:user:pass", &d), Some(p("1.2.3.4", 8080, ProxyProtocol::Http)));
    assert_eq!(parse_proxy_line("user:pass@1.2.3.4:8080", &d), Some(p("1.2.3.4", 8080, ProxyProtocol::Http)));
    assert_eq!(parse_proxy_line("socks5://1.2.3.4:1080", &d), Some(p("1.2.3.4", 1080, ProxyProtocol::Socks5)));
    assert_eq!(parse_proxy_line("socks4://u:p@1.2.3.4:1080", &d), Some(p("1.2.3.4", 1080, ProxyProtocol::Socks4)));
    assert_eq!(parse_proxy_line("https://proxy.example:443", &d), Some(p("proxy.example", 443, ProxyProtocol::Http)));
    assert_eq!(parse_proxy_line("1.2.3.4:8080@user:pass", &d), Some(p("1.2.3.4", 8080, ProxyProtocol::Http)));
}

#[test]
fn lines_that_are_no_proxy() {
    let d = ProxyProtocol::Socks5;
    assert_eq!(parse_proxy_line("", &d), None);
    assert_eq!(parse_proxy_line("   ", &d), None);
    assert_eq!(parse_proxy_line("# 1.2.3.4:80", &d), None);
    assert_eq!(parse_proxy_line("1.2.3.4", &d), None);
    assert_eq!(parse_proxy_line("1.2.3.4:99999", &d), None);
    assert_eq!(parse_proxy_line(":80", &d), None);
}

#[test]
fn text_of_several_lines() {
    let text = "# list\n1.1.1.1:80\r\n\nbad line\nsocks5://2.2.2.2:1080\n";
    assert_eq!(
        parse_proxy_text(text, &ProxyProtocol::Http),
        vec![p("1.1.1.1", 80, ProxyProtocol::Http), p("2.2.2.2", 1080, ProxyProtocol::Socks5)]
    );
}

#[test]
fn inline_entries() {
    let cfg = ProxyListConfig {
        id: "l".to_string(),
        name: "list".to_string(),
        urls: vec![],
        inline_proxies: vec!["3.3.3.3:3128".to_string(), "nothing".to_string(), "u:p@4.4.4.4:8000".to_string()],
    };
    assert_eq!(
        parse_inline_proxies(&cfg, &ProxyProtocol::Socks4),
        vec![p("3.3.3.3", 3128, ProxyProtocol::Socks4), p("4.4.4.4", 8000, ProxyProtocol::Socks4)]
    );
}

#[test]
fn list_urls_allowed() {
    assert_eq!(is_proxy_list_url_allowed("https://example.com/list.txt"), Ok(true));
    assert_eq!(is_proxy_list_url_allowed("http://8.8.8.8/list"), Ok(true));
    assert_eq!(is_proxy_list_url_allowed("ftp://example.com/list"), Ok(false));
    assert_eq!(is_proxy_list_url_allowed("http://localhost/list"), Ok(false));
    assert_eq!(is_proxy_list_url_allowed("http://LOCALHOST:8080/"), Ok(false));
    assert_eq!(is_proxy_list_url_allowed("http://127.0.0.1/"), Ok(false));
    assert_eq!(is_proxy_list_url_allowed("http://10.1.2.3/"), Ok(false));
    assert_eq!(is_proxy_list_url_allowed("http://172.20.0.1/"), Ok(false));
    assert_eq!(is_proxy_list_url_allowed("http://172.32.0.1/"), Ok(true));
    assert_eq!(is_proxy_list_url_allowed("http://192.168.0.1/"), Ok(false));
    assert_eq!(is_proxy_list_url_allowed("http://169.254.169.254/latest"), Ok(false));
    assert_eq!(is_proxy_list_url_allowed("http://0.0.0.0/"), Ok(false));
    assert_eq!(is_proxy_list_url_allowed("http://[::1]/"), Ok(false));
    assert_eq!(is_proxy_list_url_allowed("http://[fd00::1]/"), Ok(false));
    assert_eq!(is_proxy_list_url_allowed("http://[2001:db8::1]/"), Ok(true));
}

#[test]
fn list_url_errors() {
    let e = is_proxy_list_url_allowed("not a url").unwrap_err();
    assert!(e.starts_with("Invalid URL: "));
    assert_eq!(e, "Invalid URL: relative URL without a base");
}

#[test]
fn list_reports() {
    let cfg = ProxyListConfig {
        id: "l1".to_string(),
        name: "Mine".to_string(),
        urls: vec![],
        inline_proxies: vec!["1.1.1.1:80".to_string(), "x".to_string()],
    };
    let (v, m) = inline_report(&cfg, &ProxyProtocol::Http);
    assert_eq!(v.len(), 1);
    assert_eq!(m, Some("  Mine (inline) -> 1 proxies".to_string()));
    let empty = ProxyListConfig { inline_proxies: vec![], ..cfg.clone() };
    assert_eq!(inline_report(&empty, &ProxyProtocol::Http).1, None);
    assert_eq!(check_list_url("Mine", "https://example.com/l.txt"), Ok(()));
    assert_eq!(
        check_list_url("Mine", "http://127.0.0.1/l"),
        Err("  Mine -> URL blocked (localhost/private/metadata): http://127.0.0.1/l".to_string())
    );
    assert_eq!(
        check_list_url("Mine", "nope"),
        Err("  Mine -> URL invalid: nope (Invalid URL: relative URL without a base)".to_string())
    );
    let (ps, line) = fetched_report("Mine", "1.1.1.1:80\n2.2.2.2:81\n", &ProxyProtocol::Socks5);
    assert_eq!(ps.len(), 2);
    assert_eq!(line, "  Mine -> 2 proxies");
    let lists = vec![cfg.clone(), ProxyListConfig { id: "l2".to_string(), ..cfg }];
    assert_eq!(find_list(&lists, "l2"), Some(1));
    assert_eq!(find_list(&lists, "zz"), None);
}

fn list(id: &str, name: &str) -> ProxyListConfig {
    ProxyListConfig { id: id.to_string(), name: name.to_string(), urls: vec![], inline_proxies: vec![] }
}

fn names(v: &[ProxyListConfig]) -> Vec<String> {
    v.iter().map(|l| l.name.clone()).collect()
}

#[test]
fn saving_and_deleting_lists() {
    let mut lists = vec![list("a", "first"), list("b", "second"), list("a", "third")];
    upsert_list(&mut lists, list("a", "renamed"));
    assert_eq!(names(&lists), vec!["renamed", "second", "third"]);
    upsert_list(&mut lists, list("c", "new"));
    assert_eq!(names(&lists), vec!["renamed", "second", "third", "new"]);
    delete_list(&mut lists, "a");
    assert_eq!(names(&lists), vec!["second", "new"]);
    delete_list(&mut lists, "zzz");
    assert_eq!(names(&lists), vec!["second", "new"]);
}
