use relay::anonymity_check::{anonymity_of_reply, AnonymityLevel};
use relay::discovery::{round_start_message, rotation_round_step, RoundAction, RoundEvent};
use relay::dns_resolver::doh_answer_addresses;
use relay::proxy_cache::{fresh_proxies, ProxyCache};
use relay::proxy_manager::parse_instance_id;
use relay::proxy_type::{Proxy, ProxyProtocol};

#[test]
fn echo_reply_levels() {
    assert_eq!(anonymity_of_reply(r#"{"headers":{"Host":"h","X-Forwarded-For":"1.2.3.4"}}"#), Some(AnonymityLevel::Transparent));
    assert_eq!(anonymity_of_reply(r#"{"headers":{"Via":"1.1 proxy"}}"#), Some(AnonymityLevel::Anonymous));
    assert_eq!(anonymity_of_reply(r#"{"headers":{"Host":"h","Accept":"*/*"}}"#), Some(AnonymityLevel::Elite));
    assert_eq!(anonymity_of_reply(r#"{"headers":{}}"#), Some(AnonymityLevel::Elite));
}

#[test]
fn echo_reply_unreadable() {
    assert_eq!(anonymity_of_reply("not json"), None);
    assert_eq!(anonymity_of_reply("{}"), None);
    assert_eq!(anonymity_of_reply(r#"{"headers":"x"}"#), None);
}

#[test]
fn instance_ids_are_uuids() {
    assert_eq!(parse_instance_id("00000000-0000-0000-0000-000000000001"), Some(1));
    assert_eq!(
        parse_instance_id("67e55044-10b1-426f-9247-bb680e5fe0c8"),
        Some(0x67e55044_10b1_426f_9247_bb680e5fe0c8)
    );
    assert_eq!(parse_instance_id("not-an-id"), None);
    assert_eq!(parse_instance_id(""), None);
}

fn skip_text(a: RoundAction) -> Option<String> {
    match a {
        RoundAction::Skip(m) => Some(m),
        _ => None,
    }
}

#[test]
fn rotation_round_steps() {
    assert_eq!(skip_text(rotation_round_step(RoundEvent::CachedFound(0))).unwrap(), "Rotation: no cached proxies to test");
    assert!(matches!(rotation_round_step(RoundEvent::CachedFound(3)), RoundAction::TestCached));
    match rotation_round_step(RoundEvent::CachedTested(0)) {
        RoundAction::FetchFresh(m) => assert_eq!(m, "Rotation: all cached proxies unreachable, trying fresh…"),
        _ => panic!("expected a fetch"),
    }
    assert!(matches!(rotation_round_step(RoundEvent::CachedTested(2)), RoundAction::Choose { save_cache: true }));
    assert_eq!(skip_text(rotation_round_step(RoundEvent::FreshFetched(0))).unwrap(), "Rotation: failed to fetch fresh proxies");
    assert!(matches!(rotation_round_step(RoundEvent::FreshFetched(5)), RoundAction::TestFresh));
    assert_eq!(skip_text(rotation_round_step(RoundEvent::FreshTested(0))).unwrap(), "Rotation: no working fresh proxies found");
    assert!(matches!(rotation_round_step(RoundEvent::FreshTested(1)), RoundAction::Choose { save_cache: false }));
}

#[test]
fn rotation_round_opening_line() {
    assert_eq!(round_start_message(ProxyProtocol::Socks5), "Rotation: re-testing socks5 proxies…");
    assert_eq!(round_start_message(ProxyProtocol::Http), "Rotation: re-testing http proxies…");
}

#[test]
fn doh_addresses_in_order() {
    let body = r#"{"Status":0,"Answer":[{"type":1,"data":"1.2.3.4"},{"type":5,"data":"alias.example."},{"type":28,"data":"::1"},{"type":1}]}"#;
    assert_eq!(doh_answer_addresses(body), Some(vec!["1.2.3.4".to_string(), "::1".to_string()]));
    assert_eq!(doh_answer_addresses(r#"{"Status":3}"#), Some(vec![]));
    assert_eq!(doh_answer_addresses("bad"), None);
}

#[test]
fn cache_from_the_future_is_dropped() {
    let c = ProxyCache { proxies: vec![Proxy { host: "a".to_string(), port: 1, protocol: ProxyProtocol::Http }], last_updated: 5000 };
    assert_eq!(fresh_proxies(c, 4000).len(), 0);
    let c2 = ProxyCache { proxies: vec![Proxy { host: "a".to_string(), port: 1, protocol: ProxyProtocol::Http }], last_updated: 5000 };
    assert_eq!(fresh_proxies(c2, 5000).len(), 1);
}

#[test]
fn doh_record_type_must_be_a_number() {
    let body = r#"{"Answer":[{"type":"1","data":"9.9.9.9"},{"data":"8.8.8.8"},{"type":28,"data":"::2"}]}"#;
    assert_eq!(doh_answer_addresses(body), Some(vec!["::2".to_string()]));
    assert_eq!(doh_answer_addresses(r#"{"Answer":"none"}"#), Some(vec![]));
}
