use relay::scheduler::{day_ordinal, format_hhmm, take_due, upsert_schedule, delete_schedule, Schedule, ScheduleAction, ScheduleRepeat, SaveScheduleRequest};
use relay::settings::{generate_torrc, sanitize_torrc_field, validate_custom_torrc_line, AppSettings, BridgeType, TorConfig, Theme};
use relay::split_tunnel::{domain_matches, match_domain, normalize_domains, upsert_rule, delete_rule, RoutingRule, SaveRoutingRuleRequest};

#[test]
fn torrc_minimal() {
    let c = TorConfig::default();
    assert_eq!(
        generate_torrc(&c, "127.0.0.1", 9050, "/tmp/tor").unwrap(),
        "SocksPort 127.0.0.1:9050\nDataDirectory /tmp/tor"
    );
}

#[test]
fn torrc_full() {
    let mut c = TorConfig::default();
    c.use_bridges = true;
    c.bridge_type = BridgeType::Snowflake;
    c.custom_bridges = vec!["  snowflake 1.2.3.4:1 ".to_string(), "   ".to_string()];
    c.exit_nodes = Some(" {de},{nl} ".to_string());
    c.entry_nodes = Some("".to_string());
    c.strict_nodes = true;
    c.custom_torrc = Some("# comment\n\nLog notice stdout\n  MaxCircuitDirtiness 600  ".to_string());
    assert_eq!(
        generate_torrc(&c, "127.0.0.1", 9150, "d").unwrap(),
        "SocksPort 127.0.0.1:9150\nDataDirectory d\nUseBridges 1\nClientTransportPlugin snowflake exec snowflake-client\nBridge snowflake 1.2.3.4:1\nExitNodes {de},{nl}\nStrictNodes 1\nLog notice stdout\nMaxCircuitDirtiness 600"
    );
}

#[test]
fn torrc_values_stay_on_their_lines() {
    let mut c = TorConfig::default();
    c.use_bridges = true;
    c.bridge_type = BridgeType::Custom;
    c.custom_bridges = vec![" obfs4 1.2.3.4:443 cert=x ".to_string()];
    c.exclude_nodes = Some("{ru}".to_string());
    c.custom_torrc = Some("Log notice stdout\r\n\r\n# note\nNumCPUs 2\r\n".to_string());
    let out = generate_torrc(&c, "127.0.0.1", 9050, "d").unwrap();
    let got: Vec<&str> = out.split('\n').collect();
    assert_eq!(
        got,
        vec![
            "SocksPort 127.0.0.1:9050",
            "DataDirectory d",
            "UseBridges 1",
            "Bridge obfs4 1.2.3.4:443 cert=x",
            "ExcludeNodes {ru}",
            "Log notice stdout",
            "NumCPUs 2",
        ]
    );
}

#[test]
fn torrc_refusals() {
    let mut c = TorConfig::default();
    c.custom_torrc = Some("ControlPort 9051".to_string());
    assert_eq!(
        generate_torrc(&c, "127.0.0.1", 9050, "d").unwrap_err(),
        "Forbidden torrc directive 'controlport'. This directive cannot be set via custom_torrc for security reasons."
    );
    let mut c2 = TorConfig::default();
    c2.exit_nodes = Some("{de}\nControlPort 1".to_string());
    assert_eq!(
        generate_torrc(&c2, "127.0.0.1", 9050, "d").unwrap_err(),
        "Invalid value for 'exit_nodes': newline characters are not allowed in torrc field values."
    );
    let mut c3 = TorConfig::default();
    c3.use_bridges = true;
    c3.custom_bridges = vec!["ok".to_string(), "a\rb".to_string()];
    assert_eq!(
        generate_torrc(&c3, "127.0.0.1", 9050, "d").unwrap_err(),
        "Invalid value for 'custom_bridges[1]': newline characters are not allowed in torrc field values."
    );
}

#[test]
fn custom_line_checks() {
    assert!(validate_custom_torrc_line("Log notice stdout").is_ok());
    assert!(validate_custom_torrc_line("").is_ok());
    assert!(validate_custom_torrc_line("  dnsport 53").is_err());
    assert!(validate_custom_torrc_line("HTTPSProxy 1.2.3.4:80").is_err());
    assert_eq!(sanitize_torrc_field("abc", "f"), Ok("abc".to_string()));
    assert!(sanitize_torrc_field("a\nb", "f").is_err());
}

#[test]
fn settings_defaults_and_clamp() {
    let s = AppSettings::default();
    assert_eq!(s.theme, Theme::Dark);
    assert_eq!(s.default_port, 9051);
    assert_eq!(s.concurrency, 100);
    let mut big = AppSettings::default();
    big.concurrency = 5000;
    assert_eq!(big.normalized().concurrency, 1000);
    let mut zero = AppSettings::default();
    zero.concurrency = 0;
    assert_eq!(zero.normalized().concurrency, 1);
}

fn sched(id: &str, time: &str, repeat: ScheduleRepeat, enabled: bool, last: Option<u32>) -> Schedule {
    Schedule {
        id: id.to_string(),
        name: id.to_string(),
        time: time.to_string(),
        action: ScheduleAction::StopInstance { instance_id: "x".to_string() },
        repeat,
        enabled,
        last_run_day: last,
    }
}

#[test]
fn time_formatting() {
    assert_eq!(format_hhmm(7, 5), "07:05");
    assert_eq!(format_hhmm(23, 59), "23:59");
    assert_eq!(day_ordinal(0), 0);
    assert_eq!(day_ordinal(86_400 * 366 + 86_399), 0);
    assert_eq!(day_ordinal(86_400 * 400), 34);
}

#[test]
fn due_schedules_run_once_per_day() {
    let mut v = vec![
        sched("a", "08:00", ScheduleRepeat::Daily, true, None),
        sched("b", "08:00", ScheduleRepeat::Once, true, None),
        sched("c", "09:00", ScheduleRepeat::Daily, true, None),
        sched("d", "08:00", ScheduleRepeat::Daily, false, None),
        sched("e", "08:00", ScheduleRepeat::Daily, true, Some(12)),
    ];
    let due = take_due(&mut v, "08:00", 12);
    let ids: Vec<&str> = due.iter().map(|s| s.id.as_str()).collect();
    assert_eq!(ids, vec!["a", "b"]);
    assert_eq!(v[0].last_run_day, Some(12));
    assert!(v[0].enabled);
    assert!(!v[1].enabled);
    assert_eq!(v[2].last_run_day, None);
    // the same minute again: nothing more is due
    assert!(take_due(&mut v, "08:00", 12).is_empty());
    // the next day the daily one runs again
    let next = take_due(&mut v, "08:00", 13);
    assert_eq!(next.len(), 2);
    assert_eq!(next[0].id, "a");
    assert_eq!(next[1].id, "e");
}

#[test]
fn schedule_upsert_and_delete() {
    let mut v = vec![sched("a", "08:00", ScheduleRepeat::Daily, true, Some(3))];
    let i = upsert_schedule(&mut v, SaveScheduleRequest {
        id: Some("a".to_string()),
        name: "renamed".to_string(),
        time: "10:30".to_string(),
        action: ScheduleAction::ChangeIp { instance_id: "y".to_string() },
        repeat: ScheduleRepeat::Once,
        enabled: false,
    });
    assert_eq!(i, 0);
    assert_eq!(v.len(), 1);
    assert_eq!(v[0].name, "renamed");
    assert_eq!(v[0].last_run_day, Some(3));
    let j = upsert_schedule(&mut v, SaveScheduleRequest {
        id: None,
        name: "new".to_string(),
        time: "11:00".to_string(),
        action: ScheduleAction::StartInstance { instance_id: "z".to_string() },
        repeat: ScheduleRepeat::Daily,
        enabled: true,
    });
    assert_eq!(j, 1);
    assert_eq!(v[1].id.len(), 36);
    assert_eq!(v[1].last_run_day, None);
    delete_schedule(&mut v, "a");
    assert_eq!(v.len(), 1);
    assert_eq!(v[0].name, "new");
}

#[test]
fn domain_rules() {
    assert!(domain_matches("example.com", "example.com"));
    assert!(domain_matches("a.b.example.com", "example.com"));
    assert!(domain_matches("example.com", "*.example.com"));
    assert!(domain_matches("www.example.com", "*.example.com"));
    assert!(!domain_matches("badexample.com", "example.com"));
    assert_eq!(
        normalize_domains(vec!["  Example.COM ".to_string(), " ".to_string(), "a.b".to_string()]),
        vec!["example.com".to_string(), "a.b".to_string()]
    );
}

#[test]
fn normalizing_twice_changes_nothing() {
    let once = normalize_domains(vec!["\t*.Ads.NET\n".to_string(), "".to_string(), " Mixed.Case.org".to_string()]);
    assert_eq!(once, vec!["*.ads.net".to_string(), "mixed.case.org".to_string()]);
    let twice = normalize_domains(once.clone());
    assert_eq!(twice, once);
}

fn rule(id: &str, domains: &[&str], inst: Option<&str>, enabled: bool) -> RoutingRule {
    RoutingRule {
        id: id.to_string(),
        name: id.to_string(),
        domains: domains.iter().map(|d| d.to_string()).collect(),
        proxy_instance_id: inst.map(|s| s.to_string()),
        enabled,
    }
}

#[test]
fn first_enabled_matching_rule_decides() {
    let rules = vec![
        rule("off", &["example.com"], Some("i0"), false),
        rule("r1", &["other.org", "*.example.com"], Some("i1"), true),
        rule("r2", &["example.com"], Some("i2"), true),
        rule("direct", &["direct.net"], None, true),
    ];
    assert_eq!(match_domain(" WWW.Example.com ", &rules), Some("i1".to_string()));
    assert_eq!(match_domain("direct.net", &rules), None);
    assert_eq!(match_domain("nothing.io", &rules), None);
    assert_eq!(match_domain("   ", &rules), None);
}

#[test]
fn rule_upsert_and_delete() {
    let mut rules = vec![rule("r1", &["a.com"], None, true)];
    let i = upsert_rule(&mut rules, SaveRoutingRuleRequest {
        id: Some("r1".to_string()),
        name: "n".to_string(),
        domains: vec![" B.com ".to_string()],
        proxy_instance_id: Some("i".to_string()),
        enabled: false,
    });
    assert_eq!(i, 0);
    assert_eq!(rules[0].domains, vec!["b.com".to_string()]);
    let j = upsert_rule(&mut rules, SaveRoutingRuleRequest {
        id: None,
        name: "m".to_string(),
        domains: vec![],
        proxy_instance_id: None,
        enabled: true,
    });
    assert_eq!(j, 1);
    assert!(delete_rule(&mut rules, "r1"));
    assert!(!delete_rule(&mut rules, "r1"));
    assert_eq!(rules.len(), 1);
}

#[test]
fn deleting_keeps_the_order_of_the_rest() {
    let mut v = vec![
        sched("a", "01:00", ScheduleRepeat::Daily, true, None),
        sched("x", "02:00", ScheduleRepeat::Daily, true, None),
        sched("b", "03:00", ScheduleRepeat::Daily, true, None),
        sched("x", "04:00", ScheduleRepeat::Daily, true, None),
        sched("c", "05:00", ScheduleRepeat::Daily, true, None),
    ];
    delete_schedule(&mut v, "x");
    let ids: Vec<&str> = v.iter().map(|s| s.id.as_str()).collect();
    assert_eq!(ids, vec!["a", "b", "c"]);
    let mut rules = vec![rule("r", &[], None, true), rule("s", &[], None, true), rule("r", &[], None, false)];
    assert!(delete_rule(&mut rules, "r"));
    assert_eq!(rules.len(), 1);
    assert_eq!(rules[0].id, "s");
}

#[test]
fn bridges_off_ignores_bridge_settings() {
    let mut a = TorConfig::default();
    a.custom_torrc = Some("Log notice stdout".to_string());
    let mut b = TorConfig::default();
    b.custom_torrc = Some("Log notice stdout".to_string());
    b.bridge_type = BridgeType::Snowflake;
    b.custom_bridges = vec!["bad\nline".to_string(), "obfs4 1.2.3.4:1".to_string()];
    let ta = generate_torrc(&a, "127.0.0.1", 9050, "d");
    assert_eq!(ta, generate_torrc(&b, "127.0.0.1", 9050, "d"));
    assert_eq!(ta.unwrap(), "SocksPort 127.0.0.1:9050\nDataDirectory d\nLog notice stdout");
}
