use relay::proxy_instance::{ProxyStatusInfo, ProxyInstanceInfo, SavedInstance, ProxyInstance};
use relay::proxy_manager::{
    clamp_rotation_minutes, kill_switch_after_stop, manual_upstream, normalize_bind_addr, parse_instance_id, ManagerError, ProxyManager,
    RotationAction,
};
use relay::proxy_type::{Proxy, ProxyMode, ProxyProtocol};

fn create(m: &mut ProxyManager, name: &str, bind: &str, port: u16, proto: ProxyProtocol, user: Option<&str>, pass: Option<&str>) -> Result<ProxyInstanceInfo, ManagerError> {
    m.create_instance(
        name.to_string(),
        bind.to_string(),
        port,
        ProxyMode::Auto,
        proto,
        user.map(|s| s.to_string()),
        pass.map(|s| s.to_string()),
        false,
        "default".to_string(),
        Some(0),
        false,
        None,
    )
}

fn id_of(info: &ProxyInstanceInfo) -> u128 {
    parse_instance_id(&info.id).expect("identifier is a UUID")
}

#[test]
fn bind_address_normalisation() {
    assert_eq!(normalize_bind_addr("  ".to_string()), Ok("127.0.0.1".to_string()));
    assert_eq!(normalize_bind_addr(" 192.168.1.5 ".to_string()), Ok("192.168.1.5".to_string()));
    assert!(normalize_bind_addr("0.0.0.0".to_string()).is_err());
    assert!(normalize_bind_addr(" :: ".to_string()).is_err());
}

#[test]
fn rotation_minutes_are_clamped() {
    assert_eq!(clamp_rotation_minutes(0), 1);
    assert_eq!(clamp_rotation_minutes(30), 30);
    assert_eq!(clamp_rotation_minutes(5000), 1440);
}

#[test]
fn create_then_get_gives_the_instance_back() {
    let mut m = ProxyManager::new(50);
    let info = create(&mut m, "Work", "", 1080, ProxyProtocol::Socks5, None, None).unwrap();
    assert_eq!(info.name, "Work");
    assert_eq!(info.bind_addr, "127.0.0.1");
    assert_eq!(info.port, 1080);
    assert_eq!(info.auto_rotate_minutes, Some(1));
    assert!(matches!(info.status, ProxyStatusInfo::Stopped));
    assert!(!info.has_auth);
    let id = id_of(&info);
    let got = m.get_instance(id).unwrap();
    assert_eq!(got.name, "Work");
    assert_eq!(got.id, info.id);
    assert_eq!(m.len(), 1);
}

#[test]
fn create_errors_in_order() {
    let mut m = ProxyManager::new(50);
    assert!(matches!(create(&mut m, "", "0.0.0.0", 0, ProxyProtocol::Socks4, Some("u"), Some("p")), Err(ManagerError::InvalidBindAddr)));
    assert!(matches!(create(&mut m, "  ", "", 1080, ProxyProtocol::Http, None, None), Err(ManagerError::EmptyName)));
    assert!(matches!(create(&mut m, "x", "", 0, ProxyProtocol::Http, None, None), Err(ManagerError::InvalidPort)));
    assert!(matches!(create(&mut m, "x", "", 1081, ProxyProtocol::Socks4, Some("u"), Some("p")), Err(ManagerError::Socks4Auth)));
    create(&mut m, "first", "127.0.0.1", 8080, ProxyProtocol::Http, None, None).unwrap();
    match create(&mut m, "second", "", 8080, ProxyProtocol::Http, None, None) {
        Err(ManagerError::PortInUse { port, bind_addr, name }) => {
            assert_eq!(port, 8080);
            assert_eq!(bind_addr, "127.0.0.1");
            assert_eq!(name, "first");
        }
        other => panic!("unexpected {:?}", other.map(|i| i.name)),
    }
    // the same port on another address is fine
    assert!(create(&mut m, "second", "127.0.0.2", 8080, ProxyProtocol::Http, None, None).is_ok());
    assert_eq!(m.len(), 2);
}

#[test]
fn too_many_instances() {
    let mut m = ProxyManager::new(50);
    for k in 0..100u16 {
        create(&mut m, "i", "", 2000 + k, ProxyProtocol::Http, None, None).unwrap();
    }
    assert!(matches!(create(&mut m, "i", "", 3000, ProxyProtocol::Http, None, None), Err(ManagerError::TooManyInstances)));
}

#[test]
fn rename_keeps_other_fields() {
    let mut m = ProxyManager::new(50);
    let info = create(&mut m, "old", "", 1080, ProxyProtocol::Http, Some("u"), Some("p")).unwrap();
    let id = id_of(&info);
    let renamed = m.rename_instance(id, "new".to_string()).unwrap();
    assert_eq!(renamed.name, "new");
    assert_eq!(renamed.port, 1080);
    assert!(renamed.has_auth);
    assert!(matches!(m.rename_instance(id, "  ".to_string()), Err(ManagerError::EmptyName)));
    assert!(matches!(m.rename_instance(id.wrapping_add(1), "n".to_string()), Err(ManagerError::NotFound(_))));
}

#[test]
fn start_and_stop_lifecycle() {
    let mut m = ProxyManager::new(50);
    let info = create(&mut m, "w", "", 1080, ProxyProtocol::Socks5, Some("u"), Some("p")).unwrap();
    let id = id_of(&info);
    let ctx = m.mark_starting(id).unwrap();
    assert_eq!(ctx.port, 1080);
    assert_eq!(ctx.default_concurrency, 50);
    assert!(matches!(m.mark_starting(id), Err(ManagerError::AlreadyStarting)));
    let up = Proxy { host: "1.2.3.4".to_string(), port: 1080, protocol: ProxyProtocol::Socks5 };
    let (running, plan) = m.finish_start(id, up, 120).unwrap();
    assert!(matches!(running.status, ProxyStatusInfo::Running));
    assert_eq!(running.upstream_latency_ms, 120);
    assert_eq!(plan.listen_addr, "127.0.0.1:1080");
    assert_eq!(plan.auth, Some(("u".to_string(), "p".to_string())));
    assert!(matches!(m.mark_starting(id), Err(ManagerError::AlreadyRunning)));
    let logs = m.get_instance_logs(id).unwrap();
    assert_eq!(logs[0], "Starting…");
    let (stopped, stop) = m.stop_instance(id).unwrap();
    assert!(matches!(stopped.status, ProxyStatusInfo::Stopped));
    assert!(stop.cancel_server);
    // stopping a stopped instance is accepted and changes nothing that shows
    let (again, stop2) = m.stop_instance(id).unwrap();
    assert!(matches!(again.status, ProxyStatusInfo::Stopped));
    assert!(!stop2.cancel_server);
    assert!(m.delete_instance(id).is_ok());
    assert!(m.get_instance(id).is_none());
    assert!(matches!(m.delete_instance(id), Err(ManagerError::NotFound(_))));
}

#[test]
fn finish_start_refuses_deleted_or_stopped() {
    let mut m = ProxyManager::new(50);
    let info = create(&mut m, "w", "", 1080, ProxyProtocol::Socks5, None, None).unwrap();
    let id = id_of(&info);
    let up = Proxy { host: "1.2.3.4".to_string(), port: 1080, protocol: ProxyProtocol::Socks5 };
    assert!(matches!(m.finish_start(id, up.clone(), 1), Err(ManagerError::NotStarting)));
    m.mark_starting(id).unwrap();
    m.delete_instance(id).unwrap();
    assert!(matches!(m.finish_start(id, up, 1), Err(ManagerError::DeletedWhileStarting)));
}

#[test]
fn instance_logs_keep_the_newest_500() {
    let mut m = ProxyManager::new(50);
    let info = create(&mut m, "w", "", 1080, ProxyProtocol::Http, None, None).unwrap();
    let id = id_of(&info);
    for k in 0..600 {
        m.push_log(id, format!("line {}", k));
    }
    let logs = m.get_instance_logs(id).unwrap();
    assert_eq!(logs.len(), 500);
    assert_eq!(logs[0], "line 100");
    assert_eq!(logs[499], "line 599");
}

#[test]
fn auto_rotate_toggling() {
    let mut m = ProxyManager::new(50);
    let info = create(&mut m, "w", "", 1080, ProxyProtocol::Http, None, None).unwrap();
    let id = id_of(&info);
    let (i, action) = m.toggle_auto_rotate(id, true).unwrap();
    assert!(i.auto_rotate);
    // not running: nothing to start
    assert!(matches!(action, RotationAction::Keep));
    let (i2, _) = m.update_auto_rotate_minutes(id, 100000).unwrap();
    assert_eq!(i2.auto_rotate_minutes, Some(1440));
}

#[test]
fn stats_are_counted() {
    let mut m = ProxyManager::new(50);
    let info = create(&mut m, "w", "", 1080, ProxyProtocol::Http, None, None).unwrap();
    let id = id_of(&info);
    m.record_stats(id, true, Some(100), 10);
    m.record_stats(id, true, Some(300), 20);
    m.record_stats(id, true, None, 0);
    let s = m.get_instance(id).unwrap().stats;
    assert_eq!(s.total_requests, 3);
    assert_eq!(s.successful_requests, 2);
    assert_eq!(s.avg_latency_ms, 200);
    assert_eq!(s.total_bytes, 30);
    assert_eq!(s.last_request_latency_ms, 300);
}

#[test]
fn get_all_sorted_by_creation() {
    let mut m = ProxyManager::new(50);
    create(&mut m, "a", "", 1, ProxyProtocol::Http, None, None).unwrap();
    create(&mut m, "b", "", 2, ProxyProtocol::Http, None, None).unwrap();
    let all = m.get_all();
    assert_eq!(all.len(), 2);
    let mut names: Vec<String> = all.iter().map(|i| i.name.clone()).collect();
    names.sort();
    assert_eq!(names, vec!["a".to_string(), "b".to_string()]);
}

#[test]
fn saved_instance_round_trip() {
    let key = [7u8; 32];
    let inst = ProxyInstance::new(
        "saved".to_string(), "127.0.0.1".to_string(), 9050, ProxyMode::Manual, ProxyProtocol::Http,
        Some("user".to_string()), Some("secret".to_string()), true, "list".to_string(), Some(10), true, None,
    );
    let saved: SavedInstance = inst.to_saved(&key);
    assert!(saved.auth_password_legacy.is_none());
    assert!(saved.auth_password_encrypted.is_some());
    let back = ProxyInstance::from_saved(saved, &key);
    assert_eq!(back.id, inst.id);
    assert_eq!(back.name, "saved");
    assert_eq!(back.port, 9050);
    assert_eq!(back.auth_password, Some("secret".to_string()));
    assert_eq!(back.auto_rotate_minutes, Some(10));
}

#[test]
fn manual_upstream_needs_host_and_port() {
    let x = manual_upstream(Some("1.2.3.4".to_string()), Some(8080), Some("HTTPS".to_string())).unwrap();
    assert_eq!(x, Proxy { host: "1.2.3.4".to_string(), port: 8080, protocol: ProxyProtocol::Http });
    assert_eq!(manual_upstream(Some("h".to_string()), Some(1), None).unwrap().protocol, ProxyProtocol::Socks5);
    assert_eq!(manual_upstream(Some("h".to_string()), Some(1), Some("socks4".to_string())).unwrap().protocol, ProxyProtocol::Socks4);
    assert_eq!(manual_upstream(Some("h".to_string()), Some(1), Some("tor".to_string())).unwrap().protocol, ProxyProtocol::Socks5);
    assert!(manual_upstream(None, Some(1), None).is_none());
    assert!(manual_upstream(Some("h".to_string()), None, None).is_none());
}

#[test]
fn kill_switch_follows_running_instances() {
    let mut m = ProxyManager::new(10);
    let info = create(&mut m, "w", "", 1080, ProxyProtocol::Socks5, None, None).unwrap();
    let id = id_of(&info);
    assert!(!m.has_running());
    assert!(kill_switch_after_stop(true, &m));
    assert!(!kill_switch_after_stop(false, &m));
    m.mark_starting(id).unwrap();
    m.finish_start(id, Proxy { host: "u".to_string(), port: 1, protocol: ProxyProtocol::Socks5 }, 5).unwrap();
    assert!(m.has_running());
    assert!(!kill_switch_after_stop(true, &m));
}

#[test]
fn endpoints_stay_distinct() {
    let mut m = ProxyManager::new(50);
    let a = create(&mut m, "a", "", 9000, ProxyProtocol::Socks5, None, None).unwrap();
    create(&mut m, "b", "", 9001, ProxyProtocol::Socks5, None, None).unwrap();
    assert!(matches!(create(&mut m, "c", "127.0.0.1", 9000, ProxyProtocol::Http, None, None), Err(ManagerError::PortInUse { .. })));
    m.rename_instance(id_of(&a), "renamed".to_string()).unwrap();
    assert!(matches!(create(&mut m, "c", "", 9000, ProxyProtocol::Http, None, None), Err(ManagerError::PortInUse { .. })));
    m.delete_instance(id_of(&a)).unwrap();
    create(&mut m, "c", "", 9000, ProxyProtocol::Http, None, None).unwrap();
    let all = m.get_all();
    for i in 0..all.len() {
        for j in 0..all.len() {
            if i != j {
                assert!(!(all[i].port == all[j].port && all[i].bind_addr == all[j].bind_addr));
            }
        }
    }
    assert_eq!(all.len(), 2);
}

#[test]
fn saved_instances_load_back_into_a_manager() {
    let key = [3u8; 32];
    let mut m = ProxyManager::new(50);
    let a = id_of(&create(&mut m, "a", "127.0.0.1", 9100, ProxyProtocol::Socks5, Some("u"), Some("p")).unwrap());
    let b = id_of(&create(&mut m, "b", "127.0.0.1", 9101, ProxyProtocol::Http, None, None).unwrap());
    assert!(m.can_save());
    let saved = m.saved_instances(&key);
    assert_eq!(saved.len(), 2);
    let mut loaded = ProxyManager::new(50);
    for s in saved {
        assert!(loaded.insert_loaded(ProxyInstance::from_saved(s, &key)));
    }
    assert_eq!(loaded.len(), 2);
    assert_eq!(loaded.get_instance(a).unwrap().name, "a");
    assert_eq!(loaded.get_instance(b).unwrap().port, 9101);
    assert_eq!(loaded.default_concurrency(), 50);
}

#[test]
fn loaded_instances_keep_endpoints_distinct() {
    let mut m = ProxyManager::new(10);
    let first = ProxyInstance::new(
        "one".to_string(), "127.0.0.1".to_string(), 9200, ProxyMode::Auto, ProxyProtocol::Socks5,
        None, None, false, "default".to_string(), None, false, None,
    );
    let clash = ProxyInstance::new(
        "two".to_string(), "127.0.0.1".to_string(), 9200, ProxyMode::Auto, ProxyProtocol::Socks5,
        None, None, false, "default".to_string(), None, false, None,
    );
    let id = first.id;
    assert!(m.insert_loaded(first));
    assert!(!m.insert_loaded(clash));
    assert_eq!(m.len(), 1);
    // the same identifier replaces the instance
    let mut again = ProxyInstance::new(
        "renamed".to_string(), "127.0.0.1".to_string(), 9200, ProxyMode::Auto, ProxyProtocol::Socks5,
        None, None, false, "default".to_string(), None, false, None,
    );
    again.id = id;
    assert!(m.insert_loaded(again));
    assert_eq!(m.len(), 1);
    assert_eq!(m.get_instance(id).unwrap().name, "renamed");
}
