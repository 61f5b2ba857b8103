use relay::kill_switch::{
    linux_apply_commands, linux_remove_commands, macos_apply_commands, macos_remove_commands, pf_rules_text,
    windows_apply_commands, windows_remove_commands, windows_rule_names_of, Activation, Command, KillSwitchError,
    KillSwitchState,
};
use relay::port_kill::{is_protected_port, kill_process_on_port, kill_refusal, parse_lsof_pids, parse_netstat_pids, port_is_in_use, port_match_in_line};
use relay::system_proxy::{get_system_proxy_status, is_enabled_for, parse_proxy_enable, parse_proxy_server, reg_query_args, set_system_proxy, unset_system_proxy};

fn args(c: &Command) -> Vec<&str> {
    c.args.iter().map(|a| a.as_str()).collect()
}

#[test]
fn protected_ports_are_refused() {
    assert!(is_protected_port(22));
    assert!(is_protected_port(8443));
    assert!(!is_protected_port(9050));
    assert_eq!(kill_refusal(443), Some("Port 443 is protected (system/critical); refusing to kill process".to_string()));
    assert_eq!(kill_refusal(1000), Some("Port 1000 is in the system range (1-1023); refusing to kill process".to_string()));
    assert_eq!(kill_refusal(1024), None);
    assert_eq!(kill_process_on_port(9050, &vec![12, 34]), Ok(vec![12, 34]));
    assert!(kill_process_on_port(80, &vec![1]).is_err());
    assert!(port_is_in_use(&vec![5]));
    assert!(!port_is_in_use(&vec![]));
}

#[test]
fn port_in_netstat_line() {
    assert!(port_match_in_line("TCP 127.0.0.1:9050 0.0.0.0:0 LISTENING 1234", ":9050"));
    assert!(!port_match_in_line("TCP 127.0.0.1:90501 0.0.0.0:0 LISTENING 1234", ":9050"));
    assert!(port_match_in_line("TCP 1.1.1.1:90501 127.0.0.1:9050 LISTENING 1", ":9050"));
}

#[test]
fn netstat_and_lsof_output() {
    let out = "  Proto  Local Address  Foreign Address  State  PID\r\n  TCP    0.0.0.0:9050   0.0.0.0:0   LISTENING   4321\r\n  TCP    [::]:9050   [::]:0   LISTENING   4321\r\n  TCP    0.0.0.0:9051   0.0.0.0:0   LISTENING   99\r\n  TCP    0.0.0.0:9050   1.2.3.4:5   ESTABLISHED   7\r\n  TCP    127.0.0.1:9050   0.0.0.0:0   LISTENING   17\r\n";
    assert_eq!(parse_netstat_pids(out, 9050), vec![17, 4321]);
    assert_eq!(parse_netstat_pids(out, 9051), vec![99]);
    assert_eq!(parse_netstat_pids(out, 80), Vec::<u32>::new());
    assert_eq!(parse_lsof_pids("123\n 456 \n\nabc\n"), vec![123, 456]);
}

#[test]
fn registry_output_parsing() {
    let enable = "\r\nHKEY_CURRENT_USER\\...\r\n    ProxyEnable    REG_DWORD    0x1\r\n";
    assert!(parse_proxy_enable(enable));
    assert!(!parse_proxy_enable("    ProxyEnable    REG_DWORD    0x0\r\n"));
    let server = "\r\nHKEY_CURRENT_USER\\...\r\n    ProxyServer    REG_SZ    127.0.0.1:9051\r\n";
    assert_eq!(parse_proxy_server(server), Some("127.0.0.1:9051".to_string()));
    assert_eq!(parse_proxy_server("nothing here"), None);
    let st = get_system_proxy_status(enable, server);
    assert!(st.enabled);
    assert!(is_enabled_for(&st, "127.0.0.1:9051"));
    assert!(!is_enabled_for(&st, "127.0.0.1:1"));
}

#[test]
fn registry_commands() {
    assert_eq!(
        reg_query_args("ProxyEnable"),
        vec!["query", "HKCU\\Software\\Microsoft\\Windows\\CurrentVersion\\Internet Settings", "/v", "ProxyEnable"]
    );
    let set = set_system_proxy("127.0.0.1", 9051);
    assert_eq!(set.len(), 2);
    assert!(set[0].contains(&"ProxyServer".to_string()));
    assert!(set[0].contains(&"127.0.0.1:9051".to_string()));
    assert!(set[1].contains(&"ProxyEnable".to_string()));
    assert!(unset_system_proxy().contains(&"0".to_string()));
}

#[test]
fn kill_switch_states() {
    let mut k = KillSwitchState::new();
    assert!(matches!(k.activate(), Err(KillSwitchError::NotEnabled)));
    k.set_enabled(true);
    k.set_allowed_ports(vec![9050]);
    k.set_allowed_upstream_ips(vec!["1.2.3.4".to_string()]);
    match k.activate() {
        Ok(Activation::Apply { ports, upstream_ips }) => {
            assert_eq!(ports, vec![9050]);
            assert_eq!(upstream_ips, vec!["1.2.3.4".to_string()]);
        }
        other => panic!("unexpected {:?}", other),
    }
    k.confirm_active();
    assert!(k.is_active());
    assert!(matches!(k.activate(), Ok(Activation::AlreadyActive)));
    assert!(k.deactivate());
    k.confirm_inactive();
    assert!(!k.deactivate());
    let c = k.get_config();
    assert!(c.enabled && !c.active);
}

#[test]
fn windows_rules() {
    let cmds = windows_apply_commands(&vec![9050, 9051], &vec!["1.1.1.1".to_string(), "2.2.2.2".to_string()]);
    assert_eq!(cmds.len(), 5);
    assert!(cmds.iter().all(|c| c.program == "netsh"));
    assert_eq!(args(&cmds[0]), vec!["advfirewall", "firewall", "add", "rule", "name=RelayKillSwitch_BlockAll", "dir=out", "action=block", "enable=yes"]);
    assert_eq!(args(&cmds[2])[8], "remoteip=1.1.1.1,2.2.2.2");
    assert_eq!(args(&cmds[4]), vec!["advfirewall", "firewall", "add", "rule", "RelayKillSwitch_AllowProxy_9051", "dir=out", "action=allow", "protocol=tcp", "localport=9051", "enable=yes"]);
    let names = windows_rule_names_of(false, &vec![9050], 0);
    assert_eq!(names, vec!["RelayKillSwitch_AllowLoopback", "RelayKillSwitch_AllowProxy_9050"]);
    let rm = windows_remove_commands(&names);
    assert_eq!(rm.len(), 2);
    assert_eq!(args(&rm[1]), vec!["advfirewall", "firewall", "delete", "rule", "name=RelayKillSwitch_AllowProxy_9050"]);
    assert_eq!(windows_remove_commands(&vec![]).len(), 4);
}

#[test]
fn linux_and_macos_rules() {
    let cmds = linux_apply_commands(&vec![9050], &vec!["1.1.1.1".to_string()]);
    assert_eq!(cmds.len(), 7);
    assert_eq!(args(&cmds[0]), vec!["-N", "RelayKillSwitch"]);
    assert_eq!(args(&cmds[3]), vec!["-A", "RelayKillSwitch", "-p", "tcp", "-d", "1.1.1.1", "-j", "ACCEPT"]);
    assert_eq!(args(&cmds[4]), vec!["-A", "RelayKillSwitch", "-p", "tcp", "--sport", "9050", "-j", "ACCEPT"]);
    assert_eq!(args(&cmds[6]), vec!["-I", "OUTPUT", "-j", "RelayKillSwitch"]);
    assert_eq!(linux_remove_commands().len(), 3);
    assert_eq!(
        pf_rules_text(&vec![9050], &vec!["1.1.1.1".to_string()]),
        "pass out on lo0 all\npass out proto tcp to 1.1.1.1\npass out proto tcp from any port 9050\nblock out all\n"
    );
    let mac = macos_apply_commands("/tmp/rules.conf");
    assert_eq!(args(&mac[0]), vec!["-a", "RelayKillSwitch", "-f", "/tmp/rules.conf"]);
    assert_eq!(args(&macos_remove_commands()[0]), vec!["-a", "RelayKillSwitch", "-F", "all"]);
}

#[test]
fn recorded_windows_rules_are_the_rules_added() {
    let ports = vec![9050, 1080];
    let ips = vec!["1.1.1.1".to_string()];
    let added: Vec<String> = windows_apply_commands(&ports, &ips)
        .iter()
        .map(|c| c.args[4].strip_prefix("name=").unwrap_or(&c.args[4]).to_string())
        .collect();
    let recorded = windows_rule_names_of(true, &ports, ips.len());
    assert_eq!(added, recorded);
    let removed: Vec<String> = windows_remove_commands(&recorded)
        .iter()
        .map(|c| c.args[4].strip_prefix("name=").unwrap().to_string())
        .collect();
    assert_eq!(removed, recorded);
}

#[test]
fn kill_switch_outcomes() {
    let mut k = KillSwitchState::new();
    k.set_enabled(true);
    assert_eq!(k.finish_activation(false), Err(KillSwitchError::ApplyFailed));
    assert!(!k.is_active());
    assert_eq!(k.finish_activation(true), Ok(()));
    assert!(k.is_active());
    assert_eq!(k.finish_deactivation(false), Err(KillSwitchError::RemoveFailed));
    assert!(k.is_active());
    assert!(k.deactivate());
    assert_eq!(k.finish_deactivation(true), Ok(()));
    assert!(!k.is_active());
    assert!(!k.deactivate());
    assert!(k.is_enabled());
}
