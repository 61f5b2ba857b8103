//! The kill switch: when active, the firewall lets out only the traffic of
//! the local proxies and of their upstreams. This module holds its state and
//! the firewall commands for each system.
use vstd::prelude::*;
use crate::proxy_instance::texts;
use crate::text::{cat, decimal, decimal_string, chars_of, string_of, extend_str, push_decimal};

verus! {

broadcast use vstd::string::group_string_axioms;

#[derive(Debug, Clone, Copy, PartialEq, Eq, Structural)]
pub struct KillSwitchConfig {
    pub enabled: bool,
    pub active: bool,
}

impl Default for KillSwitchConfig {
    fn default() -> (c: Self)
        ensures
            !c.enabled && !c.active,
    {
        KillSwitchConfig { enabled: false, active: false }
    }
}

/// Recovery instruction shown when the kill switch may have been left active.
pub const KILLSWITCH_RECOVERY_INSTRUCTION: &'static str = "If Relay was closed while kill-switch was active, run in an elevated Command Prompt (Run as Administrator):\n\nnetsh advfirewall firewall delete rule name=RelayKillSwitch_BlockAll\nnetsh advfirewall firewall delete rule name=RelayKillSwitch_AllowLoopback\nnetsh advfirewall firewall delete rule name=RelayKillSwitch_AllowUpstreamIPs\nfor %p in (1024 9050 9051 9060 9150) do @netsh advfirewall firewall delete rule name=RelayKillSwitch_AllowProxy_%p\n\nOr delete all Relay kill-switch rules at once:\nfor /f %n in ('netsh advfirewall firewall show rule name=all ^| findstr /i RelayKillSwitch') do @netsh advfirewall firewall delete rule name=%n";

/// Prefix of every firewall rule the kill switch makes.
pub const RULE_NAME_PREFIX: &'static str = "RelayKillSwitch";

#[derive(Debug, Clone, Copy, PartialEq, Eq, Structural)]
pub enum KillSwitchError {
    NotEnabled,
    /// The firewall rules could not be put in place.
    ApplyFailed,
    /// The firewall rules could not be removed.
    RemoveFailed,
}

/// The kill switch: enabled in the settings, active while its rules are in
/// place, and what those rules let through.
#[derive(Debug)]
pub struct KillSwitchState {
    pub enabled: bool,
    pub active: bool,
    /// Local ports of the proxy servers.
    pub allowed_ports: Vec<u16>,
    /// Addresses of the upstream proxies.
    pub allowed_upstream_ips: Vec<String>,
}

/// What activating the kill switch requires of the caller.
#[derive(Debug)]
pub enum Activation {
    /// Already active: nothing to do.
    AlreadyActive,
    /// Put rules in place that let through these ports and addresses, then
    /// call [`KillSwitchState::confirm_active`].
    Apply { ports: Vec<u16>, upstream_ips: Vec<String> },
}

impl KillSwitchState {
    pub fn new() -> (s: Self)
        ensures
            !s.enabled && !s.active && s.allowed_ports@.len() == 0 && s.allowed_upstream_ips@.len() == 0,
    {
        KillSwitchState { enabled: false, active: false, allowed_ports: Vec::new(), allowed_upstream_ips: Vec::new() }
    }

    pub fn is_enabled(&self) -> (r: bool)
        ensures
            r == self.enabled,
    {
        self.enabled
    }

    pub fn is_active(&self) -> (r: bool)
        ensures
            r == self.active,
    {
        self.active
    }

    pub fn set_enabled(&mut self, enabled: bool)
        ensures
            *final(self) == (KillSwitchState { enabled, ..*old(self) }),
    {
        self.enabled = enabled;
    }

    pub fn set_allowed_ports(&mut self, ports: Vec<u16>)
        ensures
            *final(self) == (KillSwitchState { allowed_ports: ports, ..*old(self) }),
    {
        self.allowed_ports = ports;
    }

    pub fn set_allowed_upstream_ips(&mut self, ips: Vec<String>)
        ensures
            *final(self) == (KillSwitchState { allowed_upstream_ips: ips, ..*old(self) }),
    {
        self.allowed_upstream_ips = ips;
    }

    pub fn get_config(&self) -> (r: KillSwitchConfig)
        ensures
            r == (KillSwitchConfig { enabled: self.enabled, active: self.active }),
    {
        KillSwitchConfig { enabled: self.enabled, active: self.active }
    }

    /// Activating: refused when the kill switch is not enabled; nothing to
    /// do when it is active; else the rules to put in place.
    pub fn activate(&self) -> (r: Result<Activation, KillSwitchError>)
        ensures
            !self.enabled ==> r == Err::<Activation, KillSwitchError>(KillSwitchError::NotEnabled),
            self.enabled && self.active ==> r matches Ok(Activation::AlreadyActive),
            self.enabled && !self.active ==> (r matches Ok(Activation::Apply { ports, upstream_ips })
                && ports@ == self.allowed_ports@ && texts(upstream_ips@) == texts(self.allowed_upstream_ips@)),
    {
        if !self.enabled {
            return Err(KillSwitchError::NotEnabled);
        }
        if self.active {
            return Ok(Activation::AlreadyActive);
        }
        let ports = self.allowed_ports.clone();
        let mut ips: Vec<String> = Vec::new();
        let mut i: usize = 0;
        while i < self.allowed_upstream_ips.len()
            invariant
                i <= self.allowed_upstream_ips@.len(),
                texts(ips@) == texts(self.allowed_upstream_ips@).take(i as int),
            decreases self.allowed_upstream_ips.len() - i,
        {
            let ghost o = ips@;
            ips.push(self.allowed_upstream_ips[i].clone());
            assert(texts(ips@) =~= texts(o).push(self.allowed_upstream_ips@[i as int]@));
            assert(texts(self.allowed_upstream_ips@).take(i + 1) =~= texts(self.allowed_upstream_ips@).take(i as int).push(self.allowed_upstream_ips@[i as int]@));
            i = i + 1;
        }
        assert(texts(self.allowed_upstream_ips@).take(self.allowed_upstream_ips@.len() as int) =~= texts(self.allowed_upstream_ips@));
        Ok(Activation::Apply { ports, upstream_ips: ips })
    }

    /// The rules are in place.
    pub fn confirm_active(&mut self)
        ensures
            *final(self) == (KillSwitchState { active: true, ..*old(self) }),
    {
        self.active = true;
    }

    /// Deactivating: whether rules have to be removed (the kill switch is active).
    pub fn deactivate(&self) -> (r: bool)
        ensures
            r == self.active,
    {
        self.active
    }

    /// The outcome of putting an activation's rules in place: the switch is
    /// active when they were applied; when they were not, it stays as it was
    /// and the failure is reported.
    pub fn finish_activation(&mut self, applied: bool) -> (r: Result<(), KillSwitchError>)
        ensures
            applied ==> *final(self) == (KillSwitchState { active: true, ..*old(self) }) && r is Ok,
            !applied ==> *final(self) == *old(self) && r == Err::<(), KillSwitchError>(KillSwitchError::ApplyFailed),
    {
        if applied {
            self.active = true;
            Ok(())
        } else {
            Err(KillSwitchError::ApplyFailed)
        }
    }

    /// The outcome of removing the rules: the switch is inactive when they
    /// were removed; when they were not, it stays active and the failure is
    /// reported.
    pub fn finish_deactivation(&mut self, removed: bool) -> (r: Result<(), KillSwitchError>)
        ensures
            removed ==> *final(self) == (KillSwitchState { active: false, ..*old(self) }) && r is Ok,
            old(self).active ==> *final(self) == deactivated(*old(self), removed),
            !removed ==> *final(self) == *old(self) && r == Err::<(), KillSwitchError>(KillSwitchError::RemoveFailed),
    {
        if removed {
            self.active = false;
            Ok(())
        } else {
            Err(KillSwitchError::RemoveFailed)
        }
    }

    /// The rules were removed.
    pub fn confirm_inactive(&mut self)
        ensures
            *final(self) == (KillSwitchState { active: false, ..*old(self) }),
    {
        self.active = false;
    }
}

/// The switch after a deactivation: an active switch whose rules were
/// removed is inactive; otherwise it is as it was (an inactive switch asks
/// for no removal, see [`KillSwitchState::deactivate`]).
pub open spec fn deactivated(s: KillSwitchState, removed: bool) -> KillSwitchState {
    if s.active && removed {
        KillSwitchState { active: false, ..s }
    } else {
        s
    }
}

/// Deactivating twice has the effect of deactivating once: after a removal
/// that succeeded, a second deactivation asks for nothing and changes
/// nothing, whatever its removal would give; a failed removal leaves the
/// switch active, so the next deactivation tries again. The setting and the
/// allowances never change.
pub proof fn lemma_deactivation_settles(s: KillSwitchState, again: bool, removed: bool)
    ensures
        !deactivated(s, true).active,
        deactivated(deactivated(s, true), again) == deactivated(s, true),
        !removed ==> deactivated(s, removed) == s,
        deactivated(s, removed).enabled == s.enabled,
        deactivated(s, removed).allowed_ports == s.allowed_ports,
        deactivated(s, removed).allowed_upstream_ips == s.allowed_upstream_ips,
        !s.active ==> deactivated(s, removed) == s,
{
}

// ---------------------------------------------------------------------------
// Firewall commands
// ---------------------------------------------------------------------------

/// A program with its arguments.
#[derive(Debug)]
pub struct Command {
    pub program: String,
    pub args: Vec<String>,
}

pub type CommandText = (Seq<char>, Seq<Seq<char>>);

/// The text of a command: the program and its arguments.
pub open spec fn command_text(c: Command) -> CommandText {
    (c.program@, texts(c.args@))
}

pub open spec fn commands_text(v: Seq<Command>) -> Seq<CommandText> {
    v.map_values(|c: Command| command_text(c))
}

fn push_command(out: &mut Vec<Command>, program: &str, args: Vec<String>)
    ensures
        commands_text(final(out)@) == commands_text(old(out)@).push((program@, texts(args@))),
{
    let ghost o = out@;
    let ghost a = args@;
    out.push(Command { program: String::from_str(program), args });
    assert(commands_text(out@) =~= commands_text(o).push((program@, texts(a))));
}

fn s(lit: &str) -> (r: String)
    ensures
        r@ == lit@,
{
    String::from_str(lit)
}

/// `RelayKillSwitch_<suffix>`.
pub open spec fn rule_name(suffix: Seq<char>) -> Seq<char> {
    RULE_NAME_PREFIX@ + "_"@ + suffix
}

pub open spec fn proxy_rule(port: u16) -> Seq<char> {
    rule_name("AllowProxy_"@ + decimal(port as nat))
}

fn rule_name_of(suffix: &str) -> (r: String)
    ensures
        r@ == rule_name(suffix@),
{
    cat(cat(RULE_NAME_PREFIX, "_").as_str(), suffix)
}

fn proxy_rule_of(port: u16) -> (r: String)
    ensures
        r@ == proxy_rule(port),
{
    rule_name_of(cat("AllowProxy_", decimal_string(port as u64).as_str()).as_str())
}

/// The texts joined with commas.
pub open spec fn comma_joined(v: Seq<Seq<char>>) -> Seq<char>
    decreases v.len(),
{
    if v.len() == 0 {
        Seq::empty()
    } else if v.len() == 1 {
        v[0]
    } else {
        comma_joined(v.drop_last()) + ","@ + v.last()
    }
}

fn comma_join(v: &Vec<String>) -> (r: String)
    ensures
        r@ == comma_joined(texts(v@)),
{
    let mut out: Vec<char> = Vec::new();
    let mut i: usize = 0;
    while i < v.len()
        invariant
            i <= v@.len(),
            out@ == comma_joined(texts(v@).take(i as int)),
        decreases v.len() - i,
    {
        assert(texts(v@).take(i + 1).drop_last() =~= texts(v@).take(i as int));
        let ghost before = out@;
        if i > 0 {
            out.push(',');
        }
        extend_str(&mut out, v[i].as_str());
        proof {
            reveal_strlit(",");
            if i > 0 {
                assert(out@ =~= before + ","@ + v@[i as int]@);
            } else {
                assert(out@ =~= v@[0]@);
            }
        }
        i = i + 1;
    }
    assert(texts(v@).take(v@.len() as int) =~= texts(v@));
    string_of(&out)
}

// Windows (netsh)

pub open spec fn netsh_add(rest: Seq<Seq<char>>) -> CommandText {
    ("netsh"@, seq!["advfirewall"@, "firewall"@, "add"@, "rule"@] + rest)
}

pub open spec fn windows_port_rules(ports: Seq<u16>) -> Seq<CommandText>
    decreases ports.len(),
{
    if ports.len() == 0 {
        Seq::empty()
    } else {
        let p = ports.last();
        windows_port_rules(ports.drop_last()).push(netsh_add(
            seq![proxy_rule(p), "dir=out"@, "action=allow"@, "protocol=tcp"@, "localport="@ + decimal(p as nat), "enable=yes"@],
        ))
    }
}

/// The `netsh` commands that put the Windows rules in place: block all
/// outbound traffic, then allow loopback, the upstream addresses over TCP
/// and each proxy port.
pub open spec fn windows_apply(ports: Seq<u16>, ips: Seq<Seq<char>>) -> Seq<CommandText> {
    let block = netsh_add(seq!["name="@ + rule_name("BlockAll"@), "dir=out"@, "action=block"@, "enable=yes"@]);
    let loopback = netsh_add(seq![rule_name("AllowLoopback"@), "dir=out"@, "action=allow"@, "remoteip=127.0.0.1,::1"@, "enable=yes"@]);
    let upstream = if ips.len() > 0 {
        seq![netsh_add(seq![rule_name("AllowUpstreamIPs"@), "dir=out"@, "action=allow"@, "protocol=tcp"@, "remoteip="@ + comma_joined(ips), "enable=yes"@])]
    } else {
        Seq::empty()
    };
    seq![block, loopback] + upstream + windows_port_rules(ports)
}

fn netsh_add_command(out: &mut Vec<Command>, rest: Vec<String>)
    ensures
        commands_text(final(out)@) == commands_text(old(out)@).push(netsh_add(texts(rest@))),
{
    let mut args = vec![s("advfirewall"), s("firewall"), s("add"), s("rule")];
    let ghost head = args@;
    let mut rest = rest;
    let ghost rv = rest@;
    args.append(&mut rest);
    assert(texts(args@) =~= seq!["advfirewall"@, "firewall"@, "add"@, "rule"@] + texts(rv));
    push_command(out, "netsh", args);
}

/// The Windows commands putting the kill-switch rules in place.
pub fn windows_apply_commands(ports: &Vec<u16>, ips: &Vec<String>) -> (r: Vec<Command>)
    ensures
        commands_text(r@) == windows_apply(ports@, texts(ips@)),
{
    let mut out: Vec<Command> = Vec::new();
    let a = vec![cat("name=", rule_name_of("BlockAll").as_str()), s("dir=out"), s("action=block"), s("enable=yes")];
    assert(texts(a@) =~= seq!["name="@ + rule_name("BlockAll"@), "dir=out"@, "action=block"@, "enable=yes"@]);
    netsh_add_command(&mut out, a);
    let b = vec![rule_name_of("AllowLoopback"), s("dir=out"), s("action=allow"), s("remoteip=127.0.0.1,::1"), s("enable=yes")];
    assert(texts(b@) =~= seq![rule_name("AllowLoopback"@), "dir=out"@, "action=allow"@, "remoteip=127.0.0.1,::1"@, "enable=yes"@]);
    netsh_add_command(&mut out, b);
    if ips.len() > 0 {
        let c = vec![
            rule_name_of("AllowUpstreamIPs"),
            s("dir=out"),
            s("action=allow"),
            s("protocol=tcp"),
            cat("remoteip=", comma_join(ips).as_str()),
            s("enable=yes"),
        ];
        assert(texts(c@) =~= seq![rule_name("AllowUpstreamIPs"@), "dir=out"@, "action=allow"@, "protocol=tcp"@, "remoteip="@ + comma_joined(texts(ips@)), "enable=yes"@]);
        netsh_add_command(&mut out, c);
    }
    let ghost base = commands_text(out@);
    let mut i: usize = 0;
    while i < ports.len()
        invariant
            i <= ports@.len(),
            commands_text(out@) == base + windows_port_rules(ports@.take(i as int)),
        decreases ports.len() - i,
    {
        let p = ports[i];
        let d = vec![proxy_rule_of(p), s("dir=out"), s("action=allow"), s("protocol=tcp"), cat("localport=", decimal_string(p as u64).as_str()), s("enable=yes")];
        assert(texts(d@) =~= seq![proxy_rule(p), "dir=out"@, "action=allow"@, "protocol=tcp"@, "localport="@ + decimal(p as nat), "enable=yes"@]);
        netsh_add_command(&mut out, d);
        assert(ports@.take(i + 1).drop_last() =~= ports@.take(i as int));
        i = i + 1;
    }
    assert(ports@.take(ports@.len() as int) =~= ports@);
    out
}

pub open spec fn port_rule_names(ports: Seq<u16>) -> Seq<Seq<char>>
    decreases ports.len(),
{
    if ports.len() == 0 {
        Seq::empty()
    } else {
        port_rule_names(ports.drop_last()).push(proxy_rule(ports.last()))
    }
}

/// The rule names recorded after the Windows rules were added: the block
/// rule when adding it succeeded, then the others.
pub open spec fn windows_rule_names(block_added: bool, ports: Seq<u16>, ips: Seq<Seq<char>>) -> Seq<Seq<char>> {
    (if block_added { seq![rule_name("BlockAll"@)] } else { Seq::empty() }) + seq![rule_name("AllowLoopback"@)]
        + (if ips.len() > 0 { seq![rule_name("AllowUpstreamIPs"@)] } else { Seq::empty() })
        + port_rule_names(ports)
}

/// The names of the Windows rules to record for a later removal.
pub fn windows_rule_names_of(block_added: bool, ports: &Vec<u16>, upstream_ips: usize) -> (r: Vec<String>)
    ensures
        texts(r@) == windows_rule_names(block_added, ports@, if upstream_ips > 0 { seq![Seq::empty()] } else { Seq::empty() }),
{
    let mut r: Vec<String> = Vec::new();
    if block_added {
        r.push(rule_name_of("BlockAll"));
    }
    r.push(rule_name_of("AllowLoopback"));
    if upstream_ips > 0 {
        r.push(rule_name_of("AllowUpstreamIPs"));
    }
    let ghost base = texts(r@);
    assert(base =~= (if block_added { seq![rule_name("BlockAll"@)] } else { Seq::empty() }) + seq![rule_name("AllowLoopback"@)]
        + (if upstream_ips > 0 { seq![rule_name("AllowUpstreamIPs"@)] } else { Seq::empty() }));
    let mut i: usize = 0;
    while i < ports.len()
        invariant
            i <= ports@.len(),
            texts(r@) == base + port_rule_names(ports@.take(i as int)),
        decreases ports.len() - i,
    {
        let ghost o = r@;
        r.push(proxy_rule_of(ports[i]));
        assert(texts(r@) =~= texts(o).push(proxy_rule(ports@[i as int])));
        assert(ports@.take(i + 1).drop_last() =~= ports@.take(i as int));
        i = i + 1;
    }
    assert(ports@.take(ports@.len() as int) =~= ports@);
    r
}

pub open spec fn netsh_delete(name: Seq<char>) -> CommandText {
    ("netsh"@, seq!["advfirewall"@, "firewall"@, "delete"@, "rule"@, "name="@ + name])
}

pub open spec fn delete_named(names: Seq<Seq<char>>) -> Seq<CommandText>
    decreases names.len(),
{
    if names.len() == 0 {
        Seq::empty()
    } else {
        delete_named(names.drop_last()).push(netsh_delete(names.last()))
    }
}

/// The `netsh` commands removing the Windows rules: those recorded, or,
/// with no record, the known names and every proxy rule.
pub open spec fn windows_remove(recorded: Seq<Seq<char>>) -> Seq<CommandText> {
    if recorded.len() == 0 {
        seq![
            netsh_delete(rule_name("BlockAll"@)),
            netsh_delete(rule_name("AllowLoopback"@)),
            netsh_delete(rule_name("AllowUpstreamIPs"@)),
            netsh_delete(rule_name("AllowProxy_*"@)),
        ]
    } else {
        delete_named(recorded)
    }
}

fn netsh_delete_command(out: &mut Vec<Command>, name: &str)
    ensures
        commands_text(final(out)@) == commands_text(old(out)@).push(netsh_delete(name@)),
{
    let args = vec![s("advfirewall"), s("firewall"), s("delete"), s("rule"), cat("name=", name)];
    assert(texts(args@) =~= seq!["advfirewall"@, "firewall"@, "delete"@, "rule"@, "name="@ + name@]);
    push_command(out, "netsh", args);
}

/// The Windows commands removing the kill-switch rules.
pub fn windows_remove_commands(recorded: &Vec<String>) -> (r: Vec<Command>)
    ensures
        commands_text(r@) == windows_remove(texts(recorded@)),
{
    let mut out: Vec<Command> = Vec::new();
    if recorded.len() == 0 {
        netsh_delete_command(&mut out, rule_name_of("BlockAll").as_str());
        netsh_delete_command(&mut out, rule_name_of("AllowLoopback").as_str());
        netsh_delete_command(&mut out, rule_name_of("AllowUpstreamIPs").as_str());
        netsh_delete_command(&mut out, rule_name_of("AllowProxy_*").as_str());
        assert(commands_text(out@) =~= windows_remove(texts(recorded@)));
        return out;
    }
    let mut i: usize = 0;
    assert(commands_text(out@) =~= delete_named(texts(recorded@).take(0)));
    while i < recorded.len()
        invariant
            i <= recorded@.len(),
            commands_text(out@) == delete_named(texts(recorded@).take(i as int)),
        decreases recorded.len() - i,
    {
        netsh_delete_command(&mut out, recorded[i].as_str());
        assert(texts(recorded@).take(i + 1).drop_last() =~= texts(recorded@).take(i as int));
        i = i + 1;
    }
    assert(texts(recorded@).take(recorded@.len() as int) =~= texts(recorded@));
    out
}

/// The name of the rule a `netsh ... add rule` command adds: its fifth
/// argument, without a `name=` prefix.
pub open spec fn added_rule_name(c: CommandText) -> Seq<char> {
    let a = c.1[4];
    if "name="@.is_prefix_of(a) {
        a.skip(5)
    } else {
        a
    }
}

/// The names of the rules a list of `netsh` commands adds, in order.
pub open spec fn added_rule_names(cs: Seq<CommandText>) -> Seq<Seq<char>> {
    cs.map_values(|c: CommandText| added_rule_name(c))
}

proof fn lemma_not_name_prefix(n: Seq<char>)
    requires
        n.len() > 0,
        n[0] == 'R',
    ensures
        !"name="@.is_prefix_of(n),
{
    reveal_strlit("name=");
    if "name="@.is_prefix_of(n) {
        assert(n.subrange(0, 5)[0] == n[0]);
    }
}

proof fn lemma_port_rule_names(ports: Seq<u16>)
    ensures
        added_rule_names(windows_port_rules(ports)) == port_rule_names(ports),
    decreases ports.len(),
{
    reveal_strlit("name=");
    reveal_strlit("RelayKillSwitch");
    if ports.len() > 0 {
        lemma_port_rule_names(ports.drop_last());
        let n = proxy_rule(ports.last());
        assert(n[0] == 'R');
        lemma_not_name_prefix(n);
        assert(added_rule_names(windows_port_rules(ports)) =~= added_rule_names(
            windows_port_rules(ports.drop_last()),
        ).push(n));
    } else {
        assert(added_rule_names(windows_port_rules(ports)) =~= Seq::<Seq<char>>::empty());
    }
}

/// The kill switch records, after adding its Windows rules, exactly the
/// names of the rules it added, in order; removing by that record deletes
/// each of them and nothing else.
pub proof fn lemma_windows_record_matches_rules(ports: Seq<u16>, ips: Seq<Seq<char>>)
    ensures
        added_rule_names(windows_apply(ports, ips)) == windows_rule_names(true, ports, ips),
        windows_remove(windows_rule_names(true, ports, ips)) == added_rule_names(windows_apply(ports, ips)).map_values(
            |n: Seq<char>| netsh_delete(n),
        ),
{
    reveal_strlit("name=");
    reveal_strlit("RelayKillSwitch");
    reveal_strlit("_");
    let block = rule_name("BlockAll"@);
    let lo = rule_name("AllowLoopback"@);
    let up = rule_name("AllowUpstreamIPs"@);
    assert(("name="@ + block).skip(5) =~= block);
    assert("name="@.is_prefix_of("name="@ + block));
    assert(lo[0] == 'R');
    assert(up[0] == 'R');
    lemma_not_name_prefix(lo);
    lemma_not_name_prefix(up);
    lemma_port_rule_names(ports);
    let head = if ips.len() > 0 { seq![block, lo, up] } else { seq![block, lo] };
    let cmds = windows_apply(ports, ips);
    let names = windows_rule_names(true, ports, ips);
    assert(names =~= head + port_rule_names(ports));
    assert(added_rule_names(cmds) =~= head + added_rule_names(windows_port_rules(ports)));
    lemma_delete_named_map(names);
    assert(names.len() > 0);
}

proof fn lemma_delete_named_map(names: Seq<Seq<char>>)
    ensures
        delete_named(names) == names.map_values(|n: Seq<char>| netsh_delete(n)),
    decreases names.len(),
{
    if names.len() > 0 {
        lemma_delete_named_map(names.drop_last());
        assert(names.map_values(|n: Seq<char>| netsh_delete(n)) =~= names.drop_last().map_values(
            |n: Seq<char>| netsh_delete(n),
        ).push(netsh_delete(names.last())));
    } else {
        assert(names.map_values(|n: Seq<char>| netsh_delete(n)) =~= Seq::<CommandText>::empty());
    }
}

// Linux (iptables)

pub open spec fn iptables(args: Seq<Seq<char>>) -> CommandText {
    ("iptables"@, args)
}

pub open spec fn linux_ip_rules(ips: Seq<Seq<char>>) -> Seq<CommandText>
    decreases ips.len(),
{
    if ips.len() == 0 {
        Seq::empty()
    } else {
        linux_ip_rules(ips.drop_last()).push(iptables(seq!["-A"@, RULE_NAME_PREFIX@, "-p"@, "tcp"@, "-d"@, ips.last(), "-j"@, "ACCEPT"@]))
    }
}

pub open spec fn linux_port_rules(ports: Seq<u16>) -> Seq<CommandText>
    decreases ports.len(),
{
    if ports.len() == 0 {
        Seq::empty()
    } else {
        linux_port_rules(ports.drop_last()).push(iptables(seq!["-A"@, RULE_NAME_PREFIX@, "-p"@, "tcp"@, "--sport"@, decimal(ports.last() as nat), "-j"@, "ACCEPT"@]))
    }
}

/// The `iptables` commands: a chain that accepts loopback, established
/// connections, the upstream addresses and the proxy ports and drops the
/// rest, hooked first into OUTPUT.
pub open spec fn linux_apply(ports: Seq<u16>, ips: Seq<Seq<char>>) -> Seq<CommandText> {
    seq![
        iptables(seq!["-N"@, RULE_NAME_PREFIX@]),
        iptables(seq!["-A"@, RULE_NAME_PREFIX@, "-o"@, "lo"@, "-j"@, "ACCEPT"@]),
        iptables(seq!["-A"@, RULE_NAME_PREFIX@, "-m"@, "state"@, "--state"@, "ESTABLISHED,RELATED"@, "-j"@, "ACCEPT"@]),
    ] + linux_ip_rules(ips) + linux_port_rules(ports) + seq![
        iptables(seq!["-A"@, RULE_NAME_PREFIX@, "-j"@, "DROP"@]),
        iptables(seq!["-I"@, "OUTPUT"@, "-j"@, RULE_NAME_PREFIX@]),
    ]
}

/// An `iptables` rule appended to the kill switch's chain that accepts.
pub open spec fn appends_accept(c: CommandText) -> bool {
    &&& c.0 == "iptables"@
    &&& c.1.len() >= 4
    &&& c.1[0] == "-A"@
    &&& c.1[1] == "RelayKillSwitch"@
    &&& c.1[c.1.len() - 2] == "-j"@
    &&& c.1[c.1.len() - 1] == "ACCEPT"@
}

proof fn lemma_ip_rules_accept(ips: Seq<Seq<char>>)
    ensures
        linux_ip_rules(ips).len() == ips.len(),
        forall|k: int| 0 <= k < ips.len() ==> appends_accept(#[trigger] linux_ip_rules(ips)[k]),
    decreases ips.len(),
{
    reveal_strlit("RelayKillSwitch");
    if ips.len() > 0 {
        lemma_ip_rules_accept(ips.drop_last());
    }
}

proof fn lemma_port_rules_accept(ports: Seq<u16>)
    ensures
        linux_port_rules(ports).len() == ports.len(),
        forall|k: int| 0 <= k < ports.len() ==> appends_accept(#[trigger] linux_port_rules(ports)[k]),
    decreases ports.len(),
{
    reveal_strlit("RelayKillSwitch");
    if ports.len() > 0 {
        lemma_port_rules_accept(ports.drop_last());
    }
}

proof fn lemma_ip_rules_at(ips: Seq<Seq<char>>)
    ensures
        linux_ip_rules(ips).len() == ips.len(),
        forall|i: int| 0 <= i < ips.len() ==> #[trigger] linux_ip_rules(ips)[i] == iptables(seq![
            "-A"@, RULE_NAME_PREFIX@, "-p"@, "tcp"@, "-d"@, ips[i], "-j"@, "ACCEPT"@]),
    decreases ips.len(),
{
    if ips.len() > 0 {
        lemma_ip_rules_at(ips.drop_last());
        assert forall|i: int| 0 <= i < ips.len() - 1 implies ips.drop_last()[i] == ips[i] by {}
    }
}

proof fn lemma_port_rules_at(ports: Seq<u16>)
    ensures
        linux_port_rules(ports).len() == ports.len(),
        forall|j: int| 0 <= j < ports.len() ==> #[trigger] linux_port_rules(ports)[j] == iptables(seq![
            "-A"@, RULE_NAME_PREFIX@, "-p"@, "tcp"@, "--sport"@, decimal(ports[j] as nat), "-j"@, "ACCEPT"@]),
    decreases ports.len(),
{
    if ports.len() > 0 {
        lemma_port_rules_at(ports.drop_last());
        assert forall|j: int| 0 <= j < ports.len() - 1 implies ports.drop_last()[j] == ports[j] by {}
    }
}

/// The Linux kill switch blocks what it does not allow: its chain is
/// created first, every rule appended to it before the last accepts
/// (loopback, established connections, the upstream addresses, the proxy
/// ports), the last rule appended drops everything else, and the chain is
/// then hooked into OUTPUT.
pub proof fn lemma_linux_chain_ends_in_drop(ports: Seq<u16>, ips: Seq<Seq<char>>)
    ensures
        linux_apply(ports, ips).len() == ips.len() + ports.len() + 5,
        linux_apply(ports, ips)[0] == ("iptables"@, seq!["-N"@, "RelayKillSwitch"@]),
        forall|k: int| 1 <= k < ips.len() + ports.len() + 3 ==> appends_accept(#[trigger] linux_apply(ports, ips)[k]),
        linux_apply(ports, ips)[(ips.len() + ports.len() + 3) as int] == ("iptables"@, seq!["-A"@, "RelayKillSwitch"@, "-j"@, "DROP"@]),
        linux_apply(ports, ips)[(ips.len() + ports.len() + 4) as int] == ("iptables"@, seq!["-I"@, "OUTPUT"@, "-j"@, "RelayKillSwitch"@]),
        linux_apply(ports, ips)[1] == ("iptables"@, seq!["-A"@, "RelayKillSwitch"@, "-o"@, "lo"@, "-j"@, "ACCEPT"@]),
        forall|i: int| 0 <= i < ips.len() ==> #[trigger] linux_apply(ports, ips)[3 + i] == ("iptables"@, seq![
            "-A"@, "RelayKillSwitch"@, "-p"@, "tcp"@, "-d"@, ips[i], "-j"@, "ACCEPT"@]),
        forall|j: int| 0 <= j < ports.len() ==> #[trigger] linux_apply(ports, ips)[3 + ips.len() + j] == ("iptables"@, seq![
            "-A"@, "RelayKillSwitch"@, "-p"@, "tcp"@, "--sport"@, decimal(ports[j] as nat), "-j"@, "ACCEPT"@]),
{
    reveal_strlit("RelayKillSwitch");
    lemma_ip_rules_accept(ips);
    lemma_port_rules_accept(ports);
    let c = linux_apply(ports, ips);
    let a = linux_ip_rules(ips);
    let b = linux_port_rules(ports);
    let head = seq![
        iptables(seq!["-N"@, RULE_NAME_PREFIX@]),
        iptables(seq!["-A"@, RULE_NAME_PREFIX@, "-o"@, "lo"@, "-j"@, "ACCEPT"@]),
        iptables(seq!["-A"@, RULE_NAME_PREFIX@, "-m"@, "state"@, "--state"@, "ESTABLISHED,RELATED"@, "-j"@, "ACCEPT"@]),
    ];
    assert(c.len() == ips.len() + ports.len() + 5);
    lemma_ip_rules_at(ips);
    lemma_port_rules_at(ports);
    assert forall|i: int| 0 <= i < ips.len() implies #[trigger] c[3 + i] == a[i] by {}
    assert forall|j: int| 0 <= j < ports.len() implies #[trigger] c[3 + ips.len() + j] == b[j] by {}
    assert forall|k: int| 1 <= k < ips.len() + ports.len() + 3 implies appends_accept(#[trigger] c[k]) by {
        if k < 3 {
            assert(c[k] == head[k]);
        } else if k < 3 + ips.len() {
            assert(c[k] == a[k - 3]);
        } else {
            assert(c[k] == b[k - 3 - ips.len()]);
        }
    }
}

pub fn linux_apply_commands(ports: &Vec<u16>, ips: &Vec<String>) -> (r: Vec<Command>)
    ensures
        commands_text(r@) == linux_apply(ports@, texts(ips@)),
{
    let mut out: Vec<Command> = Vec::new();
    let args1 = vec![s("-N"), s(RULE_NAME_PREFIX)];
    assert(texts(args1@) =~= seq!["-N"@, RULE_NAME_PREFIX@]);
    push_command(&mut out, "iptables", args1);
    let args2 = vec![s("-A"), s(RULE_NAME_PREFIX), s("-o"), s("lo"), s("-j"), s("ACCEPT")];
    assert(texts(args2@) =~= seq!["-A"@, RULE_NAME_PREFIX@, "-o"@, "lo"@, "-j"@, "ACCEPT"@]);
    push_command(&mut out, "iptables", args2);
    let args3 = vec![s("-A"), s(RULE_NAME_PREFIX), s("-m"), s("state"), s("--state"), s("ESTABLISHED,RELATED"), s("-j"), s("ACCEPT")];
    assert(texts(args3@) =~= seq!["-A"@, RULE_NAME_PREFIX@, "-m"@, "state"@, "--state"@, "ESTABLISHED,RELATED"@, "-j"@, "ACCEPT"@]);
    push_command(&mut out, "iptables", args3);
    let ghost head = commands_text(out@);
    assert(head =~= seq![
        iptables(seq!["-N"@, RULE_NAME_PREFIX@]),
        iptables(seq!["-A"@, RULE_NAME_PREFIX@, "-o"@, "lo"@, "-j"@, "ACCEPT"@]),
        iptables(seq!["-A"@, RULE_NAME_PREFIX@, "-m"@, "state"@, "--state"@, "ESTABLISHED,RELATED"@, "-j"@, "ACCEPT"@]),
    ]);
    let mut i: usize = 0;
    assert(texts(ips@).take(0) =~= Seq::<Seq<char>>::empty());
    while i < ips.len()
        invariant
            i <= ips@.len(),
            commands_text(out@) == head + linux_ip_rules(texts(ips@).take(i as int)),
        decreases ips.len() - i,
    {
        let a = vec![s("-A"), s(RULE_NAME_PREFIX), s("-p"), s("tcp"), s("-d"), ips[i].clone(), s("-j"), s("ACCEPT")];
        assert(texts(a@) =~= seq!["-A"@, RULE_NAME_PREFIX@, "-p"@, "tcp"@, "-d"@, ips@[i as int]@, "-j"@, "ACCEPT"@]);
        push_command(&mut out, "iptables", a);
        assert(texts(ips@).take(i + 1).drop_last() =~= texts(ips@).take(i as int));
        assert(texts(ips@).take(i + 1).last() == ips@[i as int]@);
        i = i + 1;
    }
    assert(texts(ips@).take(ips@.len() as int) =~= texts(ips@));
    let ghost mid = commands_text(out@);
    let mut j: usize = 0;
    while j < ports.len()
        invariant
            j <= ports@.len(),
            commands_text(out@) == mid + linux_port_rules(ports@.take(j as int)),
        decreases ports.len() - j,
    {
        let a = vec![s("-A"), s(RULE_NAME_PREFIX), s("-p"), s("tcp"), s("--sport"), decimal_string(ports[j] as u64), s("-j"), s("ACCEPT")];
        assert(texts(a@) =~= seq!["-A"@, RULE_NAME_PREFIX@, "-p"@, "tcp"@, "--sport"@, decimal(ports@[j as int] as nat), "-j"@, "ACCEPT"@]);
        push_command(&mut out, "iptables", a);
        assert(ports@.take(j + 1).drop_last() =~= ports@.take(j as int));
        j = j + 1;
    }
    assert(ports@.take(ports@.len() as int) =~= ports@);
    let args4 = vec![s("-A"), s(RULE_NAME_PREFIX), s("-j"), s("DROP")];
    assert(texts(args4@) =~= seq!["-A"@, RULE_NAME_PREFIX@, "-j"@, "DROP"@]);
    push_command(&mut out, "iptables", args4);
    let args5 = vec![s("-I"), s("OUTPUT"), s("-j"), s(RULE_NAME_PREFIX)];
    assert(texts(args5@) =~= seq!["-I"@, "OUTPUT"@, "-j"@, RULE_NAME_PREFIX@]);
    push_command(&mut out, "iptables", args5);
    assert(commands_text(out@) =~= linux_apply(ports@, texts(ips@)));
    out
}

/// The `iptables` commands removing the chain: unhook, flush, delete.
pub open spec fn linux_remove() -> Seq<CommandText> {
    seq![
        iptables(seq!["-D"@, "OUTPUT"@, "-j"@, RULE_NAME_PREFIX@]),
        iptables(seq!["-F"@, RULE_NAME_PREFIX@]),
        iptables(seq!["-X"@, RULE_NAME_PREFIX@]),
    ]
}

pub fn linux_remove_commands() -> (r: Vec<Command>)
    ensures
        commands_text(r@) == linux_remove(),
{
    let mut out: Vec<Command> = Vec::new();
    let args6 = vec![s("-D"), s("OUTPUT"), s("-j"), s(RULE_NAME_PREFIX)];
    assert(texts(args6@) =~= seq!["-D"@, "OUTPUT"@, "-j"@, RULE_NAME_PREFIX@]);
    push_command(&mut out, "iptables", args6);
    let args7 = vec![s("-F"), s(RULE_NAME_PREFIX)];
    assert(texts(args7@) =~= seq!["-F"@, RULE_NAME_PREFIX@]);
    push_command(&mut out, "iptables", args7);
    let args8 = vec![s("-X"), s(RULE_NAME_PREFIX)];
    assert(texts(args8@) =~= seq!["-X"@, RULE_NAME_PREFIX@]);
    push_command(&mut out, "iptables", args8);
    assert(commands_text(out@) =~= linux_remove());
    out
}

// macOS (pf)

pub open spec fn pf_ip_lines(ips: Seq<Seq<char>>) -> Seq<char>
    decreases ips.len(),
{
    if ips.len() == 0 {
        Seq::empty()
    } else {
        pf_ip_lines(ips.drop_last()) + "pass out proto tcp to "@ + ips.last() + "\n"@
    }
}

pub open spec fn pf_port_lines(ports: Seq<u16>) -> Seq<char>
    decreases ports.len(),
{
    if ports.len() == 0 {
        Seq::empty()
    } else {
        pf_port_lines(ports.drop_last()) + "pass out proto tcp from any port "@ + decimal(ports.last() as nat) + "\n"@
    }
}

/// The pf anchor rules: pass loopback, the upstream addresses and the proxy
/// ports; block the rest.
pub open spec fn pf_rules(ports: Seq<u16>, ips: Seq<Seq<char>>) -> Seq<char> {
    "pass out on lo0 all\n"@ + pf_ip_lines(ips) + pf_port_lines(ports) + "block out all\n"@
}

pub fn pf_rules_text(ports: &Vec<u16>, ips: &Vec<String>) -> (r: String)
    ensures
        r@ == pf_rules(ports@, texts(ips@)),
{
    let mut out = chars_of("pass out on lo0 all\n");
    let ghost head = out@;
    let mut i: usize = 0;
    assert(texts(ips@).take(0) =~= Seq::<Seq<char>>::empty());
    assert(out@ =~= head + pf_ip_lines(texts(ips@).take(0)));
    while i < ips.len()
        invariant
            i <= ips@.len(),
            out@ == head + pf_ip_lines(texts(ips@).take(i as int)),
        decreases ips.len() - i,
    {
        let ghost o = out@;
        extend_str(&mut out, "pass out proto tcp to ");
        extend_str(&mut out, ips[i].as_str());
        extend_str(&mut out, "\n");
        assert(texts(ips@).take(i + 1).drop_last() =~= texts(ips@).take(i as int));
        assert(texts(ips@).take(i + 1).last() == ips@[i as int]@);
        assert(out@ =~= o + "pass out proto tcp to "@ + ips@[i as int]@ + "\n"@);
        i = i + 1;
    }
    assert(texts(ips@).take(ips@.len() as int) =~= texts(ips@));
    let ghost mid = out@;
    let mut j: usize = 0;
    assert(out@ =~= mid + pf_port_lines(ports@.take(0)));
    while j < ports.len()
        invariant
            j <= ports@.len(),
            out@ == mid + pf_port_lines(ports@.take(j as int)),
        decreases ports.len() - j,
    {
        let ghost o = out@;
        extend_str(&mut out, "pass out proto tcp from any port ");
        push_decimal(&mut out, ports[j] as u64);
        extend_str(&mut out, "\n");
        assert(ports@.take(j + 1).drop_last() =~= ports@.take(j as int));
        assert(out@ =~= o + "pass out proto tcp from any port "@ + decimal(ports@[j as int] as nat) + "\n"@);
        j = j + 1;
    }
    assert(ports@.take(ports@.len() as int) =~= ports@);
    extend_str(&mut out, "block out all\n");
    string_of(&out)
}

/// The `pfctl` commands loading the anchor from `rules_path` and enabling pf.
pub open spec fn macos_apply(rules_path: Seq<char>) -> Seq<CommandText> {
    seq![("pfctl"@, seq!["-a"@, RULE_NAME_PREFIX@, "-f"@, rules_path]), ("pfctl"@, seq!["-e"@])]
}

pub fn macos_apply_commands(rules_path: &str) -> (r: Vec<Command>)
    ensures
        commands_text(r@) == macos_apply(rules_path@),
{
    let mut out: Vec<Command> = Vec::new();
    let args9 = vec![s("-a"), s(RULE_NAME_PREFIX), s("-f"), s(rules_path)];
    assert(texts(args9@) =~= seq!["-a"@, RULE_NAME_PREFIX@, "-f"@, rules_path@]);
    push_command(&mut out, "pfctl", args9);
    let args10 = vec![s("-e")];
    assert(texts(args10@) =~= seq!["-e"@]);
    push_command(&mut out, "pfctl", args10);
    assert(commands_text(out@) =~= macos_apply(rules_path@));
    out
}

/// The `pfctl` command flushing the anchor.
pub open spec fn macos_remove() -> Seq<CommandText> {
    seq![("pfctl"@, seq!["-a"@, RULE_NAME_PREFIX@, "-F"@, "all"@])]
}

pub fn macos_remove_commands() -> (r: Vec<Command>)
    ensures
        commands_text(r@) == macos_remove(),
{
    let mut out: Vec<Command> = Vec::new();
    let args11 = vec![s("-a"), s(RULE_NAME_PREFIX), s("-F"), s("all")];
    assert(texts(args11@) =~= seq!["-a"@, RULE_NAME_PREFIX@, "-F"@, "all"@]);
    push_command(&mut out, "pfctl", args11);
    assert(commands_text(out@) =~= macos_remove());
    out
}

} // verus!
