//! Application settings and the Tor configuration file they produce.
use vstd::prelude::*;
use crate::dns_resolver::DnsResolverConfig;
use crate::kill_switch::KillSwitchConfig;
use crate::tls_fingerprint::TlsFingerprintConfig;
use crate::proxy_instance::{texts, opt_text};
use crate::proxy_type::{host_port, format_host_port};
use crate::text::{
    trim, trim_str, chars_of, string_of, views, words, words_of, ascii_lower_seq, ascii_lowercase,
    lines, lines_of, eq_text, has_char, join_lines, join_lines_of, cat, decimal, decimal_string,
    extend_str, lacks, lemma_trim_lacks, lemma_lines_lack_newline,
};

verus! {

broadcast use vstd::string::group_string_axioms;

#[derive(Debug, Clone, Copy, PartialEq, Eq, Structural)]
pub enum Theme {
    Dark,
    Light,
}

impl Default for Theme {
    fn default() -> (t: Self)
        ensures
            t == Theme::Dark,
    {
        Theme::Dark
    }
}

#[derive(Debug, Clone, Copy, PartialEq, Eq, Structural)]
pub enum BridgeType {
    Obfs4,
    MeekAzure,
    Snowflake,
    WebTunnel,
    Custom,
}

impl Default for BridgeType {
    fn default() -> (b: Self)
        ensures
            b == BridgeType::Obfs4,
    {
        BridgeType::Obfs4
    }
}

#[derive(Debug, Clone)]
pub struct TorConfig {
    pub binary_path: Option<String>,
    pub socks_port: u16,
    pub use_bridges: bool,
    pub bridge_type: BridgeType,
    pub custom_bridges: Vec<String>,
    pub exit_nodes: Option<String>,
    pub entry_nodes: Option<String>,
    pub exclude_nodes: Option<String>,
    pub strict_nodes: bool,
    pub custom_torrc: Option<String>,
}

impl Default for TorConfig {
    fn default() -> (c: Self)
        ensures
            c.binary_path is None,
            c.socks_port == 9050,
            !c.use_bridges,
            c.bridge_type == BridgeType::Obfs4,
            c.custom_bridges@.len() == 0,
            c.exit_nodes is None,
            c.entry_nodes is None,
            c.exclude_nodes is None,
            !c.strict_nodes,
            c.custom_torrc is None,
    {
        TorConfig {
            binary_path: None,
            socks_port: 9050,
            use_bridges: false,
            bridge_type: BridgeType::Obfs4,
            custom_bridges: Vec::new(),
            exit_nodes: None,
            entry_nodes: None,
            exclude_nodes: None,
            strict_nodes: false,
            custom_torrc: None,
        }
    }
}

#[derive(Debug, Clone, Copy, PartialEq, Eq, Structural)]
pub struct NotificationSettings {
    pub enabled: bool,
    pub proxy_start: bool,
    pub proxy_stop: bool,
    pub proxy_error: bool,
    pub ip_changed: bool,
    pub kill_switch: bool,
    pub leak: bool,
    pub tor: bool,
}

impl Default for NotificationSettings {
    fn default() -> (n: Self)
        ensures
            n == (NotificationSettings {
                enabled: true,
                proxy_start: true,
                proxy_stop: false,
                proxy_error: true,
                ip_changed: false,
                kill_switch: true,
                leak: true,
                tor: false,
            }),
    {
        NotificationSettings {
            enabled: true,
            proxy_start: true,
            proxy_stop: false,
            proxy_error: true,
            ip_changed: false,
            kill_switch: true,
            leak: true,
            tor: false,
        }
    }
}

// ---------------------------------------------------------------------------
// Checking values that go into the Tor configuration
// ---------------------------------------------------------------------------

/// Directives that custom torrc lines may not set: they would open the Tor
/// control port or reroute its traffic.
pub open spec fn blocked_directive(d: Seq<char>) -> bool {
    d == "controlport"@ || d == "controllistenaddress"@ || d == "controlsocket"@ || d
        == "hashedcontrolpassword"@ || d == "cookieauthentication"@ || d == "cookieauthfile"@ || d
        == "cookieauthfilegrouplydateable"@ || d == "socks5proxy"@ || d == "socks4proxy"@ || d
        == "httpsproxy"@ || d == "translistenaddress"@ || d == "transport"@ || d
        == "dnslistenaddress"@ || d == "dnsport"@ || d == "__owningcontrollerprocess"@ || d
        == "__discardlogsfromrunningtested"@
}

fn is_blocked_directive(d: &[char]) -> (r: bool)
    ensures
        r == blocked_directive(d@),
{
    eq_text(d, "controlport") || eq_text(d, "controllistenaddress") || eq_text(d, "controlsocket")
        || eq_text(d, "hashedcontrolpassword") || eq_text(d, "cookieauthentication") || eq_text(
        d,
        "cookieauthfile",
    ) || eq_text(d, "cookieauthfilegrouplydateable") || eq_text(d, "socks5proxy") || eq_text(
        d,
        "socks4proxy",
    ) || eq_text(d, "httpsproxy") || eq_text(d, "translistenaddress") || eq_text(d, "transport")
        || eq_text(d, "dnslistenaddress") || eq_text(d, "dnsport") || eq_text(
        d,
        "__owningcontrollerprocess",
    ) || eq_text(d, "__discardlogsfromrunningtested")
}

/// The directive of a line: its first word, ASCII letters in lower case.
pub open spec fn directive_of(line: Seq<char>) -> Seq<char> {
    let w = words(ascii_lower_seq(line));
    if w.len() > 0 {
        w[0]
    } else {
        Seq::empty()
    }
}

pub open spec fn forbidden_msg(d: Seq<char>) -> Seq<char> {
    "Forbidden torrc directive '"@ + d
        + "'. This directive cannot be set via custom_torrc for security reasons."@
}

/// The refusal of a custom torrc line, if any.
pub open spec fn custom_line_error(line: Seq<char>) -> Option<Seq<char>> {
    if blocked_directive(directive_of(line)) {
        Some(forbidden_msg(directive_of(line)))
    } else {
        None
    }
}

/// Refuse a custom torrc line whose directive is blocked.
pub fn validate_custom_torrc_line(line: &str) -> (r: Result<(), String>)
    ensures
        match custom_line_error(line@) {
            Some(m) => r matches Err(e) && e@ == m,
            None => r is Ok,
        },
{
    let v = chars_of(line);
    let lower = ascii_lowercase(&v);
    let ws = words_of(&lower);
    let directive: Vec<char> = if ws.len() > 0 {
        ws[0].clone()
    } else {
        Vec::new()
    };
    assert(directive@ == directive_of(line@));
    if is_blocked_directive(&directive) {
        let mut m = chars_of("Forbidden torrc directive '");
        crate::text::extend_chars(&mut m, &directive);
        extend_str(&mut m, "'. This directive cannot be set via custom_torrc for security reasons.");
        return Err(string_of(&m));
    }
    Ok(())
}

/// Text holding a line break.
pub open spec fn has_newline(s: Seq<char>) -> bool {
    s.contains('\n') || s.contains('\r')
}

pub open spec fn sanitize_msg(field: Seq<char>) -> Seq<char> {
    "Invalid value for '"@ + field + "': newline characters are not allowed in torrc field values."@
}

/// Refuse a value with a line break, which would add a directive.
pub fn sanitize_torrc_field(value: &str, field_name: &str) -> (r: Result<String, String>)
    ensures
        has_newline(value@) ==> (r matches Err(e) && e@ == sanitize_msg(field_name@)),
        !has_newline(value@) ==> (r matches Ok(s) && s@ == value@),
{
    let v = chars_of(value);
    if has_char(&v, '\n') || has_char(&v, '\r') {
        let mut m = chars_of("Invalid value for '");
        extend_str(&mut m, field_name);
        extend_str(&mut m, "': newline characters are not allowed in torrc field values.");
        return Err(string_of(&m));
    }
    Ok(String::from_str(value))
}

// ---------------------------------------------------------------------------
// The torrc
// ---------------------------------------------------------------------------

/// Lines, or the message of the first refusal.
pub type Lines = Result<Seq<Seq<char>>, Seq<char>>;

/// `a` then `b`: the first refusal wins.
pub open spec fn then(a: Lines, b: Lines) -> Lines {
    match a {
        Err(e) => Err(e),
        Ok(x) => match b {
            Err(e) => Err(e),
            Ok(y) => Ok(x + y),
        },
    }
}

pub open spec fn plugin_lines(b: BridgeType) -> Seq<Seq<char>> {
    match b {
        BridgeType::Obfs4 => seq!["ClientTransportPlugin obfs4 exec obfs4proxy"@],
        BridgeType::MeekAzure => seq!["ClientTransportPlugin meek_lite exec obfs4proxy"@],
        BridgeType::Snowflake => seq!["ClientTransportPlugin snowflake exec snowflake-client"@],
        BridgeType::WebTunnel => seq!["ClientTransportPlugin webtunnel exec webtunnel-client"@],
        BridgeType::Custom => seq![],
    }
}

pub open spec fn bridge_field(i: nat) -> Seq<char> {
    "custom_bridges["@ + decimal(i) + "]"@
}

/// A `Bridge` line for each non-blank bridge, trimmed.
pub open spec fn bridge_lines(bs: Seq<Seq<char>>) -> Lines
    decreases bs.len(),
{
    if bs.len() == 0 {
        Ok(Seq::empty())
    } else {
        match bridge_lines(bs.drop_last()) {
            Err(e) => Err(e),
            Ok(ls) => {
                let t = trim(bs.last());
                if t.len() == 0 {
                    Ok(ls)
                } else if has_newline(t) {
                    Err(sanitize_msg(bridge_field((bs.len() - 1) as nat)))
                } else {
                    Ok(ls.push("Bridge "@ + t))
                }
            },
        }
    }
}

/// `key value` for a non-blank value, trimmed.
pub open spec fn node_lines(o: Option<Seq<char>>, key: Seq<char>, field: Seq<char>) -> Lines {
    match o {
        None => Ok(Seq::empty()),
        Some(s) => {
            let t = trim(s);
            if t.len() == 0 {
                Ok(Seq::empty())
            } else if has_newline(t) {
                Err(sanitize_msg(field))
            } else {
                Ok(seq![key + " "@ + t])
            }
        },
    }
}

/// A refusal among the first bridges is the refusal of the whole list.
pub proof fn lemma_bridge_err_prefix(s: Seq<Seq<char>>, k: int)
    requires
        0 <= k <= s.len(),
        bridge_lines(s.take(k)) is Err,
    ensures
        bridge_lines(s) == bridge_lines(s.take(k)),
    decreases s.len() - k,
{
    if k < s.len() {
        assert(s.take(k + 1).drop_last() =~= s.take(k));
        lemma_bridge_err_prefix(s, k + 1);
    } else {
        assert(s.take(k) =~= s);
    }
}

/// The custom lines, trimmed, without blank lines and comments; a blocked
/// directive is refused.
pub open spec fn custom_lines(ls: Seq<Seq<char>>) -> Lines
    decreases ls.len(),
{
    if ls.len() == 0 {
        Ok(Seq::empty())
    } else {
        match custom_lines(ls.drop_last()) {
            Err(e) => Err(e),
            Ok(out) => {
                let t = trim(ls.last());
                if t.len() == 0 || t[0] == '#' {
                    Ok(out)
                } else {
                    match custom_line_error(t) {
                        Some(m) => Err(m),
                        None => Ok(out.push(t)),
                    }
                }
            },
        }
    }
}

/// A refusal among the first custom lines is the refusal of them all.
pub proof fn lemma_custom_err_prefix(s: Seq<Seq<char>>, k: int)
    requires
        0 <= k <= s.len(),
        custom_lines(s.take(k)) is Err,
    ensures
        custom_lines(s) == custom_lines(s.take(k)),
    decreases s.len() - k,
{
    if k < s.len() {
        assert(s.take(k + 1).drop_last() =~= s.take(k));
        lemma_custom_err_prefix(s, k + 1);
    } else {
        assert(s.take(k) =~= s);
    }
}

/// The lines after the bridges: node restrictions, strict nodes, custom lines.
pub open spec fn rest_lines(c: TorConfig) -> Lines {
    let strict = if c.strict_nodes {
        seq!["StrictNodes 1"@]
    } else {
        Seq::empty()
    };
    let custom = match c.custom_torrc {
        Some(s) => custom_lines(lines(s@)),
        None => Ok(Seq::empty()),
    };
    then(
        node_lines(opt_text(c.exit_nodes), "ExitNodes"@, "exit_nodes"@),
        then(
            node_lines(opt_text(c.entry_nodes), "EntryNodes"@, "entry_nodes"@),
            then(
                node_lines(opt_text(c.exclude_nodes), "ExcludeNodes"@, "exclude_nodes"@),
                then(Ok(strict), custom),
            ),
        ),
    )
}

/// The bridge section: enabled bridges, their transport plugin and lines.
pub open spec fn bridge_section(c: TorConfig) -> Lines {
    if c.use_bridges {
        then(Ok(seq!["UseBridges 1"@] + plugin_lines(c.bridge_type)), bridge_lines(texts(c.custom_bridges@)))
    } else {
        Ok(Seq::empty())
    }
}

/// The lines of the torrc for `c`, with Tor's SOCKS port on `addr:port`
/// and its data in `data_dir`.
pub open spec fn torrc_lines(c: TorConfig, addr: Seq<char>, port: u16, data_dir: Seq<char>) -> Lines {
    let head = seq!["SocksPort "@ + host_port(addr, port), "DataDirectory "@ + data_dir];
    then(Ok(head), then(bridge_section(c), rest_lines(c)))
}

/// Each line is free of line breaks `\n`.
pub open spec fn one_line_each(ls: Seq<Seq<char>>) -> bool {
    forall|k: int| 0 <= k < ls.len() ==> lacks(#[trigger] ls[k], '\n')
}

/// Lines that, where they are not refused, are each free of `\n`.
pub open spec fn lines_one_line(l: Lines) -> bool {
    l matches Ok(ls) ==> one_line_each(ls)
}

proof fn lemma_cat_lacks(a: Seq<char>, b: Seq<char>, c: char)
    requires
        lacks(a, c),
        lacks(b, c),
    ensures
        lacks(a + b, c),
{
    assert forall|i: int| 0 <= i < (a + b).len() implies #[trigger] (a + b)[i] != c by {
        if i >= a.len() {
            assert((a + b)[i] == b[i - a.len()]);
        }
    }
}

proof fn lemma_no_newline_lacks(t: Seq<char>)
    requires
        !has_newline(t),
    ensures
        lacks(t, '\n'),
{
    assert forall|i: int| 0 <= i < t.len() implies #[trigger] t[i] != '\n' by {
        if t[i] == '\n' {
            assert(t.contains('\n'));
        }
    }
}

proof fn lemma_then_one_line(a: Lines, b: Lines)
    requires
        lines_one_line(a),
        lines_one_line(b),
    ensures
        lines_one_line(then(a, b)),
{
    if let (Ok(x), Ok(y)) = (a, b) {
        assert forall|k: int| 0 <= k < (x + y).len() implies lacks(#[trigger] (x + y)[k], '\n') by {
            if k >= x.len() {
                assert((x + y)[k] == y[k - x.len()]);
            }
        }
    }
}

proof fn lemma_bridge_one_line(bs: Seq<Seq<char>>)
    ensures
        lines_one_line(bridge_lines(bs)),
    decreases bs.len(),
{
    reveal_strlit("Bridge ");
    if bs.len() > 0 {
        lemma_bridge_one_line(bs.drop_last());
        let t = trim(bs.last());
        if let Ok(ls) = bridge_lines(bs.drop_last()) {
            if t.len() > 0 && !has_newline(t) {
                lemma_no_newline_lacks(t);
                lemma_cat_lacks("Bridge "@, t, '\n');
                let out = ls.push("Bridge "@ + t);
                assert forall|k: int| 0 <= k < out.len() implies lacks(#[trigger] out[k], '\n') by {
                    if k < ls.len() {
                        assert(out[k] == ls[k]);
                    }
                }
            }
        }
    }
}

proof fn lemma_node_one_line(o: Option<Seq<char>>, key: Seq<char>, field: Seq<char>)
    requires
        lacks(key, '\n'),
    ensures
        lines_one_line(node_lines(o, key, field)),
{
    reveal_strlit(" ");
    if let Some(s) = o {
        let t = trim(s);
        if t.len() > 0 && !has_newline(t) {
            lemma_no_newline_lacks(t);
            lemma_cat_lacks(key, " "@, '\n');
            lemma_cat_lacks(key + " "@, t, '\n');
            assert(seq![key + " "@ + t][0] == key + " "@ + t);
        }
    }
}

proof fn lemma_custom_one_line(ls: Seq<Seq<char>>)
    requires
        forall|k: int| 0 <= k < ls.len() ==> lacks(#[trigger] ls[k], '\n'),
    ensures
        lines_one_line(custom_lines(ls)),
    decreases ls.len(),
{
    if ls.len() > 0 {
        assert forall|k: int| 0 <= k < ls.drop_last().len() implies lacks(#[trigger] ls.drop_last()[k], '\n') by {
            assert(ls.drop_last()[k] == ls[k]);
        }
        lemma_custom_one_line(ls.drop_last());
        lemma_trim_lacks(ls.last(), '\n');
        let t = trim(ls.last());
        if let Ok(out) = custom_lines(ls.drop_last()) {
            let all = out.push(t);
            assert forall|k: int| 0 <= k < all.len() implies lacks(#[trigger] all[k], '\n') by {
                if k < out.len() {
                    assert(all[k] == out[k]);
                }
            }
        }
    }
}

proof fn lemma_literal_lines_one_line(b: BridgeType)
    ensures
        one_line_each(seq!["UseBridges 1"@] + plugin_lines(b)),
        one_line_each(seq!["StrictNodes 1"@]),
        lacks("ExitNodes"@, '\n'),
        lacks("EntryNodes"@, '\n'),
        lacks("ExcludeNodes"@, '\n'),
{
    reveal_strlit("UseBridges 1");
    reveal_strlit("StrictNodes 1");
    reveal_strlit("ExitNodes");
    reveal_strlit("EntryNodes");
    reveal_strlit("ExcludeNodes");
    reveal_strlit("ClientTransportPlugin obfs4 exec obfs4proxy");
    reveal_strlit("ClientTransportPlugin meek_lite exec obfs4proxy");
    reveal_strlit("ClientTransportPlugin snowflake exec snowflake-client");
    reveal_strlit("ClientTransportPlugin webtunnel exec webtunnel-client");
    let all = seq!["UseBridges 1"@] + plugin_lines(b);
    assert forall|k: int| 0 <= k < all.len() implies lacks(#[trigger] all[k], '\n') by {
        if k > 0 {
            assert(all[k] == plugin_lines(b)[k - 1]);
        }
    }
    assert(seq!["StrictNodes 1"@][0] == "StrictNodes 1"@);
}

/// A generated torrc puts each configured value on a line of its own: every
/// line after the `SocksPort` and `DataDirectory` lines (bridges, node
/// restrictions, custom lines) is free of line breaks, so no value can add a
/// directive of its own.
pub proof fn lemma_torrc_values_one_line(c: TorConfig, addr: Seq<char>, port: u16, data_dir: Seq<char>)
    ensures
        torrc_lines(c, addr, port, data_dir) matches Ok(ls) ==> ls.len() >= 2 && forall|k: int|
            2 <= k < ls.len() ==> lacks(#[trigger] ls[k], '\n'),
{
    lemma_literal_lines_one_line(c.bridge_type);
    lemma_bridge_one_line(texts(c.custom_bridges@));
    lemma_then_one_line(
        Ok(seq!["UseBridges 1"@] + plugin_lines(c.bridge_type)),
        bridge_lines(texts(c.custom_bridges@)),
    );
    lemma_node_one_line(opt_text(c.exit_nodes), "ExitNodes"@, "exit_nodes"@);
    lemma_node_one_line(opt_text(c.entry_nodes), "EntryNodes"@, "entry_nodes"@);
    lemma_node_one_line(opt_text(c.exclude_nodes), "ExcludeNodes"@, "exclude_nodes"@);
    let custom = match c.custom_torrc {
        Some(s) => custom_lines(lines(s@)),
        None => Ok(Seq::empty()),
    };
    if let Some(s) = c.custom_torrc {
        lemma_lines_lack_newline(s@);
        lemma_custom_one_line(lines(s@));
    }
    let strict: Seq<Seq<char>> = if c.strict_nodes {
        seq!["StrictNodes 1"@]
    } else {
        Seq::empty()
    };
    lemma_then_one_line(Ok(strict), custom);
    lemma_then_one_line(
        node_lines(opt_text(c.exclude_nodes), "ExcludeNodes"@, "exclude_nodes"@),
        then(Ok(strict), custom),
    );
    lemma_then_one_line(
        node_lines(opt_text(c.entry_nodes), "EntryNodes"@, "entry_nodes"@),
        then(
            node_lines(opt_text(c.exclude_nodes), "ExcludeNodes"@, "exclude_nodes"@),
            then(Ok(strict), custom),
        ),
    );
    lemma_then_one_line(
        node_lines(opt_text(c.exit_nodes), "ExitNodes"@, "exit_nodes"@),
        then(
            node_lines(opt_text(c.entry_nodes), "EntryNodes"@, "entry_nodes"@),
            then(
                node_lines(opt_text(c.exclude_nodes), "ExcludeNodes"@, "exclude_nodes"@),
                then(Ok(strict), custom),
            ),
        ),
    );
    lemma_then_one_line(bridge_section(c), rest_lines(c));
    let head = seq!["SocksPort "@ + host_port(addr, port), "DataDirectory "@ + data_dir];
    let tail = then(bridge_section(c), rest_lines(c));
    if let Ok(y) = tail {
        let all = head + y;
        assert forall|k: int| 2 <= k < all.len() implies lacks(#[trigger] all[k], '\n') by {
            assert(all[k] == y[k - 2]);
        }
    }
}

/// With bridges off, the bridge settings do not matter: a configuration that
/// differs only in its bridge type and bridge lines gives the same torrc,
/// and that torrc is the SocksPort and DataDirectory lines followed by the
/// node restrictions and the custom lines (no bridge line is written; a
/// custom line may still name bridges, and is copied as it is).
pub proof fn lemma_bridges_off_ignored(
    c: TorConfig,
    b: BridgeType,
    bs: Vec<String>,
    addr: Seq<char>,
    port: u16,
    data_dir: Seq<char>,
)
    requires
        !c.use_bridges,
    ensures
        torrc_lines(c, addr, port, data_dir) == torrc_lines(
            TorConfig { bridge_type: b, custom_bridges: bs, ..c },
            addr,
            port,
            data_dir,
        ),
        torrc_lines(c, addr, port, data_dir) == then(
            Ok(seq!["SocksPort "@ + host_port(addr, port), "DataDirectory "@ + data_dir]),
            rest_lines(c),
        ),
{
    let c2 = TorConfig { bridge_type: b, custom_bridges: bs, ..c };
    assert(rest_lines(c2) == rest_lines(c));
    match rest_lines(c) {
        Ok(y) => {
            assert(Seq::<Seq<char>>::empty() + y =~= y);
        },
        Err(_) => {},
    }
}

/// The bridge lines: one `Bridge` line per non-blank entry, in order, each
/// the entry trimmed after `Bridge `; blank entries are skipped.
pub proof fn lemma_bridge_lines_each_entry(bs: Seq<Seq<char>>)
    ensures
        bridge_lines(bs) matches Ok(ls) ==> {
            &&& ls.len() <= bs.len()
            &&& forall|k: int| 0 <= k < ls.len() ==> "Bridge "@.is_prefix_of(#[trigger] ls[k])
            &&& forall|i: int| 0 <= i < bs.len() && trim(#[trigger] bs[i]).len() > 0 ==> ls.contains("Bridge "@ + trim(bs[i]))
        },
    decreases bs.len(),
{
    if bs.len() > 0 {
        let init = bs.drop_last();
        lemma_bridge_lines_each_entry(init);
        match bridge_lines(bs) {
            Ok(ls) => {
                let prev = bridge_lines(init)->Ok_0;
                let t = trim(bs.last());
                assert forall|k: int| 0 <= k < ls.len() implies "Bridge "@.is_prefix_of(#[trigger] ls[k]) by {
                    if k < prev.len() {
                        assert(ls[k] == prev[k]);
                    } else {
                        assert(ls[k] == "Bridge "@ + t);
                        assert(("Bridge "@ + t).subrange(0, "Bridge "@.len() as int) =~= "Bridge "@);
                    }
                }
                assert forall|i: int| 0 <= i < bs.len() && trim(#[trigger] bs[i]).len() > 0 implies ls.contains(
                    "Bridge "@ + trim(bs[i])) by {
                    if i < init.len() {
                        assert(init[i] == bs[i]);
                        let j = choose|j: int| 0 <= j < prev.len() && prev[j] == "Bridge "@ + trim(init[i]);
                        assert(ls[j] == prev[j]);
                    } else {
                        assert(bs[i] == bs.last());
                        assert(ls[ls.len() - 1] == "Bridge "@ + t);
                    }
                }
            },
            Err(_) => {},
        }
    }
}

/// With bridges on, the torrc says so on its third line, right after the
/// SocksPort and DataDirectory lines, and for every bridge type but a
/// custom one the next line starts the transport that type needs:
/// obfs4 and meek_lite through obfs4proxy, snowflake through
/// snowflake-client, webtunnel through webtunnel-client.
pub proof fn lemma_bridges_on_name_their_transport(c: TorConfig, addr: Seq<char>, port: u16, data_dir: Seq<char>)
    requires
        c.use_bridges,
    ensures
        torrc_lines(c, addr, port, data_dir) matches Ok(ls) ==> {
            &&& ls.len() >= 3
            &&& ls[0] == "SocksPort "@ + host_port(addr, port)
            &&& ls[1] == "DataDirectory "@ + data_dir
            &&& ls[2] == "UseBridges 1"@
            &&& (c.bridge_type == BridgeType::Obfs4 ==> ls.len() >= 4 && ls[3] == "ClientTransportPlugin obfs4 exec obfs4proxy"@)
            &&& (c.bridge_type == BridgeType::MeekAzure ==> ls.len() >= 4 && ls[3] == "ClientTransportPlugin meek_lite exec obfs4proxy"@)
            &&& (c.bridge_type == BridgeType::Snowflake ==> ls.len() >= 4 && ls[3] == "ClientTransportPlugin snowflake exec snowflake-client"@)
            &&& (c.bridge_type == BridgeType::WebTunnel ==> ls.len() >= 4 && ls[3] == "ClientTransportPlugin webtunnel exec webtunnel-client"@)
            &&& forall|i: int| 0 <= i < c.custom_bridges@.len() && trim(#[trigger] c.custom_bridges@[i]@).len() > 0
                ==> ls.contains("Bridge "@ + trim(c.custom_bridges@[i]@))
        },
{
    match torrc_lines(c, addr, port, data_dir) {
        Ok(ls) => {
            let head = seq!["SocksPort "@ + host_port(addr, port), "DataDirectory "@ + data_dir];
            let bs = bridge_lines(texts(c.custom_bridges@));
            let y = bs->Ok_0;
            let r = rest_lines(c)->Ok_0;
            let sec = seq!["UseBridges 1"@] + plugin_lines(c.bridge_type) + y;
            assert(ls == head + (sec + r));
            assert(ls[2] == sec[0]);
            let tb = texts(c.custom_bridges@);
            lemma_bridge_lines_each_entry(tb);
            let off = 3 + plugin_lines(c.bridge_type).len();
            assert forall|i: int| 0 <= i < c.custom_bridges@.len() && trim(#[trigger] c.custom_bridges@[i]@).len() > 0
                implies ls.contains("Bridge "@ + trim(c.custom_bridges@[i]@)) by {
                assert(tb[i] == c.custom_bridges@[i]@);
                let j = choose|j: int| 0 <= j < y.len() && y[j] == "Bridge "@ + trim(tb[i]);
                assert(ls[off + j] == y[j]);
            }
            if c.bridge_type != BridgeType::Custom {
                assert(ls[3] == sec[1]);
                assert(sec[1] == plugin_lines(c.bridge_type)[0]);
            }
        },
        Err(_) => {},
    }
}

/// Result of a step: lines to add, or a refusal.
fn bridge_lines_of(bs: &Vec<String>) -> (r: Result<Vec<Vec<char>>, String>)
    ensures
        match bridge_lines(texts(bs@)) {
            Ok(ls) => r matches Ok(v) && views(v@) == ls,
            Err(m) => r matches Err(e) && e@ == m,
        },
{
    let mut out: Vec<Vec<char>> = Vec::new();
    let mut i: usize = 0;
    assert(texts(bs@).take(0) =~= Seq::<Seq<char>>::empty());
    assert(views(out@) =~= Seq::<Seq<char>>::empty());
    while i < bs.len()
        invariant
            i <= bs@.len(),
            bridge_lines(texts(bs@).take(i as int)) == Ok::<Seq<Seq<char>>, Seq<char>>(views(out@)),
        decreases bs.len() - i,
    {
        let ghost prev = texts(bs@).take(i as int);
        assert(texts(bs@).take(i + 1).drop_last() =~= prev);
        assert(texts(bs@).take(i + 1).last() == bs@[i as int]@);
        let t = trim_str(bs[i].as_str());
        let tv = chars_of(t.as_str());
        if tv.len() > 0 {
            if has_char(&tv, '\n') || has_char(&tv, '\r') {
                let mut m = chars_of("custom_bridges[");
                crate::text::push_decimal(&mut m, i as u64);
                m.push(']');
                proof {
                    reveal_strlit("]");
                    assert(m@ =~= bridge_field(i as nat));
                }
                let field = string_of(&m);
                let e = match sanitize_torrc_field(t.as_str(), field.as_str()) {
                    Err(e) => e,
                    Ok(_) => {
                        assert(false);
                        return Err(field);
                    },
                };
                proof {
                    assert(texts(bs@).take(i + 1).len() - 1 == i);
                    lemma_bridge_err_prefix(texts(bs@), i + 1);
                }
                return Err(e);
            }
            let mut line = chars_of("Bridge ");
            crate::text::extend_chars(&mut line, &tv);
            let ghost old_out = out@;
            out.push(line);
            proof {
                assert(views(out@) =~= views(old_out).push("Bridge "@ + trim(bs@[i as int]@)));
            }
        }
        i = i + 1;
    }
    assert(texts(bs@).take(bs@.len() as int) =~= texts(bs@));
    Ok(out)
}

fn node_lines_of(o: &Option<String>, key: &str, field: &str) -> (r: Result<Vec<Vec<char>>, String>)
    ensures
        match node_lines(opt_text(*o), key@, field@) {
            Ok(ls) => r matches Ok(v) && views(v@) == ls,
            Err(m) => r matches Err(e) && e@ == m,
        },
{
    let mut out: Vec<Vec<char>> = Vec::new();
    match o {
        None => {
            assert(views(out@) =~= Seq::<Seq<char>>::empty());
            Ok(out)
        },
        Some(s) => {
            let t = trim_str(s.as_str());
            let tv = chars_of(t.as_str());
            if tv.len() == 0 {
                assert(views(out@) =~= Seq::<Seq<char>>::empty());
                return Ok(out);
            }
            let safe = sanitize_torrc_field(t.as_str(), field)?;
            let mut line = chars_of(key);
            line.push(' ');
            extend_str(&mut line, safe.as_str());
            proof {
                reveal_strlit(" ");
                assert(line@ =~= key@ + " "@ + trim(s@));
            }
            out.push(line);
            assert(views(out@) =~= seq![key@ + " "@ + trim(s@)]);
            Ok(out)
        },
    }
}

fn custom_lines_of(s: &str) -> (r: Result<Vec<Vec<char>>, String>)
    ensures
        match custom_lines(lines(s@)) {
            Ok(ls) => r matches Ok(v) && views(v@) == ls,
            Err(m) => r matches Err(e) && e@ == m,
        },
{
    let v = chars_of(s);
    let ls = lines_of(&v);
    let mut out: Vec<Vec<char>> = Vec::new();
    let mut i: usize = 0;
    assert(views(ls@).take(0) =~= Seq::<Seq<char>>::empty());
    assert(views(out@) =~= Seq::<Seq<char>>::empty());
    while i < ls.len()
        invariant
            i <= ls@.len(),
            views(ls@) == lines(s@),
            custom_lines(views(ls@).take(i as int)) == Ok::<Seq<Seq<char>>, Seq<char>>(views(out@)),
        decreases ls.len() - i,
    {
        assert(views(ls@).take(i + 1).drop_last() =~= views(ls@).take(i as int));
        assert(views(ls@).take(i + 1).last() == ls@[i as int]@);
        let line = string_of(&ls[i]);
        let t = trim_str(line.as_str());
        let tv = chars_of(t.as_str());
        if tv.len() == 0 || tv[0] == '#' {
        } else {
            match validate_custom_torrc_line(t.as_str()) {
                Err(e) => {
                    proof {
                        lemma_custom_err_prefix(views(ls@), i + 1);
                    }
                    return Err(e);
                },
                Ok(()) => {},
            }
            let ghost old_out = out@;
            out.push(tv);
            proof {
                assert(views(out@) =~= views(old_out).push(trim(ls@[i as int]@)));
            }
        }
        i = i + 1;
    }
    assert(views(ls@).take(ls@.len() as int) =~= views(ls@));
    Ok(out)
}

fn append_lines(out: &mut Vec<Vec<char>>, more: Vec<Vec<char>>)
    ensures
        views(final(out)@) == views(old(out)@) + views(more@),
{
    let ghost before = views(out@);
    let mut i: usize = 0;
    while i < more.len()
        invariant
            i <= more@.len(),
            views(out@) == before + views(more@).take(i as int),
        decreases more.len() - i,
    {
        let ghost o = out@;
        out.push(more[i].clone());
        assert(views(out@) =~= views(o).push(more@[i as int]@));
        assert(views(more@).take(i + 1) =~= views(more@).take(i as int).push(more@[i as int]@));
        i = i + 1;
    }
    assert(views(more@).take(more@.len() as int) =~= views(more@));
}

fn line_of(s: &str) -> (r: Vec<Vec<char>>)
    ensures
        views(r@) == seq![s@],
{
    let v = vec![chars_of(s)];
    assert(views(v@) =~= seq![s@]);
    v
}

#[verifier::spinoff_prover]
#[verifier::rlimit(50)]
fn rest_lines_of(config: &TorConfig) -> (r: Result<Vec<Vec<char>>, String>)
    ensures
        match rest_lines(*config) {
            Ok(ls) => r matches Ok(v) && views(v@) == ls,
            Err(m) => r matches Err(e) && e@ == m,
        },
{
    let mut out = node_lines_of(&config.exit_nodes, "ExitNodes", "exit_nodes")?;
    let e2 = node_lines_of(&config.entry_nodes, "EntryNodes", "entry_nodes")?;
    append_lines(&mut out, e2);
    let e3 = node_lines_of(&config.exclude_nodes, "ExcludeNodes", "exclude_nodes")?;
    append_lines(&mut out, e3);
    let ghost before_strict = views(out@);
    if config.strict_nodes {
        append_lines(&mut out, line_of("StrictNodes 1"));
    }
    let ghost strict: Seq<Seq<char>> = if config.strict_nodes {
        seq!["StrictNodes 1"@]
    } else {
        Seq::empty()
    };
    assert(views(out@) =~= before_strict + strict);
    match &config.custom_torrc {
        Some(s) => {
            let c = custom_lines_of(s.as_str())?;
            append_lines(&mut out, c);
        },
        None => {
            assert(views(out@) =~= views(out@) + Seq::<Seq<char>>::empty());
        },
    }
    proof {
        assert(rest_lines(*config) matches Ok(all) && all =~= views(out@));
    }
    Ok(out)
}

fn bridge_section_of(config: &TorConfig) -> (r: Result<Vec<Vec<char>>, String>)
    ensures
        match bridge_section(*config) {
            Ok(ls) => r matches Ok(v) && views(v@) == ls,
            Err(m) => r matches Err(e) && e@ == m,
        },
{
    let mut out: Vec<Vec<char>> = Vec::new();
    if config.use_bridges {
        append_lines(&mut out, line_of("UseBridges 1"));
        match config.bridge_type {
            BridgeType::Obfs4 => append_lines(&mut out, line_of("ClientTransportPlugin obfs4 exec obfs4proxy")),
            BridgeType::MeekAzure => append_lines(&mut out, line_of("ClientTransportPlugin meek_lite exec obfs4proxy")),
            BridgeType::Snowflake => append_lines(&mut out, line_of("ClientTransportPlugin snowflake exec snowflake-client")),
            BridgeType::WebTunnel => append_lines(&mut out, line_of("ClientTransportPlugin webtunnel exec webtunnel-client")),
            BridgeType::Custom => {},
        }
        assert(views(out@) =~= seq!["UseBridges 1"@] + plugin_lines(config.bridge_type));
        let b = bridge_lines_of(&config.custom_bridges)?;
        append_lines(&mut out, b);
    } else {
        assert(views(out@) =~= Seq::<Seq<char>>::empty());
    }
    Ok(out)
}

/// The torrc for `config`: Tor's SOCKS port on `socks_addr:socks_port`,
/// its data in `data_dir`, bridges, node restrictions and the custom lines,
/// one per line. A value with a line break, or a custom line with a blocked
/// directive, is refused with a message.
pub fn generate_torrc(config: &TorConfig, socks_addr: &str, socks_port: u16, data_dir: &str) -> (r: Result<String, String>)
    ensures
        match torrc_lines(*config, socks_addr@, socks_port, data_dir@) {
            Ok(ls) => r matches Ok(s) && s@ == join_lines(ls),
            Err(m) => r matches Err(e) && e@ == m,
        },
{
    let mut out: Vec<Vec<char>> = Vec::new();
    let hp = format_host_port(socks_addr, socks_port);
    append_lines(&mut out, line_of(cat("SocksPort ", hp.as_str()).as_str()));
    append_lines(&mut out, line_of(cat("DataDirectory ", data_dir).as_str()));
    assert(views(out@) =~= seq!["SocksPort "@ + host_port(socks_addr@, socks_port), "DataDirectory "@ + data_dir@]);
    let b = bridge_section_of(config)?;
    append_lines(&mut out, b);
    let rest = rest_lines_of(config)?;
    append_lines(&mut out, rest);
    proof {
        assert(torrc_lines(*config, socks_addr@, socks_port, data_dir@) matches Ok(all) && all =~= views(out@));
    }
    Ok(join_lines_of(&out))
}

// ---------------------------------------------------------------------------
// The application settings
// ---------------------------------------------------------------------------

#[derive(Debug, Clone)]
pub struct AppSettings {
    pub theme: Theme,
    pub default_port: u16,
    pub default_bind: String,
    pub concurrency: usize,
    pub auto_rotate_minutes: Option<u64>,
    pub tor_config: TorConfig,
    pub dns_protection: DnsResolverConfig,
    pub kill_switch: KillSwitchConfig,
    pub tls_fingerprint: TlsFingerprintConfig,
    pub start_hidden: bool,
    pub notifications: NotificationSettings,
}

impl Default for AppSettings {
    fn default() -> (s: Self)
        ensures
            s.theme == Theme::Dark,
            s.default_port == 9051,
            s.default_bind@ == "127.0.0.1"@,
            s.concurrency == 100,
            s.auto_rotate_minutes is None,
            s.tor_config.socks_port == 9050 && !s.tor_config.use_bridges,
            !s.dns_protection.enabled,
            !s.kill_switch.enabled && !s.kill_switch.active,
            !s.tls_fingerprint.enabled,
            !s.start_hidden,
            s.notifications == NotificationSettings::default_value(),
    {
        AppSettings {
            theme: Theme::Dark,
            default_port: 9051,
            default_bind: String::from_str("127.0.0.1"),
            concurrency: 100,
            auto_rotate_minutes: None,
            tor_config: TorConfig::default(),
            dns_protection: DnsResolverConfig::default(),
            kill_switch: KillSwitchConfig::default(),
            tls_fingerprint: TlsFingerprintConfig::default(),
            start_hidden: false,
            notifications: NotificationSettings::default(),
        }
    }
}

impl NotificationSettings {
    pub open spec fn default_value() -> NotificationSettings {
        NotificationSettings {
            enabled: true,
            proxy_start: true,
            proxy_stop: false,
            proxy_error: true,
            ip_changed: false,
            kill_switch: true,
            leak: true,
            tor: false,
        }
    }
}

/// The number of proxies tested at once, kept within 1..1000.
pub open spec fn clamped_concurrency(c: usize) -> usize {
    if c < 1 {
        1
    } else if c > 1000 {
        1000
    } else {
        c
    }
}

impl AppSettings {
    /// Settings as loaded: the concurrency is brought within 1..1000.
    pub fn normalized(self) -> (r: Self)
        ensures
            r == (AppSettings { concurrency: clamped_concurrency(self.concurrency), ..self }),
    {
        let mut s = self;
        s.concurrency = if s.concurrency < 1 {
            1
        } else if s.concurrency > 1000 {
            1000
        } else {
            s.concurrency
        };
        s
    }
}

} // verus!
