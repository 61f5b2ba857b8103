//! One local proxy instance: its configuration, its status, its bounded
//! logs and its request counters, and the form in which it is saved.
use vstd::prelude::*;
use std::collections::VecDeque;
use crate::anonymity_check::AnonymityLevel;
use crate::codec::{new_uuid, unix_now_secs, parse_uuid, uuid_to_string, uuid_parsed, uuid_text};
use crate::cred_encrypt::{
    encrypt_password, decrypt_password, read_password, utf8_bytes, NONCE_LEN, CredError,
};
use crate::geoip::CountryInfo;
use crate::proxy_chain::{ProxyChainConfig, ChainConfigView, clone_chain_config};
use crate::proxy_type::{Proxy, ProxyMode, ProxyProtocol, ProxyView, clone_proxy};
use crate::text::clone_opt_string;

verus! {

broadcast use vstd::std_specs::vecdeque::group_vec_dequeue_axioms;

/// How many entries each log keeps.
pub const MAX_LOGS: usize = 500;

/// The newest `MAX_LOGS` entries of `s`.
pub open spec fn newest<T>(s: Seq<T>) -> Seq<T> {
    if s.len() > MAX_LOGS {
        s.skip(s.len() - MAX_LOGS)
    } else {
        s
    }
}

/// A log that keeps its newest [`MAX_LOGS`] entries, oldest first.
#[derive(Debug)]
pub struct BoundedLog<T> {
    entries: VecDeque<T>,
}

impl<T> View for BoundedLog<T> {
    type V = Seq<T>;

    closed spec fn view(&self) -> Seq<T> {
        self.entries@
    }
}

impl<T> BoundedLog<T> {
    /// A log never holds more than [`MAX_LOGS`] entries.
    #[verifier::type_invariant]
    spec fn within_limit(self) -> bool {
        self.entries@.len() <= MAX_LOGS
    }

    pub fn new() -> (l: Self)
        ensures
            l@ == Seq::<T>::empty(),
    {
        BoundedLog { entries: VecDeque::new() }
    }

    /// Append `item`, then drop the oldest entries beyond [`MAX_LOGS`].
    pub fn push(&mut self, item: T)
        ensures
            final(self)@ == newest(old(self)@.push(item)),
    {
        let ghost s = old(self)@.push(item);
        let mut entries: VecDeque<T> = VecDeque::new();
        std::mem::swap(&mut entries, &mut self.entries);
        entries.push_back(item);
        let ghost mut d: int = 0;
        while entries.len() > MAX_LOGS
            invariant
                0 <= d <= s.len(),
                entries@ == s.skip(d),
                d == 0 || s.len() - d >= MAX_LOGS,
            decreases entries@.len(),
        {
            entries.pop_front();
            proof {
                d = d + 1;
                assert(entries@ =~= s.skip(d));
            }
        }
        proof {
            if s.len() <= MAX_LOGS {
                assert(s.skip(0) =~= s);
            }
        }
        self.entries = entries;
    }

    pub fn len(&self) -> (n: usize)
        ensures
            n == self@.len(),
            n <= MAX_LOGS,
    {
        proof {
            use_type_invariant(self);
        }
        self.entries.len()
    }

    pub fn clear(&mut self)
        ensures
            final(self)@ == Seq::<T>::empty(),
    {
        self.entries = VecDeque::new();
    }
}

/// Each log keeps at most [`MAX_LOGS`] entries, and they are the newest.
pub proof fn lemma_newest_bounded<T>(s: Seq<T>)
    ensures
        newest(s).len() <= MAX_LOGS,
        newest(s).len() == s.len() || newest(s).len() == MAX_LOGS,
        newest(s).is_suffix_of(s),
        s.len() > 0 ==> newest(s).last() == s.last(),
{
    if s.len() > MAX_LOGS {
        assert(newest(s) =~= s.subrange(s.len() - MAX_LOGS, s.len() as int));
    } else {
        assert(newest(s) =~= s.subrange(0, s.len() as int));
    }
}

/// Trimming a log before another push keeps the same newest entries as
/// trimming once after it.
pub proof fn lemma_newest_push<T>(s: Seq<T>, x: T)
    ensures
        newest(newest(s).push(x)) == newest(s.push(x)),
{
    let t = s.push(x);
    if s.len() > MAX_LOGS {
        assert(newest(s).push(x) =~= t.skip(t.len() - MAX_LOGS - 1));
        assert(newest(newest(s).push(x)) =~= t.skip(t.len() - MAX_LOGS));
    }
}

/// The texts of a sequence of strings.
pub open spec fn texts(s: Seq<String>) -> Seq<Seq<char>> {
    s.map_values(|x: String| x@)
}

pub proof fn lemma_texts_newest_push(s: Seq<String>, x: String)
    ensures
        texts(newest(s.push(x))) == newest(texts(s).push(x@)),
{
    assert(texts(s.push(x)) =~= texts(s).push(x@));
    assert(texts(newest(s.push(x))) =~= newest(texts(s.push(x))));
}

/// Text lines of an instance's log.
pub type LogSink = BoundedLog<String>;

/// Records of the connections an instance served.
pub type ConnectionSink = BoundedLog<ConnectionLogEntry>;

/// Append a line to a log, keeping its newest [`MAX_LOGS`] lines.
pub fn push_to_sink(sink: &mut LogSink, msg: String)
    ensures
        final(sink)@ == newest(old(sink)@.push(msg)),
{
    sink.push(msg);
}

/// One served connection.
#[derive(Debug)]
pub struct ConnectionLogEntry {
    pub timestamp_ms: u64,
    pub target_host: String,
    pub protocol: String,
    pub bytes_sent: u64,
    pub bytes_received: u64,
    pub duration_ms: u64,
    pub success: bool,
    pub country_code: Option<String>,
}

/// A copy of a connection record with the same fields.
pub fn clone_connection_entry(e: &ConnectionLogEntry) -> (r: ConnectionLogEntry)
    ensures
        r == *e,
{
    ConnectionLogEntry {
        timestamp_ms: e.timestamp_ms,
        target_host: e.target_host.clone(),
        protocol: e.protocol.clone(),
        bytes_sent: e.bytes_sent,
        bytes_received: e.bytes_received,
        duration_ms: e.duration_ms,
        success: e.success,
        country_code: clone_opt_string(&e.country_code),
    }
}

/// Append a connection record, keeping the newest [`MAX_LOGS`].
pub fn push_connection_entry(sink: &mut ConnectionSink, entry: ConnectionLogEntry)
    ensures
        final(sink)@ == newest(old(sink)@.push(entry)),
{
    sink.push(entry);
}

impl BoundedLog<String> {
    /// The lines, oldest first.
    pub fn lines(&self) -> (r: Vec<String>)
        ensures
            r@ == self@,
    {
        let mut r: Vec<String> = Vec::new();
        let n = self.entries.len();
        let mut i: usize = 0;
        while i < n
            invariant
                i <= n == self.entries@.len(),
                r@ == self.entries@.take(i as int),
            decreases n - i,
        {
            r.push(self.entries[i].clone());
            i = i + 1;
            assert(r@ =~= self.entries@.take(i as int));
        }
        assert(self.entries@.take(n as int) =~= self.entries@);
        r
    }
}

/// The newest `limit` entries of `s` (all without a limit), newest first.
pub open spec fn newest_first<T>(s: Seq<T>, limit: Option<usize>) -> Seq<T> {
    let rev = s.reverse();
    match limit {
        Some(l) => if l < rev.len() {
            rev.take(l as int)
        } else {
            rev
        },
        None => rev,
    }
}

impl BoundedLog<ConnectionLogEntry> {
    /// The records newest first, at most `limit` of them.
    pub fn newest_first(&self, limit: Option<usize>) -> (r: Vec<ConnectionLogEntry>)
        ensures
            r@ == newest_first(self@, limit),
    {
        let n = self.entries.len();
        let max = match limit {
            Some(l) => if l < n {
                l
            } else {
                n
            },
            None => n,
        };
        let ghost rev = self.entries@.reverse();
        let mut r: Vec<ConnectionLogEntry> = Vec::new();
        let mut i: usize = 0;
        while i < max
            invariant
                i <= max <= n == self.entries@.len(),
                rev == self.entries@.reverse(),
                r@ == rev.take(i as int),
            decreases max - i,
        {
            r.push(clone_connection_entry(&self.entries[n - 1 - i]));
            i = i + 1;
            assert(r@ =~= rev.take(i as int));
        }
        assert(max == rev.len() ==> rev.take(max as int) =~= rev);
        r
    }
}

// ---------------------------------------------------------------------------
// Request counters
// ---------------------------------------------------------------------------

/// Counters of the requests an instance served. They wrap on overflow, as
/// the atomic counters they stand for do.
#[derive(Debug, Clone, Copy, PartialEq, Eq, Structural)]
pub struct ProxyStats {
    pub total_requests: u64,
    pub successful_requests: u64,
    pub total_latency_ms: u64,
    pub total_bytes: u64,
    pub last_request_latency_ms: u64,
}

/// A snapshot of the counters. The share of successful requests is
/// `successful_requests / total_requests` (0 without requests).
#[derive(Debug, Clone, Copy, PartialEq, Eq, Structural)]
pub struct ProxyStatsInfo {
    pub total_requests: u64,
    pub successful_requests: u64,
    pub avg_latency_ms: u64,
    pub total_bytes: u64,
    pub last_request_latency_ms: u64,
}

pub open spec fn zero_stats() -> ProxyStats {
    ProxyStats {
        total_requests: 0,
        successful_requests: 0,
        total_latency_ms: 0,
        total_bytes: 0,
        last_request_latency_ms: 0,
    }
}

pub open spec fn stats_info(s: ProxyStats) -> ProxyStatsInfo {
    ProxyStatsInfo {
        total_requests: s.total_requests,
        successful_requests: s.successful_requests,
        avg_latency_ms: if s.successful_requests > 0 {
            (s.total_latency_ms / s.successful_requests) as u64
        } else {
            0
        },
        total_bytes: s.total_bytes,
        last_request_latency_ms: s.last_request_latency_ms,
    }
}

pub open spec fn wrap_add(a: u64, b: u64) -> u64 {
    ((a + b) % 0x1_0000_0000_0000_0000) as u64
}

/// The counters after a request (when `request`), a success after the
/// given latency, and `bytes` relayed.
pub open spec fn counted(s: ProxyStats, request: bool, success_latency_ms: Option<u64>, bytes: u64) -> ProxyStats {
    let s1 = if request {
        ProxyStats { total_requests: wrap_add(s.total_requests, 1), ..s }
    } else {
        s
    };
    let s2 = match success_latency_ms {
        Some(l) => ProxyStats {
            successful_requests: wrap_add(s1.successful_requests, 1),
            total_latency_ms: wrap_add(s1.total_latency_ms, l),
            last_request_latency_ms: l,
            ..s1
        },
        None => s1,
    };
    ProxyStats { total_bytes: wrap_add(s2.total_bytes, bytes), ..s2 }
}

impl ProxyStats {
    pub fn new() -> (s: Self)
        ensures
            s == zero_stats(),
    {
        ProxyStats {
            total_requests: 0,
            successful_requests: 0,
            total_latency_ms: 0,
            total_bytes: 0,
            last_request_latency_ms: 0,
        }
    }

    pub fn reset(&mut self)
        ensures
            *final(self) == zero_stats(),
    {
        *self = ProxyStats::new();
    }

    pub fn to_info(&self) -> (r: ProxyStatsInfo)
        ensures
            r == stats_info(*self),
    {
        let avg = if self.successful_requests > 0 {
            self.total_latency_ms / self.successful_requests
        } else {
            0
        };
        ProxyStatsInfo {
            total_requests: self.total_requests,
            successful_requests: self.successful_requests,
            avg_latency_ms: avg,
            total_bytes: self.total_bytes,
            last_request_latency_ms: self.last_request_latency_ms,
        }
    }

    /// Count a request (when `request`), a success after the given latency,
    /// and relayed bytes.
    pub fn record(&mut self, request: bool, success_latency_ms: Option<u64>, bytes: u64)
        ensures
            *final(self) == counted(*old(self), request, success_latency_ms, bytes),
    {
        if request {
            self.record_request();
        }
        match success_latency_ms {
            Some(l) => self.record_success(l),
            None => {},
        }
        self.add_bytes(bytes);
    }

    /// A request arrived.
    pub fn record_request(&mut self)
        ensures
            *final(self) == (ProxyStats { total_requests: wrap_add(old(self).total_requests, 1), ..*old(self) }),
    {
        self.total_requests = self.total_requests.wrapping_add(1);
    }

    /// A request was served through the upstream after `latency_ms`.
    pub fn record_success(&mut self, latency_ms: u64)
        ensures
            *final(self) == (ProxyStats {
                successful_requests: wrap_add(old(self).successful_requests, 1),
                total_latency_ms: wrap_add(old(self).total_latency_ms, latency_ms),
                last_request_latency_ms: latency_ms,
                ..*old(self)
            }),
    {
        self.successful_requests = self.successful_requests.wrapping_add(1);
        self.total_latency_ms = self.total_latency_ms.wrapping_add(latency_ms);
        self.last_request_latency_ms = latency_ms;
    }

    /// `n` bytes were relayed.
    pub fn add_bytes(&mut self, n: u64)
        ensures
            *final(self) == (ProxyStats { total_bytes: wrap_add(old(self).total_bytes, n), ..*old(self) }),
    {
        self.total_bytes = self.total_bytes.wrapping_add(n);
    }
}

// ---------------------------------------------------------------------------
// Status
// ---------------------------------------------------------------------------

#[derive(Debug)]
pub enum ProxyStatus {
    Stopped,
    Starting,
    Running,
    Error(String),
}

/// The status as reported to the interface.
#[derive(Debug, Clone, PartialEq, Eq)]
pub enum ProxyStatusInfo {
    Stopped,
    Starting,
    Running,
    Error(String),
}

pub open spec fn status_info(s: ProxyStatus) -> ProxyStatusInfo {
    match s {
        ProxyStatus::Stopped => ProxyStatusInfo::Stopped,
        ProxyStatus::Starting => ProxyStatusInfo::Starting,
        ProxyStatus::Running => ProxyStatusInfo::Running,
        ProxyStatus::Error(m) => ProxyStatusInfo::Error(m),
    }
}

impl ProxyStatusInfo {
    /// The reported form of a status.
    pub fn from_status(status: &ProxyStatus) -> (r: ProxyStatusInfo)
        ensures
            r == status_info(*status),
    {
        match status {
            ProxyStatus::Stopped => ProxyStatusInfo::Stopped,
            ProxyStatus::Starting => ProxyStatusInfo::Starting,
            ProxyStatus::Running => ProxyStatusInfo::Running,
            ProxyStatus::Error(msg) => ProxyStatusInfo::Error(msg.clone()),
        }
    }
}

// ---------------------------------------------------------------------------
// Instances
// ---------------------------------------------------------------------------

/// The text of an optional string.
pub open spec fn opt_text(o: Option<String>) -> Option<Seq<char>> {
    match o {
        Some(s) => Some(s@),
        None => None,
    }
}

/// The value of an optional proxy.
pub open spec fn opt_proxy(o: Option<Proxy>) -> Option<ProxyView> {
    match o {
        Some(p) => Some(p@),
        None => None,
    }
}

/// The value of an optional chain configuration.
pub open spec fn opt_chain(o: Option<ProxyChainConfig>) -> Option<ChainConfigView> {
    match o {
        Some(c) => Some(c@),
        None => None,
    }
}

pub fn clone_opt_proxy(o: &Option<Proxy>) -> (r: Option<Proxy>)
    ensures
        opt_proxy(r) == opt_proxy(*o),
{
    match o {
        Some(p) => Some(clone_proxy(p)),
        None => None,
    }
}

pub fn clone_opt_chain(o: &Option<ProxyChainConfig>) -> (r: Option<ProxyChainConfig>)
    ensures
        opt_chain(r) == opt_chain(*o),
{
    match o {
        Some(c) => Some(clone_chain_config(c)),
        None => None,
    }
}

/// A local proxy instance. The background work that serves it (the
/// listener, the rotation task, the discovery of an upstream) runs outside;
/// the flags below record which of it is under way.
#[derive(Debug)]
pub struct ProxyInstance {
    pub id: u128,
    pub name: String,
    pub bind_addr: String,
    pub port: u16,
    pub mode: ProxyMode,
    pub status: ProxyStatus,
    pub local_protocol: ProxyProtocol,
    pub auth_username: Option<String>,
    pub auth_password: Option<String>,
    pub auto_rotate: bool,
    pub auto_rotate_minutes: Option<u64>,
    pub proxy_list: String,
    pub created_at: u64,
    pub auto_start_on_boot: bool,
    pub anonymity_level: Option<AnonymityLevel>,
    pub proxy_chain: Option<ProxyChainConfig>,
    pub upstream: Option<Proxy>,
    pub upstream_latency_ms: u64,
    /// A search for an upstream is under way.
    pub discovery_active: bool,
    /// The local listener runs.
    pub server_active: bool,
    /// The rotation task runs.
    pub rotation_active: bool,
    pub logs: LogSink,
    pub connection_logs: ConnectionSink,
    pub stats: ProxyStats,
}

/// An instance as it is right after it was made or loaded: stopped, with no
/// upstream, no background work, empty logs and zero counters.
pub open spec fn fresh_runtime(i: ProxyInstance) -> bool {
    &&& i.status is Stopped
    &&& i.anonymity_level is None
    &&& i.upstream is None
    &&& i.upstream_latency_ms == 0
    &&& !i.discovery_active
    &&& !i.server_active
    &&& !i.rotation_active
    &&& i.logs@.len() == 0
    &&& i.connection_logs@.len() == 0
    &&& i.stats == zero_stats()
}

/// The form in which an instance is saved.
#[derive(Debug)]
pub struct SavedInstance {
    pub id: String,
    pub name: String,
    pub bind_addr: String,
    pub port: u16,
    pub mode: ProxyMode,
    pub local_protocol: ProxyProtocol,
    pub auth_username: Option<String>,
    /// The password, encrypted (see [`crate::cred_encrypt`]).
    pub auth_password_encrypted: Option<String>,
    /// A password saved in clear by earlier versions.
    pub auth_password_legacy: Option<String>,
    pub auto_rotate: bool,
    pub auto_rotate_minutes: Option<u64>,
    pub proxy_list: String,
    pub created_at: u64,
    pub auto_start_on_boot: bool,
    pub proxy_chain: Option<ProxyChainConfig>,
}

/// The creation time given to a saved instance that has none: now.
pub fn default_created_at() -> (r: u64) {
    unix_now_secs()
}

/// The local protocol of a saved instance that has none.
pub fn default_local_protocol() -> (r: ProxyProtocol)
    ensures
        r == ProxyProtocol::Socks5,
{
    ProxyProtocol::Socks5
}

/// The proxy list of a saved instance that has none: the built-in sources.
pub fn default_proxy_list() -> (r: String)
    ensures
        r@ == "default"@,
{
    String::from_str("default")
}

/// `s` is what [`ProxyInstance::to_saved`] writes for `inst` under `key`.
pub open spec fn saved_matches(s: SavedInstance, inst: ProxyInstance, key: Seq<u8>) -> bool {
    &&& s.id@ == uuid_text(inst.id)
    &&& uuid_parsed(s.id@) == Some(inst.id)
    &&& s.name == inst.name
    &&& s.bind_addr == inst.bind_addr
    &&& s.port == inst.port
    &&& s.mode == inst.mode
    &&& s.local_protocol == inst.local_protocol
    &&& s.auth_username == inst.auth_username
    &&& (inst.auth_password is None ==> s.auth_password_encrypted is None)
    &&& (s.auth_password_encrypted matches Some(e) ==> inst.auth_password matches Some(p)
        && read_password(key, e@) == Ok::<Seq<char>, CredError>(p@))
    &&& s.auth_password_legacy is None
    &&& s.auto_rotate == inst.auto_rotate
    &&& s.auto_rotate_minutes == inst.auto_rotate_minutes
    &&& s.proxy_list == inst.proxy_list
    &&& s.created_at == inst.created_at
    &&& s.auto_start_on_boot == inst.auto_start_on_boot
    &&& opt_chain(s.proxy_chain) == opt_chain(inst.proxy_chain)
}

/// The password an instance loaded from `s` gets: the stored one when it
/// decrypts under `key`, else the one saved in clear.
pub open spec fn loaded_password(s: SavedInstance, key: Seq<u8>) -> Option<Seq<char>> {
    match s.auth_password_encrypted {
        Some(e) => match read_password(key, e@) {
            Ok(p) => Some(p),
            Err(_) => opt_text(s.auth_password_legacy),
        },
        None => opt_text(s.auth_password_legacy),
    }
}

/// `inst` is what [`ProxyInstance::from_saved`] makes of `s` under `key`.
pub open spec fn loaded_matches(inst: ProxyInstance, s: SavedInstance, key: Seq<u8>) -> bool {
    &&& (uuid_parsed(s.id@) matches Some(id) ==> inst.id == id)
    &&& inst.name == s.name
    &&& inst.bind_addr == s.bind_addr
    &&& inst.port == s.port
    &&& inst.mode == s.mode
    &&& inst.local_protocol == s.local_protocol
    &&& inst.auth_username == s.auth_username
    &&& opt_text(inst.auth_password) == loaded_password(s, key)
    &&& inst.auto_rotate == s.auto_rotate
    &&& inst.auto_rotate_minutes == s.auto_rotate_minutes
    &&& inst.proxy_list == s.proxy_list
    &&& inst.created_at == s.created_at
    &&& inst.auto_start_on_boot == s.auto_start_on_boot
    &&& opt_chain(inst.proxy_chain) == opt_chain(s.proxy_chain)
    &&& fresh_runtime(inst)
}

/// What is saved loads back: an instance saved under a key and loaded under
/// the same key has the same identifier, configuration and password.
pub proof fn lemma_saved_instance_loads_back(
    inst: ProxyInstance,
    saved: SavedInstance,
    back: ProxyInstance,
    key: Seq<u8>,
)
    requires
        saved_matches(saved, inst, key),
        loaded_matches(back, saved, key),
        saved.auth_password_encrypted is Some || inst.auth_password is None,
    ensures
        back.id == inst.id,
        back.name == inst.name,
        back.bind_addr == inst.bind_addr,
        back.port == inst.port,
        back.mode == inst.mode,
        back.local_protocol == inst.local_protocol,
        back.auth_username == inst.auth_username,
        opt_text(back.auth_password) == opt_text(inst.auth_password),
        back.auto_rotate == inst.auto_rotate,
        back.auto_rotate_minutes == inst.auto_rotate_minutes,
        back.proxy_list == inst.proxy_list,
        back.created_at == inst.created_at,
        back.auto_start_on_boot == inst.auto_start_on_boot,
        opt_chain(back.proxy_chain) == opt_chain(inst.proxy_chain),
{
}

/// The reported state of an instance.
#[derive(Debug)]
pub struct ProxyInstanceInfo {
    pub id: String,
    pub name: String,
    pub bind_addr: String,
    pub port: u16,
    pub mode: ProxyMode,
    pub status: ProxyStatusInfo,
    pub upstream: Option<Proxy>,
    pub local_protocol: ProxyProtocol,
    /// Both a user name and a password are set.
    pub has_auth: bool,
    pub auto_rotate: bool,
    pub auto_rotate_minutes: Option<u64>,
    pub proxy_list: String,
    pub stats: ProxyStatsInfo,
    pub upstream_latency_ms: u64,
    pub auto_start_on_boot: bool,
    pub anonymity_level: Option<AnonymityLevel>,
    pub proxy_chain: Option<ProxyChainConfig>,
    /// The country of the upstream; filled in by the caller, not kept.
    pub upstream_country: Option<CountryInfo>,
}

/// `info` reports `inst`.
pub open spec fn info_matches(info: ProxyInstanceInfo, inst: ProxyInstance) -> bool {
    &&& info.id@ == uuid_text(inst.id)
    &&& info.name == inst.name
    &&& info.bind_addr == inst.bind_addr
    &&& info.port == inst.port
    &&& info.mode == inst.mode
    &&& info.status == status_info(inst.status)
    &&& opt_proxy(info.upstream) == opt_proxy(inst.upstream)
    &&& info.local_protocol == inst.local_protocol
    &&& info.has_auth == (inst.auth_username is Some && inst.auth_password is Some)
    &&& info.auto_rotate == inst.auto_rotate
    &&& info.auto_rotate_minutes == inst.auto_rotate_minutes
    &&& info.proxy_list == inst.proxy_list
    &&& info.stats == stats_info(inst.stats)
    &&& info.upstream_latency_ms == inst.upstream_latency_ms
    &&& info.auto_start_on_boot == inst.auto_start_on_boot
    &&& info.anonymity_level == inst.anonymity_level
    &&& opt_chain(info.proxy_chain) == opt_chain(inst.proxy_chain)
    &&& info.upstream_country is None
}

impl ProxyInstance {
    /// A new stopped instance with a fresh random identifier, created now.
    pub fn new(
        name: String,
        bind_addr: String,
        port: u16,
        mode: ProxyMode,
        local_protocol: ProxyProtocol,
        auth_username: Option<String>,
        auth_password: Option<String>,
        auto_rotate: bool,
        proxy_list: String,
        auto_rotate_minutes: Option<u64>,
        auto_start_on_boot: bool,
        proxy_chain: Option<ProxyChainConfig>,
    ) -> (r: Self)
        ensures
            r.name == name,
            r.bind_addr == bind_addr,
            r.port == port,
            r.mode == mode,
            r.local_protocol == local_protocol,
            r.auth_username == auth_username,
            r.auth_password == auth_password,
            r.auto_rotate == auto_rotate,
            r.proxy_list == proxy_list,
            r.auto_rotate_minutes == auto_rotate_minutes,
            r.auto_start_on_boot == auto_start_on_boot,
            r.proxy_chain == proxy_chain,
            fresh_runtime(r),
    {
        ProxyInstance {
            id: new_uuid(),
            name,
            bind_addr,
            port,
            mode,
            status: ProxyStatus::Stopped,
            local_protocol,
            auth_username,
            auth_password,
            auto_rotate,
            auto_rotate_minutes,
            proxy_list,
            created_at: unix_now_secs(),
            auto_start_on_boot,
            anonymity_level: None,
            proxy_chain,
            upstream: None,
            upstream_latency_ms: 0,
            discovery_active: false,
            server_active: false,
            rotation_active: false,
            logs: BoundedLog::new(),
            connection_logs: BoundedLog::new(),
            stats: ProxyStats::new(),
        }
    }

    /// The instance a saved record describes. The password is decrypted with
    /// `key`; where that fails the password saved in clear is used. An
    /// identifier that does not parse is replaced by a fresh one.
    pub fn from_saved(saved: SavedInstance, key: &[u8; 32]) -> (r: Self)
        ensures
            loaded_matches(r, saved, key@),
    {
        let ghost s0 = saved;
        let auth_password = match &saved.auth_password_encrypted {
            Some(e) => match decrypt_password(key, e.as_str()) {
                Ok(p) => Some(p),
                Err(_) => clone_opt_string(&saved.auth_password_legacy),
            },
            None => clone_opt_string(&saved.auth_password_legacy),
        };
        let id = match parse_uuid(saved.id.as_str()) {
            Some(id) => id,
            None => new_uuid(),
        };
        ProxyInstance {
            id,
            name: saved.name,
            bind_addr: saved.bind_addr,
            port: saved.port,
            mode: saved.mode,
            status: ProxyStatus::Stopped,
            local_protocol: saved.local_protocol,
            auth_username: saved.auth_username,
            auth_password,
            auto_rotate: saved.auto_rotate,
            auto_rotate_minutes: saved.auto_rotate_minutes,
            proxy_list: saved.proxy_list,
            created_at: saved.created_at,
            auto_start_on_boot: saved.auto_start_on_boot,
            anonymity_level: None,
            proxy_chain: saved.proxy_chain,
            upstream: None,
            upstream_latency_ms: 0,
            discovery_active: false,
            server_active: false,
            rotation_active: false,
            logs: BoundedLog::new(),
            connection_logs: BoundedLog::new(),
            stats: ProxyStats::new(),
        }
    }

    /// The record to save: the password is encrypted under `key` (left out
    /// when encryption fails), nothing is saved in clear.
    pub fn to_saved(&self, key: &[u8; 32]) -> (r: SavedInstance)
        requires
            self.auth_password matches Some(p) ==> utf8_bytes(p@).len() + NONCE_LEN + 16
                <= usize::MAX / 4,
        ensures
            saved_matches(r, *self, key@),
    {
        let auth_password_encrypted = match &self.auth_password {
            Some(p) => match encrypt_password(key, p.as_str()) {
                Ok(e) => Some(e),
                Err(_) => None,
            },
            None => None,
        };
        SavedInstance {
            id: uuid_to_string(self.id),
            name: self.name.clone(),
            bind_addr: self.bind_addr.clone(),
            port: self.port,
            mode: self.mode,
            local_protocol: self.local_protocol,
            auth_username: clone_opt_string(&self.auth_username),
            auth_password_encrypted,
            auth_password_legacy: None,
            auto_rotate: self.auto_rotate,
            auto_rotate_minutes: self.auto_rotate_minutes,
            proxy_list: self.proxy_list.clone(),
            created_at: self.created_at,
            auto_start_on_boot: self.auto_start_on_boot,
            proxy_chain: clone_opt_chain(&self.proxy_chain),
        }
    }

    /// The reported state of the instance.
    pub fn to_info(&self) -> (r: ProxyInstanceInfo)
        ensures
            info_matches(r, *self),
    {
        ProxyInstanceInfo {
            id: uuid_to_string(self.id),
            name: self.name.clone(),
            bind_addr: self.bind_addr.clone(),
            port: self.port,
            mode: self.mode,
            status: ProxyStatusInfo::from_status(&self.status),
            upstream: clone_opt_proxy(&self.upstream),
            local_protocol: self.local_protocol,
            has_auth: self.auth_username.is_some() && self.auth_password.is_some(),
            auto_rotate: self.auto_rotate,
            auto_rotate_minutes: self.auto_rotate_minutes,
            proxy_list: self.proxy_list.clone(),
            stats: self.stats.to_info(),
            upstream_latency_ms: self.upstream_latency_ms,
            auto_start_on_boot: self.auto_start_on_boot,
            anonymity_level: self.anonymity_level,
            proxy_chain: clone_opt_chain(&self.proxy_chain),
            upstream_country: None,
        }
    }

    /// Append a line to the instance's log.
    pub fn push_log(&mut self, msg: String)
        ensures
            final(self).logs@ == newest(old(self).logs@.push(msg)),
            texts(final(self).logs@) == newest(texts(old(self).logs@).push(msg@)),
            *final(self) == (ProxyInstance { logs: final(self).logs, ..*old(self) }),
    {
        self.logs.push(msg);
        proof {
            lemma_texts_newest_push(old(self).logs@, msg);
        }
    }

    /// The log lines, oldest first.
    pub fn get_logs(&self) -> (r: Vec<String>)
        ensures
            r@ == self.logs@,
    {
        self.logs.lines()
    }

    /// The connection records, newest first, at most `limit` of them.
    pub fn get_connection_logs(&self, limit: Option<usize>) -> (r: Vec<ConnectionLogEntry>)
        ensures
            r@ == newest_first(self.connection_logs@, limit),
    {
        self.connection_logs.newest_first(limit)
    }

    pub fn clear_connection_logs(&mut self)
        ensures
            final(self).connection_logs@ == Seq::<ConnectionLogEntry>::empty(),
            final(self).logs@ == old(self).logs@,
            final(self).id == old(self).id,
    {
        self.connection_logs.clear();
    }
}

} // verus!
