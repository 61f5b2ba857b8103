//! The set of local proxy instances, keyed by identifier: creating,
//! renaming and deleting them, and the transitions of their status as they
//! start, run, fail and stop.
use vstd::prelude::*;
use crate::anonymity_check::AnonymityLevel;
use crate::proxy_chain::ProxyChainConfig;
use crate::proxy_instance::{
    ProxyInstance, ProxyInstanceInfo, info_matches, fresh_runtime, newest, zero_stats,
    ConnectionLogEntry, opt_proxy, opt_chain, MAX_LOGS, lemma_newest_push,
};
use crate::proxy_type::{Proxy, ProxyMode, ProxyProtocol, ProxyView, clone_proxy};
use crate::text::{trim, trim_str, chars_of, string_of, is_ws, cat, decimal_string, decimal};
use crate::proxy_instance::{ProxyStatus, texts, lemma_texts_newest_push};
use crate::proxy_chain::clone_proxies;
use crate::proxy_lists::proxy_views;
use crate::proxy_type::{protocol_name, proxy_url, host_port};
use crate::proxy_instance::{SavedInstance, saved_matches};
use crate::cred_encrypt::{utf8_bytes, NONCE_LEN};

verus! {

broadcast use vstd::string::group_string_axioms;

/// Maximum number of proxy instances.
pub const MAX_INSTANCES: usize = 100;

/// No two instances share an identifier.
pub open spec fn unique_ids(s: Seq<ProxyInstance>) -> bool {
    forall|i: int, j: int| 0 <= i < s.len() && 0 <= j < s.len() && i != j ==> s[i].id != s[j].id
}

/// No two instances listen on the same address and port.
pub open spec fn distinct_endpoints(s: Seq<ProxyInstance>) -> bool {
    forall|i: int, j: int|
        0 <= i < s.len() && 0 <= j < s.len() && i != j ==> !(#[trigger] s[i].port == #[trigger] s[j].port
            && s[i].bind_addr@ == s[j].bind_addr@)
}

/// Putting `x` at `i` keeps the endpoints distinct when `x` listens where
/// the instance it replaces did, or where no other instance does.
proof fn lemma_distinct_update(s: Seq<ProxyInstance>, i: int, x: ProxyInstance)
    requires
        distinct_endpoints(s),
        0 <= i < s.len(),
        (x.port == s[i].port && x.bind_addr@ == s[i].bind_addr@) || forall|k: int|
            0 <= k < s.len() && k != i ==> !(#[trigger] s[k].port == x.port && s[k].bind_addr@ == x.bind_addr@),
    ensures
        distinct_endpoints(s.update(i, x)),
{
    let t = s.update(i, x);
    assert forall|a: int, b: int| 0 <= a < t.len() && 0 <= b < t.len() && a != b implies !(
    #[trigger] t[a].port == #[trigger] t[b].port && t[a].bind_addr@ == t[b].bind_addr@) by {
        if a != i && b != i {
            assert(t[a] == s[a] && t[b] == s[b]);
        } else if a == i {
            assert(t[b] == s[b]);
            assert(s[b].port == s[b].port);
        } else {
            assert(t[a] == s[a]);
            assert(s[a].port == s[a].port);
        }
    }
}

/// The position of the instance with identifier `id` in `s`.
pub open spec fn has_id(s: Seq<ProxyInstance>, id: u128) -> bool {
    exists|i: int| 0 <= i < s.len() && s[i].id == id
}

/// The instances of `s` by identifier.
pub open spec fn map_of(s: Seq<ProxyInstance>) -> Map<u128, ProxyInstance> {
    Map::new(
        |id: u128| has_id(s, id),
        |id: u128| s[choose|i: int| 0 <= i < s.len() && s[i].id == id],
    )
}

pub proof fn lemma_map_index(s: Seq<ProxyInstance>, i: int)
    requires
        unique_ids(s),
        0 <= i < s.len(),
    ensures
        map_of(s).dom().contains(s[i].id),
        map_of(s)[s[i].id] == s[i],
{
    let id = s[i].id;
    assert(has_id(s, id));
    let k = choose|k: int| 0 <= k < s.len() && s[k].id == id;
    assert(k == i);
}

pub proof fn lemma_map_push(s: Seq<ProxyInstance>, x: ProxyInstance)
    requires
        unique_ids(s),
        !has_id(s, x.id),
    ensures
        unique_ids(s.push(x)),
        map_of(s.push(x)) == map_of(s).insert(x.id, x),
        map_of(s.push(x)).dom().len() == map_of(s).dom().len() + 1,
{
    let t = s.push(x);
    assert forall|i: int, j: int| 0 <= i < t.len() && 0 <= j < t.len() && i != j implies t[i].id
        != t[j].id by {
        if i == s.len() {
            assert(s[j].id == t[j].id);
        } else if j == s.len() {
            assert(s[i].id == t[i].id);
        }
    }
    let m = map_of(s).insert(x.id, x);
    assert forall|id: u128| #[trigger] map_of(t).dom().contains(id) <==> m.dom().contains(id) by {
        if has_id(t, id) {
            let k = choose|k: int| 0 <= k < t.len() && t[k].id == id;
            if k < s.len() {
                assert(s[k].id == id);
            }
        }
        if has_id(s, id) {
            let k = choose|k: int| 0 <= k < s.len() && s[k].id == id;
            assert(t[k].id == id);
        }
        if id == x.id {
            assert(t[s.len() as int].id == id);
        }
    }
    assert forall|id: u128| #[trigger] map_of(t).dom().contains(id) implies map_of(t)[id] == m[id] by {
        let k = choose|k: int| 0 <= k < t.len() && t[k].id == id;
        lemma_map_index(t, k);
        if k < s.len() {
            assert(s[k] == t[k]);
            lemma_map_index(s, k);
        }
    }
    assert(map_of(t) =~= m);
    lemma_map_finite(s);
}

pub proof fn lemma_map_finite(s: Seq<ProxyInstance>)
    ensures
        map_of(s).dom().finite(),
    decreases s.len(),
{
    if s.len() == 0 {
        assert(map_of(s).dom() =~= Set::<u128>::empty());
    } else {
        let t = s.drop_last();
        lemma_map_finite(t);
        assert(map_of(s).dom() =~= map_of(t).dom().insert(s.last().id)) by {
            assert forall|id: u128| map_of(s).dom().contains(id) implies map_of(t).dom().insert(
                s.last().id,
            ).contains(id) by {
                let k = choose|k: int| 0 <= k < s.len() && s[k].id == id;
                if k < t.len() {
                    assert(t[k].id == id);
                }
            }
            assert forall|id: u128| map_of(t).dom().contains(id) implies map_of(s).dom().contains(
                id,
            ) by {
                let k = choose|k: int| 0 <= k < t.len() && t[k].id == id;
                assert(s[k].id == id);
            }
            assert(s[s.len() - 1].id == s.last().id);
        }
    }
}

pub proof fn lemma_map_len(s: Seq<ProxyInstance>)
    requires
        unique_ids(s),
    ensures
        map_of(s).dom().len() == s.len(),
    decreases s.len(),
{
    if s.len() == 0 {
        assert(map_of(s).dom() =~= Set::<u128>::empty());
    } else {
        let t = s.drop_last();
        assert(unique_ids(t));
        lemma_map_len(t);
        assert(!has_id(t, s.last().id)) by {
            if has_id(t, s.last().id) {
                let k = choose|k: int| 0 <= k < t.len() && t[k].id == s.last().id;
                assert(s[k].id == s[s.len() - 1].id);
            }
        }
        lemma_map_push(t, s.last());
        assert(t.push(s.last()) =~= s);
    }
}

pub proof fn lemma_map_update(s: Seq<ProxyInstance>, i: int, x: ProxyInstance)
    requires
        unique_ids(s),
        0 <= i < s.len(),
        x.id == s[i].id,
    ensures
        unique_ids(s.update(i, x)),
        map_of(s.update(i, x)) == map_of(s).insert(x.id, x),
{
    let t = s.update(i, x);
    assert forall|a: int, b: int| 0 <= a < t.len() && 0 <= b < t.len() && a != b implies t[a].id
        != t[b].id by {
        assert(t[a].id == s[a].id);
        assert(t[b].id == s[b].id);
    }
    let m = map_of(s).insert(x.id, x);
    assert forall|id: u128| #[trigger] map_of(t).dom().contains(id) <==> m.dom().contains(id) by {
        if has_id(t, id) {
            let k = choose|k: int| 0 <= k < t.len() && t[k].id == id;
            assert(s[k].id == id);
        }
        if has_id(s, id) {
            let k = choose|k: int| 0 <= k < s.len() && s[k].id == id;
            assert(t[k].id == id);
        }
        lemma_map_index(s, i);
    }
    assert forall|id: u128| #[trigger] map_of(t).dom().contains(id) implies map_of(t)[id] == m[id] by {
        let k = choose|k: int| 0 <= k < t.len() && t[k].id == id;
        lemma_map_index(t, k);
        if k != i {
            lemma_map_index(s, k);
        }
    }
    assert(map_of(t) =~= m);
}

pub proof fn lemma_map_remove(s: Seq<ProxyInstance>, i: int)
    requires
        unique_ids(s),
        0 <= i < s.len(),
    ensures
        unique_ids(s.remove(i)),
        map_of(s.remove(i)) == map_of(s).remove(s[i].id),
{
    let t = s.remove(i);
    assert forall|a: int, b: int| 0 <= a < t.len() && 0 <= b < t.len() && a != b implies t[a].id
        != t[b].id by {
        let a2 = if a < i { a } else { a + 1 };
        let b2 = if b < i { b } else { b + 1 };
        assert(t[a] == s[a2]);
        assert(t[b] == s[b2]);
    }
    let m = map_of(s).remove(s[i].id);
    assert forall|id: u128| #[trigger] map_of(t).dom().contains(id) <==> m.dom().contains(id) by {
        if has_id(t, id) {
            let k = choose|k: int| 0 <= k < t.len() && t[k].id == id;
            let k2 = if k < i { k } else { k + 1 };
            assert(s[k2].id == id);
        }
        if has_id(s, id) && id != s[i].id {
            let k = choose|k: int| 0 <= k < s.len() && s[k].id == id;
            let k2 = if k < i { k } else { k - 1 };
            assert(t[k2].id == id);
        }
    }
    assert forall|id: u128| #[trigger] map_of(t).dom().contains(id) implies map_of(t)[id] == m[id] by {
        let k = choose|k: int| 0 <= k < t.len() && t[k].id == id;
        let k2 = if k < i { k } else { k + 1 };
        lemma_map_index(t, k);
        lemma_map_index(s, k2);
    }
    assert(map_of(t) =~= m);
}

// ---------------------------------------------------------------------------
// The manager
// ---------------------------------------------------------------------------

/// Why an operation on the instances was refused.
#[derive(Debug)]
pub enum ManagerError {
    /// Binding to every interface (`0.0.0.0` or `::`) is refused.
    InvalidBindAddr,
    /// There are already [`MAX_INSTANCES`] instances.
    TooManyInstances,
    /// Another instance listens on the same address and port.
    PortInUse { port: u16, bind_addr: String, name: String },
    /// The name is empty or only whitespace.
    EmptyName,
    /// Port 0.
    InvalidPort,
    /// SOCKS4 has no authentication, so a user or password is refused.
    Socks4Auth,
    /// No instance has this identifier.
    NotFound(u128),
    AlreadyRunning,
    AlreadyStarting,
    /// The instance was deleted while it was starting.
    DeletedWhileStarting,
    /// The instance is no longer starting.
    NotStarting,
    NotRunning,
}

/// Manages the local proxy instances.
pub struct ProxyManager {
    instances: Vec<ProxyInstance>,
    default_concurrency: usize,
}

impl View for ProxyManager {
    type V = Map<u128, ProxyInstance>;

    closed spec fn view(&self) -> Map<u128, ProxyInstance> {
        map_of(self.instances@)
    }
}

/// The address an instance binds: trimmed, `127.0.0.1` when empty; binding
/// every interface is refused.
pub open spec fn normalized_bind(addr: Seq<char>) -> Option<Seq<char>> {
    let t = trim(addr);
    if t.len() == 0 {
        Some("127.0.0.1"@)
    } else if t == "0.0.0.0"@ || t == "::"@ {
        None
    } else {
        Some(t)
    }
}

/// Normalize a bind address: `127.0.0.1` for an empty one; `0.0.0.0` and
/// `::` are refused, as they would open the proxy to the whole network.
pub fn normalize_bind_addr(addr: String) -> (r: Result<String, String>)
    ensures
        match normalized_bind(addr@) {
            Some(b) => r matches Ok(s) && s@ == b,
            None => r is Err,
        },
{
    let t = trim_str(addr.as_str());
    let v = chars_of(t.as_str());
    proof {
        reveal_strlit("0.0.0.0");
        reveal_strlit("::");
        reveal_strlit("127.0.0.1");
    }
    if v.len() == 0 {
        return Ok(String::from_str("127.0.0.1"));
    }
    let is_any4 = v.len() == 7 && v[0] == '0' && v[1] == '.' && v[2] == '0' && v[3] == '.' && v[4]
        == '0' && v[5] == '.' && v[6] == '0';
    let is_any6 = v.len() == 2 && v[0] == ':' && v[1] == ':';
    if is_any4 || is_any6 {
        assert(is_any4 ==> v@ =~= "0.0.0.0"@);
        assert(is_any6 ==> v@ =~= "::"@);
        return Err(
            String::from_str(
                "Binding to 0.0.0.0 or :: makes the proxy accessible to the entire network. Use 127.0.0.1 for local-only access.",
            ),
        );
    }
    assert(v@ != "0.0.0.0"@) by {
        if v@ == "0.0.0.0"@ {
            assert(v@[0] == '0' && v@[1] == '.' && v@[2] == '0' && v@[3] == '.');
        }
    }
    assert(v@ != "::"@) by {
        if v@ == "::"@ {
            assert(v@[0] == ':' && v@[1] == ':');
        }
    }
    Ok(t)
}

/// A user name or a password is given and not empty.
pub open spec fn gives_credentials(u: Option<String>, p: Option<String>) -> bool {
    (u matches Some(s) && s@.len() > 0) || (p matches Some(s) && s@.len() > 0)
}

/// Some instance of `m` listens on `bind:port`.
pub open spec fn uses_endpoint(m: Map<u128, ProxyInstance>, port: u16, bind: Seq<char>) -> bool {
    exists|id: u128| #[trigger] m.dom().contains(id) && m[id].port == port && m[id].bind_addr@ == bind
}

/// The rotation interval kept for an instance, in minutes: 1 to 1440.
pub open spec fn clamp_minutes(m: u64) -> u64 {
    if m < 1 {
        1
    } else if m > 1440 {
        1440
    } else {
        m
    }
}

pub open spec fn clamp_opt_minutes(m: Option<u64>) -> Option<u64> {
    match m {
        Some(x) => Some(clamp_minutes(x)),
        None => None,
    }
}

pub fn clamp_rotation_minutes(m: u64) -> (r: u64)
    ensures
        r == clamp_minutes(m),
{
    if m < 1 {
        1
    } else if m > 1440 {
        1440
    } else {
        m
    }
}

/// `inst` is the instance `create_instance` makes of these arguments.
pub open spec fn created_as(
    inst: ProxyInstance,
    name: String,
    bind: Seq<char>,
    port: u16,
    mode: ProxyMode,
    local_protocol: ProxyProtocol,
    auth_username: Option<String>,
    auth_password: Option<String>,
    auto_rotate: bool,
    proxy_list: String,
    auto_rotate_minutes: Option<u64>,
    auto_start_on_boot: bool,
    proxy_chain: Option<ProxyChainConfig>,
) -> bool {
    &&& inst.name == name
    &&& inst.bind_addr@ == bind
    &&& inst.port == port
    &&& inst.mode == mode
    &&& inst.local_protocol == local_protocol
    &&& inst.auth_username == auth_username
    &&& inst.auth_password == auth_password
    &&& inst.auto_rotate == auto_rotate
    &&& inst.proxy_list == proxy_list
    &&& inst.auto_rotate_minutes == clamp_opt_minutes(auto_rotate_minutes)
    &&& inst.auto_start_on_boot == auto_start_on_boot
    &&& inst.proxy_chain == proxy_chain
    &&& fresh_runtime(inst)
}

impl ProxyManager {
    /// The manager's own invariant: identifiers are unique, no two
    /// instances listen on the same address and port, and there are at most
    /// [`MAX_INSTANCES`] instances.
    pub closed spec fn wf(&self) -> bool {
        &&& unique_ids(self.instances@)
        &&& distinct_endpoints(self.instances@)
        &&& self.instances@.len() <= MAX_INSTANCES
    }

    /// No two instances of a manager listen on the same address and port:
    /// creating one on a used address and port is refused, and no operation
    /// moves an instance to another.
    pub proof fn lemma_endpoints_distinct(&self, a: u128, b: u128)
        requires
            self.wf(),
            self@.dom().contains(a),
            self@.dom().contains(b),
            self@[a].port == self@[b].port,
            self@[a].bind_addr@ == self@[b].bind_addr@,
        ensures
            a == b,
    {
        let s = self.instances@;
        let i = choose|i: int| 0 <= i < s.len() && s[i].id == a;
        let j = choose|j: int| 0 <= j < s.len() && s[j].id == b;
        lemma_map_index(s, i);
        lemma_map_index(s, j);
        if i != j {
            assert(s[i].port == s[j].port);
        }
    }

    /// A manager never holds more than [`MAX_INSTANCES`] instances: every
    /// operation keeps its invariant, and the invariant bounds the count.
    pub proof fn lemma_instances_bounded(&self)
        requires
            self.wf(),
        ensures
            self@.dom().finite(),
            self@.dom().len() <= MAX_INSTANCES,
    {
        lemma_map_len(self.instances@);
        lemma_map_finite(self.instances@);
    }

    /// How many proxies are tested at once.
    pub closed spec fn concurrency(&self) -> usize {
        self.default_concurrency
    }

    pub fn default_concurrency(&self) -> (r: usize)
        ensures
            r == self.concurrency(),
    {
        self.default_concurrency
    }

    pub fn new(default_concurrency: usize) -> (r: Self)
        ensures
            r.wf(),
            r@ == Map::<u128, ProxyInstance>::empty(),
            r.concurrency() == default_concurrency,
    {
        let r = ProxyManager { instances: Vec::new(), default_concurrency };
        assert(r@ =~= Map::<u128, ProxyInstance>::empty());
        r
    }

    /// The number of instances.
    pub fn len(&self) -> (n: usize)
        requires
            self.wf(),
        ensures
            n == self@.dom().len(),
            self@.dom().finite(),
    {
        proof {
            lemma_map_len(self.instances@);
            lemma_map_finite(self.instances@);
        }
        self.instances.len()
    }

    /// The position of instance `id`.
    fn find(&self, id: u128) -> (r: Option<usize>)
        requires
            self.wf(),
        ensures
            match r {
                Some(i) => i < self.instances@.len() && self.instances@[i as int].id == id
                    && self@.dom().contains(id) && self@[id] == self.instances@[i as int],
                None => !self@.dom().contains(id),
            },
    {
        let mut i: usize = 0;
        while i < self.instances.len()
            invariant
                unique_ids(self.instances@),
                i <= self.instances@.len(),
                forall|k: int| 0 <= k < i ==> self.instances@[k].id != id,
            decreases self.instances.len() - i,
        {
            if self.instances[i].id == id {
                proof {
                    lemma_map_index(self.instances@, i as int);
                }
                return Some(i);
            }
            i = i + 1;
        }
        None
    }

    /// Take out the instance at `i`, to be put back by [`Self::put_back`].
    fn take_at(&mut self, i: usize) -> (r: ProxyInstance)
        requires
            old(self).wf(),
            i < old(self).instances@.len(),
        ensures
            r == old(self).instances@[i as int],
            final(self).instances@ == old(self).instances@.remove(i as int),
            final(self).concurrency() == old(self).concurrency(),
    {
        self.instances.remove(i)
    }

    /// Put an instance with the same identifier back where it was taken.
    fn put_back(&mut self, i: usize, inst: ProxyInstance, Ghost(before): Ghost<Seq<ProxyInstance>>)
        requires
            unique_ids(before),
            distinct_endpoints(before),
            before.len() <= MAX_INSTANCES,
            i < before.len(),
            (inst.port == before[i as int].port && inst.bind_addr@ == before[i as int].bind_addr@) || forall|k: int|
                0 <= k < before.len() && k != i ==> !(#[trigger] before[k].port == inst.port && before[k].bind_addr@
                    == inst.bind_addr@),
            old(self).instances@ == before.remove(i as int),
            inst.id == before[i as int].id,
        ensures
            final(self).wf(),
            final(self)@ == map_of(before).insert(inst.id, inst),
            final(self).instances@ == before.update(i as int, inst),
            final(self).concurrency() == old(self).concurrency(),
    {
        self.instances.insert(i, inst);
        proof {
            assert(self.instances@ =~= before.update(i as int, inst));
            lemma_map_update(before, i as int, inst);
            lemma_distinct_update(before, i as int, inst);
        }
    }

    /// Create a stopped instance, after checking in this order: the bind
    /// address, the number of instances, that no instance listens on the
    /// same address and port, the name, the port, and that a SOCKS4
    /// instance has no credentials. The rotation interval is clamped to
    /// 1..1440 minutes.
    #[verifier::loop_isolation(false)]
    pub fn create_instance(
        &mut self,
        name: String,
        bind_addr: String,
        port: u16,
        mode: ProxyMode,
        local_protocol: ProxyProtocol,
        auth_username: Option<String>,
        auth_password: Option<String>,
        auto_rotate: bool,
        proxy_list: String,
        auto_rotate_minutes: Option<u64>,
        auto_start_on_boot: bool,
        proxy_chain: Option<ProxyChainConfig>,
    ) -> (r: Result<ProxyInstanceInfo, ManagerError>)
        requires
            old(self).wf(),
        ensures
            final(self).wf(),
            final(self).concurrency() == old(self).concurrency(),
            r is Err ==> final(self)@ == old(self)@,
            match normalized_bind(bind_addr@) {
                None => r matches Err(ManagerError::InvalidBindAddr),
                Some(b) => if old(self)@.dom().len() >= MAX_INSTANCES {
                    r matches Err(ManagerError::TooManyInstances)
                } else if uses_endpoint(old(self)@, port, b) {
                    r matches Err(ManagerError::PortInUse { port: q, bind_addr: c, name: n }) && q
                        == port && c@ == b && exists|id: u128| #[trigger]
                        old(self)@.dom().contains(id) && old(self)@[id].port == port && old(
                        self,
                    )@[id].bind_addr@ == b && old(self)@[id].name@ == n@
                } else if trim(name@).len() == 0 {
                    r matches Err(ManagerError::EmptyName)
                } else if port == 0 {
                    r matches Err(ManagerError::InvalidPort)
                } else if local_protocol == ProxyProtocol::Socks4 && gives_credentials(
                    auth_username,
                    auth_password,
                ) {
                    r matches Err(ManagerError::Socks4Auth)
                } else {
                    r matches Ok(info) && exists|id: u128| #[trigger]
                        final(self)@.dom().contains(id) && final(self)@ == old(self)@.insert(
                            id,
                            final(self)@[id],
                        ) && created_as(
                            final(self)@[id],
                            name,
                            b,
                            port,
                            mode,
                            local_protocol,
                            auth_username,
                            auth_password,
                            auto_rotate,
                            proxy_list,
                            auto_rotate_minutes,
                            auto_start_on_boot,
                            proxy_chain,
                        ) && info_matches(info, final(self)@[id])
                },
            },
    {
        let ghost orig = bind_addr@;
        let bind_addr = match normalize_bind_addr(bind_addr) {
            Ok(b) => b,
            Err(_) => return Err(ManagerError::InvalidBindAddr),
        };
        let n = self.len();
        if n >= MAX_INSTANCES {
            return Err(ManagerError::TooManyInstances);
        }
        let bv = chars_of(bind_addr.as_str());
        let mut i: usize = 0;
        while i < self.instances.len()
            invariant
                self.wf(),
                *self == *old(self),
                old(self)@.dom().len() < MAX_INSTANCES,
                normalized_bind(orig) == Some(bind_addr@),
                i <= self.instances@.len(),
                bv@ == bind_addr@,
                forall|k: int| 0 <= k < i ==> !(self.instances@[k].port == port
                    && self.instances@[k].bind_addr@ == bind_addr@),
            decreases self.instances.len() - i,
        {
            let other = &self.instances[i];
            if other.port == port {
                let ov = chars_of(other.bind_addr.as_str());
                if crate::text::chars_eq(&ov, &bv) {
                    proof {
                        lemma_map_index(self.instances@, i as int);
                        assert(old(self)@.dom().contains(other.id) && old(self)@[other.id].port
                            == port && old(self)@[other.id].bind_addr@ == bind_addr@);
                        assert(uses_endpoint(old(self)@, port, bind_addr@));
                    }
                    return Err(
                        ManagerError::PortInUse {
                            port,
                            bind_addr: bind_addr.clone(),
                            name: other.name.clone(),
                        },
                    );
                }
            }
            i = i + 1;
        }
        assert(!uses_endpoint(self@, port, bind_addr@)) by {
            if uses_endpoint(self@, port, bind_addr@) {
                let id = choose|id: u128| #[trigger]
                    self@.dom().contains(id) && self@[id].port == port && self@[id].bind_addr@
                        == bind_addr@;
                let k = choose|k: int| 0 <= k < self.instances@.len() && self.instances@[k].id == id;
                lemma_map_index(self.instances@, k);
            }
        }
        let tn = trim_str(name.as_str());
        if tn.as_str().unicode_len() == 0 {
            return Err(ManagerError::EmptyName);
        }
        if port == 0 {
            return Err(ManagerError::InvalidPort);
        }
        if local_protocol == ProxyProtocol::Socks4 {
            let has_user = match &auth_username {
                Some(u) => u.as_str().unicode_len() > 0,
                None => false,
            };
            let has_pass = match &auth_password {
                Some(p) => p.as_str().unicode_len() > 0,
                None => false,
            };
            if has_user || has_pass {
                return Err(ManagerError::Socks4Auth);
            }
        }
        let minutes = match auto_rotate_minutes {
            Some(m) => Some(clamp_rotation_minutes(m)),
            None => None,
        };
        let instance = ProxyInstance::new(
            name,
            bind_addr,
            port,
            mode,
            local_protocol,
            auth_username,
            auth_password,
            auto_rotate,
            proxy_list,
            minutes,
            auto_start_on_boot,
            proxy_chain,
        );
        let info = instance.to_info();
        let id = instance.id;
        let ghost inst = instance;
        match self.find(id) {
            Some(k) => {
                let ghost before = self.instances@;
                let _replaced = self.take_at(k);
                self.put_back(k, instance, Ghost(before));
            },
            None => {
                let ghost before = self.instances@;
                proof {
                    assert(!has_id(before, id));
                    lemma_map_push(before, inst);
                    lemma_map_len(before);
                }
                self.instances.push(instance);
            },
        }
        assert(self@.dom().contains(id) && self@[id] == inst);
        assert(self@ == old(self)@.insert(id, self@[id]));
        Ok(info)
    }
}

// ---------------------------------------------------------------------------
// Log messages
// ---------------------------------------------------------------------------

pub open spec fn msg_upstream(p: ProxyView) -> Seq<char> {
    "Upstream: "@ + proxy_url(p)
}

pub open spec fn msg_local_protocol(p: ProxyProtocol) -> Seq<char> {
    "Local protocol: "@ + protocol_name(p)
}

pub open spec fn msg_listening(bind: Seq<char>, port: u16) -> Seq<char> {
    "Listening on "@ + host_port(bind, port)
}

pub open spec fn msg_chain(hops: nat) -> Seq<char> {
    "Proxy chain enabled ("@ + decimal(hops) + " intermediate hops)"@
}

/// The interval shown for a rotation: the instance's, else 5 minutes.
pub open spec fn shown_minutes(minutes: Option<u64>) -> nat {
    match minutes {
        Some(m) => m as nat,
        None => 5,
    }
}

pub open spec fn msg_rotation(minutes: Option<u64>) -> Seq<char> {
    "Auto-rotation enabled (every "@ + decimal(shown_minutes(minutes)) + " min)"@
}

pub open spec fn msg_tor(pid: u32) -> Seq<char> {
    "Tor process started (PID "@ + decimal(pid as nat) + ")"@
}

pub open spec fn msg_error(m: Seq<char>) -> Seq<char> {
    "Error: "@ + m
}

pub open spec fn msg_interval(minutes: u64) -> Seq<char> {
    "Rotation interval updated to "@ + decimal(minutes as nat) + " min"@
}

/// The log of `after` is that of `before` with `msgs` appended, oldest
/// entries dropped beyond the limit.
pub open spec fn logged(before: ProxyInstance, after: ProxyInstance, msgs: Seq<Seq<char>>) -> bool {
    texts(after.logs@) == newest(texts(before.logs@) + msgs)
}

/// Appending one more message to a log that already got `msgs`.
proof fn lemma_logged_more(a: ProxyInstance, b: ProxyInstance, c: ProxyInstance, msgs: Seq<Seq<char>>, m: Seq<char>)
    requires
        logged(a, b, msgs),
        texts(c.logs@) == newest(texts(b.logs@).push(m)),
    ensures
        logged(a, c, msgs.push(m)),
{
    lemma_newest_push(texts(a.logs@) + msgs, m);
    assert((texts(a.logs@) + msgs).push(m) =~= texts(a.logs@) + msgs.push(m));
}

proof fn lemma_logged_one(a: ProxyInstance, b: ProxyInstance, m: Seq<char>)
    requires
        texts(b.logs@) == newest(texts(a.logs@).push(m)),
    ensures
        logged(a, b, seq![m]),
{
    assert(texts(a.logs@) + seq![m] =~= texts(a.logs@).push(m));
}

// ---------------------------------------------------------------------------
// Starting, running, failing, stopping
// ---------------------------------------------------------------------------

/// What the caller needs to find an upstream for a starting instance.
#[derive(Debug)]
pub struct StartContext {
    pub mode: ProxyMode,
    pub default_concurrency: usize,
    pub local_protocol: ProxyProtocol,
    pub proxy_list: String,
    pub auto_rotate_minutes: Option<u64>,
    pub bind_addr: String,
    pub port: u16,
}

/// What the caller starts once an instance runs: the listener, with its
/// credentials and chain, and whether a rotation task is due.
#[derive(Debug)]
pub struct ServePlan {
    pub listen_addr: String,
    pub local_protocol: ProxyProtocol,
    /// User name and password, when a non-empty user name and a password are set.
    pub auth: Option<(String, String)>,
    /// The intermediate proxies, when a chain is enabled and not empty.
    pub chain: Option<Vec<Proxy>>,
    pub start_rotation: bool,
}

/// The background work a stop or a deletion ends.
#[derive(Debug, Clone, Copy, PartialEq, Eq, Structural)]
pub struct StopPlan {
    pub cancel_discovery: bool,
    pub cancel_rotation: bool,
    pub cancel_server: bool,
}

/// What to do with an instance's rotation task.
#[derive(Debug, Clone, Copy, PartialEq, Eq, Structural)]
pub enum RotationAction {
    Keep,
    /// Cancel the task, if one runs.
    Stop,
    /// Start a task with this interval (cancelling the previous one, if any).
    Start(Option<u64>),
}

/// An instance rotates its upstream when it runs in automatic mode with
/// rotation enabled.
pub open spec fn starts_rotation(i: ProxyInstance) -> bool {
    i.auto_rotate && i.mode == ProxyMode::Auto
}

/// The intermediate proxies of an enabled, non-empty chain.
pub open spec fn active_chain(c: Option<ProxyChainConfig>) -> Option<Seq<ProxyView>> {
    match c {
        Some(cfg) => if cfg.enabled && cfg.proxies@.len() > 0 {
            Some(proxy_views(cfg.proxies@))
        } else {
            None
        },
        None => None,
    }
}

/// The credentials the listener checks: a non-empty user name with a password.
pub open spec fn listener_auth(u: Option<String>, p: Option<String>) -> Option<(Seq<char>, Seq<char>)> {
    match (u, p) {
        (Some(user), Some(pass)) => if user@.len() > 0 {
            Some((user@, pass@))
        } else {
            None
        },
        _ => None,
    }
}

pub open spec fn chain_msgs(c: Option<ProxyChainConfig>) -> Seq<Seq<char>> {
    match active_chain(c) {
        Some(v) => seq![msg_chain(v.len())],
        None => Seq::empty(),
    }
}

pub open spec fn rotation_msgs(i: ProxyInstance) -> Seq<Seq<char>> {
    if starts_rotation(i) {
        seq![msg_rotation(i.auto_rotate_minutes)]
    } else {
        Seq::empty()
    }
}

/// The lines logged when an instance starts serving through `up`.
pub open spec fn serving_msgs(i: ProxyInstance, up: ProxyView) -> Seq<Seq<char>> {
    seq![msg_upstream(up), msg_local_protocol(i.local_protocol), msg_listening(i.bind_addr@, i.port)]
        + chain_msgs(i.proxy_chain) + rotation_msgs(i)
}

/// `b` is `a` marked as starting.
pub open spec fn marked_starting(a: ProxyInstance, b: ProxyInstance) -> bool {
    &&& b == (ProxyInstance {
        status: ProxyStatus::Starting,
        discovery_active: true,
        stats: zero_stats(),
        upstream_latency_ms: 0,
        logs: b.logs,
        ..a
    })
    &&& logged(a, b, seq!["Starting…"@])
}

/// `b` is `a` serving through `up`, measured at `latency_ms`.
pub open spec fn marked_serving(a: ProxyInstance, b: ProxyInstance, up: Proxy, latency_ms: u64) -> bool {
    &&& b == (ProxyInstance {
        status: ProxyStatus::Running,
        discovery_active: false,
        upstream_latency_ms: latency_ms,
        upstream: Some(up),
        server_active: true,
        rotation_active: a.rotation_active || starts_rotation(a),
        logs: b.logs,
        ..a
    })
    &&& logged(a, b, serving_msgs(a, up@))
}

/// `b` is `a` running through Tor started as process `pid`.
pub open spec fn marked_tor(a: ProxyInstance, b: ProxyInstance, pid: u32) -> bool {
    &&& b == (ProxyInstance {
        status: ProxyStatus::Running,
        discovery_active: false,
        upstream: b.upstream,
        server_active: true,
        logs: b.logs,
        ..a
    })
    &&& opt_proxy(b.upstream) == Some(
        ProxyView { host: a.bind_addr@, port: a.port, protocol: ProxyProtocol::Socks5 },
    )
    &&& logged(a, b, seq![msg_tor(pid)])
}

/// `b` is `a` stopped.
pub open spec fn marked_stopped(a: ProxyInstance, b: ProxyInstance) -> bool {
    &&& b == (ProxyInstance {
        status: ProxyStatus::Stopped,
        discovery_active: false,
        rotation_active: false,
        server_active: false,
        upstream: None,
        upstream_latency_ms: 0,
        stats: zero_stats(),
        logs: b.logs,
        ..a
    })
    &&& logged(a, b, seq!["Stopped"@])
}

pub open spec fn stop_plan_of(a: ProxyInstance) -> StopPlan {
    StopPlan {
        cancel_discovery: a.discovery_active,
        cancel_rotation: a.rotation_active,
        cancel_server: a.server_active,
    }
}

fn upstream_message(p: &Proxy) -> (r: String)
    ensures
        r@ == msg_upstream(p@),
{
    cat("Upstream: ", p.url().as_str())
}

fn local_protocol_message(p: ProxyProtocol) -> (r: String)
    ensures
        r@ == msg_local_protocol(p),
{
    cat("Local protocol: ", p.to_string().as_str())
}

fn listening_message(bind: &str, port: u16) -> (r: String)
    ensures
        r@ == msg_listening(bind@, port),
{
    cat("Listening on ", crate::proxy_type::format_host_port(bind, port).as_str())
}

fn chain_message(hops: usize) -> (r: String)
    ensures
        r@ == msg_chain(hops as nat),
{
    cat(cat("Proxy chain enabled (", decimal_string(hops as u64).as_str()).as_str(), " intermediate hops)")
}

fn rotation_message(minutes: Option<u64>) -> (r: String)
    ensures
        r@ == msg_rotation(minutes),
{
    let m = match minutes {
        Some(m) => m,
        None => 5,
    };
    cat(cat("Auto-rotation enabled (every ", decimal_string(m).as_str()).as_str(), " min)")
}

impl ProxyManager {
    /// Phase one of a start: the instance must exist and be neither running
    /// nor starting. It becomes starting, its counters and latency are reset,
    /// a search for an upstream is under way, and "Starting…" is logged.
    pub fn mark_starting(&mut self, id: u128) -> (r: Result<StartContext, ManagerError>)
        requires
            old(self).wf(),
        ensures
            final(self).wf(),
            final(self).concurrency() == old(self).concurrency(),
            r is Err ==> final(self)@ == old(self)@,
            !old(self)@.dom().contains(id) ==> (r matches Err(ManagerError::NotFound(x)) && x == id),
            old(self)@.dom().contains(id) ==> match old(self)@[id].status {
                ProxyStatus::Running => r matches Err(ManagerError::AlreadyRunning),
                ProxyStatus::Starting => r matches Err(ManagerError::AlreadyStarting),
                _ => r matches Ok(ctx) && final(self)@.dom().contains(id) && final(self)@ == old(
                    self,
                )@.insert(id, final(self)@[id]) && marked_starting(old(self)@[id], final(self)@[id])
                    && ctx.mode == old(self)@[id].mode && ctx.default_concurrency
                    == old(self).concurrency() && ctx.local_protocol == old(self)@[id].local_protocol
                    && ctx.proxy_list == old(self)@[id].proxy_list && ctx.auto_rotate_minutes
                    == old(self)@[id].auto_rotate_minutes && ctx.bind_addr == old(self)@[id].bind_addr
                    && ctx.port == old(self)@[id].port,
            },
    {
        let i = match self.find(id) {
            None => return Err(ManagerError::NotFound(id)),
            Some(i) => i,
        };
        match &self.instances[i].status {
            ProxyStatus::Running => return Err(ManagerError::AlreadyRunning),
            ProxyStatus::Starting => return Err(ManagerError::AlreadyStarting),
            _ => {},
        }
        let ghost before = self.instances@;
        let mut inst = self.take_at(i);
        let ghost a = inst;
        inst.discovery_active = true;
        inst.stats.reset();
        inst.upstream_latency_ms = 0;
        inst.status = ProxyStatus::Starting;
        let ghost mid = inst;
        inst.push_log(String::from_str("Starting…"));
        proof {
            lemma_logged_one(mid, inst, "Starting…"@);
        }
        let ctx = StartContext {
            mode: inst.mode,
            default_concurrency: self.default_concurrency,
            local_protocol: inst.local_protocol,
            proxy_list: inst.proxy_list.clone(),
            auto_rotate_minutes: inst.auto_rotate_minutes,
            bind_addr: inst.bind_addr.clone(),
            port: inst.port,
        };
        self.put_back(i, inst, Ghost(before));
        Ok(ctx)
    }

    /// Phase two of a start: the instance must still exist and be starting.
    /// It records the upstream and its latency, logs the upstream, the local
    /// protocol, the address it listens on, an enabled chain and an enabled
    /// rotation, and runs.
    pub fn finish_start(&mut self, id: u128, upstream_proxy: Proxy, latency_ms: u64) -> (r: Result<(ProxyInstanceInfo, ServePlan), ManagerError>)
        requires
            old(self).wf(),
        ensures
            final(self).wf(),
            final(self).concurrency() == old(self).concurrency(),
            r is Err ==> final(self)@ == old(self)@,
            !old(self)@.dom().contains(id) ==> r matches Err(ManagerError::DeletedWhileStarting),
            old(self)@.dom().contains(id) && !(old(self)@[id].status is Starting) ==> r matches Err(
                ManagerError::NotStarting,
            ),
            old(self)@.dom().contains(id) && old(self)@[id].status is Starting ==> (r matches Ok(
                (info, plan),
            ) && final(self)@.dom().contains(id) && final(self)@ == old(self)@.insert(
                id,
                final(self)@[id],
            ) && marked_serving(old(self)@[id], final(self)@[id], upstream_proxy, latency_ms)
                && info_matches(info, final(self)@[id]) && plan.listen_addr@ == host_port(
                old(self)@[id].bind_addr@,
                old(self)@[id].port,
            ) && plan.local_protocol == old(self)@[id].local_protocol && match listener_auth(
                old(self)@[id].auth_username,
                old(self)@[id].auth_password,
            ) {
                Some((u, p)) => plan.auth matches Some((pu, pp)) && pu@ == u && pp@ == p,
                None => plan.auth is None,
            } && match active_chain(old(self)@[id].proxy_chain) {
                Some(c) => plan.chain matches Some(v) && proxy_views(v@) == c,
                None => plan.chain is None,
            } && plan.start_rotation == starts_rotation(old(self)@[id])),
    {
        let i = match self.find(id) {
            None => return Err(ManagerError::DeletedWhileStarting),
            Some(i) => i,
        };
        match &self.instances[i].status {
            ProxyStatus::Starting => {},
            _ => return Err(ManagerError::NotStarting),
        }
        let ghost before = self.instances@;
        let mut inst = self.take_at(i);
        let ghost a = inst;
        inst.discovery_active = false;
        inst.upstream_latency_ms = latency_ms;
        let m1 = upstream_message(&upstream_proxy);
        inst.upstream = Some(upstream_proxy);
        inst.server_active = true;
        let listen_addr = crate::proxy_type::format_host_port(inst.bind_addr.as_str(), inst.port);
        let ghost s0 = inst;
        inst.push_log(m1);
        let ghost s1 = inst;
        proof {
            lemma_logged_one(s0, s1, msg_upstream(upstream_proxy@));
        }
        inst.push_log(local_protocol_message(inst.local_protocol));
        proof {
            lemma_logged_more(s0, s1, inst, seq![msg_upstream(upstream_proxy@)], msg_local_protocol(a.local_protocol));
            assert(seq![msg_upstream(upstream_proxy@)].push(msg_local_protocol(a.local_protocol))
                =~= seq![msg_upstream(upstream_proxy@), msg_local_protocol(a.local_protocol)]);
        }
        let ghost s2 = inst;
        inst.push_log(listening_message(inst.bind_addr.as_str(), inst.port));
        proof {
            lemma_logged_more(s0, s2, inst, seq![msg_upstream(upstream_proxy@), msg_local_protocol(a.local_protocol)], msg_listening(a.bind_addr@, a.port));
            assert(seq![msg_upstream(upstream_proxy@), msg_local_protocol(a.local_protocol)].push(
                msg_listening(a.bind_addr@, a.port)) =~= seq![msg_upstream(upstream_proxy@), msg_local_protocol(a.local_protocol), msg_listening(a.bind_addr@, a.port)]);
        }
        let ghost base = seq![msg_upstream(upstream_proxy@), msg_local_protocol(a.local_protocol), msg_listening(a.bind_addr@, a.port)];
        let auth = match (&inst.auth_username, &inst.auth_password) {
            (Some(u), Some(p)) => if u.as_str().unicode_len() > 0 {
                Some((u.clone(), p.clone()))
            } else {
                None
            },
            _ => None,
        };
        let chain = match &inst.proxy_chain {
            Some(c) => if c.enabled && c.proxies.len() > 0 {
                Some(clone_proxies(&c.proxies))
            } else {
                None
            },
            None => None,
        };
        let ghost s3 = inst;
        match &chain {
            Some(v) => {
                let hops = v.len();
                inst.push_log(chain_message(hops));
                proof {
                    lemma_logged_more(s0, s3, inst, base, msg_chain(hops as nat));
                    assert(base + chain_msgs(a.proxy_chain) =~= base.push(msg_chain(hops as nat)));
                }
            },
            None => {
                assert(base + chain_msgs(a.proxy_chain) =~= base);
            },
        }
        let ghost with_chain = base + chain_msgs(a.proxy_chain);
        inst.status = ProxyStatus::Running;
        let start_rotation = inst.auto_rotate && inst.mode == ProxyMode::Auto;
        let ghost s4 = inst;
        if start_rotation {
            inst.rotation_active = true;
            let ghost s5 = inst;
            inst.push_log(rotation_message(inst.auto_rotate_minutes));
            proof {
                assert(logged(s0, s5, with_chain));
                lemma_logged_more(s0, s5, inst, with_chain, msg_rotation(a.auto_rotate_minutes));
                assert(with_chain + rotation_msgs(a) =~= with_chain.push(msg_rotation(a.auto_rotate_minutes)));
            }
        } else {
            assert(with_chain + rotation_msgs(a) =~= with_chain);
        }
        proof {
            assert(logged(a, inst, serving_msgs(a, upstream_proxy@))) by {
                assert(texts(a.logs@) == texts(s0.logs@));
            }
        }
        let info = inst.to_info();
        let plan = ServePlan {
            listen_addr,
            local_protocol: inst.local_protocol,
            auth,
            chain,
            start_rotation,
        };
        self.put_back(i, inst, Ghost(before));
        Ok((info, plan))
    }
}

fn tor_message(pid: u32) -> (r: String)
    ensures
        r@ == msg_tor(pid),
{
    cat(cat("Tor process started (PID ", decimal_string(pid as u64).as_str()).as_str(), ")")
}

/// `b` is `a` with only its logs extended by `msgs`.
pub open spec fn only_logged(a: ProxyInstance, b: ProxyInstance, msgs: Seq<Seq<char>>) -> bool {
    b == (ProxyInstance { logs: b.logs, ..a }) && logged(a, b, msgs)
}

impl ProxyManager {
    /// Phase two of a start in Tor mode: the instance must still exist and be
    /// starting. Its upstream becomes the Tor SOCKS5 port it listens on, the
    /// process is logged, and it runs.
    pub fn finish_start_tor(&mut self, id: u128, pid: u32) -> (r: Result<ProxyInstanceInfo, ManagerError>)
        requires
            old(self).wf(),
        ensures
            final(self).wf(),
            final(self).concurrency() == old(self).concurrency(),
            r is Err ==> final(self)@ == old(self)@,
            !old(self)@.dom().contains(id) ==> r matches Err(ManagerError::DeletedWhileStarting),
            old(self)@.dom().contains(id) && !(old(self)@[id].status is Starting) ==> r matches Err(
                ManagerError::NotStarting,
            ),
            old(self)@.dom().contains(id) && old(self)@[id].status is Starting ==> (r matches Ok(info)
                && final(self)@.dom().contains(id) && final(self)@ == old(self)@.insert(
                id,
                final(self)@[id],
            ) && marked_tor(old(self)@[id], final(self)@[id], pid) && info_matches(
                info,
                final(self)@[id],
            )),
    {
        let i = match self.find(id) {
            None => return Err(ManagerError::DeletedWhileStarting),
            Some(i) => i,
        };
        match &self.instances[i].status {
            ProxyStatus::Starting => {},
            _ => return Err(ManagerError::NotStarting),
        }
        let ghost before = self.instances@;
        let mut inst = self.take_at(i);
        inst.discovery_active = false;
        inst.server_active = true;
        let ghost s0 = inst;
        inst.push_log(tor_message(pid));
        proof {
            lemma_logged_one(s0, inst, msg_tor(pid));
        }
        inst.upstream = Some(Proxy::new(inst.bind_addr.clone(), inst.port, ProxyProtocol::Socks5));
        inst.status = ProxyStatus::Running;
        let info = inst.to_info();
        self.put_back(i, inst, Ghost(before));
        Ok(info)
    }

    /// Record a failure: the instance, if it exists, logs "Error: msg" and
    /// takes the error status.
    pub fn mark_error(&mut self, id: u128, msg: String)
        requires
            old(self).wf(),
        ensures
            final(self).wf(),
            final(self).concurrency() == old(self).concurrency(),
            !old(self)@.dom().contains(id) ==> final(self)@ == old(self)@,
            old(self)@.dom().contains(id) ==> final(self)@.dom().contains(id) && final(self)@
                == old(self)@.insert(id, final(self)@[id]) && final(self)@[id] == (ProxyInstance {
                status: ProxyStatus::Error(msg),
                logs: final(self)@[id].logs,
                ..old(self)@[id]
            }) && logged(old(self)@[id], final(self)@[id], seq![msg_error(msg@)]),
    {
        match self.find(id) {
            None => {},
            Some(i) => {
                let ghost before = self.instances@;
                let mut inst = self.take_at(i);
                let ghost s0 = inst;
                inst.push_log(cat("Error: ", msg.as_str()));
                proof {
                    lemma_logged_one(s0, inst, msg_error(msg@));
                }
                inst.status = ProxyStatus::Error(msg);
                self.put_back(i, inst, Ghost(before));
            },
        }
    }

    /// Stop an instance: its background work is ended, its upstream,
    /// latency and counters are cleared, "Stopped" is logged, and it is
    /// stopped. Returns what the caller has to cancel.
    pub fn stop_instance(&mut self, id: u128) -> (r: Result<(ProxyInstanceInfo, StopPlan), ManagerError>)
        requires
            old(self).wf(),
        ensures
            final(self).wf(),
            final(self).concurrency() == old(self).concurrency(),
            r is Err ==> final(self)@ == old(self)@,
            !old(self)@.dom().contains(id) ==> (r matches Err(ManagerError::NotFound(x)) && x == id),
            old(self)@.dom().contains(id) ==> (r matches Ok((info, plan)) && final(self)@.dom().contains(
                id,
            ) && final(self)@ == old(self)@.insert(id, final(self)@[id]) && marked_stopped(
                old(self)@[id],
                final(self)@[id],
            ) && info_matches(info, final(self)@[id]) && plan == stop_plan_of(old(self)@[id])),
    {
        let i = match self.find(id) {
            None => return Err(ManagerError::NotFound(id)),
            Some(i) => i,
        };
        let ghost before = self.instances@;
        let mut inst = self.take_at(i);
        let plan = StopPlan {
            cancel_discovery: inst.discovery_active,
            cancel_rotation: inst.rotation_active,
            cancel_server: inst.server_active,
        };
        inst.discovery_active = false;
        inst.rotation_active = false;
        inst.server_active = false;
        inst.status = ProxyStatus::Stopped;
        inst.upstream = None;
        inst.upstream_latency_ms = 0;
        inst.stats.reset();
        let ghost s0 = inst;
        inst.push_log(String::from_str("Stopped"));
        proof {
            lemma_logged_one(s0, inst, "Stopped"@);
        }
        let info = inst.to_info();
        self.put_back(i, inst, Ghost(before));
        Ok((info, plan))
    }

    /// Delete an instance. When it was running, the work to end is returned
    /// (it is stopped first); a starting instance is removed as it is.
    pub fn delete_instance(&mut self, id: u128) -> (r: Result<Option<StopPlan>, ManagerError>)
        requires
            old(self).wf(),
        ensures
            final(self).wf(),
            final(self).concurrency() == old(self).concurrency(),
            !old(self)@.dom().contains(id) ==> (r matches Err(ManagerError::NotFound(x)) && x == id)
                && final(self)@ == old(self)@,
            old(self)@.dom().contains(id) ==> final(self)@ == old(self)@.remove(id) && r == Ok::<
                Option<StopPlan>,
                ManagerError,
            >(
                if old(self)@[id].status is Running {
                    Some(stop_plan_of(old(self)@[id]))
                } else {
                    None
                },
            ),
    {
        let i = match self.find(id) {
            None => return Err(ManagerError::NotFound(id)),
            Some(i) => i,
        };
        let ghost before = self.instances@;
        let inst = self.take_at(i);
        proof {
            lemma_map_remove(before, i as int);
        }
        match inst.status {
            ProxyStatus::Running => Ok(
                Some(
                    StopPlan {
                        cancel_discovery: inst.discovery_active,
                        cancel_rotation: inst.rotation_active,
                        cancel_server: inst.server_active,
                    },
                ),
            ),
            _ => Ok(None),
        }
    }

    /// Rename an instance; the name must not be empty or only whitespace.
    pub fn rename_instance(&mut self, id: u128, name: String) -> (r: Result<ProxyInstanceInfo, ManagerError>)
        requires
            old(self).wf(),
        ensures
            final(self).wf(),
            final(self).concurrency() == old(self).concurrency(),
            r is Err ==> final(self)@ == old(self)@,
            trim(name@).len() == 0 ==> r matches Err(ManagerError::EmptyName),
            trim(name@).len() > 0 && !old(self)@.dom().contains(id) ==> (r matches Err(
                ManagerError::NotFound(x),
            ) && x == id),
            trim(name@).len() > 0 && old(self)@.dom().contains(id) ==> (r matches Ok(info)
                && final(self)@ == old(self)@.insert(id, ProxyInstance { name: name, ..old(self)@[id] })
                && info_matches(info, final(self)@[id])),
    {
        let tn = trim_str(name.as_str());
        if tn.as_str().unicode_len() == 0 {
            return Err(ManagerError::EmptyName);
        }
        let i = match self.find(id) {
            None => return Err(ManagerError::NotFound(id)),
            Some(i) => i,
        };
        let ghost before = self.instances@;
        let mut inst = self.take_at(i);
        inst.name = name;
        let info = inst.to_info();
        self.put_back(i, inst, Ghost(before));
        Ok(info)
    }

    /// The reported state of instance `id`.
    pub fn get_instance(&self, id: u128) -> (r: Option<ProxyInstanceInfo>)
        requires
            self.wf(),
        ensures
            match r {
                Some(info) => self@.dom().contains(id) && info_matches(info, self@[id]),
                None => !self@.dom().contains(id),
            },
    {
        match self.find(id) {
            None => None,
            Some(i) => Some(self.instances[i].to_info()),
        }
    }

    /// The log lines of instance `id`, oldest first.
    pub fn get_instance_logs(&self, id: u128) -> (r: Result<Vec<String>, ManagerError>)
        requires
            self.wf(),
        ensures
            match r {
                Ok(v) => self@.dom().contains(id) && v@ == self@[id].logs@,
                Err(e) => !self@.dom().contains(id) && e == ManagerError::NotFound(id),
            },
    {
        match self.find(id) {
            None => Err(ManagerError::NotFound(id)),
            Some(i) => Ok(self.instances[i].get_logs()),
        }
    }

    /// The identifiers of the instances started at boot.
    pub fn get_auto_start_ids(&self) -> (r: Vec<u128>)
        requires
            self.wf(),
        ensures
            forall|id: u128| r@.contains(id) <==> self@.dom().contains(id) && self@[id].auto_start_on_boot,
            r@.no_duplicates(),
    {
        let mut r: Vec<u128> = Vec::new();
        let mut i: usize = 0;
        while i < self.instances.len()
            invariant
                unique_ids(self.instances@),
                i <= self.instances@.len(),
                r@.no_duplicates(),
                forall|id: u128| r@.contains(id) <==> exists|k: int| 0 <= k < i && #[trigger] self.instances@[k].id == id
                    && self.instances@[k].auto_start_on_boot,
            decreases self.instances.len() - i,
        {
            if self.instances[i].auto_start_on_boot {
                let id = self.instances[i].id;
                assert(!r@.contains(id)) by {
                    if r@.contains(id) {
                        let k = choose|k: int| 0 <= k < i && #[trigger] self.instances@[k].id == id
                            && self.instances@[k].auto_start_on_boot;
                    }
                }
                let ghost old_r = r@;
                r.push(id);
                assert forall|x: u128| r@.contains(x) <==> exists|k: int| 0 <= k < i + 1 && #[trigger] self.instances@[k].id == x
                    && self.instances@[k].auto_start_on_boot by {
                    if x == id {
                        assert(self.instances@[i as int].id == x);
                        assert(r@[old_r.len() as int] == x);
                    }
                    if r@.contains(x) && x != id {
                        let j = choose|j: int| 0 <= j < r@.len() && r@[j] == x;
                        assert(old_r[j] == x);
                        assert(old_r.contains(x));
                    }
                    if x != id && (exists|k: int| 0 <= k < i + 1 && #[trigger] self.instances@[k].id == x
                        && self.instances@[k].auto_start_on_boot) {
                        let k = choose|k: int| 0 <= k < i + 1 && #[trigger] self.instances@[k].id == x
                            && self.instances@[k].auto_start_on_boot;
                        assert(k < i);
                        assert(old_r.contains(x));
                        let j = choose|j: int| 0 <= j < old_r.len() && old_r[j] == x;
                        assert(r@[j] == x);
                    }
                }
            }
            i = i + 1;
        }
        proof {
            assert forall|id: u128| r@.contains(id) <==> self@.dom().contains(id) && self@[id].auto_start_on_boot by {
                if self@.dom().contains(id) {
                    let k = choose|k: int| 0 <= k < self.instances@.len() && self.instances@[k].id == id;
                    lemma_map_index(self.instances@, k);
                }
                if r@.contains(id) {
                    let k = choose|k: int| 0 <= k < self.instances@.len() && #[trigger] self.instances@[k].id == id
                        && self.instances@[k].auto_start_on_boot;
                    lemma_map_index(self.instances@, k);
                }
            }
        }
        r
    }
}

fn interval_message(minutes: u64) -> (r: String)
    ensures
        r@ == msg_interval(minutes),
{
    cat(cat("Rotation interval updated to ", decimal_string(minutes).as_str()).as_str(), " min")
}

impl ProxyManager {
    /// The upstream and local protocol of a running instance, to change its IP.
    pub fn get_change_ip_context(&self, id: u128) -> (r: Result<(Option<Proxy>, ProxyProtocol), ManagerError>)
        requires
            self.wf(),
        ensures
            !self@.dom().contains(id) ==> (r matches Err(ManagerError::NotFound(x)) && x == id),
            self@.dom().contains(id) && !(self@[id].status is Running) ==> r matches Err(
                ManagerError::NotRunning,
            ),
            self@.dom().contains(id) && self@[id].status is Running ==> (r matches Ok((up, p))
                && opt_proxy(up) == opt_proxy(self@[id].upstream) && p == self@[id].local_protocol),
    {
        let i = match self.find(id) {
            None => return Err(ManagerError::NotFound(id)),
            Some(i) => i,
        };
        let inst = &self.instances[i];
        match inst.status {
            ProxyStatus::Running => {},
            _ => return Err(ManagerError::NotRunning),
        }
        Ok((crate::proxy_instance::clone_opt_proxy(&inst.upstream), inst.local_protocol))
    }

    /// Turn starting at boot on or off.
    pub fn toggle_auto_start_on_boot(&mut self, id: u128, enabled: bool) -> (r: Result<ProxyInstanceInfo, ManagerError>)
        requires
            old(self).wf(),
        ensures
            final(self).wf(),
            final(self).concurrency() == old(self).concurrency(),
            !old(self)@.dom().contains(id) ==> (r matches Err(ManagerError::NotFound(x)) && x == id)
                && final(self)@ == old(self)@,
            old(self)@.dom().contains(id) ==> (r matches Ok(info) && final(self)@ == old(self)@.insert(
                id,
                ProxyInstance { auto_start_on_boot: enabled, ..old(self)@[id] },
            ) && info_matches(info, final(self)@[id])),
    {
        let i = match self.find(id) {
            None => return Err(ManagerError::NotFound(id)),
            Some(i) => i,
        };
        let ghost before = self.instances@;
        let mut inst = self.take_at(i);
        inst.auto_start_on_boot = enabled;
        let info = inst.to_info();
        self.put_back(i, inst, Ghost(before));
        Ok(info)
    }

    /// Select the proxy list an instance draws its upstreams from.
    pub fn update_proxy_list(&mut self, id: u128, proxy_list: String) -> (r: Result<ProxyInstanceInfo, ManagerError>)
        requires
            old(self).wf(),
        ensures
            final(self).wf(),
            final(self).concurrency() == old(self).concurrency(),
            !old(self)@.dom().contains(id) ==> (r matches Err(ManagerError::NotFound(x)) && x == id)
                && final(self)@ == old(self)@,
            old(self)@.dom().contains(id) ==> (r matches Ok(info) && final(self)@ == old(self)@.insert(
                id,
                ProxyInstance { proxy_list: proxy_list, ..old(self)@[id] },
            ) && info_matches(info, final(self)@[id])),
    {
        let i = match self.find(id) {
            None => return Err(ManagerError::NotFound(id)),
            Some(i) => i,
        };
        let ghost before = self.instances@;
        let mut inst = self.take_at(i);
        inst.proxy_list = proxy_list;
        let info = inst.to_info();
        self.put_back(i, inst, Ghost(before));
        Ok(info)
    }

    /// Turn rotation on or off. Turning it off ends a running rotation task
    /// and logs it; turning it on starts a task for a running instance in
    /// automatic mode that has none.
    pub fn toggle_auto_rotate(&mut self, id: u128, enabled: bool) -> (r: Result<(ProxyInstanceInfo, RotationAction), ManagerError>)
        requires
            old(self).wf(),
        ensures
            final(self).wf(),
            final(self).concurrency() == old(self).concurrency(),
            !old(self)@.dom().contains(id) ==> (r matches Err(ManagerError::NotFound(x)) && x == id)
                && final(self)@ == old(self)@,
            old(self)@.dom().contains(id) ==> {
                let a = old(self)@[id];
                let b = final(self)@[id];
                &&& final(self)@.dom().contains(id)
                &&& final(self)@ == old(self)@.insert(id, b)
                &&& r matches Ok((info, action))
                &&& info_matches(info, b)
                &&& if !enabled {
                    &&& b == (ProxyInstance { auto_rotate: false, rotation_active: false, logs: b.logs, ..a })
                    &&& logged(a, b, seq!["Auto-rotation disabled"@])
                    &&& action == (if a.rotation_active { RotationAction::Stop } else { RotationAction::Keep })
                } else if a.status is Running && a.mode == ProxyMode::Auto && !a.rotation_active {
                    &&& b == (ProxyInstance { auto_rotate: true, rotation_active: true, logs: b.logs, ..a })
                    &&& logged(a, b, seq![msg_rotation(a.auto_rotate_minutes)])
                    &&& action == RotationAction::Start(a.auto_rotate_minutes)
                } else {
                    &&& b == (ProxyInstance { auto_rotate: true, ..a })
                    &&& action == RotationAction::Keep
                }
            },
    {
        let i = match self.find(id) {
            None => return Err(ManagerError::NotFound(id)),
            Some(i) => i,
        };
        let ghost before = self.instances@;
        let mut inst = self.take_at(i);
        inst.auto_rotate = enabled;
        let action;
        if !enabled {
            action = if inst.rotation_active {
                RotationAction::Stop
            } else {
                RotationAction::Keep
            };
            inst.rotation_active = false;
            let ghost s0 = inst;
            inst.push_log(String::from_str("Auto-rotation disabled"));
            proof {
                lemma_logged_one(s0, inst, "Auto-rotation disabled"@);
            }
        } else {
            let running = match inst.status {
                ProxyStatus::Running => true,
                _ => false,
            };
            if running && inst.mode == ProxyMode::Auto && !inst.rotation_active {
                inst.rotation_active = true;
                let ghost s0 = inst;
                inst.push_log(rotation_message(inst.auto_rotate_minutes));
                proof {
                    lemma_logged_one(s0, inst, msg_rotation(s0.auto_rotate_minutes));
                }
                action = RotationAction::Start(inst.auto_rotate_minutes);
            } else {
                action = RotationAction::Keep;
            }
        }
        let info = inst.to_info();
        self.put_back(i, inst, Ghost(before));
        Ok((info, action))
    }

    /// Set the rotation interval, clamped to 1..1440 minutes. A running
    /// rotation task of a running instance in automatic mode is restarted
    /// with the new interval, and that is logged.
    pub fn update_auto_rotate_minutes(&mut self, id: u128, minutes: u64) -> (r: Result<(ProxyInstanceInfo, RotationAction), ManagerError>)
        requires
            old(self).wf(),
        ensures
            final(self).wf(),
            final(self).concurrency() == old(self).concurrency(),
            !old(self)@.dom().contains(id) ==> (r matches Err(ManagerError::NotFound(x)) && x == id)
                && final(self)@ == old(self)@,
            old(self)@.dom().contains(id) ==> {
                let a = old(self)@[id];
                let b = final(self)@[id];
                let m = clamp_minutes(minutes);
                &&& final(self)@.dom().contains(id)
                &&& final(self)@ == old(self)@.insert(id, b)
                &&& r matches Ok((info, action))
                &&& info_matches(info, b)
                &&& if a.auto_rotate && a.status is Running && a.mode == ProxyMode::Auto {
                    &&& b == (ProxyInstance { auto_rotate_minutes: Some(m), rotation_active: true, logs: b.logs, ..a })
                    &&& logged(a, b, seq![msg_interval(m)])
                    &&& action == RotationAction::Start(Some(m))
                } else {
                    &&& b == (ProxyInstance { auto_rotate_minutes: Some(m), ..a })
                    &&& action == RotationAction::Keep
                }
            },
    {
        let m = clamp_rotation_minutes(minutes);
        let i = match self.find(id) {
            None => return Err(ManagerError::NotFound(id)),
            Some(i) => i,
        };
        let ghost before = self.instances@;
        let mut inst = self.take_at(i);
        inst.auto_rotate_minutes = Some(m);
        let running = match inst.status {
            ProxyStatus::Running => true,
            _ => false,
        };
        let action;
        if inst.auto_rotate && running && inst.mode == ProxyMode::Auto {
            inst.rotation_active = true;
            let ghost s0 = inst;
            inst.push_log(interval_message(m));
            proof {
                lemma_logged_one(s0, inst, msg_interval(m));
            }
            action = RotationAction::Start(Some(m));
        } else {
            action = RotationAction::Keep;
        }
        let info = inst.to_info();
        self.put_back(i, inst, Ghost(before));
        Ok((info, action))
    }

    /// Switch the upstream of an instance (rotation, change of IP).
    pub fn set_upstream(&mut self, id: u128, upstream: Option<Proxy>, latency_ms: u64)
        requires
            old(self).wf(),
        ensures
            final(self).wf(),
            final(self).concurrency() == old(self).concurrency(),
            !old(self)@.dom().contains(id) ==> final(self)@ == old(self)@,
            old(self)@.dom().contains(id) ==> final(self)@ == old(self)@.insert(
                id,
                ProxyInstance { upstream: upstream, upstream_latency_ms: latency_ms, ..old(self)@[id] },
            ),
    {
        match self.find(id) {
            None => {},
            Some(i) => {
                let ghost before = self.instances@;
                let mut inst = self.take_at(i);
                inst.upstream = upstream;
                inst.upstream_latency_ms = latency_ms;
                self.put_back(i, inst, Ghost(before));
            },
        }
    }

    /// Record the anonymity level measured for an instance's upstream.
    pub fn set_anonymity_level(&mut self, id: u128, level: Option<AnonymityLevel>)
        requires
            old(self).wf(),
        ensures
            final(self).wf(),
            final(self).concurrency() == old(self).concurrency(),
            !old(self)@.dom().contains(id) ==> final(self)@ == old(self)@,
            old(self)@.dom().contains(id) ==> final(self)@ == old(self)@.insert(
                id,
                ProxyInstance { anonymity_level: level, ..old(self)@[id] },
            ),
    {
        match self.find(id) {
            None => {},
            Some(i) => {
                let ghost before = self.instances@;
                let mut inst = self.take_at(i);
                inst.anonymity_level = level;
                self.put_back(i, inst, Ghost(before));
            },
        }
    }

    /// Append a line to the log of instance `id`, if it exists.
    pub fn push_log(&mut self, id: u128, msg: String)
        requires
            old(self).wf(),
        ensures
            final(self).wf(),
            final(self).concurrency() == old(self).concurrency(),
            !old(self)@.dom().contains(id) ==> final(self)@ == old(self)@,
            old(self)@.dom().contains(id) ==> final(self)@.dom().contains(id) && final(self)@
                == old(self)@.insert(id, final(self)@[id]) && only_logged(
                old(self)@[id],
                final(self)@[id],
                seq![msg@],
            ),
    {
        match self.find(id) {
            None => {},
            Some(i) => {
                let ghost before = self.instances@;
                let mut inst = self.take_at(i);
                let ghost s0 = inst;
                inst.push_log(msg);
                proof {
                    lemma_logged_one(s0, inst, msg@);
                }
                self.put_back(i, inst, Ghost(before));
            },
        }
    }

    /// Record a served connection for instance `id`, if it exists.
    pub fn push_connection(&mut self, id: u128, entry: ConnectionLogEntry)
        requires
            old(self).wf(),
        ensures
            final(self).wf(),
            final(self).concurrency() == old(self).concurrency(),
            !old(self)@.dom().contains(id) ==> final(self)@ == old(self)@,
            old(self)@.dom().contains(id) ==> final(self)@.dom().contains(id) && final(self)@
                == old(self)@.insert(id, final(self)@[id]) && final(self)@[id] == (ProxyInstance {
                connection_logs: final(self)@[id].connection_logs,
                ..old(self)@[id]
            }) && final(self)@[id].connection_logs@ == newest(
                old(self)@[id].connection_logs@.push(entry),
            ),
    {
        match self.find(id) {
            None => {},
            Some(i) => {
                let ghost before = self.instances@;
                let mut inst = self.take_at(i);
                inst.connection_logs.push(entry);
                self.put_back(i, inst, Ghost(before));
            },
        }
    }

    /// Update the counters of instance `id`, if it exists: a request, a
    /// success after `success_latency_ms`, and `bytes` relayed.
    pub fn record_stats(&mut self, id: u128, request: bool, success_latency_ms: Option<u64>, bytes: u64)
        requires
            old(self).wf(),
        ensures
            final(self).wf(),
            final(self).concurrency() == old(self).concurrency(),
            !old(self)@.dom().contains(id) ==> final(self)@ == old(self)@,
            old(self)@.dom().contains(id) ==> final(self)@.dom().contains(id) && final(self)@
                == old(self)@.insert(id, final(self)@[id]) && final(self)@[id] == (ProxyInstance {
                stats: final(self)@[id].stats,
                ..old(self)@[id]
            }) && final(self)@[id].stats == crate::proxy_instance::counted(
                old(self)@[id].stats,
                request,
                success_latency_ms,
                bytes,
            ),
    {
        match self.find(id) {
            None => {},
            Some(i) => {
                let ghost before = self.instances@;
                let mut inst = self.take_at(i);
                inst.stats.record(request, success_latency_ms, bytes);
                self.put_back(i, inst, Ghost(before));
            },
        }
    }
}

/// `order` lists every identifier of `m` once, by creation time.
pub open spec fn creation_order(m: Map<u128, ProxyInstance>, order: Seq<u128>) -> bool {
    &&& order.no_duplicates()
    &&& forall|id: u128| #[trigger] order.contains(id) <==> m.dom().contains(id)
    &&& forall|i: int, j: int|
        0 <= i < j < order.len() ==> m[order[i]].created_at <= m[order[j]].created_at
}

/// The hosts a running instance sends traffic to: the address of its Tor
/// process in Tor mode; else its upstream and, when its chain is enabled,
/// the chain's proxies.
pub open spec fn contacts_host(i: ProxyInstance, h: Seq<char>) -> bool {
    if i.mode == ProxyMode::Tor {
        h == i.bind_addr@
    } else {
        (i.upstream matches Some(u) && u.host@ == h) || (i.proxy_chain matches Some(c) && c.enabled
            && exists|k: int| 0 <= k < c.proxies@.len() && #[trigger] c.proxies@[k].host@ == h)
    }
}

pub open spec fn running_host(m: Map<u128, ProxyInstance>, h: Seq<char>) -> bool {
    exists|id: u128| #[trigger] m.dom().contains(id) && m[id].status is Running && contacts_host(m[id], h)
}

/// A string of `v` has the text `x`.
pub open spec fn has_text(v: Seq<String>, x: Seq<char>) -> bool {
    exists|k: int| 0 <= k < v.len() && #[trigger] v[k]@ == x
}

/// The texts of a list of strings have no repeats.
pub open spec fn distinct_texts(v: Seq<String>) -> bool {
    forall|i: int, j: int| 0 <= i < j < v.len() ==> v[i]@ != v[j]@
}

/// Whether `v` holds a string with the text `h`.
fn contains_text(v: &Vec<String>, h: &str) -> (r: bool)
    ensures
        r == has_text(v@, h@),
{
    let hv = chars_of(h);
    let mut i: usize = 0;
    while i < v.len()
        invariant
            i <= v@.len(),
            hv@ == h@,
            forall|k: int| 0 <= k < i ==> #[trigger] v@[k]@ != h@,
        decreases v.len() - i,
    {
        let x = chars_of(v[i].as_str());
        if crate::text::chars_eq(&x, &hv) {
            return true;
        }
        i = i + 1;
    }
    false
}

/// Add `h` to `v` unless a string with its text is there.
fn add_host(v: &mut Vec<String>, h: &String)
    requires
        distinct_texts(old(v)@),
    ensures
        distinct_texts(final(v)@),
        forall|x: Seq<char>| #[trigger] has_text(final(v)@, x) <==> (x == h@ || has_text(old(v)@, x)),
{
    if !contains_text(v, h.as_str()) {
        let ghost before = v@;
        v.push(h.clone());
        proof {
            assert forall|x: Seq<char>| #[trigger] has_text(v@, x) <==> (x == h@ || has_text(before, x)) by {
                if has_text(v@, x) {
                    let k = choose|k: int| 0 <= k < v@.len() && #[trigger] v@[k]@ == x;
                    if k < before.len() {
                        assert(before[k]@ == x);
                    }
                }
                if x == h@ {
                    assert(v@[before.len() as int]@ == x);
                }
                if has_text(before, x) {
                    let k = choose|k: int| 0 <= k < before.len() && #[trigger] before[k]@ == x;
                    assert(v@[k]@ == x);
                }
            }
        }
    }
}

impl ProxyManager {
    /// The reported state of every instance, by creation time.
    pub fn get_all(&self) -> (r: Vec<ProxyInstanceInfo>)
        requires
            self.wf(),
        ensures
            exists|order: Seq<u128>| #[trigger] creation_order(self@, order) && order.len() == r@.len()
                && forall|i: int| 0 <= i < r@.len() ==> info_matches(#[trigger] r@[i], self@[order[i]]),
    {
        let n = self.instances.len();
        let mut ids: Vec<u128> = Vec::new();
        let mut keys: Vec<u64> = Vec::new();
        let mut k: usize = 0;
        while k < n
            invariant
                n == self.instances@.len(),
                unique_ids(self.instances@),
                k <= n,
                ids@.len() == keys@.len(),
                ids@.no_duplicates(),
                forall|id: u128| #[trigger] ids@.contains(id) <==> exists|j: int| 0 <= j < k
                    && self.instances@[j].id == id,
                forall|j: int| 0 <= j < ids@.len() ==> self@.dom().contains(#[trigger] ids@[j])
                    && keys@[j] == self@[ids@[j]].created_at,
                forall|a: int, b: int| 0 <= a < b < keys@.len() ==> keys@[a] <= keys@[b],
            decreases n - k,
        {
            let c = self.instances[k].created_at;
            let id = self.instances[k].id;
            proof {
                lemma_map_index(self.instances@, k as int);
            }
            let mut pos: usize = 0;
            while pos < keys.len() && keys[pos] <= c
                invariant
                    pos <= keys@.len(),
                    forall|a: int| 0 <= a < pos ==> keys@[a] <= c,
                decreases keys.len() - pos,
            {
                pos = pos + 1;
            }
            assert(!ids@.contains(id)) by {
                if ids@.contains(id) {
                    let j = choose|j: int| 0 <= j < k && self.instances@[j].id == id;
                    assert(self.instances@[j].id == self.instances@[k as int].id);
                }
            }
            let ghost old_ids = ids@;
            let ghost old_keys = keys@;
            ids.insert(pos, id);
            keys.insert(pos, c);
            proof {
                assert forall|a: int, b: int| 0 <= a < b < keys@.len() implies keys@[a] <= keys@[b] by {
                    if b < pos {
                    } else if a > pos {
                        assert(keys@[a] == old_keys[a - 1]);
                        assert(keys@[b] == old_keys[b - 1]);
                    } else if a == pos {
                        assert(keys@[b] == old_keys[b - 1]);
                        if b - 1 >= pos {
                            assert(pos < old_keys.len() ==> old_keys[pos as int] > c);
                            assert(old_keys[pos as int] <= old_keys[b - 1]);
                        }
                    } else {
                        assert(keys@[a] == old_keys[a]);
                    }
                }
                assert forall|x: u128| #[trigger] ids@.contains(x) <==> exists|j: int| 0 <= j < k + 1
                    && self.instances@[j].id == x by {
                    if ids@.contains(x) {
                        let q = choose|q: int| 0 <= q < ids@.len() && ids@[q] == x;
                        if q != pos {
                            let q2 = if q < pos { q } else { q - 1 };
                            assert(old_ids[q2] == x);
                            assert(old_ids.contains(x));
                        }
                    }
                    if exists|j: int| 0 <= j < k + 1 && self.instances@[j].id == x {
                        let j = choose|j: int| 0 <= j < k + 1 && self.instances@[j].id == x;
                        if j == k {
                            assert(ids@[pos as int] == x);
                        } else {
                            assert(old_ids.contains(x));
                            let q = choose|q: int| 0 <= q < old_ids.len() && old_ids[q] == x;
                            let q2 = if q < pos { q } else { q + 1 };
                            assert(ids@[q2] == x);
                        }
                    }
                }
                assert forall|a: int, b: int| 0 <= a < b < ids@.len() implies ids@[a] != ids@[b] by {
                    if a != pos && b != pos {
                        let a2 = if a < pos { a } else { a - 1 };
                        let b2 = if b < pos { b } else { b - 1 };
                        assert(ids@[a] == old_ids[a2]);
                        assert(ids@[b] == old_ids[b2]);
                    } else if a == pos {
                        assert(old_ids.contains(ids@[b])) by {
                            assert(ids@[b] == old_ids[b - 1]);
                        }
                    } else {
                        assert(old_ids.contains(ids@[a])) by {
                            assert(ids@[a] == old_ids[a]);
                        }
                    }
                }
                assert forall|j: int| 0 <= j < ids@.len() implies self@.dom().contains(#[trigger] ids@[j])
                    && keys@[j] == self@[ids@[j]].created_at by {
                    if j < pos {
                        assert(ids@[j] == old_ids[j] && keys@[j] == old_keys[j]);
                    } else if j > pos {
                        assert(ids@[j] == old_ids[j - 1] && keys@[j] == old_keys[j - 1]);
                    }
                }
            }
            k = k + 1;
        }
        let mut r: Vec<ProxyInstanceInfo> = Vec::new();
        let mut t: usize = 0;
        while t < ids.len()
            invariant
                self.wf(),
                t <= ids@.len(),
                r@.len() == t,
                forall|j: int| 0 <= j < ids@.len() ==> self@.dom().contains(#[trigger] ids@[j]),
                forall|i: int| 0 <= i < t ==> info_matches(#[trigger] r@[i], self@[ids@[i]]),
            decreases ids.len() - t,
        {
            let i = match self.find(ids[t]) {
                Some(i) => i,
                None => {
                    assert(false);
                    return r;
                },
            };
            r.push(self.instances[i].to_info());
            t = t + 1;
        }
        proof {
            let order = ids@;
            assert forall|i: int, j: int| 0 <= i < j < order.len() implies self@[order[i]].created_at
                <= self@[order[j]].created_at by {
                assert(keys@[i] <= keys@[j]);
            }
            assert forall|id: u128| #[trigger] order.contains(id) <==> self@.dom().contains(id) by {
                if self@.dom().contains(id) {
                    let j = choose|j: int| 0 <= j < self.instances@.len() && self.instances@[j].id == id;
                }
            }
            assert(creation_order(self@, order));
        }
        r
    }

    /// For the kill switch: the ports of the running instances (each once,
    /// in no particular order) and the hosts they send traffic to (each once).
    pub fn get_running_kill_switch_context(&self) -> (r: (Vec<u16>, Vec<String>))
        requires
            self.wf(),
        ensures
            exists|order: Seq<u128>| #![trigger order.len()] order.no_duplicates() && order.len() == r.0@.len()
                && (forall|id: u128| #[trigger] order.contains(id) <==> self@.dom().contains(id)
                && self@[id].status is Running) && forall|i: int| 0 <= i < order.len() ==> r.0@[i]
                == self@[#[trigger] order[i]].port,
            distinct_texts(r.1@),
            forall|h: Seq<char>| #[trigger] has_text(r.1@, h) <==> running_host(self@, h),
    {
        let mut ports: Vec<u16> = Vec::new();
        let mut hosts: Vec<String> = Vec::new();
        let ghost mut order: Seq<u128> = Seq::empty();
        let mut i: usize = 0;
        while i < self.instances.len()
            invariant
                unique_ids(self.instances@),
                i <= self.instances@.len(),
                order.no_duplicates(),
                order.len() == ports@.len(),
                forall|id: u128| #[trigger] order.contains(id) <==> exists|j: int| 0 <= j < i
                    && self.instances@[j].id == id && self.instances@[j].status is Running,
                forall|q: int| 0 <= q < order.len() ==> self@.dom().contains(#[trigger] order[q])
                    && ports@[q] == self@[order[q]].port,
                distinct_texts(hosts@),
                forall|h: Seq<char>| #[trigger] has_text(hosts@, h) <==> exists|j: int| 0 <= j < i
                    && #[trigger] contacts_host(self.instances@[j], h) && self.instances@[j].status is Running,
            decreases self.instances.len() - i,
        {
            let inst = &self.instances[i];
            proof {
                lemma_map_index(self.instances@, i as int);
            }
            let ghost old_hosts = hosts@;
            let ghost old_order = order;
            let running = match inst.status {
                ProxyStatus::Running => true,
                _ => false,
            };
            if running {
                proof {
                    assert(!order.contains(inst.id)) by {
                        if order.contains(inst.id) {
                            let j = choose|j: int| 0 <= j < i && self.instances@[j].id == inst.id
                                && self.instances@[j].status is Running;
                        }
                    }
                    order = order.push(inst.id);
                }
                ports.push(inst.port);
                if inst.mode == ProxyMode::Tor {
                    add_host(&mut hosts, &inst.bind_addr);
                } else {
                    match &inst.upstream {
                        Some(u) => add_host(&mut hosts, &u.host),
                        None => {},
                    }
                    let ghost after_up = hosts@;
                    match &inst.proxy_chain {
                        Some(c) => if c.enabled {
                            let ghost before_chain = hosts@;
                            let mut q: usize = 0;
                            while q < c.proxies.len()
                                invariant
                                    q <= c.proxies@.len(),
                                    distinct_texts(hosts@),
                                    forall|h: Seq<char>| #[trigger] has_text(hosts@, h) <==> (has_text(before_chain, h)
                                        || exists|k: int| 0 <= k < q && #[trigger] c.proxies@[k].host@ == h),
                                decreases c.proxies.len() - q,
                            {
                                let ghost hq = hosts@;
                                add_host(&mut hosts, &c.proxies[q].host);
                                proof {
                                    assert forall|h: Seq<char>| #[trigger] has_text(hosts@, h) <==> (has_text(before_chain, h)
                                        || exists|k: int| 0 <= k < q + 1 && #[trigger] c.proxies@[k].host@ == h) by {
                                        if h == c.proxies@[q as int].host@ {
                                        }
                                        if exists|k: int| 0 <= k < q + 1 && #[trigger] c.proxies@[k].host@ == h {
                                            let k = choose|k: int| 0 <= k < q + 1 && #[trigger] c.proxies@[k].host@ == h;
                                            if k < q {
                                                assert(has_text(hq, h));
                                            }
                                        }
                                    }
                                }
                                q = q + 1;
                            }
                        },
                        None => {},
                    }
                    proof {
                        assert forall|h: Seq<char>| #[trigger] has_text(hosts@, h) <==> (has_text(old_hosts, h)
                            || contacts_host(*inst, h)) by {
                        }
                    }
                }
            }
            proof {
                assert forall|h: Seq<char>| #[trigger] has_text(hosts@, h) <==> (has_text(old_hosts, h)
                    || (running && contacts_host(*inst, h))) by {
                }
                assert forall|id: u128| #[trigger] order.contains(id) <==> exists|j: int| 0 <= j < i + 1
                    && self.instances@[j].id == id && self.instances@[j].status is Running by {
                    if order.contains(id) && !old_order.contains(id) {
                        assert(running);
                        assert(order == old_order.push(inst.id));
                        let q = choose|q: int| 0 <= q < order.len() && order[q] == id;
                        if q < old_order.len() {
                            assert(old_order[q] == id);
                        }
                        assert(self.instances@[i as int].id == id);
                    }
                    if exists|j: int| 0 <= j < i + 1 && self.instances@[j].id == id && self.instances@[j].status is Running {
                        let j = choose|j: int| 0 <= j < i + 1 && self.instances@[j].id == id && self.instances@[j].status is Running;
                        if j == i {
                            assert(order[order.len() - 1] == id);
                        } else {
                            assert(old_order.contains(id));
                            let q = choose|q: int| 0 <= q < old_order.len() && old_order[q] == id;
                            assert(order[q] == id);
                        }
                    }
                    if old_order.contains(id) {
                        let q = choose|q: int| 0 <= q < old_order.len() && old_order[q] == id;
                        assert(order[q] == id);
                    }
                }
                assert forall|h: Seq<char>| #[trigger] has_text(hosts@, h) <==> exists|j: int| 0 <= j < i + 1
                    && #[trigger] contacts_host(self.instances@[j], h) && self.instances@[j].status is Running by {
                    if exists|j: int| 0 <= j < i + 1 && #[trigger] contacts_host(self.instances@[j], h)
                        && self.instances@[j].status is Running {
                        let j = choose|j: int| 0 <= j < i + 1 && #[trigger] contacts_host(self.instances@[j], h)
                            && self.instances@[j].status is Running;
                        if j < i {
                            assert(has_text(old_hosts, h));
                        }
                    }
                }
            }
            i = i + 1;
        }
        proof {
            assert forall|id: u128| #[trigger] order.contains(id) <==> self@.dom().contains(id)
                && self@[id].status is Running by {
                if self@.dom().contains(id) {
                    let j = choose|j: int| 0 <= j < self.instances@.len() && self.instances@[j].id == id;
                    lemma_map_index(self.instances@, j);
                }
                if order.contains(id) {
                    let j = choose|j: int| 0 <= j < self.instances@.len() && self.instances@[j].id == id
                        && self.instances@[j].status is Running;
                    lemma_map_index(self.instances@, j);
                }
            }
            assert forall|h: Seq<char>| #[trigger] has_text(hosts@, h) <==> running_host(self@, h) by {
                if running_host(self@, h) {
                    let id = choose|id: u128| #[trigger] self@.dom().contains(id) && self@[id].status is Running
                        && contacts_host(self@[id], h);
                    let j = choose|j: int| 0 <= j < self.instances@.len() && self.instances@[j].id == id;
                    lemma_map_index(self.instances@, j);
                    assert(self.instances@[j].status is Running);
                }
                if has_text(hosts@, h) {
                    let j = choose|j: int| 0 <= j < self.instances@.len() && #[trigger] contacts_host(self.instances@[j], h)
                        && self.instances@[j].status is Running;
                    lemma_map_index(self.instances@, j);
                    assert(self@.dom().contains(self.instances@[j].id));
                }
            }
        }
        (ports, hosts)
    }
}


// ---------------------------------------------------------------------------
// Starting with a given upstream, and the kill switch around starts and stops
// ---------------------------------------------------------------------------

/// The protocol of a manually given upstream, by its name (case ignored):
/// `http` and `https` are served as HTTP, `socks4` as SOCKS4, anything
/// else, or no name, as SOCKS5.
pub open spec fn manual_protocol(name: Option<Seq<char>>) -> ProxyProtocol {
    let l = match name {
        Some(n) => crate::text::lower_text(n),
        None => "socks5"@,
    };
    if l == "http"@ || l == "https"@ {
        ProxyProtocol::Http
    } else if l == "socks4"@ {
        ProxyProtocol::Socks4
    } else {
        ProxyProtocol::Socks5
    }
}

/// The upstream given with a start request: a host and a port, with an
/// optional protocol name; none unless both host and port are given.
pub fn manual_upstream(host: Option<String>, port: Option<u16>, protocol: Option<String>) -> (r: Option<Proxy>)
    ensures
        match (host, port) {
            (Some(h), Some(p)) => r matches Some(x) && x.host == h && x.port == p && x.protocol
                == manual_protocol(crate::proxy_instance::opt_text(protocol)),
            _ => r is None,
        },
{
    match (host, port) {
        (Some(h), Some(p)) => {
            let l = match &protocol {
                Some(n) => crate::text::to_lowercase(n.as_str()),
                None => String::from_str("socks5"),
            };
            let lv = chars_of(l.as_str());
            let proto = if crate::text::eq_text(&lv, "http") || crate::text::eq_text(&lv, "https") {
                ProxyProtocol::Http
            } else if crate::text::eq_text(&lv, "socks4") {
                ProxyProtocol::Socks4
            } else {
                ProxyProtocol::Socks5
            };
            Some(Proxy::new(h, p, proto))
        },
        _ => None,
    }
}

/// Some instance is running.
pub open spec fn any_running(m: Map<u128, ProxyInstance>) -> bool {
    exists|id: u128| #[trigger] m.dom().contains(id) && m[id].status is Running
}

impl ProxyManager {
    /// Whether some instance is running.
    pub fn has_running(&self) -> (r: bool)
        requires
            self.wf(),
        ensures
            r == any_running(self@),
    {
        let mut i: usize = 0;
        while i < self.instances.len()
            invariant
                self.wf(),
                i <= self.instances@.len(),
                forall|k: int| 0 <= k < i ==> !(self.instances@[k].status is Running),
            decreases self.instances.len() - i,
        {
            if let ProxyStatus::Running = self.instances[i].status {
                proof {
                    lemma_map_index(self.instances@, i as int);
                }
                return true;
            }
            i = i + 1;
        }
        assert(!any_running(self@)) by {
            if any_running(self@) {
                let id = choose|id: u128| #[trigger] self@.dom().contains(id) && self@[id].status is Running;
                let k = choose|k: int| 0 <= k < self.instances@.len() && self.instances@[k].id == id;
                lemma_map_index(self.instances@, k);
            }
        }
        false
    }
}

/// After a stop, or a start that failed: the kill switch is to be activated
/// when it is enabled and no instance runs any more.
pub fn kill_switch_after_stop(kill_switch_enabled: bool, m: &ProxyManager) -> (r: bool)
    requires
        m.wf(),
    ensures
        r == (kill_switch_enabled && !any_running(m@)),
{
    kill_switch_enabled && !m.has_running()
}


/// The instance an identifier's text names: the UUID it spells, or `None`
/// when it is not one.
pub fn parse_instance_id(text: &str) -> (r: Option<u128>)
    ensures
        r == crate::codec::uuid_parsed(text@),
{
    crate::codec::parse_uuid(text)
}


// ---------------------------------------------------------------------------
// Loading and saving the instances
// ---------------------------------------------------------------------------

/// Whether an instance of `v` listens on `bind:port`.
fn endpoint_used(v: &Vec<ProxyInstance>, port: u16, bind: &str) -> (r: bool)
    requires
        unique_ids(v@),
    ensures
        r == uses_endpoint(map_of(v@), port, bind@),
        !r ==> forall|k: int| 0 <= k < v@.len() ==> !(#[trigger] v@[k].port == port && v@[k].bind_addr@ == bind@),
{
    let bv = chars_of(bind);
    let mut i: usize = 0;
    while i < v.len()
        invariant
            unique_ids(v@),
            i <= v@.len(),
            bv@ == bind@,
            forall|k: int| 0 <= k < i ==> !(#[trigger] v@[k].port == port && v@[k].bind_addr@ == bind@),
        decreases v.len() - i,
    {
        if v[i].port == port {
            let ov = chars_of(v[i].bind_addr.as_str());
            if crate::text::chars_eq(&ov, &bv) {
                proof {
                    lemma_map_index(v@, i as int);
                    let m = map_of(v@);
                    let id = v@[i as int].id;
                    assert(m.dom().contains(id) && m[id].port == port && m[id].bind_addr@ == bind@);
                }
                return true;
            }
        }
        i = i + 1;
    }
    proof {
        if uses_endpoint(map_of(v@), port, bind@) {
            let m = map_of(v@);
            let id = choose|id: u128| #[trigger] m.dom().contains(id) && m[id].port == port && m[id].bind_addr@ == bind@;
            let k = choose|k: int| 0 <= k < v@.len() && v@[k].id == id;
            lemma_map_index(v@, k);
        }
    }
    false
}

/// The stored password of an instance can be sealed: its UTF-8 bytes, with
/// the nonce and the tag, stay within the bound of the base64 encoder.
pub open spec fn password_fits(inst: ProxyInstance) -> bool {
    inst.auth_password matches Some(p) ==> utf8_bytes(p@).len() + NONCE_LEN + 16 <= usize::MAX / 4
}

/// Every instance of `m` can be saved.
pub open spec fn saveable(m: Map<u128, ProxyInstance>) -> bool {
    forall|id: u128| #[trigger] m.dom().contains(id) ==> password_fits(m[id])
}

impl ProxyManager {
    /// Add an instance read back from the saved file. Like an insertion by
    /// identifier, one with a known identifier replaces that instance; an
    /// instance is left out, and `false` returned, when it would listen
    /// where another instance listens, or when it is new and the manager is
    /// full, so that the manager's invariant holds whatever the file says.
    pub fn insert_loaded(&mut self, inst: ProxyInstance) -> (r: bool)
        requires
            old(self).wf(),
        ensures
            final(self).wf(),
            final(self).concurrency() == old(self).concurrency(),
            r == (if old(self)@.dom().contains(inst.id) {
                !uses_endpoint(old(self)@.remove(inst.id), inst.port, inst.bind_addr@)
            } else {
                old(self)@.dom().len() < MAX_INSTANCES && !uses_endpoint(old(self)@, inst.port, inst.bind_addr@)
            }),
            final(self)@ == (if r { old(self)@.insert(inst.id, inst) } else { old(self)@ }),
    {
        match self.find(inst.id) {
            Some(k) => {
                let ghost before = self.instances@;
                let prev = self.take_at(k);
                proof {
                    lemma_map_remove(before, k as int);
                    lemma_map_index(before, k as int);
                }
                let used = endpoint_used(&self.instances, inst.port, inst.bind_addr.as_str());
                if used {
                    self.put_back(k, prev, Ghost(before));
                    assert(map_of(before).insert(prev.id, prev) =~= map_of(before));
                    false
                } else {
                    proof {
                        let t = before.remove(k as int);
                        assert forall|j: int| 0 <= j < before.len() && j != k implies !(#[trigger] before[j].port
                            == inst.port && before[j].bind_addr@ == inst.bind_addr@) by {
                            let j2 = if j < k { j } else { j - 1 };
                            assert(t[j2] == before[j]);
                        }
                    }
                    self.put_back(k, inst, Ghost(before));
                    true
                }
            },
            None => {
                let n = self.len();
                if n >= MAX_INSTANCES {
                    return false;
                }
                if endpoint_used(&self.instances, inst.port, inst.bind_addr.as_str()) {
                    return false;
                }
                let ghost before = self.instances@;
                proof {
                    assert(!has_id(before, inst.id));
                    lemma_map_push(before, inst);
                    lemma_map_len(before);
                }
                self.instances.push(inst);
                proof {
                    let t = self.instances@;
                    assert forall|a: int, b: int| 0 <= a < t.len() && 0 <= b < t.len() && a != b implies !(
                    #[trigger] t[a].port == #[trigger] t[b].port && t[a].bind_addr@ == t[b].bind_addr@) by {
                        if a < before.len() && b < before.len() {
                            assert(t[a] == before[a] && t[b] == before[b]);
                        } else if a < before.len() {
                            assert(t[a] == before[a]);
                        } else {
                            assert(t[b] == before[b]);
                        }
                    }
                }
                true
            },
        }
    }

    /// Whether every instance can be saved (see [`Self::saved_instances`]).
    pub fn can_save(&self) -> (r: bool)
        requires
            self.wf(),
        ensures
            r == saveable(self@),
    {
        let mut i: usize = 0;
        while i < self.instances.len()
            invariant
                self.wf(),
                i <= self.instances@.len(),
                forall|k: int| 0 <= k < i ==> password_fits(#[trigger] self.instances@[k]),
            decreases self.instances.len() - i,
        {
            let fits = match &self.instances[i].auth_password {
                Some(p) => p.as_str().as_bytes().len() <= usize::MAX / 4 - NONCE_LEN - 16,
                None => true,
            };
            if !fits {
                proof {
                    lemma_map_index(self.instances@, i as int);
                    assert(!password_fits(self@[self.instances@[i as int].id]));
                }
                return false;
            }
            i = i + 1;
        }
        proof {
            assert forall|id: u128| #[trigger] self@.dom().contains(id) implies password_fits(self@[id]) by {
                let k = choose|k: int| 0 <= k < self.instances@.len() && self.instances@[k].id == id;
                lemma_map_index(self.instances@, k);
            }
        }
        true
    }

    /// The records to save, one per instance: each is what
    /// [`ProxyInstance::to_saved`] writes for its instance under `key`.
    pub fn saved_instances(&self, key: &[u8; 32]) -> (r: Vec<SavedInstance>)
        requires
            self.wf(),
            saveable(self@),
        ensures
            r@.len() == self@.dom().len(),
            forall|i: int| #![trigger r@[i]] 0 <= i < r@.len() ==> (crate::codec::uuid_parsed(r@[i].id@) matches Some(id)
                && self@.dom().contains(id) && saved_matches(r@[i], self@[id], key@)),
            forall|id: u128| #![trigger self@.dom().contains(id)] self@.dom().contains(id) ==> exists|i: int|
                #![trigger r@[i]] 0 <= i < r@.len() && saved_matches(r@[i], self@[id], key@),
    {
        let mut out: Vec<SavedInstance> = Vec::new();
        let mut i: usize = 0;
        while i < self.instances.len()
            invariant
                self.wf(),
                saveable(self@),
                i <= self.instances@.len(),
                out@.len() == i,
                forall|k: int| 0 <= k < i ==> saved_matches(#[trigger] out@[k], self.instances@[k], key@),
            decreases self.instances.len() - i,
        {
            proof {
                lemma_map_index(self.instances@, i as int);
                assert(password_fits(self@[self.instances@[i as int].id]));
            }
            let s = self.instances[i].to_saved(key);
            out.push(s);
            i = i + 1;
        }
        proof {
            lemma_map_len(self.instances@);
            assert forall|k: int| #![trigger out@[k]] 0 <= k < out@.len() implies (crate::codec::uuid_parsed(out@[k].id@) matches Some(id)
                && self@.dom().contains(id) && saved_matches(out@[k], self@[id], key@)) by {
                lemma_map_index(self.instances@, k);
                let id = self.instances@[k].id;
                assert(self@.dom().contains(id) && saved_matches(out@[k], self@[id], key@));
            }
            assert forall|id: u128| #![trigger self@.dom().contains(id)] self@.dom().contains(id) implies exists|k: int|
                #![trigger out@[k]] 0 <= k < out@.len() && saved_matches(out@[k], self@[id], key@) by {
                let k = choose|k: int| 0 <= k < self.instances@.len() && self.instances@[k].id == id;
                lemma_map_index(self.instances@, k);
                assert(saved_matches(out@[k], self@[id], key@));
            }
        }
        out
    }
}

} // verus!

