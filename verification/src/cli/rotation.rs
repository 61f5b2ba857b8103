//! The command-line tool's choices: reading the `-u` upstream argument, and
//! which proxy a rotation switches to, remembering the last ten used.
use vstd::prelude::*;
use std::collections::VecDeque;
use crate::cli::proxy_type::{Proxy, ProxyProtocol, clone_proxy, same_proxy, url_of, protocol_name, address_of};
use crate::text::{chars_of, string_of, split_pat, split_by, lower_text, to_lowercase, parse_u16, parse_u16_chars, contains_pat, find_pat, views,
    is_ascii_seq, decimal, digit_char, digit_value, digits_value, parse_uint, all_digits, is_digit, matches_at, lacks, ascii_lower_seq, lemma_split_suffix,
    lemma_split_none,
};

verus! {

broadcast use {vstd::string::group_string_axioms, vstd::std_specs::vecdeque::group_vec_dequeue_axioms};

/// Why an upstream argument was refused.
#[derive(Debug)]
pub enum UpstreamError {
    /// No `://` in the argument.
    MissingScheme,
    /// More than one `://`.
    BadFormat,
    /// A scheme other than http, https, socks4 and socks5.
    UnsupportedProtocol(String),
    /// Not exactly one `:` between host and port.
    BadHostPort,
    /// The port is not a number from 0 to 65535.
    BadPort,
}

impl UpstreamError {
    /// The message shown for the error.
    pub fn message(&self) -> (r: String)
        ensures
            r@ == upstream_error_text(*self),
    {
        match self {
            UpstreamError::MissingScheme => String::from_str("Неверный формат upstream прокси. Используйте: protocol://host:port"),
            UpstreamError::BadFormat => String::from_str("Неверный формат upstream прокси"),
            UpstreamError::UnsupportedProtocol(p) => crate::text::cat(crate::text::cat("Неподдерживаемый протокол: ", p.as_str()).as_str(), ". Используйте: http, https, socks4, socks5"),
            UpstreamError::BadHostPort => String::from_str("Неверный формат host:port"),
            UpstreamError::BadPort => String::from_str("Неверный номер порта"),
        }
    }
}

pub open spec fn upstream_error_text(e: UpstreamError) -> Seq<char> {
    match e {
        UpstreamError::MissingScheme => "Неверный формат upstream прокси. Используйте: protocol://host:port"@,
        UpstreamError::BadFormat => "Неверный формат upstream прокси"@,
        UpstreamError::UnsupportedProtocol(p) => "Неподдерживаемый протокол: "@ + p@ + ". Используйте: http, https, socks4, socks5"@,
        UpstreamError::BadHostPort => "Неверный формат host:port"@,
        UpstreamError::BadPort => "Неверный номер порта"@,
    }
}

/// The protocol a scheme names (case ignored); https is served as http.
pub open spec fn scheme_protocol(scheme: Seq<char>) -> Option<ProxyProtocol> {
    let l = lower_text(scheme);
    if l == "http"@ || l == "https"@ {
        Some(ProxyProtocol::Http)
    } else if l == "socks4"@ {
        Some(ProxyProtocol::Socks4)
    } else if l == "socks5"@ {
        Some(ProxyProtocol::Socks5)
    } else {
        None
    }
}

/// What `-u protocol://host:port` gives: the host, port and protocol, or
/// the first error met.
pub open spec fn upstream_parse(s: Seq<char>) -> Result<(Seq<char>, u16, ProxyProtocol), UpstreamErrorKind> {
    let parts = split_pat(s, "://"@);
    if !contains_pat(s, "://"@) {
        Err(UpstreamErrorKind::MissingScheme)
    } else if parts.len() != 2 {
        Err(UpstreamErrorKind::BadFormat)
    } else {
        match scheme_protocol(parts[0]) {
            None => Err(UpstreamErrorKind::UnsupportedProtocol(parts[0])),
            Some(protocol) => {
                let hp = split_pat(parts[1], seq![':']);
                if hp.len() != 2 {
                    Err(UpstreamErrorKind::BadHostPort)
                } else {
                    match parse_u16(hp[1]) {
                        None => Err(UpstreamErrorKind::BadPort),
                        Some(port) => Ok((hp[0], port, protocol)),
                    }
                }
            },
        }
    }
}

/// The decimal form of a number is a non-empty run of digits worth it.
proof fn lemma_decimal_reads_back(n: nat)
    ensures
        decimal(n).len() > 0,
        all_digits(decimal(n)),
        digits_value(decimal(n)) == n,
    decreases n,
{
    let d = decimal(n);
    if n < 10 {
        assert((digit_char(n) as u32) == n + 48);
        assert(d.drop_last() =~= Seq::<char>::empty());
        assert(digits_value(d.drop_last()) == 0);
        assert(d.last() == digit_char(n));
        assert(digit_value(d.last()) == n);
    } else {
        lemma_decimal_reads_back(n / 10);
        assert((digit_char(n % 10) as u32) == n % 10 + 48);
        assert(d.drop_last() =~= decimal(n / 10));
        assert(d.last() == digit_char(n % 10));
        assert(digit_value(d.last()) == n % 10);
        assert(n == (n / 10) * 10 + n % 10);
        assert forall|i: int| 0 <= i < d.len() implies is_digit(#[trigger] d[i]) by {
            if i < d.len() - 1 {
                assert(d[i] == decimal(n / 10)[i]);
            }
        }
    }
}

/// Splitting `a`, one `c`, then `b` at `c`, where neither `a` nor `b` holds
/// `c`, gives `a` and `b`.
proof fn lemma_split_once(a: Seq<char>, c: char, b: Seq<char>)
    requires
        lacks(a, c),
        lacks(b, c),
    ensures
        split_pat(a + seq![c] + b, seq![c]) == seq![a, b],
{
    let s = a + seq![c] + b;
    let pat = seq![c];
    let i = a.len() as int;
    assert(s.subrange(i, i + 1) =~= pat);
    assert forall|j: int| 0 <= j < i implies !matches_at(s, pat, j) by {
        if matches_at(s, pat, j) {
            assert(s.subrange(j, j + 1)[0] == s[j]);
        }
    }
    lemma_split_suffix(s, pat, 0, i);
    assert forall|j: int| i + 1 <= j implies !matches_at(s, pat, j) by {
        if matches_at(s, pat, j) {
            assert(s.subrange(j, j + 1)[0] == s[j]);
            assert(s[j] == b[j - i - 1]);
        }
    }
    lemma_split_none(s, pat, i + 1);
    assert(s.skip(0) =~= s);
    assert(s.subrange(0, i) =~= a);
    assert(s.skip(i + 1) =~= b);
}

/// The scheme written for a protocol reads back as that protocol (HTTPS
/// as HTTP).
#[verifier::spinoff_prover]
proof fn lemma_scheme_of_name(p: ProxyProtocol)
    requires
        p != ProxyProtocol::Https,
    ensures
        scheme_protocol(protocol_name(p)) == Some(p),
        lacks(protocol_name(p), ':'),
{
    reveal_strlit("http");
    reveal_strlit("https");
    reveal_strlit("socks4");
    reveal_strlit("socks5");
    let name = protocol_name(p);
    let w: Seq<char> = match p {
        ProxyProtocol::Http => seq!['h', 't', 't', 'p'],
        ProxyProtocol::Socks4 => seq!['s', 'o', 'c', 'k', 's', '4'],
        _ => seq!['s', 'o', 'c', 'k', 's', '5'],
    };
    assert(name =~= w);
    assert(is_ascii_seq(name));
    assert(ascii_lower_seq(name) =~= name);
    assert(lower_text(name) == name);
}

/// Writing a proxy as `protocol://host:port` and reading it back as an
/// upstream gives the proxy again, for an HTTP, SOCKS4 or SOCKS5 proxy whose
/// host holds no colon (HTTPS reads back as HTTP, which serves it).
#[verifier::spinoff_prover]
pub proof fn lemma_upstream_url_round_trip(p: Proxy)
    requires
        p.protocol != ProxyProtocol::Https,
        lacks(p.host@, ':'),
    ensures
        upstream_parse(url_of(p)) == Ok::<(Seq<char>, u16, ProxyProtocol), UpstreamErrorKind>((p.host@, p.port, p.protocol)),
{
    reveal_strlit("://");
    reveal_strlit("http");
    reveal_strlit("https");
    reveal_strlit("socks4");
    reveal_strlit("socks5");
    let name = protocol_name(p.protocol);
    let dec = decimal(p.port as nat);
    let rest = address_of(p.host@, p.port);
    let s = url_of(p);
    let sep = "://"@;
    lemma_decimal_reads_back(p.port as nat);
    assert(lacks(dec, ':')) by {
        assert forall|k: int| 0 <= k < dec.len() implies #[trigger] dec[k] != ':' by {
            assert(is_digit(dec[k]));
        }
    }
    lemma_scheme_of_name(p.protocol);
    let i = name.len() as int;
    assert(s =~= name + sep + rest);
    assert(s.subrange(i, i + 3) =~= sep);
    assert forall|j: int| 0 <= j < i implies !matches_at(s, sep, j) by {
        if matches_at(s, sep, j) {
            assert(s.subrange(j, j + 3)[0] == s[j]);
            assert(s[j] == name[j]);
        }
    }
    lemma_split_suffix(s, sep, 0, i);
    // after the scheme, the only colon is followed by a digit, not by `//`
    assert forall|j: int| i + 3 <= j implies !matches_at(s, sep, j) by {
        if matches_at(s, sep, j) {
            assert(s.subrange(j, j + 3)[0] == s[j]);
            assert(s.subrange(j, j + 3)[1] == s[j + 1]);
            let k = j - i - 3;
            assert(s[j] == rest[k]);
            assert(rest[k] == ':');
            if k < p.host@.len() {
                assert(rest[k] == p.host@[k]);
            } else if k > p.host@.len() {
                assert(rest[k] == dec[k - p.host@.len() - 1]);
            } else {
                assert(s[j + 1] == rest[k + 1]);
                assert(rest[k + 1] == dec[0]);
                assert(is_digit(dec[0]));
            }
        }
    }
    lemma_split_none(s, sep, i + 3);
    assert(s.skip(0) =~= s);
    assert(s.subrange(0, i) =~= name);
    assert(s.skip(i + 3) =~= rest);
    let parts = split_pat(s, sep);
    assert(parts =~= seq![name, rest]);
    assert(matches_at(s, sep, i));
    assert(contains_pat(s, sep));
    assert(ascii_lower_seq(name) =~= name);
    assert(rest =~= p.host@ + seq![':'] + dec);
    lemma_split_once(p.host@, ':', dec);
    assert(split_pat(parts[1], seq![':']) == seq![p.host@, dec]);
    assert(dec[0] != '+') by {
        assert(is_digit(dec[0]));
    }
    assert(parse_uint(dec, 65535) == Some(p.port as nat));
    assert(parse_u16(dec) == Some(p.port));
    lemma_scheme_of_name(p.protocol);
}

/// The kind of an upstream error, with the scheme's text.
pub enum UpstreamErrorKind {
    MissingScheme,
    BadFormat,
    UnsupportedProtocol(Seq<char>),
    BadHostPort,
    BadPort,
}

pub open spec fn error_kind(e: UpstreamError) -> UpstreamErrorKind {
    match e {
        UpstreamError::MissingScheme => UpstreamErrorKind::MissingScheme,
        UpstreamError::BadFormat => UpstreamErrorKind::BadFormat,
        UpstreamError::UnsupportedProtocol(p) => UpstreamErrorKind::UnsupportedProtocol(p@),
        UpstreamError::BadHostPort => UpstreamErrorKind::BadHostPort,
        UpstreamError::BadPort => UpstreamErrorKind::BadPort,
    }
}

/// Read the `-u` argument, `protocol://host:port`.
pub fn parse_upstream_proxy(upstream: &str) -> (r: Result<Proxy, UpstreamError>)
    ensures
        match upstream_parse(upstream@) {
            Ok((h, port, protocol)) => r matches Ok(p) && p.host@ == h && p.port == port && p.protocol == protocol,
            Err(k) => r matches Err(e) && error_kind(e) == k,
        },
{
    let v = chars_of(upstream);
    let sep = chars_of("://");
    if find_pat(&v, &sep).is_none() {
        return Err(UpstreamError::MissingScheme);
    }
    proof {
        reveal_strlit("://");
    }
    let parts = split_by(&v, &sep);
    if parts.len() != 2 {
        return Err(UpstreamError::BadFormat);
    }
    let scheme = string_of(&parts[0]);
    let lower = to_lowercase(scheme.as_str());
    let lv = chars_of(lower.as_str());
    let protocol = if crate::text::eq_text(&lv, "http") || crate::text::eq_text(&lv, "https") {
        ProxyProtocol::Http
    } else if crate::text::eq_text(&lv, "socks4") {
        ProxyProtocol::Socks4
    } else if crate::text::eq_text(&lv, "socks5") {
        ProxyProtocol::Socks5
    } else {
        return Err(UpstreamError::UnsupportedProtocol(scheme));
    };
    let hp = split_by(&parts[1], &[':']);
    assert(seq![':'] =~= [':']@);
    if hp.len() != 2 {
        return Err(UpstreamError::BadHostPort);
    }
    match parse_u16_chars(&hp[1]) {
        None => Err(UpstreamError::BadPort),
        Some(port) => Ok(Proxy::new(string_of(&hp[0]), port, protocol)),
    }
}

// ---------------------------------------------------------------------------
// Rotation
// ---------------------------------------------------------------------------

/// How many used proxies are remembered.
pub const HISTORY_LIMIT: usize = 10;

/// A proxy that answered a test, with the time the test took.
#[derive(Debug)]
pub struct TestedProxy {
    pub proxy: Proxy,
    pub latency_nanos: u128,
}

/// The proxies used recently, oldest first, at most [`HISTORY_LIMIT`].
#[derive(Debug)]
pub struct RotationHistory {
    entries: VecDeque<Proxy>,
}

impl View for RotationHistory {
    type V = Seq<Proxy>;

    closed spec fn view(&self) -> Seq<Proxy> {
        self.entries@
    }
}

/// The newest `HISTORY_LIMIT` entries of `s`.
pub open spec fn last_ten(s: Seq<Proxy>) -> Seq<Proxy> {
    if s.len() > HISTORY_LIMIT {
        s.skip(s.len() - HISTORY_LIMIT)
    } else {
        s
    }
}

impl RotationHistory {
    pub fn new() -> (h: Self)
        ensures
            h@ == Seq::<Proxy>::empty(),
    {
        RotationHistory { entries: VecDeque::new() }
    }

    pub fn len(&self) -> (n: usize)
        ensures
            n == self@.len(),
    {
        self.entries.len()
    }

    /// Remember `p` as used; the oldest entry is forgotten beyond ten.
    pub fn record(&mut self, p: Proxy)
        ensures
            final(self)@ == last_ten(old(self)@.push(p)),
    {
        let ghost s = old(self)@.push(p);
        self.entries.push_back(p);
        let ghost mut d: int = 0;
        while self.entries.len() > HISTORY_LIMIT
            invariant
                0 <= d <= s.len(),
                self.entries@ == s.skip(d),
                d == 0 || s.len() - d >= HISTORY_LIMIT,
            decreases self.entries@.len(),
        {
            self.entries.pop_front();
            proof {
                d = d + 1;
                assert(self.entries@ =~= s.skip(d));
            }
        }
        proof {
            if s.len() <= HISTORY_LIMIT {
                assert(s.skip(0) =~= s);
            }
        }
    }

    /// Whether `p` was used recently.
    pub fn contains(&self, p: &Proxy) -> (r: bool)
        ensures
            r == exists|k: int| 0 <= k < self@.len() && same_value(#[trigger] self@[k], *p),
    {
        let n = self.entries.len();
        let mut i: usize = 0;
        while i < n
            invariant
                n == self.entries@.len(),
                i <= n,
                forall|k: int| 0 <= k < i ==> !same_value(#[trigger] self.entries@[k], *p),
            decreases n - i,
        {
            if same_proxy(&self.entries[i], p) {
                assert(same_value(self@[i as int], *p));
                return true;
            }
            i = i + 1;
        }
        false
    }
}

/// The history never holds more than ten entries, and the proxy just left
/// is always the newest.
pub proof fn lemma_history_bounded(s: Seq<Proxy>, p: Proxy)
    ensures
        last_ten(s.push(p)).len() <= HISTORY_LIMIT,
        last_ten(s.push(p)).last() == p,
{
    let t = s.push(p);
    if t.len() > HISTORY_LIMIT {
        assert(last_ten(t).last() == t.last());
    }
}

/// Two proxies with the same host, port and protocol.
pub open spec fn same_value(a: Proxy, b: Proxy) -> bool {
    a.host@ == b.host@ && a.port == b.port && a.protocol == b.protocol
}

/// Entry `i` is a proxy other than the current one and not recently used.
pub open spec fn fresh_choice(tested: Seq<TestedProxy>, current: Proxy, history: Seq<Proxy>, i: int) -> bool {
    !same_value(tested[i].proxy, current) && !exists|k: int| 0 <= k < history.len() && same_value(#[trigger] history[k], tested[i].proxy)
}

/// Entry `i` is the proxy a rotation switches to: the first tested proxy
/// that is neither the current one nor recently used; when there is none,
/// the first that is not the current one; when all are the current one,
/// the first.
pub open spec fn is_rotation_choice(tested: Seq<TestedProxy>, current: Proxy, history: Seq<Proxy>, i: int) -> bool {
    &&& 0 <= i < tested.len()
    &&& {
        ||| (fresh_choice(tested, current, history, i) && forall|j: int| 0 <= j < i ==> !fresh_choice(tested, current, history, j))
        ||| ((forall|j: int| 0 <= j < tested.len() ==> !fresh_choice(tested, current, history, j))
            && !same_value(tested[i].proxy, current) && forall|j: int| 0 <= j < i ==> same_value(tested[j].proxy, current))
        ||| ((forall|j: int| 0 <= j < tested.len() ==> same_value(tested[j].proxy, current)) && i == 0)
    }
}

/// There is one rotation choice at most.
pub proof fn lemma_rotation_choice_unique(tested: Seq<TestedProxy>, current: Proxy, history: Seq<Proxy>, i: int, k: int)
    requires
        is_rotation_choice(tested, current, history, i),
        is_rotation_choice(tested, current, history, k),
    ensures
        i == k,
{
    if fresh_choice(tested, current, history, i) {
        assert(!(forall|j: int| 0 <= j < tested.len() ==> !fresh_choice(tested, current, history, j)));
        if i < k {
            assert(!fresh_choice(tested, current, history, i));
        } else if k < i {
            assert(fresh_choice(tested, current, history, k));
        }
    } else if !same_value(tested[i].proxy, current) {
        assert(!(forall|j: int| 0 <= j < tested.len() ==> same_value(tested[j].proxy, current)));
        if i < k {
            assert(same_value(tested[i].proxy, current));
        } else if k < i {
            assert(!same_value(tested[k].proxy, current));
        }
    }
}

/// A rotation leaves the current proxy whenever another one answered the
/// test, and prefers one not used recently whenever there is such a proxy.
pub proof fn lemma_rotation_leaves_current(tested: Seq<TestedProxy>, current: Proxy, history: Seq<Proxy>, i: int)
    requires
        is_rotation_choice(tested, current, history, i),
    ensures
        (exists|j: int| 0 <= j < tested.len() && !same_value(#[trigger] tested[j].proxy, current)) ==> !same_value(
            tested[i].proxy,
            current,
        ),
        (exists|j: int| 0 <= j < tested.len() && fresh_choice(tested, current, history, j)) ==> fresh_choice(
            tested,
            current,
            history,
            i,
        ),
{
}

/// The position, in the re-tested proxies, of the proxy to switch to.
pub fn choose_rotation_target(tested: &Vec<TestedProxy>, current: &Proxy, history: &RotationHistory) -> (r: Option<usize>)
    ensures
        match r {
            Some(i) => is_rotation_choice(tested@, *current, history@, i as int),
            None => tested@.len() == 0,
        },
{
    let n = tested.len();
    let mut i: usize = 0;
    while i < n
        invariant
            n == tested@.len(),
            i <= n,
            forall|j: int| 0 <= j < i ==> !fresh_choice(tested@, *current, history@, j),
        decreases n - i,
    {
        if !same_proxy(&tested[i].proxy, current) && !history.contains(&tested[i].proxy) {
            return Some(i);
        }
        i = i + 1;
    }
    let mut k: usize = 0;
    while k < n
        invariant
            n == tested@.len(),
            k <= n,
            forall|j: int| 0 <= j < n ==> !fresh_choice(tested@, *current, history@, j),
            forall|j: int| 0 <= j < k ==> same_value(tested@[j].proxy, *current),
        decreases n - k,
    {
        if !same_proxy(&tested[k].proxy, current) {
            return Some(k);
        }
        k = k + 1;
    }
    if n > 0 {
        Some(0)
    } else {
        None
    }
}

/// Why a rotation did not happen.
#[derive(Debug, Clone, Copy, PartialEq, Eq, Structural)]
pub enum RotationRefusal {
    /// Fewer than two working proxies to choose from.
    NotEnoughProxies,
    /// None of them answered the new test.
    AllUnavailable,
}

/// A rotation needs at least two working proxies.
pub fn rotation_possible(working: usize) -> (r: Result<(), RotationRefusal>)
    ensures
        working < 2 ==> r == Err::<(), RotationRefusal>(RotationRefusal::NotEnoughProxies),
        working >= 2 ==> r is Ok,
{
    if working < 2 {
        Err(RotationRefusal::NotEnoughProxies)
    } else {
        Ok(())
    }
}

/// Rotate after the working proxies were tested again: the current proxy
/// is remembered as used and the chosen one returned. Refused when none
/// answered.
pub fn perform_proxy_rotation(tested: &Vec<TestedProxy>, current: &Proxy, history: &mut RotationHistory) -> (r: Result<usize, RotationRefusal>)
    ensures
        tested@.len() == 0 ==> r == Err::<usize, RotationRefusal>(RotationRefusal::AllUnavailable) && final(history)@ == old(history)@,
        tested@.len() > 0 ==> (r matches Ok(i) && i < tested@.len() && final(history)@ == last_ten(old(history)@.push(*current))),
        r matches Ok(i) ==> is_rotation_choice(tested@, *current, old(history)@, i as int),
{
    if tested.len() == 0 {
        return Err(RotationRefusal::AllUnavailable);
    }
    let target = choose_rotation_target(tested, current, history);
    match target {
        Some(i) => {
            history.record(clone_proxy(current));
            Ok(i)
        },
        None => Err(RotationRefusal::AllUnavailable),
    }
}

/// Two presses of Enter within half a second ask for a rotation.
pub fn is_double_press(elapsed_ms: u128) -> (r: bool)
    ensures
        r == (elapsed_ms < 500),
{
    elapsed_ms < 500
}

/// The automatic rotation interval in seconds: none unless a positive
/// number of minutes is given (the product wraps, as in release builds).
pub fn auto_rotate_interval_secs(minutes: Option<u64>) -> (r: Option<u64>)
    ensures
        match minutes {
            Some(m) => if m > 0 {
                r == Some(((m * 60) % 0x1_0000_0000_0000_0000) as u64)
            } else {
                r is None
            },
            None => r is None,
        },
{
    match minutes {
        Some(m) => if m > 0 {
            Some(m.wrapping_mul(60))
        } else {
            None
        },
        None => None,
    }
}

/// How long to wait for input between checks: 10 seconds with automatic
/// rotation, else 60.
pub fn poll_timeout_secs(interval: Option<u64>) -> (r: u64)
    ensures
        r == (if interval is Some { 10u64 } else { 60u64 }),
{
    if interval.is_some() {
        10
    } else {
        60
    }
}

} // verus!
