//! The local proxy servers' protocol logic: HTTP request handling,
//! the SOCKS4/4a and SOCKS5 server handshakes, credential checks and the
//! rate limiter for failed authentication. Reading and writing sockets is
//! left to the caller, which feeds the bytes received so far and sends the
//! replies these functions decide.
use vstd::prelude::*;
use crate::text::{
    chars_of, string_of, sub_chars, extend_chars, extend_str, has_prefix, has_prefix_ignore_case,
    prefix_ignore_case, first_match, last_index, lines, lines_of, words, words_of, views,
    find_pat, rfind_char, parse_u16, parse_u16_chars, decimal, push_decimal, push_hex, trim, trim_chars,
    to_uppercase, upper_text, string_from_utf8, utf8_lossy_of, utf8_lossy, matches_at,
};
use crate::codec::{hmac_sha256_digest, ct_eq_bytes, random_key, base64_decode, base64_decoded};
use vstd::utf8::{valid_utf8, decode_utf8};

verus! {

broadcast use vstd::string::group_string_axioms;

// ---------------------------------------------------------------------------
// Constant-time credential comparison
// ---------------------------------------------------------------------------

/// A per-process random key under which credentials are compared.
pub struct AuthKey {
    key: [u8; 32],
}

impl AuthKey {
    pub fn new() -> (k: Self) {
        AuthKey { key: random_key() }
    }

    /// The HMAC-SHA256, under this key, of a text's UTF-8 bytes.
    pub closed spec fn mac_of(&self, s: Seq<char>) -> Seq<u8> {
        crate::codec::hmac_sha256(self.key@, vstd::utf8::encode_utf8(s))
    }
}

/// Constant-time string equality, safe against timing side channels whatever
/// the lengths: both strings are HMAC-SHA256'd under the same key and the
/// digests compared in constant time. Equal strings always compare equal.
pub fn ct_str_eq(key: &AuthKey, a: &str, b: &str) -> (r: bool)
    ensures
        r == (key.mac_of(a@) == key.mac_of(b@)),
        a@ == b@ ==> r,
{
    let da = hmac_sha256_digest(&key.key, a.as_bytes());
    let db = hmac_sha256_digest(&key.key, b.as_bytes());
    ct_eq_bytes(&da, &db)
}

// ---------------------------------------------------------------------------
// Targets: host and port
// ---------------------------------------------------------------------------

/// `host:port` split at the last `:`; a port that does not parse gives `default_port`.
pub open spec fn host_port_of(t: Seq<char>, default_port: u16) -> (Seq<char>, u16) {
    let c = last_index(t, ':');
    if c < 0 {
        (t, default_port)
    } else {
        (
            t.take(c),
            match parse_u16(t.skip(c + 1)) {
                Some(p) => p,
                None => default_port,
            },
        )
    }
}

/// Split a `host:port` target; the port defaults to `default_port`.
pub fn parse_host_port(target: &str, default_port: u16) -> (r: (String, u16))
    ensures
        (r.0@, r.1) == host_port_of(target@, default_port),
{
    let v = chars_of(target);
    match rfind_char(&v, ':') {
        Some(c) => {
            let n = v.len();
            assert(c < n);
            let host = sub_chars(&v, 0, c);
            let port_part = sub_chars(&v, c + 1, v.len());
            assert(host@ =~= v@.take(c as int));
            assert(port_part@ =~= v@.skip(c + 1));
            let port = match parse_u16_chars(&port_part) {
                Some(p) => p,
                None => default_port,
            };
            (string_of(&host), port)
        },
        None => (String::from_str(target), default_port),
    }
}

/// An absolute or origin-form HTTP URL: scheme stripped, `host[:port]` up to
/// the first `/` (port 80 by default), and the path from there (`/` if none).
pub open spec fn http_url_of(url: Seq<char>) -> (Seq<char>, u16, Seq<char>) {
    let rest = if "http://"@.is_prefix_of(url) {
        url.skip(7)
    } else if "https://"@.is_prefix_of(url) {
        url.skip(8)
    } else {
        url
    };
    let i = first_match(rest, seq!['/']);
    let (hp, path) = if i >= 0 {
        (rest.take(i), rest.skip(i))
    } else {
        (rest, seq!['/'])
    };
    let (host, port) = host_port_of(hp, 80);
    (host, port, path)
}

/// Split an HTTP request target into host, port and path.
pub fn parse_http_url(url: &str) -> (r: (String, u16, String))
    ensures
        (r.0@, r.1, r.2@) == http_url_of(url@),
{
    proof {
        reveal_strlit("http://");
        reveal_strlit("https://");
    }
    let v = chars_of(url);
    let http = chars_of("http://");
    let https = chars_of("https://");
    let rest = if has_prefix(&v, &http) {
        sub_chars(&v, 7, v.len())
    } else if has_prefix(&v, &https) {
        sub_chars(&v, 8, v.len())
    } else {
        v.clone()
    };
    assert(rest@ =~= (if "http://"@.is_prefix_of(url@) {
        url@.skip(7)
    } else if "https://"@.is_prefix_of(url@) {
        url@.skip(8)
    } else {
        url@
    }));
    let slash = find_pat(&rest, &['/']);
    assert(['/']@ =~= seq!['/']);
    let (hp, path) = match slash {
        Some(i) => {
            let n = rest.len();
            assert(i <= n);
            let hp = sub_chars(&rest, 0, i);
            let path = sub_chars(&rest, i, rest.len());
            assert(hp@ =~= rest@.take(i as int));
            assert(path@ =~= rest@.skip(i as int));
            (hp, path)
        },
        None => (rest, vec!['/']),
    };
    let (host, port) = parse_host_port(string_of(&hp).as_str(), 80);
    (host, port, string_of(&path))
}

// ---------------------------------------------------------------------------
// HTTP proxy requests
// ---------------------------------------------------------------------------

/// The longest request header the HTTP proxy reads.
pub const MAX_HTTP_HEADER: usize = 16384;

/// What to do after another byte of the request header arrived.
#[derive(Debug, Clone, Copy, PartialEq, Eq, Structural)]
pub enum HeaderStep {
    /// Read another byte.
    NeedMore,
    /// The header ends with an empty line (`\r\n\r\n`).
    Complete,
    /// More than [`MAX_HTTP_HEADER`] bytes without an end: refuse.
    TooLong,
}

pub open spec fn ends_with_blank_line(b: Seq<u8>) -> bool {
    b.len() >= 4 && b.subrange(b.len() - 4, b.len() as int) == seq![13u8, 10u8, 13u8, 10u8]
}

pub open spec fn header_step(b: Seq<u8>) -> HeaderStep {
    if ends_with_blank_line(b) {
        HeaderStep::Complete
    } else if b.len() > MAX_HTTP_HEADER {
        HeaderStep::TooLong
    } else {
        HeaderStep::NeedMore
    }
}

/// Classify the header bytes read so far.
pub fn http_header_step(buf: &[u8]) -> (r: HeaderStep)
    ensures
        r == header_step(buf@),
{
    let n = buf.len();
    if n >= 4 && buf[n - 4] == 13 && buf[n - 3] == 10 && buf[n - 2] == 13 && buf[n - 1] == 10 {
        assert(buf@.subrange(n - 4, n as int) =~= seq![13u8, 10u8, 13u8, 10u8]);
        return HeaderStep::Complete;
    }
    if n >= 4 {
        assert(!ends_with_blank_line(buf@)) by {
            if ends_with_blank_line(buf@) {
                assert(buf@.subrange(n - 4, n as int)[0] == buf@[n - 4]);
                assert(buf@.subrange(n - 4, n as int)[1] == buf@[n - 3]);
                assert(buf@.subrange(n - 4, n as int)[2] == buf@[n - 2]);
                assert(buf@.subrange(n - 4, n as int)[3] == buf@[n - 1]);
            }
        }
    }
    if n > MAX_HTTP_HEADER {
        HeaderStep::TooLong
    } else {
        HeaderStep::NeedMore
    }
}

/// The first line of a request (empty for an empty request).
pub open spec fn first_line_of(req: Seq<char>) -> Seq<char> {
    if lines(req).len() > 0 {
        lines(req)[0]
    } else {
        seq![]
    }
}

/// The header lines after the request line, up to the first empty line,
/// without `Proxy-Authorization`, each followed by `\r\n`.
pub open spec fn forwarded_headers(ls: Seq<Seq<char>>) -> Seq<char>
    decreases ls.len(),
{
    if ls.len() == 0 || ls[0].len() == 0 {
        seq![]
    } else {
        (if prefix_ignore_case(ls[0], "proxy-authorization:"@) {
            seq![]
        } else {
            ls[0] + "\r\n"@
        }) + forwarded_headers(ls.drop_first())
    }
}

/// What the HTTP proxy does with a complete request header.
#[derive(Debug, Clone)]
pub enum HttpPlan {
    /// Fewer than two words on the request line: answer 400.
    BadRequest,
    /// `CONNECT host:port`: tunnel to the target (port 443 by default).
    Connect { host: String, port: u16, log_line: String },
    /// Any other method: connect to the target and send `request`, the
    /// request rewritten to origin form.
    Forward { host: String, port: u16, request: String, log_line: String },
}

/// The request line `method path version` and the forwarded headers.
pub open spec fn rewritten_request(req: Seq<char>, method: Seq<char>, path: Seq<char>) -> Seq<char> {
    let parts = words(first_line_of(req));
    let version = if parts.len() > 2 {
        parts[2]
    } else {
        "HTTP/1.1"@
    };
    method + seq![' '] + path + seq![' '] + version + "\r\n"@ + forwarded_headers(
        lines(req).skip(1),
    ) + "\r\n"@
}

pub open spec fn http_plan_matches(req: Seq<char>, plan: HttpPlan) -> bool {
    let parts = words(first_line_of(req));
    if parts.len() < 2 {
        plan is BadRequest
    } else {
        let method = upper_text(parts[0]);
        if method == "CONNECT"@ {
            let (host, port) = host_port_of(parts[1], 443);
            plan matches HttpPlan::Connect { host: h, port: p, log_line: l } && h@ == host && p
                == port && l@ == "CONNECT "@ + host + seq![':'] + decimal(port as nat)
        } else {
            let (host, port, path) = http_url_of(parts[1]);
            plan matches HttpPlan::Forward { host: h, port: p, request: r, log_line: l } && h@
                == host && p == port && r@ == rewritten_request(req, method, path) && l@ == method
                + seq![' '] + host + seq![':'] + decimal(port as nat) + path
        }
    }
}

fn forwarded_headers_exec(ls: &Vec<Vec<char>>, from: usize) -> (r: Vec<char>)
    requires
        from <= ls@.len(),
    ensures
        r@ == forwarded_headers(views(ls@).skip(from as int)),
{
    proof {
        reveal_strlit("proxy-authorization:");
        reveal_strlit("\r\n");
    }
    let pa = chars_of("proxy-authorization:");
    let mut out: Vec<char> = Vec::new();
    let mut i = from;
    let ghost all = views(ls@).skip(from as int);
    loop
        invariant
            from <= i <= ls@.len(),
            all == views(ls@).skip(from as int),
            pa@ == "proxy-authorization:"@,
            "\r\n"@ == seq!['\r', '\n'],
            forwarded_headers(all) == out@ + forwarded_headers(views(ls@).skip(i as int)),
        decreases ls@.len() - i,
    {
        let ghost rest = views(ls@).skip(i as int);
        if i == ls.len() || ls[i].len() == 0 {
            proof {
                if i < ls@.len() {
                    assert(rest[0] == ls@[i as int]@);
                }
                assert(forwarded_headers(rest) == Seq::<char>::empty());
                assert(out@ + Seq::<char>::empty() =~= out@);
            }
            return out;
        }
        assert(rest[0] == ls@[i as int]@);
        assert(rest.drop_first() =~= views(ls@).skip(i + 1));
        let ghost before = out@;
        if !has_prefix_ignore_case(&ls[i], &pa) {
            extend_chars(&mut out, &ls[i]);
            out.push('\r');
            out.push('\n');
            assert(out@ =~= before + (ls@[i as int]@ + "\r\n"@));
        } else {
            assert(out@ =~= before + Seq::<char>::empty());
        }
        i = i + 1;
    }
}

/// Decide how to serve a complete HTTP request header.
pub fn http_request_plan(request: &str) -> (r: HttpPlan)
    ensures
        http_plan_matches(request@, r),
{
    let v = chars_of(request);
    let ls = lines_of(&v);
    let first: Vec<char> = if ls.len() > 0 {
        ls[0].clone()
    } else {
        Vec::new()
    };
    assert(first@ == first_line_of(request@)) by {
        if ls@.len() > 0 {
            assert(views(ls@)[0] == ls@[0]@);
        }
    }
    let parts = words_of(&first);
    if parts.len() < 2 {
        return HttpPlan::BadRequest;
    }
    assert(parts@[0]@ == views(parts@)[0]);
    assert(parts@[1]@ == views(parts@)[1]);
    let method = to_uppercase(string_of(&parts[0]).as_str());
    let method_v = chars_of(method.as_str());
    proof {
        reveal_strlit("CONNECT");
        reveal_strlit("HTTP/1.1");
        reveal_strlit("\r\n");
        reveal_strlit("CONNECT ");
    }
    let connect = chars_of("CONNECT");
    if crate::text::chars_eq(&method_v, &connect) {
        let (host, port) = parse_host_port(string_of(&parts[1]).as_str(), 443);
        let mut log = chars_of("CONNECT ");
        extend_str(&mut log, host.as_str());
        log.push(':');
        push_decimal(&mut log, port as u64);
        assert(log@ =~= "CONNECT "@ + host@ + seq![':'] + decimal(port as nat));
        return HttpPlan::Connect { host, port, log_line: string_of(&log) };
    }
    let (host, port, path) = parse_http_url(string_of(&parts[1]).as_str());
    let mut req: Vec<char> = method_v.clone();
    req.push(' ');
    extend_str(&mut req, path.as_str());
    req.push(' ');
    if parts.len() > 2 {
        assert(parts@[2]@ == views(parts@)[2]);
        extend_chars(&mut req, &parts[2]);
    } else {
        extend_str(&mut req, "HTTP/1.1");
    }
    req.push('\r');
    req.push('\n');
    let headers = forwarded_headers_exec(&ls, 1);
    extend_chars(&mut req, &headers);
    req.push('\r');
    req.push('\n');
    proof {
        assert(views(ls@).skip(1) =~= lines(request@).skip(1));
        let version = if views(parts@).len() > 2 {
            views(parts@)[2]
        } else {
            "HTTP/1.1"@
        };
        assert(req@ =~= method_v@ + seq![' '] + path@ + seq![' '] + version + "\r\n"@
            + forwarded_headers(lines(request@).skip(1)) + "\r\n"@);
    }
    let mut log: Vec<char> = method_v.clone();
    log.push(' ');
    extend_str(&mut log, host.as_str());
    log.push(':');
    push_decimal(&mut log, port as u64);
    extend_str(&mut log, path.as_str());
    assert(log@ =~= method_v@ + seq![' '] + host@ + seq![':'] + decimal(port as nat) + path@);
    HttpPlan::Forward { host, port, request: string_of(&req), log_line: string_of(&log) }
}


// ---------------------------------------------------------------------------
// HTTP Basic proxy authentication
// ---------------------------------------------------------------------------

/// The first line that starts with `Proxy-Authorization:` (any ASCII case).
pub open spec fn auth_line(ls: Seq<Seq<char>>) -> Option<Seq<char>>
    decreases ls.len(),
{
    if ls.len() == 0 {
        None
    } else if prefix_ignore_case(ls[0], "proxy-authorization:"@) {
        Some(ls[0])
    } else {
        auth_line(ls.drop_first())
    }
}

/// The user and password of a `Basic` `Proxy-Authorization` header: the
/// base64 text after `Basic ` decoded as UTF-8 and split at its first `:`
/// (no `:` gives an empty password).
pub open spec fn basic_credentials(req: Seq<char>) -> Option<(Seq<char>, Seq<char>)> {
    match auth_line(lines(req)) {
        None => None,
        Some(l) => {
            let value = trim(l.skip(20));
            if !prefix_ignore_case(value, "basic "@) {
                None
            } else {
                match base64_decoded(trim(value.skip(6))) {
                    None => None,
                    Some(b) => if !valid_utf8(b) {
                        None
                    } else {
                        let cred = decode_utf8(b);
                        let c = first_match(cred, seq![':']);
                        if c < 0 {
                            Some((cred, seq![]))
                        } else {
                            Some((cred.take(c), cred.skip(c + 1)))
                        }
                    },
                }
            }
        },
    }
}

pub proof fn lemma_auth_line_prefix(ls: Seq<Seq<char>>)
    ensures
        auth_line(ls) matches Some(l) ==> prefix_ignore_case(l, "proxy-authorization:"@),
    decreases ls.len(),
{
    if ls.len() > 0 && !prefix_ignore_case(ls[0], "proxy-authorization:"@) {
        lemma_auth_line_prefix(ls.drop_first());
    }
}

fn auth_line_exec(ls: &Vec<Vec<char>>) -> (r: Option<Vec<char>>)
    ensures
        match auth_line(views(ls@)) {
            Some(l) => r matches Some(v) && v@ == l,
            None => r is None,
        },
{
    proof {
        reveal_strlit("proxy-authorization:");
    }
    let pa = chars_of("proxy-authorization:");
    let mut i: usize = 0;
    proof {
        assert(views(ls@).skip(0) =~= views(ls@));
    }
    while i < ls.len()
        invariant
            i <= ls@.len(),
            pa@ == "proxy-authorization:"@,
            auth_line(views(ls@)) == auth_line(views(ls@).skip(i as int)),
        decreases ls.len() - i,
    {
        let ghost rest = views(ls@).skip(i as int);
        assert(rest[0] == ls@[i as int]@);
        assert(rest.drop_first() =~= views(ls@).skip(i + 1));
        if has_prefix_ignore_case(&ls[i], &pa) {
            return Some(ls[i].clone());
        }
        i = i + 1;
    }
    assert(views(ls@).skip(i as int) =~= Seq::<Seq<char>>::empty());
    None
}

/// The `Basic` credentials of a request's `Proxy-Authorization` header.
pub fn parse_basic_credentials(request: &str) -> (r: Option<(String, String)>)
    ensures
        match basic_credentials(request@) {
            Some((u, p)) => r matches Some((ru, rp)) && ru@ == u && rp@ == p,
            None => r is None,
        },
{
    let v = chars_of(request);
    let ls = lines_of(&v);
    let line = match auth_line_exec(&ls) {
        None => return None,
        Some(l) => l,
    };
    let n = line.len();
    proof {
        reveal_strlit("proxy-authorization:");
        reveal_strlit("basic ");
        lemma_auth_line_prefix(views(ls@));
    }
    assert(n >= 20);
    let value = trim_chars(&sub_chars(&line, 20, n));
    assert(line@.subrange(20, n as int) =~= line@.skip(20));
    let basic = chars_of("basic ");
    if !has_prefix_ignore_case(&value, &basic) {
        return None;
    }
    let vn = value.len();
    let encoded = trim_chars(&sub_chars(&value, 6, vn));
    assert(value@.subrange(6, vn as int) =~= value@.skip(6));
    let decoded = match base64_decode(string_of(&encoded).as_str()) {
        None => return None,
        Some(b) => b,
    };
    let cred_s = match string_from_utf8(&decoded) {
        None => return None,
        Some(s) => s,
    };
    let cred = chars_of(cred_s.as_str());
    match find_pat(&cred, &[':']) {
        None => {
            assert([':']@ =~= seq![':']);
            Some((string_of(&cred), String::new()))
        },
        Some(c) => {
            assert([':']@ =~= seq![':']);
            let cn = cred.len();
            assert(c < cn) by {
                assert(matches_at(cred@, [':']@, c as int));
            }
            let user = sub_chars(&cred, 0, c);
            let pass = sub_chars(&cred, c + 1, cn);
            assert(user@ =~= cred@.take(c as int));
            assert(pass@ =~= cred@.skip(c + 1));
            Some((string_of(&user), string_of(&pass)))
        },
    }
}

/// Whether a request carries the expected `Basic` credentials. A request
/// with them is always accepted; one without credentials never is.
pub fn check_http_auth(key: &AuthKey, request: &str, expected_user: &str, expected_pass: &str) -> (r: bool)
    ensures
        r == match basic_credentials(request@) {
            Some((u, p)) => key.mac_of(u) == key.mac_of(expected_user@) && key.mac_of(p) == key.mac_of(
                expected_pass@,
            ),
            None => false,
        },
        basic_credentials(request@) == Some((expected_user@, expected_pass@)) ==> r,
{
    match parse_basic_credentials(request) {
        None => false,
        Some((user, pass)) => {
            let a = ct_str_eq(key, user.as_str(), expected_user);
            let b = ct_str_eq(key, pass.as_str(), expected_pass);
            a && b
        },
    }
}

// ---------------------------------------------------------------------------
// SOCKS5 server handshake (RFC 1928, RFC 1929)
// ---------------------------------------------------------------------------

/// The outcome of the SOCKS5 greeting (version, method list).
#[derive(Debug, Clone, Copy, PartialEq, Eq, Structural)]
pub enum Socks5Greeting {
    /// Read until this many bytes are buffered.
    NeedMore(usize),
    /// The version byte is not 5: drop the connection without a reply.
    BadVersion,
    /// Authentication is required but not offered: reply `[5, 0xFF]` and drop.
    NoAcceptableMethod,
    /// Reply `[5, method]`; `auth` tells whether username/password follows.
    Accept { consumed: usize, method: u8, auth: bool },
}

pub open spec fn socks5_greeting_spec(b: Seq<u8>, auth_required: bool) -> Socks5Greeting {
    if b.len() < 2 {
        Socks5Greeting::NeedMore(2)
    } else if b[0] != 5 {
        Socks5Greeting::BadVersion
    } else if b.len() < 2 + b[1] {
        Socks5Greeting::NeedMore((2 + b[1]) as usize)
    } else if auth_required {
        if b.subrange(2, 2 + b[1]).contains(2u8) {
            Socks5Greeting::Accept { consumed: (2 + b[1]) as usize, method: 2, auth: true }
        } else {
            Socks5Greeting::NoAcceptableMethod
        }
    } else {
        Socks5Greeting::Accept { consumed: (2 + b[1]) as usize, method: 0, auth: false }
    }
}

/// Read the SOCKS5 greeting from the bytes received so far.
pub fn socks5_greeting(buf: &[u8], auth_required: bool) -> (r: Socks5Greeting)
    ensures
        r == socks5_greeting_spec(buf@, auth_required),
{
    if buf.len() < 2 {
        return Socks5Greeting::NeedMore(2);
    }
    if buf[0] != 5 {
        return Socks5Greeting::BadVersion;
    }
    let n = buf[1] as usize;
    if buf.len() < 2 + n {
        return Socks5Greeting::NeedMore(2 + n);
    }
    if !auth_required {
        return Socks5Greeting::Accept { consumed: 2 + n, method: 0, auth: false };
    }
    let mut i: usize = 2;
    while i < 2 + n
        invariant
            2 <= i <= 2 + n <= buf@.len(),
            n == buf@[1],
            auth_required,
            buf@[0] == 5,
            forall|k: int| 2 <= k < i ==> buf@[k] != 2u8,
        decreases 2 + n - i,
    {
        if buf[i] == 2 {
            assert(buf@.subrange(2, 2 + n as int)[i - 2] == 2u8);
            return Socks5Greeting::Accept { consumed: 2 + n, method: 2, auth: true };
        }
        i = i + 1;
    }
    assert(!buf@.subrange(2, 2 + n as int).contains(2u8)) by {
        if buf@.subrange(2, 2 + n as int).contains(2u8) {
            let k = choose|k: int|
                0 <= k < n && #[trigger] buf@.subrange(2, 2 + n as int)[k] == 2u8;
            assert(buf@[k + 2] == 2u8);
        }
    }
    Socks5Greeting::NoAcceptableMethod
}

/// The outcome of the username/password sub-negotiation.
#[derive(Debug, Clone)]
pub enum Socks5Auth {
    NeedMore(usize),
    /// The sub-negotiation version is not 1: drop without a reply.
    BadVersion,
    Parsed { consumed: usize, user: Vec<u8>, pass: Vec<u8> },
}

pub open spec fn socks5_auth_matches(b: Seq<u8>, r: Socks5Auth) -> bool {
    if b.len() < 1 {
        r == Socks5Auth::NeedMore(1)
    } else if b[0] != 1 {
        r is BadVersion
    } else if b.len() < 2 {
        r == Socks5Auth::NeedMore(2)
    } else if b.len() < 3 + b[1] {
        r == Socks5Auth::NeedMore((3 + b[1]) as usize)
    } else {
        let ul = b[1] as int;
        let pl = b[2 + ul] as int;
        if b.len() < 3 + ul + pl {
            r == Socks5Auth::NeedMore((3 + ul + pl) as usize)
        } else {
            r matches Socks5Auth::Parsed { consumed, user, pass } && consumed == 3 + ul + pl
                && user@ == b.subrange(2, 2 + ul) && pass@ == b.subrange(3 + ul, 3 + ul + pl)
        }
    }
}

/// The bytes `b[lo..hi]`.
pub fn sub_bytes(b: &[u8], lo: usize, hi: usize) -> (r: Vec<u8>)
    requires
        lo <= hi <= b@.len(),
    ensures
        r@ == b@.subrange(lo as int, hi as int),
{
    let mut r: Vec<u8> = Vec::new();
    let mut i = lo;
    while i < hi
        invariant
            lo <= i <= hi <= b@.len(),
            r@ == b@.subrange(lo as int, i as int),
        decreases hi - i,
    {
        r.push(b[i]);
        i = i + 1;
        assert(r@ =~= b@.subrange(lo as int, i as int));
    }
    r
}

/// Read the username/password request (after the greeting's bytes).
pub fn socks5_auth_request(buf: &[u8]) -> (r: Socks5Auth)
    ensures
        socks5_auth_matches(buf@, r),
{
    if buf.len() < 1 {
        return Socks5Auth::NeedMore(1);
    }
    if buf[0] != 1 {
        return Socks5Auth::BadVersion;
    }
    if buf.len() < 2 {
        return Socks5Auth::NeedMore(2);
    }
    let ul = buf[1] as usize;
    if buf.len() < 3 + ul {
        return Socks5Auth::NeedMore(3 + ul);
    }
    let pl = buf[2 + ul] as usize;
    if buf.len() < 3 + ul + pl {
        return Socks5Auth::NeedMore(3 + ul + pl);
    }
    let user = sub_bytes(buf, 2, 2 + ul);
    let pass = sub_bytes(buf, 3 + ul, 3 + ul + pl);
    Socks5Auth::Parsed { consumed: 3 + ul + pl, user, pass }
}

/// Whether the SOCKS5 username and password (read as lossy UTF-8) are the
/// expected ones; equal credentials are always accepted. Reply `[1, 0]` on
/// success and `[1, 1]` after the rate limiter's delay on failure.
pub fn socks5_credentials_ok(
    key: &AuthKey,
    user: &[u8],
    pass: &[u8],
    expected_user: &str,
    expected_pass: &str,
) -> (r: bool)
    ensures
        r == (key.mac_of(utf8_lossy(user@)) == key.mac_of(expected_user@) && key.mac_of(utf8_lossy(pass@))
            == key.mac_of(expected_pass@)),
        utf8_lossy(user@) == expected_user@ && utf8_lossy(pass@) == expected_pass@ ==> r,
{
    let u = utf8_lossy_of(user);
    let p = utf8_lossy_of(pass);
    let a = ct_str_eq(key, u.as_str(), expected_user);
    let b = ct_str_eq(key, p.as_str(), expected_pass);
    a && b
}

/// `a.b.c.d` in decimal.
pub open spec fn ipv4_text(a: u8, b: u8, c: u8, d: u8) -> Seq<char> {
    decimal(a as nat) + seq!['.'] + decimal(b as nat) + seq!['.'] + decimal(c as nat) + seq!['.']
        + decimal(d as nat)
}

/// Eight big-endian 16-bit groups in lowercase hex, without zero compression.
pub open spec fn ipv6_text(b: Seq<u8>) -> Seq<char> {
    crate::text::hex((b[0] * 256 + b[1]) as nat) + seq![':'] + crate::text::hex(
        (b[2] * 256 + b[3]) as nat,
    ) + seq![':'] + crate::text::hex((b[4] * 256 + b[5]) as nat) + seq![':'] + crate::text::hex(
        (b[6] * 256 + b[7]) as nat,
    ) + seq![':'] + crate::text::hex((b[8] * 256 + b[9]) as nat) + seq![':'] + crate::text::hex(
        (b[10] * 256 + b[11]) as nat,
    ) + seq![':'] + crate::text::hex((b[12] * 256 + b[13]) as nat) + seq![':'] + crate::text::hex(
        (b[14] * 256 + b[15]) as nat,
    )
}

/// `a.b.c.d`.
pub fn format_ipv4(a: u8, b: u8, c: u8, d: u8) -> (s: String)
    ensures
        s@ == ipv4_text(a, b, c, d),
{
    let mut v: Vec<char> = Vec::new();
    push_decimal(&mut v, a as u64);
    v.push('.');
    push_decimal(&mut v, b as u64);
    v.push('.');
    push_decimal(&mut v, c as u64);
    v.push('.');
    push_decimal(&mut v, d as u64);
    assert(v@ =~= ipv4_text(a, b, c, d));
    string_of(&v)
}

/// Eight colon-separated hex groups of a 16-byte address.
pub fn format_ipv6(b: &[u8]) -> (s: String)
    requires
        b@.len() == 16,
    ensures
        s@ == ipv6_text(b@),
{
    let mut v: Vec<char> = Vec::new();
    let mut i: usize = 0;
    let ghost groups: Seq<Seq<char>> = Seq::new(
        8,
        |k: int| crate::text::hex((b@[2 * k] * 256 + b@[2 * k + 1]) as nat),
    );
    while i < 8
        invariant
            i <= 8,
            b@.len() == 16,
            groups == Seq::new(
                8,
                |k: int| crate::text::hex((b@[2 * k] * 256 + b@[2 * k + 1]) as nat),
            ),
            i == 0 ==> v@ == Seq::<char>::empty(),
            i > 0 ==> v@ == groups_joined(groups, i as int),
        decreases 8 - i,
    {
        if i > 0 {
            v.push(':');
        }
        let g = (b[2 * i] as u64) * 256 + (b[2 * i + 1] as u64);
        push_hex(&mut v, g);
        proof {
            if i > 0 {
                assert(v@ =~= groups_joined(groups, i as int) + seq![':'] + groups[i as int]);
            } else {
                assert(v@ =~= groups[0]);
            }
        }
        i = i + 1;
    }
    proof {
        reveal_with_fuel(groups_joined, 9);
        assert(v@ =~= ipv6_text(b@));
    }
    string_of(&v)
}

/// The first `n` groups joined with `:`.
pub open spec fn groups_joined(g: Seq<Seq<char>>, n: int) -> Seq<char>
    decreases n,
{
    if n <= 1 {
        g[0]
    } else {
        groups_joined(g, n - 1) + seq![':'] + g[n - 1]
    }
}


/// The outcome of the SOCKS5 connect request.
#[derive(Debug, Clone)]
pub enum Socks5Request {
    NeedMore(usize),
    /// The version byte is not 5: drop without a reply.
    BadVersion,
    /// Reply [`socks5_reply`]`(code)` and drop: 7 for a command other than
    /// CONNECT, 8 for an unknown address type.
    Reject(u8),
    /// The domain name is not UTF-8: drop without a reply.
    InvalidDomain,
    /// Connect to `host:port`.
    Target { consumed: usize, host: String, port: u16 },
}

pub open spec fn be16(hi: u8, lo: u8) -> u16 {
    (hi * 256 + lo) as u16
}

pub open spec fn socks5_request_matches(b: Seq<u8>, r: Socks5Request) -> bool {
    if b.len() < 4 {
        r == Socks5Request::NeedMore(4)
    } else if b[0] != 5 {
        r is BadVersion
    } else if b[1] != 1 {
        r == Socks5Request::Reject(7)
    } else if b[3] == 1 {
        if b.len() < 10 {
            r == Socks5Request::NeedMore(10)
        } else {
            r matches Socks5Request::Target { consumed, host, port } && consumed == 10 && host@
                == ipv4_text(b[4], b[5], b[6], b[7]) && port == be16(b[8], b[9])
        }
    } else if b[3] == 3 {
        if b.len() < 5 {
            r == Socks5Request::NeedMore(5)
        } else {
            let l = b[4] as int;
            if b.len() < 5 + l {
                r == Socks5Request::NeedMore((5 + l) as usize)
            } else if !valid_utf8(b.subrange(5, 5 + l)) {
                r is InvalidDomain
            } else if b.len() < 7 + l {
                r == Socks5Request::NeedMore((7 + l) as usize)
            } else {
                r matches Socks5Request::Target { consumed, host, port } && consumed == 7 + l
                    && host@ == decode_utf8(b.subrange(5, 5 + l)) && port == be16(
                    b[5 + l],
                    b[6 + l],
                )
            }
        }
    } else if b[3] == 4 {
        if b.len() < 22 {
            r == Socks5Request::NeedMore(22)
        } else {
            r matches Socks5Request::Target { consumed, host, port } && consumed == 22 && host@
                == ipv6_text(b.subrange(4, 20)) && port == be16(b[20], b[21])
        }
    } else {
        r == Socks5Request::Reject(8)
    }
}

/// The 10-byte SOCKS5 reply with the given code and an empty IPv4 bound address.
pub fn socks5_reply(code: u8) -> (r: [u8; 10])
    ensures
        r@ == seq![5u8, code, 0u8, 1u8, 0u8, 0u8, 0u8, 0u8, 0u8, 0u8],
{
    let r = [5u8, code, 0, 1, 0, 0, 0, 0, 0, 0];
    assert(r@ =~= seq![5u8, code, 0u8, 1u8, 0u8, 0u8, 0u8, 0u8, 0u8, 0u8]);
    r
}

/// Read the SOCKS5 connect request (after the greeting and any authentication).
pub fn socks5_request(buf: &[u8]) -> (r: Socks5Request)
    ensures
        socks5_request_matches(buf@, r),
{
    if buf.len() < 4 {
        return Socks5Request::NeedMore(4);
    }
    if buf[0] != 5 {
        return Socks5Request::BadVersion;
    }
    if buf[1] != 1 {
        return Socks5Request::Reject(7);
    }
    let atyp = buf[3];
    if atyp == 1 {
        if buf.len() < 10 {
            return Socks5Request::NeedMore(10);
        }
        let host = format_ipv4(buf[4], buf[5], buf[6], buf[7]);
        let port = (buf[8] as u16) * 256 + (buf[9] as u16);
        Socks5Request::Target { consumed: 10, host, port }
    } else if atyp == 3 {
        if buf.len() < 5 {
            return Socks5Request::NeedMore(5);
        }
        let l = buf[4] as usize;
        if buf.len() < 5 + l {
            return Socks5Request::NeedMore(5 + l);
        }
        let domain = sub_bytes(buf, 5, 5 + l);
        let host = match string_from_utf8(&domain) {
            None => return Socks5Request::InvalidDomain,
            Some(h) => h,
        };
        if buf.len() < 7 + l {
            return Socks5Request::NeedMore(7 + l);
        }
        let port = (buf[5 + l] as u16) * 256 + (buf[6 + l] as u16);
        Socks5Request::Target { consumed: 7 + l, host, port }
    } else if atyp == 4 {
        if buf.len() < 22 {
            return Socks5Request::NeedMore(22);
        }
        let addr = sub_bytes(buf, 4, 20);
        let host = format_ipv6(&addr);
        let port = (buf[20] as u16) * 256 + (buf[21] as u16);
        Socks5Request::Target { consumed: 22, host, port }
    } else {
        Socks5Request::Reject(8)
    }
}

// ---------------------------------------------------------------------------
// SOCKS4 / SOCKS4a server handshake
// ---------------------------------------------------------------------------

/// The longest USERID and SOCKS4a domain accepted.
pub const SOCKS4_MAX_FIELD: usize = 255;

/// The position of the first zero byte, or -1.
pub open spec fn first_zero(s: Seq<u8>) -> int
    decreases s.len(),
{
    if s.len() == 0 {
        -1
    } else if s[0] == 0 {
        0
    } else {
        let r = first_zero(s.drop_first());
        if r < 0 {
            -1
        } else {
            r + 1
        }
    }
}

pub proof fn lemma_first_zero(s: Seq<u8>)
    ensures
        ({
            let r = first_zero(s);
            ||| (r == -1 && forall|j: int| 0 <= j < s.len() ==> s[j] != 0)
            ||| (0 <= r < s.len() && s[r] == 0 && forall|j: int| 0 <= j < r ==> s[j] != 0)
        }),
    decreases s.len(),
{
    if s.len() > 0 && s[0] != 0 {
        let t = s.drop_first();
        lemma_first_zero(t);
        assert forall|j: int| 0 < j < s.len() implies s[j] == t[j - 1] by {}
    }
}

/// Reading a NUL-terminated field of at most 255 bytes starting at `start`.
#[derive(Debug, Clone, Copy, PartialEq, Eq, Structural)]
pub enum FieldScan {
    /// The field ends with the NUL just before `end`.
    Found(usize),
    /// 256 bytes without a NUL.
    TooLong,
    /// Read until this many bytes are buffered.
    NeedMore(usize),
}

pub open spec fn field_scan(b: Seq<u8>, start: int) -> FieldScan {
    let rest = b.skip(start);
    let window = if rest.len() > 256 {
        rest.take(256)
    } else {
        rest
    };
    let z = first_zero(window);
    if z >= 0 {
        FieldScan::Found((start + z + 1) as usize)
    } else if rest.len() >= 256 {
        FieldScan::TooLong
    } else {
        FieldScan::NeedMore((start + rest.len() + 1) as usize)
    }
}

fn scan_field(buf: &[u8], start: usize) -> (r: FieldScan)
    requires
        start <= buf@.len() < usize::MAX,
    ensures
        r == field_scan(buf@, start as int),
{
    let ghost rest = buf@.skip(start as int);
    let ghost window = if rest.len() > 256 {
        rest.take(256)
    } else {
        rest
    };
    proof {
        lemma_first_zero(window);
    }
    let mut k: usize = 0;
    while k < 256 && k < buf.len() - start
        invariant
            start <= buf@.len(),
            k <= 256,
            start + k <= buf@.len(),
            rest == buf@.skip(start as int),
            window == (if rest.len() > 256 {
                rest.take(256)
            } else {
                rest
            }),
            forall|j: int| start <= j < start + k ==> buf@[j] != 0,
        decreases 256 - k,
    {
        if buf[start + k] == 0 {
            proof {
                lemma_first_zero(window);
                assert(window[k as int] == 0);
                let z = first_zero(window);
                if z != k {
                    if z < k {
                        assert(window[z] == buf@[start + z]);
                    }
                }
            }
            return FieldScan::Found(start + k + 1);
        }
        k = k + 1;
    }
    proof {
        lemma_first_zero(window);
        assert forall|j: int| 0 <= j < window.len() implies window[j] != 0 by {
            assert(window[j] == buf@[start + j]);
        }
    }
    if k == 256 {
        FieldScan::TooLong
    } else {
        FieldScan::NeedMore(buf.len() + 1)
    }
}

/// The outcome of the SOCKS4 request.
#[derive(Debug, Clone)]
pub enum Socks4Request {
    NeedMore(usize),
    /// The version byte is not 4: drop without a reply.
    BadVersion(u8),
    /// Reply [`socks4_rejected`] and drop: a command other than CONNECT, or
    /// a USERID or domain of more than 255 bytes.
    Reject,
    /// The SOCKS4a domain is not UTF-8: drop without a reply.
    InvalidDomain,
    /// Connect to `host:port`; `header` is the request's first 8 bytes.
    Target { consumed: usize, host: String, port: u16, header: [u8; 8] },
}

/// SOCKS4a: the destination IP is 0.0.0.x with x non-zero and a domain follows.
pub open spec fn socks4a(b: Seq<u8>) -> bool {
    b[4] == 0 && b[5] == 0 && b[6] == 0 && b[7] != 0
}

pub open spec fn socks4_request_matches(b: Seq<u8>, r: Socks4Request) -> bool {
    if b.len() < 8 {
        r == Socks4Request::NeedMore(8)
    } else if b[0] != 4 {
        r == Socks4Request::BadVersion(b[0])
    } else if b[1] != 1 {
        r is Reject
    } else {
        match field_scan(b, 8) {
            FieldScan::TooLong => r is Reject,
            FieldScan::NeedMore(n) => r == Socks4Request::NeedMore(n),
            FieldScan::Found(u) => if !socks4a(b) {
                r matches Socks4Request::Target { consumed, host, port, header } && consumed == u
                    && host@ == ipv4_text(b[4], b[5], b[6], b[7]) && port == be16(b[2], b[3])
                    && header@ == b.take(8)
            } else {
                match field_scan(b, u as int) {
                    FieldScan::TooLong => r is Reject,
                    FieldScan::NeedMore(n) => r == Socks4Request::NeedMore(n),
                    FieldScan::Found(d) => if !valid_utf8(b.subrange(u as int, d - 1)) {
                        r is InvalidDomain
                    } else {
                        r matches Socks4Request::Target { consumed, host, port, header }
                            && consumed == d && host@ == decode_utf8(b.subrange(u as int, d - 1))
                            && port == be16(b[2], b[3]) && header@ == b.take(8)
                    },
                }
            },
        }
    }
}

/// The SOCKS4 rejection reply.
pub fn socks4_rejected() -> (r: [u8; 8])
    ensures
        r@ == seq![0u8, 0x5Bu8, 0u8, 0u8, 0u8, 0u8, 0u8, 0u8],
{
    let r = [0u8, 0x5B, 0, 0, 0, 0, 0, 0];
    assert(r@ =~= seq![0u8, 0x5Bu8, 0u8, 0u8, 0u8, 0u8, 0u8, 0u8]);
    r
}

/// The SOCKS4 grant reply echoing the request's port and IP.
pub fn socks4_granted(header: &[u8; 8]) -> (r: [u8; 8])
    ensures
        r@ == seq![0u8, 0x5Au8, header@[2], header@[3], header@[4], header@[5], header@[6], header@[7]],
{
    let r = [0u8, 0x5A, header[2], header[3], header[4], header[5], header[6], header[7]];
    assert(r@ =~= seq![0u8, 0x5Au8, header@[2], header@[3], header@[4], header@[5], header@[6], header@[7]]);
    r
}

/// Read the SOCKS4/SOCKS4a request from the bytes received so far.
pub fn socks4_request(buf: &[u8]) -> (r: Socks4Request)
    requires
        buf@.len() < usize::MAX,
    ensures
        socks4_request_matches(buf@, r),
{
    if buf.len() < 8 {
        return Socks4Request::NeedMore(8);
    }
    if buf[0] != 4 {
        return Socks4Request::BadVersion(buf[0]);
    }
    if buf[1] != 1 {
        return Socks4Request::Reject;
    }
    let header: [u8; 8] = [buf[0], buf[1], buf[2], buf[3], buf[4], buf[5], buf[6], buf[7]];
    assert(header@ =~= buf@.take(8));
    let port = (buf[2] as u16) * 256 + (buf[3] as u16);
    let u = match scan_field(buf, 8) {
        FieldScan::TooLong => return Socks4Request::Reject,
        FieldScan::NeedMore(n) => return Socks4Request::NeedMore(n),
        FieldScan::Found(u) => u,
    };
    if !(buf[4] == 0 && buf[5] == 0 && buf[6] == 0 && buf[7] != 0) {
        let host = format_ipv4(buf[4], buf[5], buf[6], buf[7]);
        return Socks4Request::Target { consumed: u, host, port, header };
    }
    proof {
        lemma_first_zero(buf@.skip(8));
    }
    assert(u <= buf@.len()) by {
        let rest = buf@.skip(8);
        let window = if rest.len() > 256 {
            rest.take(256)
        } else {
            rest
        };
        lemma_first_zero(window);
    }
    let d = match scan_field(buf, u) {
        FieldScan::TooLong => return Socks4Request::Reject,
        FieldScan::NeedMore(n) => return Socks4Request::NeedMore(n),
        FieldScan::Found(d) => d,
    };
    assert(u < d <= buf@.len()) by {
        let rest = buf@.skip(u as int);
        let window = if rest.len() > 256 {
            rest.take(256)
        } else {
            rest
        };
        lemma_first_zero(window);
    }
    let domain = sub_bytes(buf, u, d - 1);
    match string_from_utf8(&domain) {
        None => Socks4Request::InvalidDomain,
        Some(host) => Socks4Request::Target { consumed: d, host, port, header },
    }
}


// ---------------------------------------------------------------------------
// Rate limiting of failed authentication
// ---------------------------------------------------------------------------

/// Delay before answering a failed authentication.
pub const AUTH_FAIL_DELAY_MS: u64 = 2000;
/// Failures counted from the first one within this window lead to a block.
pub const AUTH_FAIL_WINDOW_MS: u64 = 60000;
/// Number of failures after which a client is blocked.
pub const AUTH_FAIL_BLOCK_AFTER: u32 = 5;
/// Delay imposed on a blocked client.
pub const AUTH_FAIL_BLOCK_FOR_MS: u64 = 60000;
/// Records whose first failure is this old are forgotten.
pub const AUTH_FAIL_CLEANUP_AGE_MS: u64 = 3600000;

/// Failed authentications of one client address.
#[derive(Debug, Clone)]
pub struct FailRecord {
    pub ip: String,
    pub count: u32,
    pub first_ms: u64,
}

pub struct FailRecordView {
    pub ip: Seq<char>,
    pub count: u32,
    pub first_ms: u64,
}

impl View for FailRecord {
    type V = FailRecordView;

    open spec fn view(&self) -> FailRecordView {
        FailRecordView { ip: self.ip@, count: self.count, first_ms: self.first_ms }
    }
}

/// Counts failed authentications per client address (times in milliseconds
/// on a monotonic clock).
pub struct AuthRateLimiter {
    records: Vec<FailRecord>,
}

/// Time elapsed from `then` to `now`, zero if `then` is later (as
/// `Instant::duration_since` saturates).
pub open spec fn elapsed(now: u64, then: u64) -> int {
    if now >= then {
        now - then
    } else {
        0
    }
}

/// The records still younger than the cleanup age, in order.
pub open spec fn fresh_records(s: Seq<FailRecordView>, now: u64) -> Seq<FailRecordView>
    decreases s.len(),
{
    if s.len() == 0 {
        seq![]
    } else {
        let r = fresh_records(s.drop_last(), now);
        if elapsed(now, s.last().first_ms) < AUTH_FAIL_CLEANUP_AGE_MS {
            r.push(s.last())
        } else {
            r
        }
    }
}

/// The record of `ip`, if any.
pub open spec fn record_of(s: Seq<FailRecordView>, ip: Seq<char>) -> Option<FailRecordView> {
    if exists|i: int| 0 <= i < s.len() && s[i].ip == ip {
        let i = choose|i: int| 0 <= i < s.len() && s[i].ip == ip;
        Some(s[i])
    } else {
        None
    }
}

/// No two records share an address.
pub open spec fn unique_ips(s: Seq<FailRecordView>) -> bool {
    forall|i: int, j: int| 0 <= i < s.len() && 0 <= j < s.len() && s[i].ip == s[j].ip ==> i == j
}

/// The records after a failure of `ip` at `now`: old records dropped, then
/// the count of `ip` raised (saturating) or a new record started.
pub open spec fn after_failure(s: Seq<FailRecordView>, ip: Seq<char>, now: u64) -> Seq<FailRecordView> {
    let f = fresh_records(s, now);
    if exists|i: int| 0 <= i < f.len() && f[i].ip == ip {
        f.map_values(
            |r: FailRecordView|
                if r.ip == ip {
                    FailRecordView {
                        ip: r.ip,
                        count: if r.count < u32::MAX {
                            (r.count + 1) as u32
                        } else {
                            r.count
                        },
                        first_ms: r.first_ms,
                    }
                } else {
                    r
                },
        )
    } else {
        f.push(FailRecordView { ip, count: 1, first_ms: now })
    }
}

/// The delay for a client whose record, after counting the failure, is `r`.
pub open spec fn delay_for(r: FailRecordView, now: u64) -> u64 {
    if r.count >= AUTH_FAIL_BLOCK_AFTER && elapsed(now, r.first_ms) < AUTH_FAIL_WINDOW_MS {
        AUTH_FAIL_BLOCK_FOR_MS
    } else {
        AUTH_FAIL_DELAY_MS
    }
}

pub proof fn lemma_fresh_records(s: Seq<FailRecordView>, now: u64)
    ensures
        forall|i: int|
            0 <= i < fresh_records(s, now).len() ==> elapsed(now, #[trigger] fresh_records(s, now)[i].first_ms)
                < AUTH_FAIL_CLEANUP_AGE_MS,
        forall|i: int|
            0 <= i < fresh_records(s, now).len() ==> s.contains(#[trigger] fresh_records(s, now)[i]),
        unique_ips(s) ==> unique_ips(fresh_records(s, now)),
    decreases s.len(),
{
    if s.len() > 0 {
        let t = s.drop_last();
        lemma_fresh_records(t, now);
        let f = fresh_records(s, now);
        let ft = fresh_records(t, now);
        assert forall|i: int| 0 <= i < f.len() implies s.contains(#[trigger] f[i]) by {
            if i < ft.len() {
                assert(f[i] == ft[i]);
                assert(t.contains(ft[i]));
                let k = choose|k: int| 0 <= k < t.len() && t[k] == ft[i];
                assert(s[k] == t[k]);
            } else {
                assert(f[i] == s.last());
                assert(s[s.len() - 1] == s.last());
            }
        }
        if unique_ips(s) {
            assert(unique_ips(t)) by {
                assert forall|i: int, j: int|
                    0 <= i < t.len() && 0 <= j < t.len() && t[i].ip == t[j].ip implies i == j by {
                    assert(s[i] == t[i] && s[j] == t[j]);
                }
            }
            if elapsed(now, s.last().first_ms) < AUTH_FAIL_CLEANUP_AGE_MS {
                assert forall|i: int, j: int|
                    0 <= i < f.len() && 0 <= j < f.len() && f[i].ip == f[j].ip implies i == j by {
                    if i < ft.len() && j == ft.len() {
                        let k = choose|k: int| 0 <= k < t.len() && t[k] == ft[i];
                        assert(s[k] == t[k]);
                        assert(s[s.len() - 1] == s.last());
                    } else if j < ft.len() && i == ft.len() {
                        let k = choose|k: int| 0 <= k < t.len() && t[k] == ft[j];
                        assert(s[k] == t[k]);
                        assert(s[s.len() - 1] == s.last());
                    }
                }
            }
        }
    }
}

proof fn lemma_record_at(s: Seq<FailRecordView>, i: int)
    requires
        unique_ips(s),
        0 <= i < s.len(),
    ensures
        record_of(s, s[i].ip) == Some(s[i]),
{
    let k = choose|k: int| 0 <= k < s.len() && s[k].ip == s[i].ip;
    assert(k == i);
}

/// A failure of `ip` counts once against `ip`'s record (started afresh when
/// it had none still young) and leaves every other client's record as the
/// cleanup left it. A client's first failure is answered after the short
/// delay; a client that reaches [`AUTH_FAIL_BLOCK_AFTER`] failures within
/// [`AUTH_FAIL_WINDOW_MS`] of its first one is blocked.
pub proof fn lemma_failure_counted(s: Seq<FailRecordView>, ip: Seq<char>, now: u64)
    requires
        unique_ips(s),
    ensures
        ({
            let f = fresh_records(s, now);
            let a = after_failure(s, ip, now);
            &&& record_of(a, ip) matches Some(r2) && match record_of(f, ip) {
                Some(r) => r2.count == (if r.count < u32::MAX {
                    (r.count + 1) as u32
                } else {
                    r.count
                }) && r2.first_ms == r.first_ms && (r2.count >= AUTH_FAIL_BLOCK_AFTER && elapsed(now, r.first_ms)
                    < AUTH_FAIL_WINDOW_MS ==> delay_for(r2, now) == AUTH_FAIL_BLOCK_FOR_MS),
                None => r2.count == 1 && r2.first_ms == now && delay_for(r2, now) == AUTH_FAIL_DELAY_MS,
            }
            &&& forall|other: Seq<char>| other != ip ==> #[trigger] record_of(a, other) == record_of(f, other)
            &&& unique_ips(a)
        }),
{
    let f = fresh_records(s, now);
    let a = after_failure(s, ip, now);
    lemma_fresh_records(s, now);
    if exists|i: int| 0 <= i < f.len() && f[i].ip == ip {
        let k = choose|i: int| 0 <= i < f.len() && f[i].ip == ip;
        lemma_record_at(f, k);
        assert(a[k].ip == ip);
        assert(unique_ips(a)) by {
            assert forall|x: int, y: int| 0 <= x < a.len() && 0 <= y < a.len() && a[x].ip == a[y].ip implies x == y by {
                assert(a[x].ip == f[x].ip && a[y].ip == f[y].ip);
            }
        }
        lemma_record_at(a, k);
        assert forall|other: Seq<char>| other != ip implies #[trigger] record_of(a, other) == record_of(f, other) by {
            if exists|i: int| 0 <= i < f.len() && f[i].ip == other {
                let j = choose|i: int| 0 <= i < f.len() && f[i].ip == other;
                lemma_record_at(f, j);
                assert(a[j].ip == other);
                lemma_record_at(a, j);
            } else {
                assert forall|i: int| 0 <= i < a.len() implies a[i].ip != other by {
                    assert(a[i].ip == f[i].ip);
                }
            }
        }
    } else {
        let k = f.len() as int;
        assert(a[k].ip == ip);
        assert(unique_ips(a)) by {
            assert forall|x: int, y: int| 0 <= x < a.len() && 0 <= y < a.len() && a[x].ip == a[y].ip implies x == y by {
                if x < k && y < k {
                    assert(a[x] == f[x] && a[y] == f[y]);
                }
            }
        }
        lemma_record_at(a, k);
        assert forall|other: Seq<char>| other != ip implies #[trigger] record_of(a, other) == record_of(f, other) by {
            if exists|i: int| 0 <= i < f.len() && f[i].ip == other {
                let j = choose|i: int| 0 <= i < f.len() && f[i].ip == other;
                lemma_record_at(f, j);
                assert(a[j] == f[j]);
                lemma_record_at(a, j);
            } else {
                assert forall|i: int| 0 <= i < a.len() implies a[i].ip != other by {
                    if i < k {
                        assert(a[i] == f[i]);
                    }
                }
            }
        }
    }
}

proof fn lemma_fresh_keeps_young(s: Seq<FailRecordView>, now: u64, x: FailRecordView)
    requires
        s.contains(x),
        elapsed(now, x.first_ms) < AUTH_FAIL_CLEANUP_AGE_MS,
    ensures
        fresh_records(s, now).contains(x),
    decreases s.len(),
{
    if s.last() == x {
        assert(fresh_records(s, now).last() == x);
    } else {
        let k = choose|k: int| 0 <= k < s.len() && s[k] == x;
        assert(s.drop_last()[k] == x);
        lemma_fresh_keeps_young(s.drop_last(), now, x);
        let f = fresh_records(s.drop_last(), now);
        let m = choose|m: int| 0 <= m < f.len() && f[m] == x;
        if elapsed(now, s.last().first_ms) < AUTH_FAIL_CLEANUP_AGE_MS {
            assert(fresh_records(s, now)[m] == x);
        }
    }
}

/// The record of `ip` after the cleanup at `now`: its record, if it is still
/// young.
proof fn lemma_fresh_record_of(s: Seq<FailRecordView>, now: u64, ip: Seq<char>)
    requires
        unique_ips(s),
    ensures
        record_of(fresh_records(s, now), ip) == match record_of(s, ip) {
            Some(r) => if elapsed(now, r.first_ms) < AUTH_FAIL_CLEANUP_AGE_MS {
                Some(r)
            } else {
                None
            },
            None => None::<FailRecordView>,
        },
{
    let f = fresh_records(s, now);
    lemma_fresh_records(s, now);
    if exists|i: int| 0 <= i < s.len() && s[i].ip == ip {
        let i = choose|i: int| 0 <= i < s.len() && s[i].ip == ip;
        lemma_record_at(s, i);
        let r = s[i];
        if elapsed(now, r.first_ms) < AUTH_FAIL_CLEANUP_AGE_MS {
            lemma_fresh_keeps_young(s, now, r);
            let m = choose|m: int| 0 <= m < f.len() && f[m] == r;
            lemma_record_at(f, m);
        } else {
            assert forall|m: int| 0 <= m < f.len() implies f[m].ip != ip by {
                assert(s.contains(f[m]));
                let k = choose|k: int| 0 <= k < s.len() && s[k] == f[m];
                if f[m].ip == ip {
                    assert(k == i);
                }
            }
        }
    } else {
        assert forall|m: int| 0 <= m < f.len() implies f[m].ip != ip by {
            assert(s.contains(f[m]));
        }
    }
}

/// The records after failures of `ip` at each of `times`, in order.
pub open spec fn failures_of(s: Seq<FailRecordView>, ip: Seq<char>, times: Seq<u64>) -> Seq<FailRecordView>
    decreases times.len(),
{
    if times.len() == 0 {
        s
    } else {
        after_failure(failures_of(s, ip, times.drop_last()), ip, times.last())
    }
}

/// `times` all fall within the counting window that opens at the first.
pub open spec fn within_window(times: Seq<u64>) -> bool {
    forall|k: int| 0 <= k < times.len() ==> times[0] <= #[trigger] times[k] && times[k] - times[0] < AUTH_FAIL_WINDOW_MS
}

proof fn lemma_failures_counted(s: Seq<FailRecordView>, ip: Seq<char>, times: Seq<u64>)
    requires
        unique_ips(s),
        record_of(s, ip) is None,
        times.len() >= 1,
        within_window(times),
    ensures
        unique_ips(failures_of(s, ip, times)),
        record_of(failures_of(s, ip, times), ip) matches Some(r) && r.first_ms == times[0] && r.count == (if times.len()
            < u32::MAX {
            times.len()
        } else {
            u32::MAX as nat
        }),
    decreases times.len(),
{
    let t = times.last();
    let prev = failures_of(s, ip, times.drop_last());
    if times.len() == 1 {
        assert(times.drop_last().len() == 0);
        lemma_fresh_record_of(s, t, ip);
        lemma_failure_counted(s, ip, t);
    } else {
        let d = times.drop_last();
        assert(within_window(d)) by {
            assert forall|k: int| 0 <= k < d.len() implies d[0] <= #[trigger] d[k] && d[k] - d[0] < AUTH_FAIL_WINDOW_MS by {
                assert(d[k] == times[k]);
                assert(d[0] == times[0]);
            }
        }
        lemma_failures_counted(s, ip, d);
        assert(times[times.len() - 1] == t);
        lemma_fresh_record_of(prev, t, ip);
        lemma_failure_counted(prev, ip, t);
    }
}

/// Repeated failures of one client within the counting window: the first
/// four are answered after the short delay ([`AUTH_FAIL_DELAY_MS`]), the
/// fifth and every later one after the block time
/// ([`AUTH_FAIL_BLOCK_FOR_MS`]), when the client had no record before.
/// (Another client's failures change no record of this one, see
/// [`lemma_failure_counted`].)
pub proof fn lemma_failures_block_from_the_fifth(s: Seq<FailRecordView>, ip: Seq<char>, times: Seq<u64>)
    requires
        unique_ips(s),
        record_of(s, ip) is None,
        within_window(times),
    ensures
        forall|j: int|
            1 <= j <= times.len() ==> (record_of(#[trigger] failures_of(s, ip, times.take(j)), ip) matches Some(r)
                && delay_for(r, times[j - 1]) == if j < AUTH_FAIL_BLOCK_AFTER {
                AUTH_FAIL_DELAY_MS
            } else {
                AUTH_FAIL_BLOCK_FOR_MS
            }),
{
    assert forall|j: int| 1 <= j <= times.len() implies (record_of(#[trigger] failures_of(s, ip, times.take(j)), ip) matches Some(r)
        && delay_for(r, times[j - 1]) == if j < AUTH_FAIL_BLOCK_AFTER {
        AUTH_FAIL_DELAY_MS
    } else {
        AUTH_FAIL_BLOCK_FOR_MS
    }) by {
        let t = times.take(j);
        assert(within_window(t)) by {
            assert forall|k: int| 0 <= k < t.len() implies t[0] <= #[trigger] t[k] && t[k] - t[0] < AUTH_FAIL_WINDOW_MS by {
                assert(t[k] == times[k]);
                assert(t[0] == times[0]);
            }
        }
        lemma_failures_counted(s, ip, t);
        assert(t[0] == times[0]);
        assert(times[0] <= times[j - 1] && times[j - 1] - times[0] < AUTH_FAIL_WINDOW_MS);
    }
}

proof fn lemma_record_of_ip(s: Seq<FailRecordView>, ip: Seq<char>)
    ensures
        record_of(s, ip) matches Some(r) ==> r.ip == ip,
{
}

/// Another client's failure changes nothing of this client's next answer:
/// a failure of `other` at `t`, then one of `ip` at `later` (not earlier),
/// leave `ip` with the record (so the delay) that the failure of `ip` alone
/// would.
pub proof fn lemma_other_failures_leave_delay(s: Seq<FailRecordView>, ip: Seq<char>, other: Seq<char>, t: u64, later: u64)
    requires
        unique_ips(s),
        other != ip,
        t <= later,
    ensures
        record_of(after_failure(after_failure(s, other, t), ip, later), ip) == record_of(after_failure(s, ip, later), ip),
{
    let a = after_failure(s, other, t);
    lemma_failure_counted(s, other, t);
    lemma_fresh_record_of(s, t, ip);
    lemma_fresh_record_of(a, later, ip);
    lemma_fresh_record_of(s, later, ip);
    assert(record_of(fresh_records(a, later), ip) == record_of(fresh_records(s, later), ip));
    lemma_failure_counted(a, ip, later);
    lemma_failure_counted(s, ip, later);
    lemma_record_of_ip(after_failure(a, ip, later), ip);
    lemma_record_of_ip(after_failure(s, ip, later), ip);
}

fn find_record(recs: &Vec<FailRecord>, ip: &str) -> (r: Option<usize>)
    ensures
        match r {
            Some(k) => k < recs@.len() && recs@[k as int].ip@ == ip@,
            None => forall|k: int| 0 <= k < recs@.len() ==> recs@[k].ip@ != ip@,
        },
{
    let target = chars_of(ip);
    let mut j: usize = 0;
    while j < recs.len()
        invariant
            j <= recs@.len(),
            target@ == ip@,
            forall|k: int| 0 <= k < j ==> recs@[k].ip@ != ip@,
        decreases recs.len() - j,
    {
        let cand = chars_of(recs[j].ip.as_str());
        if crate::text::chars_eq(&cand, &target) {
            return Some(j);
        }
        j = j + 1;
    }
    None
}

impl AuthRateLimiter {
    pub closed spec fn records_view(&self) -> Seq<FailRecordView> {
        self.records@.map_values(|r: FailRecord| r@)
    }

    /// Records have distinct addresses.
    pub closed spec fn wf(&self) -> bool {
        unique_ips(self.records_view())
    }

    pub fn new() -> (l: Self)
        ensures
            l.wf(),
            l.records_view() == Seq::<FailRecordView>::empty(),
    {
        let l = AuthRateLimiter { records: Vec::new() };
        assert(l.records_view() =~= Seq::<FailRecordView>::empty());
        l
    }

    /// Record a failed authentication from `ip` at `now_ms` and return the
    /// delay (milliseconds) before answering: [`AUTH_FAIL_BLOCK_FOR_MS`] once
    /// the client has failed [`AUTH_FAIL_BLOCK_AFTER`] times within
    /// [`AUTH_FAIL_WINDOW_MS`] of its first failure, else [`AUTH_FAIL_DELAY_MS`].
    /// Records older than [`AUTH_FAIL_CLEANUP_AGE_MS`] are dropped first.
    pub fn delay_after_failure(&mut self, ip: &str, now_ms: u64) -> (d: u64)
        requires
            old(self).wf(),
        ensures
            final(self).wf(),
            final(self).records_view() == after_failure(old(self).records_view(), ip@, now_ms),
            record_of(final(self).records_view(), ip@) matches Some(r) && d == delay_for(r, now_ms),
    {
        let ghost old_v = self.records_view();
        let mut kept: Vec<FailRecord> = Vec::new();
        let mut i: usize = 0;
        while i < self.records.len()
            invariant
                i <= self.records@.len(),
                old_v == self.records@.map_values(|r: FailRecord| r@),
                kept@.map_values(|r: FailRecord| r@) == fresh_records(old_v.take(i as int), now_ms),
            decreases self.records.len() - i,
        {
            let rec = &self.records[i];
            let age = if now_ms >= rec.first_ms {
                now_ms - rec.first_ms
            } else {
                0
            };
            let ghost prev = kept@;
            proof {
                assert(old_v.take(i + 1).drop_last() =~= old_v.take(i as int));
                assert(old_v.take(i + 1).last() == rec@);
            }
            if age < AUTH_FAIL_CLEANUP_AGE_MS {
                kept.push(FailRecord { ip: rec.ip.clone(), count: rec.count, first_ms: rec.first_ms });
                assert(kept@.map_values(|r: FailRecord| r@) =~= prev.map_values(|r: FailRecord| r@).push(rec@));
            }
            i = i + 1;
        }
        assert(old_v.take(i as int) =~= old_v);
        let ghost f = fresh_records(old_v, now_ms);
        proof {
            lemma_fresh_records(old_v, now_ms);
        }
        let found = find_record(&kept, ip);
        let d;
        match found {
            Some(k) => {
                let c = kept[k].count;
                let nc = if c < u32::MAX {
                    c + 1
                } else {
                    c
                };
                let first = kept[k].first_ms;
                let newrec = FailRecord { ip: kept[k].ip.clone(), count: nc, first_ms: first };
                kept.set(k, newrec);
                let el = if now_ms >= first {
                    now_ms - first
                } else {
                    0
                };
                d = if nc >= AUTH_FAIL_BLOCK_AFTER && el < AUTH_FAIL_WINDOW_MS {
                    AUTH_FAIL_BLOCK_FOR_MS
                } else {
                    AUTH_FAIL_DELAY_MS
                };
                proof {
                    assert(f[k as int].ip == ip@);
                    assert(unique_ips(old_v));
                    let fv = kept@.map_values(|r: FailRecord| r@);
                    assert forall|m: int| 0 <= m < f.len() && m != k implies f[m].ip != ip@ by {}
                    assert(fv =~= after_failure(old_v, ip@, now_ms));
                    assert(fv[k as int].ip == ip@);
                    assert(record_of(fv, ip@) == Some(fv[k as int]));
                }
            },
            None => {
                let newrec = FailRecord { ip: String::from_str(ip), count: 1, first_ms: now_ms };
                kept.push(newrec);
                d = if 1 >= AUTH_FAIL_BLOCK_AFTER {
                    AUTH_FAIL_BLOCK_FOR_MS
                } else {
                    AUTH_FAIL_DELAY_MS
                };
                proof {
                    let fv = kept@.map_values(|r: FailRecord| r@);
                    assert forall|i: int| 0 <= i < f.len() implies f[i].ip != ip@ by {
                        assert(f[i] == kept@[i]@);
                    }
                    assert(fv =~= after_failure(old_v, ip@, now_ms));
                    assert(record_of(fv, ip@) == Some(fv[f.len() as int]));
                }
            },
        }
        self.records = kept;
        proof {
            let fv = self.records_view();
            assert(unique_ips(fv)) by {
                assert forall|a: int, b: int|
                    0 <= a < fv.len() && 0 <= b < fv.len() && fv[a].ip == fv[b].ip implies a == b by {
                    if a < f.len() && b < f.len() {
                        assert(f[a].ip == fv[a].ip);
                        assert(f[b].ip == fv[b].ip);
                    }
                }
            }
        }
        d
    }
}

} // verus!
