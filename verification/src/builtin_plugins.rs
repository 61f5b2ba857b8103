//! The built-in plugins' own rules: where the GeoIP database and the Tor
//! bundle are fetched from, how a download is judged, and which file is the
//! Tor binary.
use vstd::prelude::*;
use crate::proxy_instance::texts;
use crate::tls_fingerprint::hex_bytes;
use crate::text::{
    chars_of, string_of, trim, trim_chars, trim_str, lines, lines_of, views, ascii_lower_seq,
    ascii_lowercase, chars_eq, cat, decimal, decimal_string, is_ws, prefix_ignore_case,
};

verus! {

broadcast use vstd::string::group_string_axioms;

pub const GEOIP_DB_FILE: &'static str = "GeoLite2-Country.mmdb";

pub const GEOIP_URL_PRIMARY: &'static str = "https://github.com/P3TERX/GeoLite.mmdb/releases/latest/download/GeoLite2-Country.mmdb";

pub const GEOIP_URL_FALLBACK: &'static str = "https://github.com/Loyalsoldier/geoip/releases/latest/download/GeoLite2-Country.mmdb";

pub const TOR_BUNDLE_URL_WINDOWS_X64: &'static str = "https://archive.torproject.org/tor-package-archive/torbrowser/14.5.7/tor-expert-bundle-windows-x86_64-14.5.7.tar.gz";

pub const TOR_SHA256SUMS_URL: &'static str = "https://archive.torproject.org/tor-package-archive/torbrowser/14.5.7/sha256sums-signed-build.txt";

/// The bytes every MaxMind database holds before its metadata:
/// `\xab\xcd\xef` then `MaxMind.com` in ASCII.
pub open spec fn mmdb_magic() -> Seq<u8> {
    seq![0xabu8, 0xcdu8, 0xefu8, 0x4du8, 0x61u8, 0x78u8, 0x4du8, 0x69u8, 0x6eu8, 0x64u8, 0x2eu8, 0x63u8, 0x6fu8, 0x6du8]
}

/// A URL override from the environment, when set and not blank.
pub open spec fn override_url(env: Option<Seq<char>>) -> Option<Seq<char>> {
    match env {
        Some(v) => if trim(v).len() > 0 {
            Some(v)
        } else {
            None
        },
        None => None,
    }
}

/// The GeoIP download URLs, in order: the override or the primary mirror;
/// the fallback mirror only when no override variable is set at all.
pub open spec fn geoip_urls(env: Option<Seq<char>>) -> Seq<Seq<char>> {
    let primary = match override_url(env) {
        Some(u) => u,
        None => GEOIP_URL_PRIMARY@,
    };
    if env is None {
        seq![primary, GEOIP_URL_FALLBACK@]
    } else {
        seq![primary]
    }
}

pub fn geoip_download_urls(env: &Option<String>) -> (r: Vec<String>)
    ensures
        texts(r@) == geoip_urls(crate::proxy_instance::opt_text(*env)),
{
    let primary = match env {
        Some(v) => {
            let t = trim_str(v.as_str());
            if t.as_str().unicode_len() > 0 {
                v.clone()
            } else {
                String::from_str(GEOIP_URL_PRIMARY)
            }
        },
        None => String::from_str(GEOIP_URL_PRIMARY),
    };
    let r = match env {
        None => vec![primary, String::from_str(GEOIP_URL_FALLBACK)],
        Some(_) => vec![primary],
    };
    assert(texts(r@) =~= geoip_urls(crate::proxy_instance::opt_text(*env)));
    r
}

/// `pat` occurs in `b`.
pub open spec fn contains_bytes(b: Seq<u8>, pat: Seq<u8>) -> bool {
    exists|i: int| 0 <= i && i + pat.len() <= b.len() && #[trigger] b.subrange(i, i + pat.len()) == pat
}

/// Why a downloaded GeoIP database is refused, if it is: under 512 bytes
/// (an error page or a pointer file), or without the MaxMind marker.
pub open spec fn mmdb_refusal(b: Seq<u8>, url: Seq<char>) -> Option<Seq<char>> {
    if b.len() < 512 {
        Some("Downloaded file from "@ + url + " is too small ("@ + decimal(b.len()) + " bytes) — may be an LFS pointer or error page"@)
    } else if !contains_bytes(b, mmdb_magic()) {
        Some("File from "@ + url + " does not appear to be a valid MaxMind database (magic bytes not found)"@)
    } else {
        None
    }
}

pub fn check_mmdb_download(bytes: &[u8], url: &str) -> (r: Result<(), String>)
    ensures
        match mmdb_refusal(bytes@, url@) {
            Some(m) => r matches Err(e) && e@ == m,
            None => r is Ok,
        },
{
    let n = bytes.len();
    if n < 512 {
        let m = cat(cat(cat(cat("Downloaded file from ", url).as_str(), " is too small (").as_str(), decimal_string(n as u64).as_str()).as_str(), " bytes) — may be an LFS pointer or error page");
        return Err(m);
    }
    let magic: Vec<u8> = vec![0xab, 0xcd, 0xef, 0x4d, 0x61, 0x78, 0x4d, 0x69, 0x6e, 0x64, 0x2e, 0x63, 0x6f, 0x6d];
    assert(magic@ =~= mmdb_magic());
    let m = magic.len();
    let mut i: usize = 0;
    while i <= n - m
        invariant
            m == magic@.len() == 14,
            n == bytes@.len(),
            n >= 512,
            magic@ == mmdb_magic(),
            forall|k: int| 0 <= k < i && k + m <= n ==> #[trigger] bytes@.subrange(k, k + m) != magic@,
        decreases n - i,
    {
        let mut j: usize = 0;
        while j < m && bytes[i + j] == magic[j]
            invariant
                i + m <= n,
                m == magic@.len(),
                n == bytes@.len(),
                j <= m,
                forall|t: int| 0 <= t < j ==> bytes@[i + t] == magic@[t],
            decreases m - j,
        {
            j = j + 1;
        }
        if j == m {
            assert(bytes@.subrange(i as int, i + m) =~= magic@);
            return Ok(());
        }
        assert(bytes@.subrange(i as int, i + m)[j as int] != magic@[j as int]);
        i = i + 1;
    }
    assert(!contains_bytes(bytes@, mmdb_magic())) by {
        if contains_bytes(bytes@, mmdb_magic()) {
            let k = choose|k: int| 0 <= k && k + mmdb_magic().len() <= bytes@.len() && #[trigger] bytes@.subrange(k, k + mmdb_magic().len()) == mmdb_magic();
            assert(k < i);
        }
    }
    Err(cat(cat("File from ", url).as_str(), " does not appear to be a valid MaxMind database (magic bytes not found)"))
}

/// Where the Tor bundle comes from: the override, else the Windows x86-64
/// bundle; other platforms are not supported.
pub open spec fn tor_url(env: Option<Seq<char>>, windows_x64: bool) -> Option<Seq<char>> {
    if !windows_x64 {
        None
    } else {
        match override_url(env) {
            Some(u) => Some(u),
            None => Some(TOR_BUNDLE_URL_WINDOWS_X64@),
        }
    }
}

pub fn tor_download_url(env: &Option<String>, windows_x64: bool) -> (r: Result<String, String>)
    ensures
        match tor_url(crate::proxy_instance::opt_text(*env), windows_x64) {
            Some(u) => r matches Ok(s) && s@ == u,
            None => r matches Err(m) && m@ == "Tor Downloader currently supports only Windows x86_64"@,
        },
{
    if !windows_x64 {
        return Err(String::from_str("Tor Downloader currently supports only Windows x86_64"));
    }
    match env {
        Some(v) => {
            let t = trim_str(v.as_str());
            if t.as_str().unicode_len() > 0 {
                return Ok(v.clone());
            }
            Ok(String::from_str(TOR_BUNDLE_URL_WINDOWS_X64))
        },
        None => Ok(String::from_str(TOR_BUNDLE_URL_WINDOWS_X64)),
    }
}

/// An ASCII whitespace character (`char::is_ascii_whitespace`).
pub open spec fn ascii_ws(c: char) -> bool {
    c == ' ' || c == '\t' || c == '\n' || c == '\x0C' || c == '\r'
}

/// The first ASCII whitespace position in `s`, or -1.
pub open spec fn first_ascii_ws(s: Seq<char>) -> int
    decreases s.len(),
{
    if s.len() == 0 {
        -1
    } else if ascii_ws(s[0]) {
        0
    } else {
        let r = first_ascii_ws(s.skip(1));
        if r < 0 {
            -1
        } else {
            r + 1
        }
    }
}

/// `s` without its leading `*` characters.
pub open spec fn strip_stars(s: Seq<char>) -> Seq<char>
    decreases s.len(),
{
    if s.len() > 0 && s[0] == '*' {
        strip_stars(s.skip(1))
    } else {
        s
    }
}

/// The hash a checksum line gives for `file`: `HASH  NAME` (the name may
/// start with `*`), the hash in lower case.
pub open spec fn line_hash(line: Seq<char>, file: Seq<char>) -> Option<Seq<char>> {
    let t = trim(line);
    let k = first_ascii_ws(t);
    if k < 0 {
        None
    } else if strip_stars(trim(t.skip(k + 1))) == file {
        Some(ascii_lower_seq(t.take(k)))
    } else {
        None
    }
}

/// The hash of the first line that names `file`.
pub open spec fn sums_hash(ls: Seq<Seq<char>>, file: Seq<char>) -> Option<Seq<char>>
    decreases ls.len(),
{
    if ls.len() == 0 {
        None
    } else {
        match line_hash(ls[0], file) {
            Some(h) => Some(h),
            None => sums_hash(ls.skip(1), file),
        }
    }
}

pub proof fn lemma_first_ascii_ws(s: Seq<char>)
    ensures
        first_ascii_ws(s) < s.len(),
        first_ascii_ws(s) >= 0 ==> ascii_ws(s[first_ascii_ws(s)]),
        forall|j: int| 0 <= j < s.len() && (first_ascii_ws(s) < 0 || j < first_ascii_ws(s)) ==> !ascii_ws(#[trigger] s[j]),
    decreases s.len(),
{
    if s.len() > 0 && !ascii_ws(s[0]) {
        lemma_first_ascii_ws(s.skip(1));
        assert forall|j: int| 0 <= j < s.len() && (first_ascii_ws(s) < 0 || j < first_ascii_ws(s)) implies !ascii_ws(#[trigger] s[j]) by {
            if j > 0 {
                assert(s.skip(1)[j - 1] == s[j]);
            }
        }
    }
}

fn hash_for_line(line: &[char], file: &[char]) -> (r: Option<Vec<char>>)
    ensures
        match line_hash(line@, file@) {
            Some(h) => r matches Some(v) && v@ == h,
            None => r is None,
        },
{
    let t = trim_chars(line);
    let mut k: usize = 0;
    while k < t.len() && !(t[k] == ' ' || t[k] == '\t' || t[k] == '\n' || t[k] == '\x0C' || t[k] == '\r')
        invariant
            k <= t@.len(),
            forall|j: int| 0 <= j < k ==> !ascii_ws(#[trigger] t@[j]),
        decreases t.len() - k,
    {
        k = k + 1;
    }
    proof {
        lemma_first_ascii_ws(t@);
        let f = first_ascii_ws(t@);
        if k < t@.len() {
            assert(f == k as int) by {
                if f < 0 || f > k {
                } else if f < k {
                    assert(!ascii_ws(t@[f]));
                }
            }
        } else {
            assert(f < 0) by {
                if f >= 0 {
                    assert(!ascii_ws(t@[f]));
                }
            }
        }
    }
    if k == t.len() {
        return None;
    }
    let rest = crate::text::sub_chars(&t, k + 1, t.len());
    assert(rest@ =~= t@.skip(k + 1));
    let rt = trim_chars(&rest);
    let mut s: usize = 0;
    assert(rt@.skip(0) =~= rt@);
    while s < rt.len() && rt[s] == '*'
        invariant
            s <= rt@.len(),
            strip_stars(rt@) == strip_stars(rt@.skip(s as int)),
        decreases rt.len() - s,
    {
        assert(rt@.skip(s as int).skip(1) =~= rt@.skip(s + 1));
        s = s + 1;
    }
    let name = crate::text::sub_chars(&rt, s, rt.len());
    assert(name@ =~= rt@.skip(s as int));
    if chars_eq(&name, file) {
        let h = crate::text::sub_chars(&t, 0, k);
        assert(h@ =~= t@.take(k as int));
        Some(ascii_lowercase(&h))
    } else {
        None
    }
}

/// The expected SHA-256 of `file` in a checksum list, lower-cased.
pub fn expected_sha256(sums_text: &str, file: &str) -> (r: Option<String>)
    ensures
        match sums_hash(lines(sums_text@), file@) {
            Some(h) => r matches Some(s) && s@ == h,
            None => r is None,
        },
{
    let v = chars_of(sums_text);
    let ls = lines_of(&v);
    let fv = chars_of(file);
    let mut i: usize = 0;
    assert(views(ls@).skip(0) =~= views(ls@));
    while i < ls.len()
        invariant
            i <= ls@.len(),
            fv@ == file@,
            views(ls@) == lines(sums_text@),
            sums_hash(lines(sums_text@), file@) == sums_hash(views(ls@).skip(i as int), file@),
        decreases ls.len() - i,
    {
        assert(views(ls@).skip(i as int)[0] == ls@[i as int]@);
        match hash_for_line(&ls[i], &fv) {
            Some(h) => return Some(string_of(&h)),
            None => {},
        }
        assert(views(ls@).skip(i as int).skip(1) =~= views(ls@).skip(i + 1));
        i = i + 1;
    }
    None
}

/// What SHA-256 (`sha2::Sha256::digest`) gives for a byte string.
pub uninterp spec fn sha256_of(b: Seq<u8>) -> Seq<u8>;

/// `sha2::Sha256::digest(b)` (sha2 0.10): the named 32-byte digest.
#[verifier::external_body]
fn sha256_digest(b: &[u8]) -> (r: Vec<u8>)
    ensures
        r@ == sha256_of(b@),
        r@.len() == 32,
{
    <sha2::Sha256 as sha2::Digest>::digest(b).to_vec()
}

/// The SHA-256 of `b` as lower-case hex (`format!("{:x}", digest)`).
pub fn sha256_hex(b: &[u8]) -> (r: String)
    ensures
        r@ == hex_bytes(sha256_of(b@)),
{
    let d = sha256_digest(b);
    crate::tls_fingerprint::encode_simple(&d)
}

pub open spec fn sha_mismatch_msg(expected: Seq<char>, actual: Seq<char>) -> Seq<char> {
    "Tor bundle SHA256 mismatch! expected="@ + expected + " actual="@ + actual
}

/// The bundle is accepted only when its hash is the expected one.
pub fn check_bundle_sha256(expected: &str, actual: &str) -> (r: Result<(), String>)
    ensures
        expected@ == actual@ ==> r is Ok,
        expected@ != actual@ ==> (r matches Err(m) && m@ == sha_mismatch_msg(expected@, actual@)),
{
    let a = chars_of(expected);
    let b = chars_of(actual);
    if chars_eq(&a, &b) {
        Ok(())
    } else {
        Err(cat(cat(cat("Tor bundle SHA256 mismatch! expected=", expected).as_str(), " actual=").as_str(), actual))
    }
}

/// The Tor binary's file name: `tor` or `tor.exe`, ASCII case ignored.
pub open spec fn tor_binary_name(name: Seq<char>) -> bool {
    ascii_lower_seq(name) == "tor"@ || ascii_lower_seq(name) == "tor.exe"@
}

pub fn is_tor_binary_name(name: &str) -> (r: bool)
    ensures
        r == tor_binary_name(name@),
{
    let v = chars_of(name);
    let l = ascii_lowercase(&v);
    crate::text::eq_text(&l, "tor") || crate::text::eq_text(&l, "tor.exe")
}

/// What the check of a configured Tor binary path leaves to the caller.
#[derive(Debug)]
pub enum TorPathCheck {
    /// A bare command name, looked up on the `PATH`: accepted.
    Command,
    /// A path: it must exist, be a file, and be named `tor` or `tor.exe`.
    File(String),
}

/// The first step of validating a Tor binary path: an empty path is
/// refused; one without a separator (`/` or the platform's) is a command.
pub fn validate_tor_binary_path(path: &str, main_separator: char) -> (r: Result<TorPathCheck, String>)
    ensures
        trim(path@).len() == 0 ==> (r matches Err(m) && m@ == "Tor binary path is empty"@),
        trim(path@).len() > 0 && !(trim(path@).contains(main_separator) || trim(path@).contains('/')) ==> r matches Ok(TorPathCheck::Command),
        trim(path@).len() > 0 && (trim(path@).contains(main_separator) || trim(path@).contains('/')) ==> (r matches Ok(TorPathCheck::File(p)) && p@ == trim(path@)),
{
    let t = trim_str(path);
    let v = chars_of(t.as_str());
    if v.len() == 0 {
        return Err(String::from_str("Tor binary path is empty"));
    }
    if crate::text::has_char(&v, main_separator) || crate::text::has_char(&v, '/') {
        Ok(TorPathCheck::File(t))
    } else {
        Ok(TorPathCheck::Command)
    }
}

/// The refusal of a Tor binary file by its name, if any.
pub fn tor_binary_name_error(name: &str) -> (r: Option<String>)
    ensures
        tor_binary_name(name@) ==> r is None,
        !tor_binary_name(name@) ==> (r matches Some(m) && m@ == "Tor binary must be named 'tor' or 'tor.exe', got: "@ + name@),
{
    if is_tor_binary_name(name) {
        None
    } else {
        Some(cat("Tor binary must be named 'tor' or 'tor.exe', got: ", name))
    }
}


/// Why an entry of the Tor archive may not be extracted: an absolute path,
/// a `..` component, or (as found on disk) a place outside the destination.
pub open spec fn archive_entry_refusal(path: Seq<char>, absolute: bool, components: Seq<Seq<char>>, escapes: bool) -> Option<Seq<char>> {
    if absolute {
        Some("Tor archive contains absolute path (possible path traversal): "@ + path)
    } else if components.contains(".."@) {
        Some("Tor archive contains '..' component (path traversal attempt): "@ + path)
    } else if escapes {
        Some("Tor archive entry escapes destination directory: "@ + path)
    } else {
        None
    }
}

/// Check an archive entry before it is extracted; `components` are the
/// parts of its path and `escapes` whether it resolves outside the
/// destination directory.
pub fn check_archive_entry(path: &str, absolute: bool, components: &Vec<String>, escapes: bool) -> (r: Result<(), String>)
    ensures
        match archive_entry_refusal(path@, absolute, texts(components@), escapes) {
            Some(m) => r matches Err(e) && e@ == m,
            None => r is Ok,
        },
{
    if absolute {
        return Err(cat("Tor archive contains absolute path (possible path traversal): ", path));
    }
    let mut i: usize = 0;
    while i < components.len()
        invariant
            !absolute,
            i <= components@.len(),
            forall|k: int| 0 <= k < i ==> texts(components@)[k] != ".."@,
        decreases components.len() - i,
    {
        let c = chars_of(components[i].as_str());
        if crate::text::eq_text(&c, "..") {
            assert(texts(components@)[i as int] == ".."@);
            assert(texts(components@).contains(".."@));
            return Err(cat("Tor archive contains '..' component (path traversal attempt): ", path));
        }
        i = i + 1;
    }
    assert(!texts(components@).contains(".."@)) by {
        if texts(components@).contains(".."@) {
            let k = choose|k: int| 0 <= k < texts(components@).len() && texts(components@)[k] == ".."@;
            assert(texts(components@)[k] != ".."@);
        }
    }
    if escapes {
        return Err(cat("Tor archive entry escapes destination directory: ", path));
    }
    Ok(())
}

} // verus!
