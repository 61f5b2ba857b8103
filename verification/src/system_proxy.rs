//! The Windows system proxy: the registry commands that set and clear it and
//! how their query output is read.
use vstd::prelude::*;
use crate::proxy_instance::texts;
use crate::proxy_type::host_port;
use crate::text::{
    chars_of, string_of, trim, trim_str, lines, lines_of, views, words, words_of, contains_pat,
    find_pat, decimal, decimal_string, cat,
};

verus! {

broadcast use vstd::string::group_string_axioms;

/// The registry key holding the Internet settings of the current user.
pub const INTERNET_SETTINGS_KEY: &'static str = "HKCU\\Software\\Microsoft\\Windows\\CurrentVersion\\Internet Settings";

#[derive(Debug)]
pub struct SystemProxyStatus {
    pub enabled: bool,
    pub server: Option<String>,
}

/// `reg query` output shows `ProxyEnable` set to 1.
pub open spec fn proxy_enabled(output: Seq<char>) -> bool {
    contains_pat(output, "0x1"@) || contains_pat(output, "0x00000001"@) || contains_pat(output, " 1"@)
}

fn contains_text(v: &[char], pat: &str) -> (r: bool)
    ensures
        r == contains_pat(v@, pat@),
{
    let p = chars_of(pat);
    find_pat(v, &p).is_some()
}

pub fn parse_proxy_enable(output: &str) -> (r: bool)
    ensures
        r == proxy_enabled(output@),
{
    let v = chars_of(output);
    contains_text(&v, "0x1") || contains_text(&v, "0x00000001") || contains_text(&v, " 1")
}

/// The server in `reg query` output: the last word of the first line that
/// names `ProxyServer`.
pub open spec fn proxy_server_in(ls: Seq<Seq<char>>) -> Option<Seq<char>>
    decreases ls.len(),
{
    if ls.len() == 0 {
        None
    } else if contains_pat(ls[0], "ProxyServer"@) {
        let w = words(ls[0]);
        if w.len() > 0 && trim(w.last()).len() > 0 {
            Some(trim(w.last()))
        } else {
            None
        }
    } else {
        proxy_server_in(ls.skip(1))
    }
}

pub fn parse_proxy_server(output: &str) -> (r: Option<String>)
    ensures
        match proxy_server_in(lines(output@)) {
            Some(s) => r matches Some(x) && x@ == s,
            None => r is None,
        },
{
    let v = chars_of(output);
    let ls = lines_of(&v);
    let mut i: usize = 0;
    assert(views(ls@).skip(0) =~= views(ls@));
    while i < ls.len()
        invariant
            i <= ls@.len(),
            views(ls@) == lines(output@),
            proxy_server_in(lines(output@)) == proxy_server_in(views(ls@).skip(i as int)),
        decreases ls.len() - i,
    {
        assert(views(ls@).skip(i as int)[0] == ls@[i as int]@);
        if contains_text(&ls[i], "ProxyServer") {
            let w = words_of(&ls[i]);
            if w.len() == 0 {
                return None;
            }
            let t = crate::text::trim_chars(&w[w.len() - 1]);
            if t.len() == 0 {
                return None;
            }
            return Some(string_of(&t));
        }
        assert(views(ls@).skip(i as int).skip(1) =~= views(ls@).skip(i + 1));
        i = i + 1;
    }
    None
}

/// The status read from the outputs of the two registry queries.
pub fn get_system_proxy_status(enabled_out: &str, server_out: &str) -> (r: SystemProxyStatus)
    ensures
        r.enabled == proxy_enabled(enabled_out@),
        match proxy_server_in(lines(server_out@)) {
            Some(s) => r.server matches Some(x) && x@ == s,
            None => r.server is None,
        },
{
    SystemProxyStatus { enabled: parse_proxy_enable(enabled_out), server: parse_proxy_server(server_out) }
}

/// The arguments of `reg query` for a value of the Internet settings.
pub open spec fn query_args(value: Seq<char>) -> Seq<Seq<char>> {
    seq!["query"@, INTERNET_SETTINGS_KEY@, "/v"@, value]
}

pub fn reg_query_args(value: &str) -> (r: Vec<String>)
    ensures
        texts(r@) == query_args(value@),
{
    let r = vec![String::from_str("query"), String::from_str(INTERNET_SETTINGS_KEY), String::from_str("/v"), String::from_str(value)];
    assert(texts(r@) =~= query_args(value@));
    r
}

/// The arguments of `reg add` setting a value of the Internet settings.
pub open spec fn add_args(value: Seq<char>, kind: Seq<char>, data: Seq<char>) -> Seq<Seq<char>> {
    seq!["add"@, INTERNET_SETTINGS_KEY@, "/v"@, value, "/t"@, kind, "/d"@, data, "/f"@]
}

fn reg_add_args(value: &str, kind: &str, data: &str) -> (r: Vec<String>)
    ensures
        texts(r@) == add_args(value@, kind@, data@),
{
    let r = vec![
        String::from_str("add"),
        String::from_str(INTERNET_SETTINGS_KEY),
        String::from_str("/v"),
        String::from_str(value),
        String::from_str("/t"),
        String::from_str(kind),
        String::from_str("/d"),
        String::from_str(data),
        String::from_str("/f"),
    ];
    assert(texts(r@) =~= add_args(value@, kind@, data@));
    r
}

/// The registry commands setting the system proxy to `addr:port` (the
/// address trimmed), then enabling it.
pub fn set_system_proxy(addr: &str, port: u16) -> (r: Vec<Vec<String>>)
    ensures
        r@.len() == 2,
        texts(r@[0]@) == add_args("ProxyServer"@, "REG_SZ"@, host_port(trim(addr@), port)),
        texts(r@[1]@) == add_args("ProxyEnable"@, "REG_DWORD"@, "1"@),
{
    let t = trim_str(addr);
    let server = crate::proxy_type::format_host_port(t.as_str(), port);
    vec![reg_add_args("ProxyServer", "REG_SZ", server.as_str()), reg_add_args("ProxyEnable", "REG_DWORD", "1")]
}

/// The registry command disabling the system proxy.
pub fn unset_system_proxy() -> (r: Vec<String>)
    ensures
        texts(r@) == add_args("ProxyEnable"@, "REG_DWORD"@, "0"@),
{
    reg_add_args("ProxyEnable", "REG_DWORD", "0")
}

/// The system proxy is on and points to `server`.
pub fn is_enabled_for(status: &SystemProxyStatus, server: &str) -> (r: bool)
    ensures
        r == (status.enabled && (status.server matches Some(s) && s@ == server@)),
{
    if !status.enabled {
        return false;
    }
    match &status.server {
        Some(s) => {
            let a = chars_of(s.as_str());
            let b = chars_of(server);
            crate::text::chars_eq(&a, &b)
        },
        None => false,
    }
}

} // verus!
