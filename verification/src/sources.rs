//! Public proxy list sources: how their text is read and how the results of
//! all sources are gathered.
use vstd::prelude::*;
use crate::proxy_lists::proxy_views;
use crate::proxy_type::{Proxy, ProxyProtocol, ProxyView, clone_proxy};
use crate::text::{
    chars_of, string_of, trim, trim_chars, lines, lines_of, views, split_pat, split_by, words,
    words_of, parse_uint, parse_u16, parse_u16_chars, decimal, cat, decimal_string,
};

verus! {

broadcast use vstd::string::group_string_axioms;

/// What `char::is_numeric` says of a character (Unicode `Nd`, `Nl`, `No`).
pub uninterp spec fn numeric_char(c: char) -> bool;

/// Whether a character is numeric: an ASCII character exactly when it is a
/// digit `0`-`9` (the only ASCII characters in the number categories);
/// another as `char::is_numeric` says.
pub open spec fn numeric(c: char) -> bool {
    if (c as u32) < 128 {
        '0' <= c && c <= '9'
    } else {
        numeric_char(c)
    }
}

/// `char::is_numeric`: named; an ASCII character is numeric exactly when it
/// is a digit `0`-`9`, as the Unicode number categories hold no other ASCII
/// character.
#[verifier::external_body]
pub(crate) fn is_numeric(c: char) -> (r: bool)
    ensures
        r == numeric_char(c),
        r == numeric(c),
{
    c.is_numeric()
}

/// The proxy on one line of a source: `HOST:PORT` (one colon), the host
/// trimmed and starting with a numeric character, the port the first word
/// after the colon. Blank lines and comments give none.
pub open spec fn source_line(line: Seq<char>, protocol: ProxyProtocol) -> Option<ProxyView> {
    let l = trim(line);
    let parts = split_pat(l, seq![':']);
    if l.len() == 0 || l[0] == '#' || parts.len() != 2 {
        None
    } else {
        let host = trim(parts[0]);
        let w = words(trim(parts[1]));
        if w.len() == 0 || host.len() == 0 || !numeric(host[0]) {
            None
        } else {
            match parse_u16(w[0]) {
                Some(port) => Some(ProxyView { host, port, protocol }),
                None => None,
            }
        }
    }
}

pub open spec fn source_lines(ls: Seq<Seq<char>>, protocol: ProxyProtocol) -> Seq<ProxyView>
    decreases ls.len(),
{
    if ls.len() == 0 {
        Seq::empty()
    } else {
        let rest = source_lines(ls.drop_last(), protocol);
        match source_line(ls.last(), protocol) {
            Some(p) => rest.push(p),
            None => rest,
        }
    }
}

fn source_line_exec(line: &[char], protocol: ProxyProtocol) -> (r: Option<Proxy>)
    ensures
        match source_line(line@, protocol) {
            Some(p) => r matches Some(x) && x@ == p,
            None => r is None,
        },
{
    let l = trim_chars(line);
    if l.len() == 0 || l[0] == '#' {
        return None;
    }
    let parts = split_by(&l, &[':']);
    assert(seq![':'] =~= [':']@);
    if parts.len() != 2 {
        return None;
    }
    let host = trim_chars(&parts[0]);
    let pt = trim_chars(&parts[1]);
    let w = words_of(&pt);
    if w.len() == 0 || host.len() == 0 || !is_numeric(host[0]) {
        return None;
    }
    match parse_u16_chars(&w[0]) {
        Some(port) => Some(Proxy::new(string_of(&host), port, protocol)),
        None => None,
    }
}

/// The proxies a source's text lists, in order.
pub fn parse_proxy_list(text: &str, protocol: ProxyProtocol) -> (r: Vec<Proxy>)
    ensures
        proxy_views(r@) == source_lines(lines(text@), protocol),
{
    let v = chars_of(text);
    let ls = lines_of(&v);
    let mut r: Vec<Proxy> = Vec::new();
    let mut i: usize = 0;
    assert(views(ls@).take(0) =~= Seq::<Seq<char>>::empty());
    assert(proxy_views(r@) =~= Seq::<ProxyView>::empty());
    while i < ls.len()
        invariant
            i <= ls@.len(),
            views(ls@) == lines(text@),
            proxy_views(r@) == source_lines(views(ls@).take(i as int), protocol),
        decreases ls.len() - i,
    {
        assert(views(ls@).take(i + 1).drop_last() =~= views(ls@).take(i as int));
        assert(views(ls@).take(i + 1).last() == ls@[i as int]@);
        match source_line_exec(&ls[i], protocol) {
            Some(p) => {
                let ghost o = r@;
                r.push(p);
                assert(proxy_views(r@) =~= proxy_views(o).push(r@.last()@));
            },
            None => {},
        }
        i = i + 1;
    }
    assert(views(ls@).take(ls@.len() as int) =~= views(ls@));
    r
}

/// Gather one source's result: a non-empty list is appended, and the line
/// `  NAME -> N proxies` is returned for the log; an empty list or a failure
/// adds nothing.
pub fn process_source_result(name: &str, result: Option<Vec<Proxy>>, all_proxies: &mut Vec<Proxy>) -> (r: Option<String>)
    ensures
        match result {
            Some(v) => if v@.len() > 0 {
                &&& final(all_proxies)@ == old(all_proxies)@ + v@
                &&& r matches Some(m) && m@ == "  "@ + name@ + " -> "@ + decimal(v@.len()) + " proxies"@
            } else {
                final(all_proxies)@ == old(all_proxies)@ && r is None
            },
            None => final(all_proxies)@ == old(all_proxies)@ && r is None,
        },
{
    match result {
        Some(v) => {
            if v.len() == 0 {
                return None;
            }
            let n = v.len();
            let m = cat(cat(cat(cat("  ", name).as_str(), " -> ").as_str(), decimal_string(n as u64).as_str()).as_str(), " proxies");
            let mut v = v;
            let ghost vv = v@;
            all_proxies.append(&mut v);
            Some(m)
        },
        None => None,
    }
}


/// A public list of proxies: its name and the address of its text.
#[derive(Debug, Clone)]
pub struct ProxySource {
    pub name: String,
    pub url: String,
}

/// The name and address of each source.
pub open spec fn source_texts(v: Seq<ProxySource>) -> Seq<(Seq<char>, Seq<char>)> {
    v.map_values(|s: ProxySource| (s.name@, s.url@))
}

/// The public lists read for a protocol, in the order they are reported;
/// HTTPS uses the HTTP lists and Tor has none.
pub open spec fn source_table(protocol: ProxyProtocol) -> Seq<(Seq<char>, Seq<char>)> {
    match protocol {
        ProxyProtocol::Socks5 => seq![
            ("OpenProxyList"@, "https://api.openproxylist.xyz/socks5.txt"@),
            ("TheSpeedX"@, "https://raw.githubusercontent.com/TheSpeedX/PROXY-List/master/socks5.txt"@),
            ("Hookzof"@, "https://raw.githubusercontent.com/hookzof/socks5_list/master/proxy.txt"@),
            ("Monosans"@, "https://raw.githubusercontent.com/monosans/proxy-list/main/proxies/socks5.txt"@),
            ("ManuGit"@, "https://raw.githubusercontent.com/manuGMG/proxy-365/main/SOCKS5.txt"@),
            ("ProxySpace"@, "https://raw.githubusercontent.com/ProxySpace/socks5-proxy-list/main/socks5.txt"@),
            ("Sunny9577"@, "https://raw.githubusercontent.com/sunny9577/proxy-scraper/master/proxies.txt"@),
            ("Zaeem20"@, "https://raw.githubusercontent.com/Zaeem20/FREE_PROXIES_LIST/master/socks5.txt"@),
            ("Jetkai"@, "https://raw.githubusercontent.com/jetkai/proxy-list/main/online-proxies/txt/proxies-socks5.txt"@),
            ("Roosterkid"@, "https://raw.githubusercontent.com/roosterkid/openproxylist/main/SOCKS5_RAW.txt"@),
            ("Prxchk"@, "https://raw.githubusercontent.com/prxchk/proxy-list/main/socks5.txt"@),
            ("Vakhov"@, "https://raw.githubusercontent.com/vakhov/fresh-proxy-list/master/socks5.txt"@),
            ("ErcinDedeoglu"@, "https://raw.githubusercontent.com/ErcinDedeoglu/proxies/main/proxies/socks5.txt"@),
            ("ProxyListOrg"@, "https://raw.githubusercontent.com/proxy4parsing/proxy-list/main/socks5.txt"@)
        ],
        ProxyProtocol::Socks4 => seq![
            ("OpenProxyList/S4"@, "https://api.openproxylist.xyz/socks4.txt"@),
            ("TheSpeedX/S4"@, "https://raw.githubusercontent.com/TheSpeedX/PROXY-List/master/socks4.txt"@),
            ("Monosans/S4"@, "https://raw.githubusercontent.com/monosans/proxy-list/main/proxies/socks4.txt"@),
            ("Jetkai/S4"@, "https://raw.githubusercontent.com/jetkai/proxy-list/main/online-proxies/txt/proxies-socks4.txt"@),
            ("ErcinDedeoglu/S4"@, "https://raw.githubusercontent.com/ErcinDedeoglu/proxies/main/proxies/socks4.txt"@),
            ("Zaeem20/S4"@, "https://raw.githubusercontent.com/Zaeem20/FREE_PROXIES_LIST/master/socks4.txt"@),
            ("Roosterkid/S4"@, "https://raw.githubusercontent.com/roosterkid/openproxylist/main/SOCKS4_RAW.txt"@),
            ("Prxchk/S4"@, "https://raw.githubusercontent.com/prxchk/proxy-list/main/socks4.txt"@),
            ("Vakhov/S4"@, "https://raw.githubusercontent.com/vakhov/fresh-proxy-list/master/socks4.txt"@)
        ],
        ProxyProtocol::Http | ProxyProtocol::Https => seq![
            ("OpenProxyList/HTTP"@, "https://api.openproxylist.xyz/http.txt"@),
            ("TheSpeedX/HTTP"@, "https://raw.githubusercontent.com/TheSpeedX/PROXY-List/master/http.txt"@),
            ("Monosans/HTTP"@, "https://raw.githubusercontent.com/monosans/proxy-list/main/proxies/http.txt"@),
            ("Jetkai/HTTP"@, "https://raw.githubusercontent.com/jetkai/proxy-list/main/online-proxies/txt/proxies-http.txt"@),
            ("ErcinDedeoglu/HTTP"@, "https://raw.githubusercontent.com/ErcinDedeoglu/proxies/main/proxies/http.txt"@),
            ("Zaeem20/HTTP"@, "https://raw.githubusercontent.com/Zaeem20/FREE_PROXIES_LIST/master/http.txt"@),
            ("Roosterkid/HTTP"@, "https://raw.githubusercontent.com/roosterkid/openproxylist/main/HTTP_RAW.txt"@),
            ("Prxchk/HTTP"@, "https://raw.githubusercontent.com/prxchk/proxy-list/main/http.txt"@),
            ("Vakhov/HTTP"@, "https://raw.githubusercontent.com/vakhov/fresh-proxy-list/master/http.txt"@),
            ("ProxyListOrg/HTTP"@, "https://raw.githubusercontent.com/proxy4parsing/proxy-list/main/http.txt"@)
        ],
        ProxyProtocol::Tor => seq![],
    }
}

fn source(name: &str, url: &str) -> (r: ProxySource)
    ensures
        r.name@ == name@,
        r.url@ == url@,
{
    ProxySource { name: String::from_str(name), url: String::from_str(url) }
}

pub fn sources_for(protocol: ProxyProtocol) -> (r: Vec<ProxySource>)
    ensures
        source_texts(r@) == source_table(protocol),
{
    let r = match protocol {
        ProxyProtocol::Socks5 => vec![
            source("OpenProxyList", "https://api.openproxylist.xyz/socks5.txt"),
            source("TheSpeedX", "https://raw.githubusercontent.com/TheSpeedX/PROXY-List/master/socks5.txt"),
            source("Hookzof", "https://raw.githubusercontent.com/hookzof/socks5_list/master/proxy.txt"),
            source("Monosans", "https://raw.githubusercontent.com/monosans/proxy-list/main/proxies/socks5.txt"),
            source("ManuGit", "https://raw.githubusercontent.com/manuGMG/proxy-365/main/SOCKS5.txt"),
            source("ProxySpace", "https://raw.githubusercontent.com/ProxySpace/socks5-proxy-list/main/socks5.txt"),
            source("Sunny9577", "https://raw.githubusercontent.com/sunny9577/proxy-scraper/master/proxies.txt"),
            source("Zaeem20", "https://raw.githubusercontent.com/Zaeem20/FREE_PROXIES_LIST/master/socks5.txt"),
            source("Jetkai", "https://raw.githubusercontent.com/jetkai/proxy-list/main/online-proxies/txt/proxies-socks5.txt"),
            source("Roosterkid", "https://raw.githubusercontent.com/roosterkid/openproxylist/main/SOCKS5_RAW.txt"),
            source("Prxchk", "https://raw.githubusercontent.com/prxchk/proxy-list/main/socks5.txt"),
            source("Vakhov", "https://raw.githubusercontent.com/vakhov/fresh-proxy-list/master/socks5.txt"),
            source("ErcinDedeoglu", "https://raw.githubusercontent.com/ErcinDedeoglu/proxies/main/proxies/socks5.txt"),
            source("ProxyListOrg", "https://raw.githubusercontent.com/proxy4parsing/proxy-list/main/socks5.txt")
        ],
        ProxyProtocol::Socks4 => vec![
            source("OpenProxyList/S4", "https://api.openproxylist.xyz/socks4.txt"),
            source("TheSpeedX/S4", "https://raw.githubusercontent.com/TheSpeedX/PROXY-List/master/socks4.txt"),
            source("Monosans/S4", "https://raw.githubusercontent.com/monosans/proxy-list/main/proxies/socks4.txt"),
            source("Jetkai/S4", "https://raw.githubusercontent.com/jetkai/proxy-list/main/online-proxies/txt/proxies-socks4.txt"),
            source("ErcinDedeoglu/S4", "https://raw.githubusercontent.com/ErcinDedeoglu/proxies/main/proxies/socks4.txt"),
            source("Zaeem20/S4", "https://raw.githubusercontent.com/Zaeem20/FREE_PROXIES_LIST/master/socks4.txt"),
            source("Roosterkid/S4", "https://raw.githubusercontent.com/roosterkid/openproxylist/main/SOCKS4_RAW.txt"),
            source("Prxchk/S4", "https://raw.githubusercontent.com/prxchk/proxy-list/main/socks4.txt"),
            source("Vakhov/S4", "https://raw.githubusercontent.com/vakhov/fresh-proxy-list/master/socks4.txt")
        ],
        ProxyProtocol::Http | ProxyProtocol::Https => vec![
            source("OpenProxyList/HTTP", "https://api.openproxylist.xyz/http.txt"),
            source("TheSpeedX/HTTP", "https://raw.githubusercontent.com/TheSpeedX/PROXY-List/master/http.txt"),
            source("Monosans/HTTP", "https://raw.githubusercontent.com/monosans/proxy-list/main/proxies/http.txt"),
            source("Jetkai/HTTP", "https://raw.githubusercontent.com/jetkai/proxy-list/main/online-proxies/txt/proxies-http.txt"),
            source("ErcinDedeoglu/HTTP", "https://raw.githubusercontent.com/ErcinDedeoglu/proxies/main/proxies/http.txt"),
            source("Zaeem20/HTTP", "https://raw.githubusercontent.com/Zaeem20/FREE_PROXIES_LIST/master/http.txt"),
            source("Roosterkid/HTTP", "https://raw.githubusercontent.com/roosterkid/openproxylist/main/HTTP_RAW.txt"),
            source("Prxchk/HTTP", "https://raw.githubusercontent.com/prxchk/proxy-list/main/http.txt"),
            source("Vakhov/HTTP", "https://raw.githubusercontent.com/vakhov/fresh-proxy-list/master/http.txt"),
            source("ProxyListOrg/HTTP", "https://raw.githubusercontent.com/proxy4parsing/proxy-list/main/http.txt")
        ],
        ProxyProtocol::Tor => Vec::new(),
    };
    assert(source_texts(r@) =~= source_table(protocol));
    r
}

} // verus!
