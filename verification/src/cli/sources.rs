//! The ProxyScrape lists the command-line tool reads.
use vstd::prelude::*;
use crate::cli::proxy_type::{Proxy, ProxyProtocol};
use crate::proxy_instance::texts;
use crate::text::{chars_of, string_of, trim, trim_chars, lines, lines_of, views, split_pat, split_by, parse_u16, parse_u16_chars};

verus! {

broadcast use vstd::string::group_string_axioms;

pub const PROXYSCRAPE_SOCKS5: &'static str = "https://api.proxyscrape.com/v2/?request=displayproxies&protocol=socks5&timeout=10000&country=all";

pub const PROXYSCRAPE_SOCKS5_ANON: &'static str = "https://api.proxyscrape.com/v2/?request=displayproxies&protocol=socks5&timeout=5000&country=all&anonymity=elite";

/// The lists fetched for SOCKS5 proxies, in order.
pub fn socks5_sources() -> (r: Vec<String>)
    ensures
        texts(r@) == seq![PROXYSCRAPE_SOCKS5@, PROXYSCRAPE_SOCKS5_ANON@],
{
    let r = vec![String::from_str(PROXYSCRAPE_SOCKS5), String::from_str(PROXYSCRAPE_SOCKS5_ANON)];
    assert(texts(r@) =~= seq![PROXYSCRAPE_SOCKS5@, PROXYSCRAPE_SOCKS5_ANON@]);
    r
}

/// The endpoints a list's text gives, in order: each trimmed, non-blank
/// line `HOST:PORT` with exactly one colon and a valid port.
pub open spec fn list_lines(ls: Seq<Seq<char>>, protocol: ProxyProtocol) -> Seq<(Seq<char>, u16)>
    decreases ls.len(),
{
    if ls.len() == 0 {
        Seq::empty()
    } else {
        let rest = list_lines(ls.drop_last(), protocol);
        let l = trim(ls.last());
        let parts = split_pat(l, seq![':']);
        if l.len() > 0 && parts.len() == 2 && parse_u16(parts[1]) is Some {
            rest.push((parts[0], parse_u16(parts[1])->0))
        } else {
            rest
        }
    }
}

pub fn parse_proxy_list(text: &str, protocol: ProxyProtocol) -> (r: Vec<Proxy>)
    ensures
        r@.len() == list_lines(lines(text@), protocol).len(),
        forall|i: int| 0 <= i < r@.len() ==> (#[trigger] r@[i]).host@ == list_lines(lines(text@), protocol)[i].0
            && r@[i].port == list_lines(lines(text@), protocol)[i].1 && r@[i].protocol == protocol,
{
    let v = chars_of(text);
    let ls = lines_of(&v);
    let mut r: Vec<Proxy> = Vec::new();
    let mut i: usize = 0;
    assert(views(ls@).take(0) =~= Seq::<Seq<char>>::empty());
    while i < ls.len()
        invariant
            i <= ls@.len(),
            views(ls@) == lines(text@),
            r@.len() == list_lines(views(ls@).take(i as int), protocol).len(),
            forall|k: int| 0 <= k < r@.len() ==> (#[trigger] r@[k]).host@ == list_lines(views(ls@).take(i as int), protocol)[k].0
                && r@[k].port == list_lines(views(ls@).take(i as int), protocol)[k].1 && r@[k].protocol == protocol,
        decreases ls.len() - i,
    {
        assert(views(ls@).take(i + 1).drop_last() =~= views(ls@).take(i as int));
        assert(views(ls@).take(i + 1).last() == ls@[i as int]@);
        let l = trim_chars(&ls[i]);
        if l.len() > 0 {
            let parts = split_by(&l, &[':']);
            assert(seq![':'] =~= [':']@);
            if parts.len() == 2 {
                match parse_u16_chars(&parts[1]) {
                    Some(port) => {
                        r.push(Proxy::new(string_of(&parts[0]), port, protocol));
                    },
                    None => {},
                }
            }
        }
        i = i + 1;
    }
    assert(views(ls@).take(ls@.len() as int) =~= views(ls@));
    r
}

} // verus!
