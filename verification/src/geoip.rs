//! Countries of proxies: the record kept for a looked-up address and the
//! filter by country codes.
use vstd::prelude::*;
use crate::text::{trim, trim_str, to_uppercase, upper_text, clone_opt_string, chars_of, chars_eq};
use crate::proxy_instance::texts;
use crate::speed_test::ProxyWithSpeed;

verus! {

broadcast use vstd::string::group_string_axioms;

/// The country of an address, as the GeoIP database gives it.
#[derive(Debug, Clone)]
pub struct CountryInfo {
    /// ISO code, upper case.
    pub country_code: String,
    /// English name, where the database has one.
    pub country_name: Option<String>,
}

/// A copy of a country record with the same fields.
pub fn clone_country(c: &CountryInfo) -> (r: CountryInfo)
    ensures
        r.country_code == c.country_code,
        r.country_name == c.country_name,
{
    CountryInfo { country_code: c.country_code.clone(), country_name: clone_opt_string(&c.country_name) }
}

/// The record for a database entry: the ISO code upper-cased and the
/// English name; none without an ISO code.
pub fn country_info_from(iso_code: Option<&str>, name_en: Option<&str>) -> (r: Option<CountryInfo>)
    ensures
        match iso_code {
            Some(c) => r matches Some(info) && info.country_code@ == upper_text(c@) && match name_en {
                Some(n) => info.country_name matches Some(x) && x@ == n@,
                None => info.country_name is None,
            },
            None => r is None,
        },
{
    match iso_code {
        Some(c) => Some(CountryInfo {
            country_code: to_uppercase(c),
            country_name: match name_en {
                Some(n) => Some(String::from_str(n)),
                None => None,
            },
        }),
        None => None,
    }
}

/// The requested country codes as compared: trimmed, upper-cased, blanks dropped.
pub open spec fn allowed_codes(codes: Seq<Seq<char>>) -> Seq<Seq<char>>
    decreases codes.len(),
{
    if codes.len() == 0 {
        Seq::empty()
    } else {
        let rest = allowed_codes(codes.drop_last());
        let c = upper_text(trim(codes.last()));
        if c.len() > 0 {
            rest.push(c)
        } else {
            rest
        }
    }
}

pub fn normalize_country_codes(codes: &Vec<String>) -> (r: Vec<String>)
    ensures
        texts(r@) == allowed_codes(texts(codes@)),
{
    let mut r: Vec<String> = Vec::new();
    let mut i: usize = 0;
    while i < codes.len()
        invariant
            i <= codes@.len(),
            texts(r@) == allowed_codes(texts(codes@).take(i as int)),
        decreases codes.len() - i,
    {
        assert(texts(codes@).take(i + 1).drop_last() =~= texts(codes@).take(i as int));
        let t = trim_str(codes[i].as_str());
        let u = to_uppercase(t.as_str());
        if u.as_str().unicode_len() > 0 {
            let ghost o = r@;
            r.push(u);
            assert(texts(r@) =~= texts(o).push(upper_text(trim(codes@[i as int]@))));
        }
        i = i + 1;
    }
    assert(texts(codes@).take(codes@.len() as int) =~= texts(codes@));
    r
}

/// The tested proxies whose country (looked up for each, in order) is
/// allowed, in order; with no allowed code, all of them.
pub open spec fn in_countries(tested: Seq<ProxyWithSpeed>, countries: Seq<Option<Seq<char>>>, allowed: Seq<Seq<char>>) -> Seq<ProxyWithSpeed>
    decreases tested.len(),
{
    if tested.len() == 0 {
        Seq::empty()
    } else {
        let n = (tested.len() - 1) as int;
        let rest = in_countries(tested.drop_last(), countries, allowed);
        if n < countries.len() && (countries[n] matches Some(c) && allowed.contains(c)) {
            rest.push(tested.last())
        } else {
            rest
        }
    }
}

pub open spec fn opt_texts(v: Seq<Option<String>>) -> Seq<Option<Seq<char>>> {
    v.map_values(|o: Option<String>| match o {
        Some(s) => Some(s@),
        None => None,
    })
}

fn contains_text(v: &Vec<String>, x: &str) -> (r: bool)
    ensures
        r == texts(v@).contains(x@),
{
    let xv = chars_of(x);
    let mut i: usize = 0;
    while i < v.len()
        invariant
            i <= v@.len(),
            xv@ == x@,
            forall|k: int| 0 <= k < i ==> v@[k]@ != x@,
        decreases v.len() - i,
    {
        let c = chars_of(v[i].as_str());
        if chars_eq(&c, &xv) {
            assert(texts(v@)[i as int] == x@);
            return true;
        }
        i = i + 1;
    }
    assert(!texts(v@).contains(x@)) by {
        if texts(v@).contains(x@) {
            let k = choose|k: int| 0 <= k < texts(v@).len() && texts(v@)[k] == x@;
            assert(v@[k]@ == x@);
        }
    }
    false
}

/// Keep the tested proxies located in one of the requested countries;
/// `countries[i]` is the country found for `tested[i]`.
pub fn filter_by_countries(tested: Vec<ProxyWithSpeed>, countries: &Vec<Option<String>>, country_codes: &Vec<String>) -> (r: Vec<ProxyWithSpeed>)
    ensures
        allowed_codes(texts(country_codes@)).len() == 0 ==> r@ == tested@,
        allowed_codes(texts(country_codes@)).len() > 0 ==> r@ == in_countries(tested@, opt_texts(countries@), allowed_codes(texts(country_codes@))),
{
    let allowed = normalize_country_codes(country_codes);
    if allowed.len() == 0 {
        return tested;
    }
    let ghost all = tested@;
    let ghost ct = opt_texts(countries@);
    let ghost al = texts(allowed@);
    let mut tested = tested;
    let mut out: Vec<ProxyWithSpeed> = Vec::new();
    let mut i: usize = 0;
    let n = tested.len();
    assert(all.skip(0) =~= all);
    assert(all.take(0) =~= Seq::<ProxyWithSpeed>::empty());
    while i < n
        invariant
            n == all.len(),
            i <= n,
            ct == opt_texts(countries@),
            al == texts(allowed@),
            tested@ == all.skip(i as int),
            out@ == in_countries(all.take(i as int), ct, al),
        decreases n - i,
    {
        let p = tested.remove(0);
        assert(p == all[i as int]);
        assert(all.skip(i as int).remove(0) =~= all.skip(i + 1));
        assert(all.take(i + 1).drop_last() =~= all.take(i as int));
        assert(all.take(i + 1).last() == all[i as int]);
        let keep = if i < countries.len() {
            match &countries[i] {
                Some(c) => contains_text(&allowed, c.as_str()),
                None => false,
            }
        } else {
            false
        };
        proof {
            if i < countries@.len() {
                assert(ct[i as int] == match countries@[i as int] {
                    Some(s) => Some(s@),
                    None => None,
                });
            }
        }
        if keep {
            out.push(p);
        }
        i = i + 1;
    }
    assert(all.take(n as int) =~= all);
    out
}

} // verus!
