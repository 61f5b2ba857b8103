//! Text handling shared by the parsers: character views of strings,
//! trimming, splitting, line breaking and decimal numbers, each stated
//! over `Seq<char>` the way the standard library defines it.
use vstd::prelude::*;
use vstd::std_specs::iter::IteratorSpec;

verus! {

broadcast use vstd::string::group_string_axioms;

// ---------------------------------------------------------------------------
// Strings as character sequences
// ---------------------------------------------------------------------------

/// The characters of `s`, in order.
pub fn chars_of(s: &str) -> (v: Vec<char>)
    ensures
        v@ == s@,
{
    let mut v: Vec<char> = Vec::new();
    for c in it: s.chars()
        invariant
            v@ == it.seq().take(it.index() as int),
    {
        v.push(c);
    }
    assert(v@ =~= s@);
    v
}

/// A `String` holding exactly the characters `v` (std's `FromIterator<char>`).
#[verifier::external_body]
pub(crate) fn string_of(v: &[char]) -> (s: String)
    ensures
        s@ == v@,
{
    v.iter().collect()
}

/// The characters `v[lo..hi]` as a new vector.
pub fn sub_chars(v: &[char], lo: usize, hi: usize) -> (r: Vec<char>)
    requires
        lo <= hi <= v@.len(),
    ensures
        r@ == v@.subrange(lo as int, hi as int),
{
    let mut r: Vec<char> = Vec::new();
    let mut i = lo;
    while i < hi
        invariant
            lo <= i <= hi <= v@.len(),
            r@ == v@.subrange(lo as int, i as int),
        decreases hi - i,
    {
        r.push(v[i]);
        i = i + 1;
        assert(r@ =~= v@.subrange(lo as int, i as int));
    }
    r
}

/// `a` followed by `b`.
pub fn concat_chars(a: &[char], b: &[char]) -> (r: Vec<char>)
    ensures
        r@ == a@ + b@,
{
    let mut r: Vec<char> = Vec::new();
    let mut i: usize = 0;
    while i < a.len()
        invariant
            i <= a@.len(),
            r@ == a@.take(i as int),
        decreases a.len() - i,
    {
        r.push(a[i]);
        i = i + 1;
        assert(r@ =~= a@.take(i as int));
    }
    let mut j: usize = 0;
    while j < b.len()
        invariant
            j <= b@.len(),
            r@ == a@ + b@.take(j as int),
        decreases b.len() - j,
    {
        r.push(b[j]);
        j = j + 1;
        assert(r@ =~= a@ + b@.take(j as int));
    }
    assert(a@ =~= a@.take(a@.len() as int));
    assert(b@ =~= b@.take(b@.len() as int));
    r
}

/// Whether two character slices are equal.
pub fn chars_eq(a: &[char], b: &[char]) -> (r: bool)
    ensures
        r == (a@ == b@),
{
    if a.len() != b.len() {
        return false;
    }
    let mut i: usize = 0;
    while i < a.len()
        invariant
            a@.len() == b@.len(),
            i <= a@.len(),
            forall|k: int| 0 <= k < i ==> a@[k] == b@[k],
        decreases a.len() - i,
    {
        if a[i] != b[i] {
            return false;
        }
        i = i + 1;
    }
    assert(a@ =~= b@);
    true
}

/// Whether `p` is a prefix of `s`.
pub fn has_prefix(s: &[char], p: &[char]) -> (r: bool)
    ensures
        r == p@.is_prefix_of(s@),
{
    if p.len() > s.len() {
        return false;
    }
    let mut i: usize = 0;
    while i < p.len()
        invariant
            p@.len() <= s@.len(),
            i <= p@.len(),
            forall|k: int| 0 <= k < i ==> p@[k] == s@[k],
        decreases p.len() - i,
    {
        if p[i] != s[i] {
            return false;
        }
        i = i + 1;
    }
    true
}

// ---------------------------------------------------------------------------
// Whitespace and trimming (Unicode `White_Space`, as `char::is_whitespace`)
// ---------------------------------------------------------------------------

/// `char::is_whitespace`: the Unicode `White_Space` property.
pub open spec fn is_ws(c: char) -> bool {
    let u = c as u32;
    (0x09 <= u && u <= 0x0d) || u == 0x20 || u == 0x85 || u == 0xa0 || u == 0x1680 || (0x2000
        <= u && u <= 0x200a) || u == 0x2028 || u == 0x2029 || u == 0x202f || u == 0x205f || u
        == 0x3000
}

pub fn is_whitespace(c: char) -> (r: bool)
    ensures
        r == is_ws(c),
{
    let u = c as u32;
    (0x09 <= u && u <= 0x0d) || u == 0x20 || u == 0x85 || u == 0xa0 || u == 0x1680 || (0x2000
        <= u && u <= 0x200a) || u == 0x2028 || u == 0x2029 || u == 0x202f || u == 0x205f || u
        == 0x3000
}

/// `str::trim_start`.
pub open spec fn trim_start(s: Seq<char>) -> Seq<char>
    decreases s.len(),
{
    if s.len() > 0 && is_ws(s[0]) {
        trim_start(s.drop_first())
    } else {
        s
    }
}

/// `str::trim_end`.
pub open spec fn trim_end(s: Seq<char>) -> Seq<char>
    decreases s.len(),
{
    if s.len() > 0 && is_ws(s.last()) {
        trim_end(s.drop_last())
    } else {
        s
    }
}

/// `str::trim`.
pub open spec fn trim(s: Seq<char>) -> Seq<char> {
    trim_end(trim_start(s))
}

pub proof fn lemma_trim_start_at(s: Seq<char>, i: int)
    requires
        0 <= i <= s.len(),
        forall|k: int| 0 <= k < i ==> is_ws(#[trigger] s[k]),
        i == s.len() || !is_ws(s[i]),
    ensures
        trim_start(s) == s.subrange(i, s.len() as int),
    decreases i,
{
    if i == 0 {
        assert(s.subrange(0, s.len() as int) =~= s);
    } else {
        let t = s.drop_first();
        assert forall|k: int| 0 <= k < i - 1 implies is_ws(#[trigger] t[k]) by {
            assert(t[k] == s[k + 1]);
        }
        lemma_trim_start_at(t, i - 1);
        assert(t.subrange(i - 1, t.len() as int) =~= s.subrange(i, s.len() as int));
    }
}

pub proof fn lemma_trim_end_at(s: Seq<char>, j: int)
    requires
        0 <= j <= s.len(),
        forall|k: int| j <= k < s.len() ==> is_ws(#[trigger] s[k]),
        j == 0 || !is_ws(s[j - 1]),
    ensures
        trim_end(s) == s.subrange(0, j),
    decreases s.len() - j,
{
    if j == s.len() {
        assert(s.subrange(0, j) =~= s);
    } else {
        let t = s.drop_last();
        assert forall|k: int| j <= k < t.len() implies is_ws(#[trigger] t[k]) by {
            assert(t[k] == s[k]);
        }
        lemma_trim_end_at(t, j);
        assert(t.subrange(0, j) =~= s.subrange(0, j));
    }
}

/// The bounds of `trim(v)` inside `v`.
pub fn trim_bounds(v: &[char]) -> (r: (usize, usize))
    ensures
        r.0 <= r.1 <= v@.len(),
        v@.subrange(r.0 as int, r.1 as int) == trim(v@),
        trim_start(v@) == v@.subrange(r.0 as int, v@.len() as int),
{
    let mut lo: usize = 0;
    while lo < v.len() && is_whitespace(v[lo])
        invariant
            lo <= v@.len(),
            forall|k: int| 0 <= k < lo ==> is_ws(#[trigger] v@[k]),
        decreases v.len() - lo,
    {
        lo = lo + 1;
    }
    proof {
        lemma_trim_start_at(v@, lo as int);
    }
    let mut hi: usize = v.len();
    while hi > lo && is_whitespace(v[hi - 1])
        invariant
            lo <= hi <= v@.len(),
            forall|k: int| hi <= k < v@.len() ==> is_ws(#[trigger] v@[k]),
        decreases hi - lo,
    {
        hi = hi - 1;
    }
    proof {
        let t = v@.subrange(lo as int, v@.len() as int);
        let j = hi - lo;
        assert forall|k: int| j <= k < t.len() implies is_ws(#[trigger] t[k]) by {
            assert(t[k] == v@[k + lo]);
        }
        lemma_trim_end_at(t, j as int);
        assert(t.subrange(0, j as int) =~= v@.subrange(lo as int, hi as int));
    }
    (lo, hi)
}

/// `trim(v)` as a new vector.
pub fn trim_chars(v: &[char]) -> (r: Vec<char>)
    ensures
        r@ == trim(v@),
{
    let (lo, hi) = trim_bounds(v);
    sub_chars(v, lo, hi)
}


/// A copy of an optional string.
pub fn clone_opt_string(o: &Option<String>) -> (r: Option<String>)
    ensures
        r == *o,
{
    match o {
        Some(s) => Some(s.clone()),
        None => None,
    }
}

/// `s.trim()` as a new string.
pub fn trim_str(s: &str) -> (r: String)
    ensures
        r@ == trim(s@),
{
    let v = chars_of(s);
    let t = trim_chars(&v);
    string_of(&t)
}

/// Text without whitespace is its own trim.
pub proof fn lemma_trim_no_ws(s: Seq<char>)
    requires
        forall|k: int| 0 <= k < s.len() ==> !is_ws(#[trigger] s[k]),
    ensures
        trim(s) == s,
{
    lemma_trim_start_at(s, 0);
    assert(s.subrange(0, s.len() as int) =~= s);
    lemma_trim_end_at(s, s.len() as int);
}

/// What `trim_start` leaves begins with a character that is not whitespace.
pub proof fn lemma_trim_start_head(s: Seq<char>)
    ensures
        trim_start(s).len() > 0 ==> !is_ws(trim_start(s)[0]),
        trim_start(s).len() <= s.len(),
        trim_start(s) == s.subrange(s.len() - trim_start(s).len(), s.len() as int),
    decreases s.len(),
{
    if s.len() > 0 && is_ws(s[0]) {
        lemma_trim_start_head(s.drop_first());
        let t = trim_start(s.drop_first());
        assert(s.drop_first().subrange(s.len() - 1 - t.len(), s.len() - 1) =~= s.subrange(
            s.len() - t.len(),
            s.len() as int,
        ));
    } else {
        assert(s.subrange(0, s.len() as int) =~= s);
    }
}

/// What `trim_end` leaves is a prefix of its argument that ends in a
/// character that is not whitespace.
pub proof fn lemma_trim_end_tail(s: Seq<char>)
    ensures
        trim_end(s).len() > 0 ==> !is_ws(trim_end(s).last()),
        trim_end(s).len() <= s.len(),
        trim_end(s) == s.subrange(0, trim_end(s).len() as int),
    decreases s.len(),
{
    if s.len() > 0 && is_ws(s.last()) {
        lemma_trim_end_tail(s.drop_last());
        let t = trim_end(s.drop_last());
        assert(s.drop_last().subrange(0, t.len() as int) =~= s.subrange(0, t.len() as int));
    } else {
        assert(s.subrange(0, s.len() as int) =~= s);
    }
}

/// Text that neither begins nor ends with whitespace is its own trim.
pub proof fn lemma_trim_fixed(s: Seq<char>)
    requires
        s.len() > 0 ==> !is_ws(s[0]) && !is_ws(s.last()),
    ensures
        trim(s) == s,
{
    lemma_trim_start_at(s, 0);
    assert(s.subrange(0, s.len() as int) =~= s);
    lemma_trim_end_at(s, s.len() as int);
}

/// Trimmed text neither begins nor ends with whitespace.
pub proof fn lemma_trim_ends(s: Seq<char>)
    ensures
        trim(s).len() > 0 ==> !is_ws(trim(s)[0]) && !is_ws(trim(s).last()),
{
    lemma_trim_start_head(s);
    lemma_trim_end_tail(trim_start(s));
}

/// `to_ascii_lowercase` changes no whitespace into other text and back:
/// a character is whitespace exactly when its lower-case form is.
pub proof fn lemma_ascii_lower_ws(c: char)
    ensures
        is_ws(ascii_lower(c)) == is_ws(c),
        ascii_lower(ascii_lower(c)) == ascii_lower(c),
{
    if 'A' <= c && c <= 'Z' {
        let u = c as u32;
        assert(65 <= u <= 90);
        let l = ((u + 32) as u8) as char;
        assert((l as u32) == u + 32);
    }
}

/// Lower-casing trimmed text leaves it trimmed, and lower-casing twice is
/// lower-casing once.
pub proof fn lemma_trim_lower_trim(s: Seq<char>)
    ensures
        trim(ascii_lower_seq(trim(s))) == ascii_lower_seq(trim(s)),
        ascii_lower_seq(ascii_lower_seq(trim(s))) == ascii_lower_seq(trim(s)),
{
    let t = trim(s);
    let l = ascii_lower_seq(t);
    lemma_trim_ends(s);
    if t.len() > 0 {
        lemma_ascii_lower_ws(t[0]);
        lemma_ascii_lower_ws(t.last());
        assert(l[0] == ascii_lower(t[0]));
        assert(l.last() == ascii_lower(t.last()));
    }
    lemma_trim_fixed(l);
    assert forall|i: int| 0 <= i < l.len() implies #[trigger] ascii_lower_seq(l)[i] == l[i] by {
        lemma_ascii_lower_ws(t[i]);
    }
    assert(ascii_lower_seq(l) =~= l);
}

// ---------------------------------------------------------------------------
// Searching and splitting (`str::find`, `str::rfind`, `str::split`)
// ---------------------------------------------------------------------------

/// `pat` occurs in `s` at position `i`.
pub open spec fn matches_at(s: Seq<char>, pat: Seq<char>, i: int) -> bool {
    0 <= i && i + pat.len() <= s.len() && s.subrange(i, i + pat.len()) == pat
}

/// The position of the first occurrence of `pat` in `s`, or -1.
pub open spec fn first_match(s: Seq<char>, pat: Seq<char>) -> int
    decreases s.len(),
{
    if pat.len() > s.len() {
        -1
    } else if s.take(pat.len() as int) == pat {
        0
    } else if s.len() == 0 {
        -1
    } else {
        let r = first_match(s.drop_first(), pat);
        if r < 0 {
            -1
        } else {
            r + 1
        }
    }
}

/// The position of the last occurrence of `c` in `s`, or -1 (`str::rfind`).
pub open spec fn last_index(s: Seq<char>, c: char) -> int
    decreases s.len(),
{
    if s.len() == 0 {
        -1
    } else if s.last() == c {
        s.len() - 1
    } else {
        last_index(s.drop_last(), c)
    }
}

pub proof fn lemma_first_match(s: Seq<char>, pat: Seq<char>)
    ensures
        ({
            let r = first_match(s, pat);
            ||| (r == -1 && forall|j: int| !matches_at(s, pat, j))
            ||| (0 <= r && matches_at(s, pat, r) && forall|j: int|
                j < r ==> !matches_at(s, pat, j))
        }),
    decreases s.len(),
{
    if pat.len() > s.len() {
    } else if s.take(pat.len() as int) == pat {
        assert(s.subrange(0, pat.len() as int) =~= s.take(pat.len() as int));
    } else if s.len() == 0 {
        assert(s.take(pat.len() as int) =~= pat);
    } else {
        let t = s.drop_first();
        lemma_first_match(t, pat);
        assert(!matches_at(s, pat, 0)) by {
            assert(s.subrange(0, pat.len() as int) =~= s.take(pat.len() as int));
        }
        assert forall|j: int| 0 <= j implies #[trigger] matches_at(t, pat, j) == matches_at(
            s,
            pat,
            j + 1,
        ) by {
            if j + pat.len() <= t.len() {
                assert(t.subrange(j, j + pat.len()) =~= s.subrange(j + 1, j + 1 + pat.len()));
            }
        }
        let r = first_match(t, pat);
        if r >= 0 {
            assert forall|j: int| j < r + 1 implies !matches_at(s, pat, j) by {
                if j >= 1 {
                    assert(matches_at(t, pat, j - 1) == matches_at(s, pat, j));
                }
            }
        } else {
            assert forall|j: int| !matches_at(s, pat, j) by {
                if j >= 1 {
                    assert(matches_at(t, pat, j - 1) == matches_at(s, pat, j));
                }
            }
        }
    }
}

pub proof fn lemma_last_index(s: Seq<char>, c: char)
    ensures
        ({
            let r = last_index(s, c);
            ||| (r == -1 && forall|j: int| 0 <= j < s.len() ==> s[j] != c)
            ||| (0 <= r < s.len() && s[r] == c && forall|j: int| r < j < s.len() ==> s[j] != c)
        }),
    decreases s.len(),
{
    if s.len() > 0 && s.last() != c {
        let t = s.drop_last();
        lemma_last_index(t, c);
        assert forall|j: int| 0 <= j < t.len() implies t[j] == s[j] by {}
    }
}

/// `str::split(pat)` for a non-empty pattern.
pub open spec fn split_pat(s: Seq<char>, pat: Seq<char>) -> Seq<Seq<char>>
    decreases s.len(),
{
    let i = first_match(s, pat);
    if pat.len() == 0 || i < 0 {
        seq![s]
    } else {
        proof {
            lemma_first_match(s, pat);
        }
        seq![s.take(i)] + split_pat(s.skip(i + pat.len()), pat)
    }
}

/// Whether `pat` occurs in `s` (`str::contains`).
pub open spec fn contains_pat(s: Seq<char>, pat: Seq<char>) -> bool {
    exists|i: int| matches_at(s, pat, i)
}

/// Whether `pat` occurs in `v` at `i`.
pub fn match_at(v: &[char], pat: &[char], i: usize) -> (r: bool)
    ensures
        r == matches_at(v@, pat@, i as int),
{
    if i > v.len() || pat.len() > v.len() - i {
        return false;
    }
    let mut k: usize = 0;
    while k < pat.len()
        invariant
            i + pat@.len() <= v@.len(),
            k <= pat@.len(),
            forall|m: int| 0 <= m < k ==> v@[i + m] == pat@[m],
        decreases pat.len() - k,
    {
        let n = v.len();
        assert(i + k < n);
        if v[i + k] != pat[k] {
            assert(v@.subrange(i as int, i + pat@.len())[k as int] != pat@[k as int]);
            return false;
        }
        k = k + 1;
    }
    assert(v@.subrange(i as int, i + pat@.len()) =~= pat@);
    true
}

/// The first occurrence of `pat` in `v` at or after `from`.
pub fn find_from(v: &[char], pat: &[char], from: usize) -> (r: Option<usize>)
    requires
        from <= v@.len(),
    ensures
        match r {
            Some(i) => from <= i && matches_at(v@, pat@, i as int) && forall|j: int|
                from <= j < i ==> !matches_at(v@, pat@, j),
            None => forall|j: int| from <= j ==> !matches_at(v@, pat@, j),
        },
{
    let mut i = from;
    while i < v.len()
        invariant
            from <= i <= v@.len(),
            forall|j: int| from <= j < i ==> !matches_at(v@, pat@, j),
        decreases v.len() - i,
    {
        if match_at(v, pat, i) {
            return Some(i);
        }
        i = i + 1;
    }
    if match_at(v, pat, i) {
        return Some(i);
    }
    None
}

/// `str::find(pat)`.
pub fn find_pat(v: &[char], pat: &[char]) -> (r: Option<usize>)
    ensures
        match r {
            Some(i) => i as int == first_match(v@, pat@) && matches_at(v@, pat@, i as int),
            None => first_match(v@, pat@) == -1,
        },
        r is Some <==> contains_pat(v@, pat@),
{
    proof {
        lemma_first_match(v@, pat@);
    }
    let r = find_from(v, pat, 0);
    match r {
        Some(i) => {
            assert(contains_pat(v@, pat@));
        },
        None => {},
    }
    r
}

/// `str::rfind(c)`.
pub fn rfind_char(v: &[char], c: char) -> (r: Option<usize>)
    ensures
        match r {
            Some(i) => i as int == last_index(v@, c) && i < v@.len() && v@[i as int] == c,
            None => last_index(v@, c) == -1,
        },
{
    proof {
        lemma_last_index(v@, c);
    }
    let mut i = v.len();
    while i > 0
        invariant
            i <= v@.len(),
            forall|j: int| i <= j < v@.len() ==> v@[j] != c,
        decreases i,
    {
        if v[i - 1] == c {
            proof {
                lemma_last_index(v@, c);
            }
            return Some(i - 1);
        }
        i = i - 1;
    }
    None
}

pub proof fn lemma_split_suffix(s: Seq<char>, pat: Seq<char>, start: int, i: int)
    requires
        pat.len() > 0,
        0 <= start <= i,
        matches_at(s, pat, i),
        forall|j: int| start <= j < i ==> !matches_at(s, pat, j),
    ensures
        split_pat(s.skip(start), pat) == seq![s.subrange(start, i)] + split_pat(
            s.skip(i + pat.len()),
            pat,
        ),
{
    let t = s.skip(start);
    assert forall|j: int| 0 <= j implies #[trigger] matches_at(t, pat, j) == matches_at(
        s,
        pat,
        j + start,
    ) by {
        if j + pat.len() <= t.len() {
            assert(t.subrange(j, j + pat.len()) =~= s.subrange(j + start, j + start + pat.len()));
        }
    }
    lemma_first_match(t, pat);
    let r = first_match(t, pat);
    assert(matches_at(t, pat, i - start));
    if r != i - start {
        if r < i - start {
            assert(matches_at(s, pat, r + start));
        }
    }
    assert(t.take(i - start) =~= s.subrange(start, i));
    assert(t.skip(i - start + pat.len()) =~= s.skip(i + pat.len()));
}

pub proof fn lemma_split_none(s: Seq<char>, pat: Seq<char>, start: int)
    requires
        0 <= start <= s.len(),
        forall|j: int| start <= j ==> !matches_at(s, pat, j),
    ensures
        split_pat(s.skip(start), pat) == seq![s.skip(start)],
{
    let t = s.skip(start);
    lemma_first_match(t, pat);
    if first_match(t, pat) >= 0 {
        let r = first_match(t, pat);
        assert(t.subrange(r, r + pat.len()) =~= s.subrange(r + start, r + start + pat.len()));
        assert(matches_at(s, pat, r + start));
    }
}

/// The views of a vector of character vectors.
pub open spec fn views(v: Seq<Vec<char>>) -> Seq<Seq<char>> {
    v.map_values(|x: Vec<char>| x@)
}

/// `str::split(pat)` for a non-empty pattern.
pub fn split_by(v: &[char], pat: &[char]) -> (r: Vec<Vec<char>>)
    requires
        pat@.len() > 0,
    ensures
        views(r@) == split_pat(v@, pat@),
{
    let mut out: Vec<Vec<char>> = Vec::new();
    let mut start: usize = 0;
    proof {
        assert(v@.skip(0) =~= v@);
    }
    loop
        invariant
            pat@.len() > 0,
            start <= v@.len(),
            split_pat(v@, pat@) == views(out@) + split_pat(v@.skip(start as int), pat@),
        decreases v@.len() - start,
    {
        match find_from(v, pat, start) {
            Some(i) => {
                proof {
                    lemma_split_suffix(v@, pat@, start as int, i as int);
                }
                let piece = sub_chars(v, start, i);
                let ghost old_out = out@;
                out.push(piece);
                proof {
                    assert(views(out@) =~= views(old_out) + seq![v@.subrange(start as int, i as int)]);
                    assert(views(old_out) + (seq![v@.subrange(start as int, i as int)]
                        + split_pat(v@.skip(i + pat@.len()), pat@)) =~= views(out@)
                        + split_pat(v@.skip(i + pat@.len()), pat@));
                }
                let n = v.len();
                assert(i + pat@.len() <= n);
                start = i + pat.len();
            },
            None => {
                proof {
                    lemma_split_none(v@, pat@, start as int);
                }
                let piece = sub_chars(v, start, v.len());
                let ghost old_out = out@;
                out.push(piece);
                proof {
                    assert(v@.subrange(start as int, v@.len() as int) =~= v@.skip(start as int));
                    assert(views(out@) =~= views(old_out) + seq![v@.skip(start as int)]);
                }
                return out;
            },
        }
    }
}


// ---------------------------------------------------------------------------
// Lines (`str::lines`)
// ---------------------------------------------------------------------------

/// A line without the `\r` of a `\r\n` ending.
pub open spec fn strip_cr(l: Seq<char>) -> Seq<char> {
    if l.len() > 0 && l.last() == '\r' {
        l.drop_last()
    } else {
        l
    }
}

/// `str::lines`: split at `\n` or `\r\n`; the final line ending is optional,
/// and a lone `\r` at the very end stays in the last line.
pub open spec fn lines(s: Seq<char>) -> Seq<Seq<char>> {
    let p = split_pat(s, seq!['\n']);
    if s.len() == 0 {
        seq![]
    } else if s.last() == '\n' {
        p.drop_last().map_values(|l: Seq<char>| strip_cr(l))
    } else {
        p.drop_last().map_values(|l: Seq<char>| strip_cr(l)) + seq![p.last()]
    }
}

/// `c` occurs nowhere in `s`.
pub open spec fn lacks(s: Seq<char>, c: char) -> bool {
    forall|i: int| 0 <= i < s.len() ==> #[trigger] s[i] != c
}

/// Splitting at a character leaves that character in no piece.
pub proof fn lemma_split_pieces_lack(s: Seq<char>, c: char)
    ensures
        forall|k: int| 0 <= k < split_pat(s, seq![c]).len() ==> lacks(#[trigger] split_pat(s, seq![c])[k], c),
    decreases s.len(),
{
    let pat = seq![c];
    let i = first_match(s, pat);
    lemma_first_match(s, pat);
    assert forall|j: int| 0 <= j < s.len() && s[j] == c implies matches_at(s, pat, j) by {
        assert(s.subrange(j, j + 1) =~= pat);
    }
    if i < 0 {
        assert(split_pat(s, pat) =~= seq![s]);
    } else {
        lemma_split_pieces_lack(s.skip(i + 1), c);
        let rest = split_pat(s.skip(i + 1), pat);
        let all = split_pat(s, pat);
        assert(all =~= seq![s.take(i)] + rest);
        assert forall|k: int| 0 <= k < all.len() implies lacks(#[trigger] all[k], c) by {
            if k > 0 {
                assert(all[k] == rest[k - 1]);
            }
        }
    }
}

/// No line of `str::lines` holds a `\n`.
pub proof fn lemma_lines_lack_newline(s: Seq<char>)
    ensures
        forall|k: int| 0 <= k < lines(s).len() ==> lacks(#[trigger] lines(s)[k], '\n'),
{
    let p = split_pat(s, seq!['\n']);
    lemma_split_pieces_lack(s, '\n');
    let ls = lines(s);
    if s.len() > 0 {
        lemma_split_nonempty(s, seq!['\n']);
        assert forall|k: int| 0 <= k < ls.len() implies lacks(#[trigger] ls[k], '\n') by {
            if k < p.len() - 1 {
                assert(ls[k] == strip_cr(p[k]));
                assert(lacks(p[k], '\n'));
                if p[k].len() > 0 && p[k].last() == '\r' {
                    assert forall|j: int| 0 <= j < ls[k].len() implies #[trigger] ls[k][j] != '\n' by {
                        assert(ls[k][j] == p[k][j]);
                    }
                }
            } else {
                assert(ls[k] == p.last());
                assert(lacks(p[p.len() - 1], '\n'));
            }
        }
    }
}

/// Trimming adds no character.
pub proof fn lemma_trim_lacks(s: Seq<char>, c: char)
    requires
        lacks(s, c),
    ensures
        lacks(trim(s), c),
{
    lemma_trim_start_head(s);
    lemma_trim_end_tail(trim_start(s));
    let a = trim_start(s);
    let t = trim(s);
    assert forall|i: int| 0 <= i < t.len() implies #[trigger] t[i] != c by {
        assert(t[i] == a[i]);
        assert(a[i] == s[s.len() - a.len() + i]);
    }
}

pub proof fn lemma_split_nonempty(s: Seq<char>, pat: Seq<char>)
    ensures
        split_pat(s, pat).len() >= 1,
    decreases s.len(),
{
    let i = first_match(s, pat);
    if pat.len() == 0 || i < 0 {
    } else {
        lemma_first_match(s, pat);
        lemma_split_nonempty(s.skip(i + pat.len()), pat);
    }
}

pub proof fn lemma_split_last_empty(s: Seq<char>, pat: Seq<char>)
    requires
        pat.len() == 1,
        s.len() >= 1,
        s.last() == pat[0],
    ensures
        split_pat(s, pat).last().len() == 0,
    decreases s.len(),
{
    lemma_first_match(s, pat);
    let i = first_match(s, pat);
    assert(s.subrange(s.len() - 1, s.len() as int) =~= pat);
    assert(matches_at(s, pat, s.len() - 1));
    let t = s.skip(i + 1);
    assert(split_pat(s, pat) == seq![s.take(i)] + split_pat(t, pat));
    if t.len() == 0 {
        lemma_first_match(t, pat);
        assert(split_pat(t, pat) == seq![t]);
    } else {
        assert(t.last() == s.last());
        lemma_split_last_empty(t, pat);
        lemma_split_nonempty(t, pat);
    }
}

pub fn strip_cr_chars(l: Vec<char>) -> (r: Vec<char>)
    ensures
        r@ == strip_cr(l@),
{
    let mut l = l;
    if l.len() > 0 && l[l.len() - 1] == '\r' {
        l.pop();
    }
    l
}

/// `str::lines` on a character slice.
pub fn lines_of(v: &[char]) -> (r: Vec<Vec<char>>)
    ensures
        views(r@) == lines(v@),
{
    let pieces = split_by(v, &['\n']);
    proof {
        assert(seq!['\n'] =~= (['\n']@));
        lemma_split_nonempty(v@, seq!['\n']);
    }
    let ghost p = split_pat(v@, seq!['\n']);
    let mut out: Vec<Vec<char>> = Vec::new();
    if v.len() == 0 {
        assert(views(out@) =~= lines(v@));
        return out;
    }
    let n = pieces.len();
    let mut i: usize = 0;
    while i + 1 < n
        invariant
            n == pieces@.len(),
            n >= 1,
            views(pieces@) == p,
            i + 1 <= n,
            views(out@) == p.take(i as int).map_values(|l: Seq<char>| strip_cr(l)),
        decreases n - i,
    {
        let piece = pieces[i].clone();
        let stripped = strip_cr_chars(piece);
        let ghost old_out = out@;
        out.push(stripped);
        proof {
            assert(pieces@[i as int]@ == p[i as int]);
            assert(views(out@) =~= views(old_out).push(strip_cr(p[i as int])));
            assert(p.take(i + 1).map_values(|l: Seq<char>| strip_cr(l)) =~= p.take(
                i as int,
            ).map_values(|l: Seq<char>| strip_cr(l)).push(strip_cr(p[i as int])));
        }
        i = i + 1;
    }
    assert(p.take((n - 1) as int) =~= p.drop_last());
    if v[v.len() - 1] != '\n' {
        let last = pieces[n - 1].clone();
        let ghost old_out = out@;
        out.push(last);
        assert(pieces@[n - 1]@ == p.last());
        assert(views(out@) =~= views(old_out) + seq![p.last()]);
    }
    out
}

// ---------------------------------------------------------------------------
// Words (`str::split_whitespace`)
// ---------------------------------------------------------------------------

/// The position of the first whitespace character of `s`, or -1.
pub open spec fn first_ws(s: Seq<char>) -> int
    decreases s.len(),
{
    if s.len() == 0 {
        -1
    } else if is_ws(s[0]) {
        0
    } else {
        let r = first_ws(s.drop_first());
        if r < 0 {
            -1
        } else {
            r + 1
        }
    }
}

pub proof fn lemma_first_ws_bound(s: Seq<char>)
    ensures
        -1 <= first_ws(s) < s.len(),
        s.len() > 0 && !is_ws(s[0]) ==> first_ws(s) != 0,
    decreases s.len(),
{
    if s.len() > 0 && !is_ws(s[0]) {
        lemma_first_ws_bound(s.drop_first());
    }
}

pub proof fn lemma_first_ws_at(s: Seq<char>, k: int)
    requires
        0 <= k <= s.len(),
        forall|j: int| 0 <= j < k ==> !is_ws(#[trigger] s[j]),
        k == s.len() || is_ws(s[k]),
    ensures
        first_ws(s) == (if k == s.len() {
            -1
        } else {
            k
        }),
    decreases k,
{
    if k > 0 {
        let t = s.drop_first();
        assert forall|j: int| 0 <= j < k - 1 implies !is_ws(#[trigger] t[j]) by {
            assert(t[j] == s[j + 1]);
        }
        lemma_first_ws_at(t, k - 1);
    }
}

pub proof fn lemma_trim_start_shape(s: Seq<char>)
    ensures
        trim_start(s).len() <= s.len(),
        trim_start(s).len() == 0 || !is_ws(trim_start(s)[0]),
        s.len() >= trim_start(s).len(),
        trim_start(s) == s.skip(s.len() - trim_start(s).len()),
    decreases s.len(),
{
    if s.len() > 0 && is_ws(s[0]) {
        lemma_trim_start_shape(s.drop_first());
        assert(s.drop_first().skip(s.len() - 1 - trim_start(s).len()) =~= s.skip(
            s.len() - trim_start(s).len(),
        ));
    } else {
        assert(s.skip(0) =~= s);
    }
}

/// `str::split_whitespace`: the maximal runs of non-whitespace characters.
pub open spec fn words(s: Seq<char>) -> Seq<Seq<char>>
    decreases s.len(),
{
    let t = trim_start(s);
    if t.len() == 0 {
        seq![]
    } else {
        let k = first_ws(t);
        if k < 0 {
            seq![t]
        } else {
            proof {
                lemma_trim_start_shape(s);
                lemma_first_ws_bound(t);
            }
            seq![t.take(k)] + words(t.skip(k))
        }
    }
}

/// `str::split_whitespace` on a character slice.
pub fn words_of(v: &[char]) -> (r: Vec<Vec<char>>)
    ensures
        views(r@) == words(v@),
{
    let mut out: Vec<Vec<char>> = Vec::new();
    let mut pos: usize = 0;
    proof {
        assert(v@.skip(0) =~= v@);
    }
    loop
        invariant
            pos <= v@.len(),
            words(v@) == views(out@) + words(v@.skip(pos as int)),
        decreases v@.len() - pos,
    {
        let mut a = pos;
        while a < v.len() && is_whitespace(v[a])
            invariant
                pos <= a <= v@.len(),
                forall|k: int| pos <= k < a ==> is_ws(#[trigger] v@[k]),
            decreases v.len() - a,
        {
            a = a + 1;
        }
        let ghost u = v@.skip(pos as int);
        proof {
            assert forall|k: int| 0 <= k < a - pos implies is_ws(#[trigger] u[k]) by {
                assert(u[k] == v@[k + pos]);
            }
            lemma_trim_start_at(u, a - pos);
            assert(u.subrange(a - pos, u.len() as int) =~= v@.skip(a as int));
        }
        if a == v.len() {
            assert(views(out@) + words(v@.skip(pos as int)) =~= views(out@));
            return out;
        }
        let mut b = a;
        while b < v.len() && !is_whitespace(v[b])
            invariant
                a <= b <= v@.len(),
                forall|k: int| a <= k < b ==> !is_ws(#[trigger] v@[k]),
            decreases v.len() - b,
        {
            b = b + 1;
        }
        let ghost t = v@.skip(a as int);
        proof {
            assert forall|k: int| 0 <= k < b - a implies !is_ws(#[trigger] t[k]) by {
                assert(t[k] == v@[k + a]);
            }
            lemma_first_ws_at(t, b - a);
            assert(t.take(b - a) =~= v@.subrange(a as int, b as int));
            assert(t.skip(b - a) =~= v@.skip(b as int));
            if b == v@.len() {
                assert(v@.skip(b as int) =~= Seq::<char>::empty());
                assert(trim_start(Seq::<char>::empty()) =~= Seq::<char>::empty());
                assert(t =~= v@.subrange(a as int, b as int));
            }
        }
        let w = sub_chars(v, a, b);
        let ghost old_out = out@;
        out.push(w);
        proof {
            assert(views(out@) =~= views(old_out) + seq![v@.subrange(a as int, b as int)]);
        }
        pos = b;
    }
}

// ---------------------------------------------------------------------------
// Decimal and hexadecimal numbers
// ---------------------------------------------------------------------------

/// The ASCII digit for `d < 36` in base up to 16, lowercase letters above 9.
pub open spec fn digit_char(d: nat) -> char {
    if d < 10 {
        ((d + 48) as u8) as char
    } else {
        ((d + 87) as u8) as char
    }
}

/// The value of an ASCII decimal digit.
pub open spec fn digit_value(c: char) -> nat {
    (c as u32 - 48) as nat
}

pub open spec fn is_digit(c: char) -> bool {
    '0' <= c && c <= '9'
}

/// `n` in decimal without leading zeros (`format!("{}", n)`).
pub open spec fn decimal(n: nat) -> Seq<char>
    decreases n,
{
    if n < 10 {
        seq![digit_char(n)]
    } else {
        decimal(n / 10).push(digit_char(n % 10))
    }
}

/// `n` in lowercase hexadecimal without leading zeros (`format!("{:x}", n)`).
pub open spec fn hex(n: nat) -> Seq<char>
    decreases n,
{
    if n < 16 {
        seq![digit_char(n)]
    } else {
        hex(n / 16).push(digit_char(n % 16))
    }
}

/// The low `w` hexadecimal digits of `n`, zero-padded (`format!("{:0w$x}", n)` when `n < 16^w`).
pub open spec fn hex_fixed(n: nat, w: nat) -> Seq<char>
    decreases w,
{
    if w == 0 {
        seq![]
    } else {
        hex_fixed(n / 16, (w - 1) as nat).push(digit_char(n % 16))
    }
}

pub fn digit_to_char(d: u64) -> (c: char)
    requires
        d < 16,
    ensures
        c == digit_char(d as nat),
{
    if d < 10 {
        ((d as u8) + 48) as char
    } else {
        ((d as u8) + 87) as char
    }
}

/// Append `decimal(n)` to `out`.
pub fn push_decimal(out: &mut Vec<char>, n: u64)
    ensures
        final(out)@ == old(out)@ + decimal(n as nat),
    decreases n,
{
    if n >= 10 {
        push_decimal(out, n / 10);
    }
    out.push(digit_to_char(n % 10));
    proof {
        if n >= 10 {
            assert(old(out)@ + decimal(n as nat) =~= old(out)@ + decimal((n / 10) as nat) + seq![
                digit_char((n % 10) as nat)]);
        } else {
            assert(decimal(n as nat) =~= seq![digit_char(n as nat)]);
        }
    }
}

/// Append `decimal(n)` to `out`, for a 128-bit `n`.
pub fn push_decimal_u128(out: &mut Vec<char>, n: u128)
    ensures
        final(out)@ == old(out)@ + decimal(n as nat),
    decreases n,
{
    if n >= 10 {
        push_decimal_u128(out, n / 10);
    }
    out.push(digit_to_char((n % 10) as u64));
    proof {
        if n >= 10 {
            assert(old(out)@ + decimal(n as nat) =~= old(out)@ + decimal((n / 10) as nat) + seq![
                digit_char((n % 10) as nat)]);
        } else {
            assert(decimal(n as nat) =~= seq![digit_char(n as nat)]);
        }
    }
}

/// Append `hex(n)` to `out`.
pub fn push_hex(out: &mut Vec<char>, n: u64)
    ensures
        final(out)@ == old(out)@ + hex(n as nat),
    decreases n,
{
    if n >= 16 {
        push_hex(out, n / 16);
    }
    out.push(digit_to_char(n % 16));
    proof {
        if n >= 16 {
            assert(old(out)@ + hex(n as nat) =~= old(out)@ + hex((n / 16) as nat) + seq![
                digit_char((n % 16) as nat)]);
        } else {
            assert(hex(n as nat) =~= seq![digit_char(n as nat)]);
        }
    }
}

/// Append `hex_fixed(n, w)` to `out`.
pub fn push_hex_fixed(out: &mut Vec<char>, n: u64, w: u64)
    ensures
        final(out)@ == old(out)@ + hex_fixed(n as nat, w as nat),
    decreases w,
{
    if w > 0 {
        push_hex_fixed(out, n / 16, w - 1);
        out.push(digit_to_char(n % 16));
        assert(old(out)@ + hex_fixed(n as nat, w as nat) =~= old(out)@ + hex_fixed(
            (n / 16) as nat,
            (w - 1) as nat,
        ) + seq![digit_char((n % 16) as nat)]);
    } else {
        assert(old(out)@ + hex_fixed(n as nat, w as nat) =~= old(out)@);
    }
}

/// The value of a string of ASCII digits.
pub open spec fn digits_value(s: Seq<char>) -> nat
    decreases s.len(),
{
    if s.len() == 0 {
        0
    } else {
        digits_value(s.drop_last()) * 10 + digit_value(s.last())
    }
}

pub open spec fn all_digits(s: Seq<char>) -> bool {
    forall|i: int| 0 <= i < s.len() ==> is_digit(#[trigger] s[i])
}

/// `str::parse` for an unsigned integer type whose largest value is `max`:
/// an optional `+`, then at least one ASCII digit, and a value of at most `max`.
pub open spec fn parse_uint(s: Seq<char>, max: nat) -> Option<nat> {
    let d = if s.len() > 0 && s[0] == '+' {
        s.drop_first()
    } else {
        s
    };
    if d.len() > 0 && all_digits(d) && digits_value(d) <= max {
        Some(digits_value(d))
    } else {
        None
    }
}

/// `str::parse::<u16>`.
pub open spec fn parse_u16(s: Seq<char>) -> Option<u16> {
    match parse_uint(s, 65535) {
        Some(n) => Some(n as u16),
        None => None,
    }
}

pub proof fn lemma_digits_prefix_le(s: Seq<char>, i: int)
    requires
        0 <= i <= s.len(),
    ensures
        digits_value(s.take(i)) <= digits_value(s),
    decreases s.len(),
{
    if i < s.len() {
        lemma_digits_prefix_le(s.drop_last(), i);
        assert(s.drop_last().take(i) =~= s.take(i));
    } else {
        assert(s.take(i) =~= s);
    }
}

/// `str::parse` into an unsigned integer no larger than `max`.
pub fn parse_uint_chars(v: &[char], max: u64) -> (r: Option<u64>)
    requires
        max < 0x1_0000_0000,
    ensures
        match parse_uint(v@, max as nat) {
            Some(n) => r == Some(n as u64),
            None => r is None,
        },
{
    let start: usize = if v.len() > 0 && v[0] == '+' {
        1
    } else {
        0
    };
    let ghost d = if v@.len() > 0 && v@[0] == '+' {
        v@.drop_first()
    } else {
        v@
    };
    assert(d =~= v@.skip(start as int));
    if start == v.len() {
        return None;
    }
    let mut acc: u64 = 0;
    let mut i = start;
    while i < v.len()
        invariant
            start <= i <= v@.len(),
            d == v@.skip(start as int),
            d == (if v@.len() > 0 && v@[0] == '+' {
                v@.drop_first()
            } else {
                v@
            }),
            max < 0x1_0000_0000,
            acc <= max,
            acc == digits_value(d.take(i - start)),
            all_digits(d.take(i - start)),
        decreases v.len() - i,
    {
        let c = v[i];
        if !('0' <= c && c <= '9') {
            assert(d[i - start] == c);
            assert(!is_digit(d[i - start]));
            assert(!all_digits(d));
            return None;
        }
        let dv = (c as u64) - 48;
        proof {
            assert(d.take(i - start + 1).drop_last() =~= d.take(i - start));
            assert(d.take(i - start + 1).last() == c);
        }
        let ghost prev = acc;
        acc = acc * 10 + dv;
        i = i + 1;
        assert(acc == digits_value(d.take(i - start))) by {
            assert(digit_value(c) == dv);
            assert(digits_value(d.take(i - start)) == digits_value(d.take(i - start - 1)) * 10
                + digit_value(c));
        }
        assert(all_digits(d.take(i - start))) by {
            assert forall|k: int| 0 <= k < i - start implies is_digit(
                #[trigger] d.take(i - start)[k],
            ) by {
                if k < i - start - 1 {
                    assert(d.take(i - start)[k] == d.take(i - start - 1)[k]);
                }
            }
        }
        if acc > max {
            proof {
                lemma_digits_prefix_le(d, i - start);
            }
            return None;
        }
    }
    assert(d.take(i - start) =~= d);
    Some(acc)
}

/// `str::parse::<u16>` on a character slice.
pub fn parse_u16_chars(v: &[char]) -> (r: Option<u16>)
    ensures
        r == parse_u16(v@),
{
    match parse_uint_chars(v, 65535) {
        Some(n) => Some(n as u16),
        None => None,
    }
}

// ---------------------------------------------------------------------------
// Letter case
// ---------------------------------------------------------------------------

pub open spec fn ascii_lower(c: char) -> char {
    if 'A' <= c && c <= 'Z' {
        ((c as u32 + 32) as u8) as char
    } else {
        c
    }
}

pub open spec fn ascii_upper(c: char) -> char {
    if 'a' <= c && c <= 'z' {
        ((c as u32 - 32) as u8) as char
    } else {
        c
    }
}

/// `str::to_ascii_lowercase`.
pub open spec fn ascii_lower_seq(s: Seq<char>) -> Seq<char> {
    s.map_values(|c: char| ascii_lower(c))
}

/// `str::to_ascii_uppercase`.
pub open spec fn ascii_upper_seq(s: Seq<char>) -> Seq<char> {
    s.map_values(|c: char| ascii_upper(c))
}

pub open spec fn is_ascii_seq(s: Seq<char>) -> bool {
    forall|i: int| 0 <= i < s.len() ==> (#[trigger] s[i] as u32) < 128
}

pub fn lower_char(c: char) -> (r: char)
    ensures
        r == ascii_lower(c),
{
    if 'A' <= c && c <= 'Z' {
        ((c as u8) + 32) as char
    } else {
        c
    }
}

pub fn upper_char(c: char) -> (r: char)
    ensures
        r == ascii_upper(c),
{
    if 'a' <= c && c <= 'z' {
        ((c as u8) - 32) as char
    } else {
        c
    }
}

/// `to_ascii_lowercase` on a character slice.
pub fn ascii_lowercase(v: &[char]) -> (r: Vec<char>)
    ensures
        r@ == ascii_lower_seq(v@),
{
    let mut r: Vec<char> = Vec::new();
    let mut i: usize = 0;
    while i < v.len()
        invariant
            i <= v@.len(),
            r@ == ascii_lower_seq(v@.take(i as int)),
        decreases v.len() - i,
    {
        r.push(lower_char(v[i]));
        i = i + 1;
        assert(r@ =~= ascii_lower_seq(v@.take(i as int)));
    }
    assert(v@.take(i as int) =~= v@);
    r
}

/// What `str::to_lowercase` gives (full Unicode case mapping).
pub uninterp spec fn unicode_lower(s: Seq<char>) -> Seq<char>;

/// What `str::to_uppercase` gives (full Unicode case mapping).
pub uninterp spec fn unicode_upper(s: Seq<char>) -> Seq<char>;

/// Text in lower case: on ASCII text the ASCII lowercase, which is what the
/// Unicode case tables give for those characters; otherwise the named
/// Unicode lowercase.
pub open spec fn lower_text(s: Seq<char>) -> Seq<char> {
    if is_ascii_seq(s) {
        ascii_lower_seq(s)
    } else {
        unicode_lower(s)
    }
}

/// Text in upper case, in the same way.
pub open spec fn upper_text(s: Seq<char>) -> Seq<char> {
    if is_ascii_seq(s) {
        ascii_upper_seq(s)
    } else {
        unicode_upper(s)
    }
}

/// `str::to_lowercase`. The result is named; on ASCII text it is the ASCII
/// lowercase, as the Unicode case tables give for those characters.
#[verifier::external_body]
pub(crate) fn to_lowercase(s: &str) -> (r: String)
    ensures
        r@ == unicode_lower(s@),
        is_ascii_seq(s@) ==> r@ == ascii_lower_seq(s@),
        r@ == lower_text(s@),
{
    s.to_lowercase()
}

/// `str::to_uppercase`. The result is named; on ASCII text it is the ASCII
/// uppercase, as the Unicode case tables give for those characters.
#[verifier::external_body]
pub(crate) fn to_uppercase(s: &str) -> (r: String)
    ensures
        r@ == unicode_upper(s@),
        is_ascii_seq(s@) ==> r@ == ascii_upper_seq(s@),
        r@ == upper_text(s@),
{
    s.to_uppercase()
}

// ---------------------------------------------------------------------------
// Bytes and UTF-8
// ---------------------------------------------------------------------------

/// What `String::from_utf8_lossy` gives: invalid sequences become U+FFFD.
pub uninterp spec fn utf8_lossy(b: Seq<u8>) -> Seq<char>;

/// `String::from_utf8`: `Some` exactly for valid UTF-8, holding its characters.
#[verifier::external_body]
pub(crate) fn string_from_utf8(b: &[u8]) -> (r: Option<String>)
    ensures
        r is Some <==> vstd::utf8::valid_utf8(b@),
        r matches Some(s) ==> s@ == vstd::utf8::decode_utf8(b@),
{
    String::from_utf8(b.to_vec()).ok()
}

/// `String::from_utf8_lossy`. Named; on valid UTF-8 it decodes exactly.
#[verifier::external_body]
pub(crate) fn utf8_lossy_of(b: &[u8]) -> (r: String)
    ensures
        r@ == utf8_lossy(b@),
        vstd::utf8::valid_utf8(b@) ==> r@ == vstd::utf8::decode_utf8(b@),
{
    String::from_utf8_lossy(b).into_owned()
}


// ---------------------------------------------------------------------------
// Building character vectors
// ---------------------------------------------------------------------------

/// Append `v` to `out`.
pub fn extend_chars(out: &mut Vec<char>, v: &[char])
    ensures
        final(out)@ == old(out)@ + v@,
{
    let ghost before = out@;
    let mut i: usize = 0;
    while i < v.len()
        invariant
            i <= v@.len(),
            out@ == before + v@.take(i as int),
        decreases v.len() - i,
    {
        out.push(v[i]);
        i = i + 1;
        assert(out@ =~= before + v@.take(i as int));
    }
    assert(v@.take(i as int) =~= v@);
}

/// Whether the characters `v` spell the text `lit`.
pub fn eq_text(v: &[char], lit: &str) -> (r: bool)
    ensures
        r == (v@ == lit@),
{
    let w = chars_of(lit);
    chars_eq(v, &w)
}

/// Whether `c` occurs in `v`.
pub fn has_char(v: &[char], c: char) -> (r: bool)
    ensures
        r == v@.contains(c),
{
    let mut i: usize = 0;
    while i < v.len()
        invariant
            i <= v@.len(),
            forall|k: int| 0 <= k < i ==> v@[k] != c,
        decreases v.len() - i,
    {
        if v[i] == c {
            return true;
        }
        i = i + 1;
    }
    false
}

/// The lines joined with a newline between each two (`[..].join("\n")`).
pub open spec fn join_lines(ls: Seq<Seq<char>>) -> Seq<char>
    decreases ls.len(),
{
    if ls.len() == 0 {
        Seq::empty()
    } else if ls.len() == 1 {
        ls[0]
    } else {
        join_lines(ls.drop_last()) + seq!['\n'] + ls.last()
    }
}

/// The lines `v` joined with newlines, as a string.
pub fn join_lines_of(v: &Vec<Vec<char>>) -> (r: String)
    ensures
        r@ == join_lines(views(v@)),
{
    let mut out: Vec<char> = Vec::new();
    let mut i: usize = 0;
    while i < v.len()
        invariant
            i <= v@.len(),
            out@ == join_lines(views(v@).take(i as int)),
        decreases v.len() - i,
    {
        assert(views(v@).take(i + 1).drop_last() =~= views(v@).take(i as int));
        if i > 0 {
            out.push('\n');
        }
        extend_chars(&mut out, &v[i]);
        proof {
            if i == 0 {
                assert(views(v@).take(1)[0] == v@[0]@);
            }
        }
        i = i + 1;
    }
    assert(views(v@).take(v@.len() as int) =~= views(v@));
    string_of(&out)
}

/// `a` followed by `b`, as a new string.
pub fn cat(a: &str, b: &str) -> (r: String)
    ensures
        r@ == a@ + b@,
{
    let mut v = chars_of(a);
    extend_str(&mut v, b);
    string_of(&v)
}

/// The decimal digits of `n`.
pub fn decimal_string(n: u64) -> (r: String)
    ensures
        r@ == decimal(n as nat),
{
    let mut v: Vec<char> = Vec::new();
    push_decimal(&mut v, n);
    assert(v@ =~= Seq::<char>::empty() + decimal(n as nat));
    string_of(&v)
}

/// Append the characters of `s` to `out`.
pub fn extend_str(out: &mut Vec<char>, s: &str)
    ensures
        final(out)@ == old(out)@ + s@,
{
    let v = chars_of(s);
    extend_chars(out, &v);
}

/// `s` starts with `t` when ASCII letters are compared without case.
pub open spec fn prefix_ignore_case(s: Seq<char>, t: Seq<char>) -> bool {
    t.len() <= s.len() && ascii_lower_seq(s.take(t.len() as int)) == ascii_lower_seq(t)
}

/// Whether `v` starts with `t`, ASCII case ignored.
pub fn has_prefix_ignore_case(v: &[char], t: &[char]) -> (r: bool)
    ensures
        r == prefix_ignore_case(v@, t@),
{
    if t.len() > v.len() {
        return false;
    }
    let mut i: usize = 0;
    while i < t.len()
        invariant
            t@.len() <= v@.len(),
            i <= t@.len(),
            forall|k: int| 0 <= k < i ==> ascii_lower(v@[k]) == ascii_lower(t@[k]),
        decreases t.len() - i,
    {
        if lower_char(v[i]) != lower_char(t[i]) {
            assert(ascii_lower_seq(v@.take(t@.len() as int))[i as int] != ascii_lower_seq(
                t@,
            )[i as int]);
            return false;
        }
        i = i + 1;
    }
    assert(ascii_lower_seq(v@.take(t@.len() as int)) =~= ascii_lower_seq(t@));
    true
}

} // verus!
