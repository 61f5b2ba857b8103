//! Freeing a port: which ports may not be touched, and how the listening
//! processes are read from the output of `netstat -ano` and `lsof -t`.
use vstd::prelude::*;
use crate::text::{
    chars_of, string_of, trim, trim_chars, lines, lines_of, views, words, words_of, first_match,
    find_from, matches_at, parse_uint, parse_uint_chars, contains_pat, find_pat, decimal,
    push_decimal, extend_str, is_digit,
};

verus! {

broadcast use vstd::string::group_string_axioms;

/// System and critical ports whose processes are never killed.
pub open spec fn protected_port(port: u16) -> bool {
    port == 21 || port == 22 || port == 23 || port == 25 || port == 53 || port == 80 || port == 110
        || port == 143 || port == 443 || port == 445 || port == 465 || port == 587 || port == 993
        || port == 995 || port == 3306 || port == 5432 || port == 6379 || port == 8080 || port == 8443
}

pub fn is_protected_port(port: u16) -> (r: bool)
    ensures
        r == protected_port(port),
{
    port == 21 || port == 22 || port == 23 || port == 25 || port == 53 || port == 80 || port == 110
        || port == 143 || port == 443 || port == 445 || port == 465 || port == 587 || port == 993
        || port == 995 || port == 3306 || port == 5432 || port == 6379 || port == 8080 || port == 8443
}

/// Why the processes on `port` may not be killed, if they may not.
pub open spec fn kill_refusal_spec(port: u16) -> Option<Seq<char>> {
    if protected_port(port) {
        Some("Port "@ + decimal(port as nat) + " is protected (system/critical); refusing to kill process"@)
    } else if port < 1024 {
        Some("Port "@ + decimal(port as nat) + " is in the system range (1-1023); refusing to kill process"@)
    } else {
        None
    }
}

pub fn kill_refusal(port: u16) -> (r: Option<String>)
    ensures
        match kill_refusal_spec(port) {
            Some(m) => r matches Some(s) && s@ == m,
            None => r is None,
        },
{
    if is_protected_port(port) {
        let mut m = chars_of("Port ");
        push_decimal(&mut m, port as u64);
        extend_str(&mut m, " is protected (system/critical); refusing to kill process");
        return Some(string_of(&m));
    }
    if port < 1024 {
        let mut m = chars_of("Port ");
        push_decimal(&mut m, port as u64);
        extend_str(&mut m, " is in the system range (1-1023); refusing to kill process");
        return Some(string_of(&m));
    }
    None
}

/// Whether something listens on a port, given the processes found listening.
pub fn port_is_in_use(listening: &Vec<u32>) -> (r: bool)
    ensures
        r == (listening@.len() > 0),
{
    listening.len() > 0
}

/// The processes to kill to free `port`: refused for a protected or system
/// port; else those found listening (none when the port is free).
pub fn kill_process_on_port(port: u16, listening: &Vec<u32>) -> (r: Result<Vec<u32>, String>)
    ensures
        match kill_refusal_spec(port) {
            Some(m) => r matches Err(e) && e@ == m,
            None => r matches Ok(v) && v@ == listening@,
        },
{
    match kill_refusal(port) {
        Some(m) => Err(m),
        None => Ok(listening.clone()),
    }
}

/// An ASCII digit.
pub open spec fn ascii_digit(c: char) -> bool {
    '0' <= c <= '9'
}

/// The search of `pat` in `line` from `start`: an occurrence not followed
/// by a digit (so `:905` does not match `:9050`); occurrences followed by a
/// digit are skipped whole.
pub open spec fn port_match_from(line: Seq<char>, pat: Seq<char>, start: int) -> bool
    decreases line.len() - start,
{
    if pat.len() == 0 || start < 0 || start > line.len() {
        false
    } else {
        let i = first_match(line.skip(start), pat);
        if i < 0 {
            false
        } else {
            let after = start + i + pat.len();
            if after >= line.len() || !ascii_digit(line[after]) {
                true
            } else {
                port_match_from(line, pat, after)
            }
        }
    }
}

/// A match in a suffix is a match in the whole, shifted.
pub proof fn lemma_matches_skip(s: Seq<char>, pat: Seq<char>, k: int, j: int)
    requires
        0 <= k <= s.len(),
    ensures
        matches_at(s.skip(k), pat, j) <==> (j >= 0 && matches_at(s, pat, j + k)),
{
    if j >= 0 && j + pat.len() <= s.len() - k {
        assert(s.skip(k).subrange(j, j + pat.len()) =~= s.subrange(j + k, j + k + pat.len()));
    }
}

/// The first match found from `start` is the first match in the suffix.
proof fn lemma_find_from_first(s: Seq<char>, pat: Seq<char>, start: int, pos: Option<int>)
    requires
        0 <= start <= s.len(),
        match pos {
            Some(i) => start <= i && matches_at(s, pat, i) && forall|j: int| start <= j < i ==> !matches_at(s, pat, j),
            None => forall|j: int| start <= j ==> !matches_at(s, pat, j),
        },
    ensures
        match pos {
            Some(i) => first_match(s.skip(start), pat) == i - start,
            None => first_match(s.skip(start), pat) < 0,
        },
{
    let t = s.skip(start);
    crate::text::lemma_first_match(t, pat);
    let r = first_match(t, pat);
    match pos {
        Some(i) => {
            lemma_matches_skip(s, pat, start, i - start);
            if r >= 0 {
                lemma_matches_skip(s, pat, start, r);
                if r < i - start {
                    assert(!matches_at(s, pat, r + start));
                }
            }
        },
        None => {
            if r >= 0 {
                lemma_matches_skip(s, pat, start, r);
            }
        },
    }
}

/// Whether `port_str` occurs in `line` as a whole port (not followed by a digit).
pub fn port_match_in_line(line: &str, port_str: &str) -> (r: bool)
    requires
        port_str@.len() > 0,
    ensures
        r == port_match_from(line@, port_str@, 0),
{
    let v = chars_of(line);
    let p = chars_of(port_str);
    let n = v.len();
    let mut start: usize = 0;
    while start <= n
        invariant
            n == v@.len(),
            v@ == line@,
            p@ == port_str@,
            p@.len() > 0,
            start <= n + 1,
            port_match_from(v@, p@, 0) == port_match_from(v@, p@, start as int),
        decreases n + 1 - start,
    {
        let found = find_from(&v, &p, start);
        proof {
            let ghost_pos = match found {
                Some(i) => Some(i as int),
                None => None,
            };
            lemma_find_from_first(v@, p@, start as int, ghost_pos);
        }
        match found {
            None => {
                return false;
            },
            Some(pos) => {
                let after = pos + p.len();
                if after >= n || !(v[after] >= '0' && v[after] <= '9') {
                    return true;
                }
                start = after;
            },
        }
    }
    false
}

/// `str::parse::<u32>` of a trimmed line.
pub open spec fn parse_pid(l: Seq<char>) -> Option<u32> {
    match parse_uint(trim(l), 0xFFFF_FFFF) {
        Some(n) => Some(n as u32),
        None => None,
    }
}

/// The PIDs `lsof -t` printed, one per line; other lines are skipped.
pub open spec fn lsof_pids_spec(ls: Seq<Seq<char>>) -> Seq<u32>
    decreases ls.len(),
{
    if ls.len() == 0 {
        Seq::empty()
    } else {
        let rest = lsof_pids_spec(ls.drop_last());
        match parse_pid(ls.last()) {
            Some(p) => rest.push(p),
            None => rest,
        }
    }
}

pub fn parse_lsof_pids(stdout: &str) -> (r: Vec<u32>)
    ensures
        r@ == lsof_pids_spec(lines(stdout@)),
{
    let v = chars_of(stdout);
    let ls = lines_of(&v);
    let mut r: Vec<u32> = Vec::new();
    let mut i: usize = 0;
    assert(views(ls@).take(0) =~= Seq::<Seq<char>>::empty());
    while i < ls.len()
        invariant
            i <= ls@.len(),
            views(ls@) == lines(stdout@),
            r@ == lsof_pids_spec(views(ls@).take(i as int)),
        decreases ls.len() - i,
    {
        assert(views(ls@).take(i + 1).drop_last() =~= views(ls@).take(i as int));
        assert(views(ls@).take(i + 1).last() == ls@[i as int]@);
        let t = trim_chars(&ls[i]);
        match parse_uint_chars(&t, 0xFFFF_FFFF) {
            Some(n) => r.push(n as u32),
            None => {},
        }
        i = i + 1;
    }
    assert(views(ls@).take(ls@.len() as int) =~= views(ls@));
    r
}

/// The PID `netstat -ano` shows on a line listening on `port`: the line
/// says LISTENING, holds `:port` as a whole port, and ends with a number.
pub open spec fn netstat_pid(l: Seq<char>, port: u16) -> Option<u32> {
    let t = trim(l);
    let parts = words(t);
    if contains_pat(t, "LISTENING"@) && port_match_from(t, ":"@ + decimal(port as nat), 0) && parts.len() > 0 {
        match parse_uint(parts.last(), 0xFFFF_FFFF) {
            Some(n) => Some(n as u32),
            None => None,
        }
    } else {
        None
    }
}

pub open spec fn netstat_pids_raw(ls: Seq<Seq<char>>, port: u16) -> Seq<u32>
    decreases ls.len(),
{
    if ls.len() == 0 {
        Seq::empty()
    } else {
        let rest = netstat_pids_raw(ls.drop_last(), port);
        match netstat_pid(ls.last(), port) {
            Some(p) => rest.push(p),
            None => rest,
        }
    }
}

/// Strictly increasing.
pub open spec fn increasing(v: Seq<u32>) -> bool {
    forall|i: int, j: int| 0 <= i < j < v.len() ==> v[i] < v[j]
}

/// Put `x` into an increasing list, unless it is there.
fn insert_sorted(v: &mut Vec<u32>, x: u32)
    requires
        increasing(old(v)@),
    ensures
        increasing(final(v)@),
        forall|y: u32| #[trigger] final(v)@.contains(y) <==> (old(v)@.contains(y) || y == x),
{
    let mut pos: usize = 0;
    while pos < v.len() && v[pos] < x
        invariant
            pos <= v@.len(),
            forall|k: int| 0 <= k < pos ==> v@[k] < x,
        decreases v.len() - pos,
    {
        pos = pos + 1;
    }
    if pos < v.len() && v[pos] == x {
        return;
    }
    let ghost o = v@;
    v.insert(pos, x);
    proof {
        assert forall|i: int, j: int| 0 <= i < j < v@.len() implies v@[i] < v@[j] by {
            if j < pos {
            } else if i > pos {
                assert(v@[i] == o[i - 1] && v@[j] == o[j - 1]);
            } else if i == pos {
                assert(v@[j] == o[j - 1]);
                assert(o[pos as int] > x);
                if j - 1 > pos {
                    assert(o[pos as int] < o[j - 1]);
                }
            } else {
                assert(v@[i] == o[i]);
                if j == pos {
                } else {
                    assert(v@[j] == o[j - 1]);
                    assert(o[i] < x);
                    assert(o[pos as int] > x);
                    if j - 1 > pos {
                        assert(o[pos as int] < o[j - 1]);
                    }
                }
            }
        }
        assert forall|y: u32| #[trigger] v@.contains(y) <==> (o.contains(y) || y == x) by {
            if v@.contains(y) {
                let k = choose|k: int| 0 <= k < v@.len() && v@[k] == y;
                if k < pos {
                    assert(o[k] == y);
                } else if k > pos {
                    assert(o[k - 1] == y);
                }
            }
            if o.contains(y) {
                let k = choose|k: int| 0 <= k < o.len() && o[k] == y;
                if k < pos {
                    assert(v@[k] == y);
                } else {
                    assert(v@[k + 1] == y);
                }
            }
            if y == x {
                assert(v@[pos as int] == y);
            }
        }
    }
}

/// The PIDs listening on `port` according to `netstat -ano`, sorted, each once.
pub fn parse_netstat_pids(stdout: &str, port: u16) -> (r: Vec<u32>)
    ensures
        increasing(r@),
        forall|x: u32| #[trigger] r@.contains(x) <==> netstat_pids_raw(lines(stdout@), port).contains(x),
{
    let v = chars_of(stdout);
    let ls = lines_of(&v);
    let mut pat = chars_of(":");
    push_decimal(&mut pat, port as u64);
    let port_str = string_of(&pat);
    let listening = chars_of("LISTENING");
    let mut r: Vec<u32> = Vec::new();
    let mut i: usize = 0;
    assert(views(ls@).take(0) =~= Seq::<Seq<char>>::empty());
    proof {
        reveal_strlit(":");
    }
    while i < ls.len()
        invariant
            i <= ls@.len(),
            views(ls@) == lines(stdout@),
            port_str@ == ":"@ + decimal(port as nat),
            port_str@.len() > 0,
            listening@ == "LISTENING"@,
            increasing(r@),
            forall|x: u32| #[trigger] r@.contains(x) <==> netstat_pids_raw(views(ls@).take(i as int), port).contains(x),
        decreases ls.len() - i,
    {
        assert(views(ls@).take(i + 1).drop_last() =~= views(ls@).take(i as int));
        assert(views(ls@).take(i + 1).last() == ls@[i as int]@);
        let ghost prev = netstat_pids_raw(views(ls@).take(i as int), port);
        let t = trim_chars(&ls[i]);
        let ts = string_of(&t);
        let mut pid: Option<u32> = None;
        if find_pat(&t, &listening).is_some() && port_match_in_line(ts.as_str(), port_str.as_str()) {
            let parts = words_of(&t);
            if parts.len() > 0 {
                match parse_uint_chars(&parts[parts.len() - 1], 0xFFFF_FFFF) {
                    Some(n) => {
                        pid = Some(n as u32);
                    },
                    None => {},
                }
            }
        }
        assert(pid == netstat_pid(ls@[i as int]@, port));
        match pid {
            Some(p) => {
                let ghost o = r@;
                insert_sorted(&mut r, p);
                proof {
                    assert forall|x: u32| #[trigger] r@.contains(x) <==> netstat_pids_raw(views(ls@).take(i + 1), port).contains(x) by {
                        crate::discovery::lemma_push_contains(prev, p, x);
                    }
                }
            },
            None => {},
        }
        i = i + 1;
    }
    assert(views(ls@).take(ls@.len() as int) =~= views(ls@));
    r
}

} // verus!
