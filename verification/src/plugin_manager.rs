//! The plugins' saved state: installed, enabled, the last error, and how
//! the outcome of each operation updates it.
use vstd::prelude::*;
use crate::plugin_sdk::{PluginInfo, PluginType};
use crate::text::{chars_of, chars_eq, clone_opt_string};

verus! {

broadcast use vstd::string::group_string_axioms;

#[derive(Debug, Clone)]
pub struct PluginRuntimeState {
    pub installed: bool,
    pub enabled: bool,
    pub last_error: Option<String>,
}

impl Default for PluginRuntimeState {
    fn default() -> (s: Self)
        ensures
            !s.installed && !s.enabled && s.last_error is None,
    {
        PluginRuntimeState { installed: false, enabled: false, last_error: None }
    }
}

/// An operation on a plugin.
#[derive(Debug, Clone, Copy, PartialEq, Eq, Structural)]
pub enum PluginOp {
    Install,
    Uninstall,
    Enable,
    Disable,
}

/// The state after an operation succeeded: the error is cleared; install
/// marks installed, uninstall marks neither installed nor enabled, enable
/// and disable set enabled.
pub open spec fn after_success(s: PluginRuntimeState, op: PluginOp) -> PluginRuntimeState {
    match op {
        PluginOp::Install => PluginRuntimeState { installed: true, last_error: None, ..s },
        PluginOp::Uninstall => PluginRuntimeState { installed: false, enabled: false, last_error: None },
        PluginOp::Enable => PluginRuntimeState { enabled: true, last_error: None, ..s },
        PluginOp::Disable => PluginRuntimeState { enabled: false, last_error: None, ..s },
    }
}

/// The state after an operation failed: only the error is recorded.
pub open spec fn after_failure(s: PluginRuntimeState, msg: String) -> PluginRuntimeState {
    PluginRuntimeState { last_error: Some(msg), ..s }
}

pub open spec fn default_state() -> PluginRuntimeState {
    PluginRuntimeState { installed: false, enabled: false, last_error: None }
}

/// The saved states, by plugin identifier.
#[derive(Debug)]
pub struct PluginStates {
    pub entries: Vec<(String, PluginRuntimeState)>,
}

/// The state recorded for `id` (the first entry with that identifier).
pub open spec fn state_in(entries: Seq<(String, PluginRuntimeState)>, id: Seq<char>) -> Option<PluginRuntimeState>
    decreases entries.len(),
{
    if entries.len() == 0 {
        None
    } else if entries[0].0@ == id {
        Some(entries[0].1)
    } else {
        state_in(entries.skip(1), id)
    }
}

pub open spec fn state_or_default(entries: Seq<(String, PluginRuntimeState)>, id: Seq<char>) -> PluginRuntimeState {
    match state_in(entries, id) {
        Some(s) => s,
        None => default_state(),
    }
}

impl PluginStates {
    pub fn new() -> (r: Self)
        ensures
            r.entries@.len() == 0,
    {
        PluginStates { entries: Vec::new() }
    }

    fn find(&self, id: &str) -> (r: Option<usize>)
        ensures
            match r {
                Some(i) => i < self.entries@.len() && state_in(self.entries@, id@) == Some(self.entries@[i as int].1)
                    && self.entries@[i as int].0@ == id@ && forall|k: int| 0 <= k < i ==> self.entries@[k].0@ != id@,
                None => state_in(self.entries@, id@) is None,
            },
    {
        let idv = chars_of(id);
        let mut i: usize = 0;
        assert(self.entries@.skip(0) =~= self.entries@);
        while i < self.entries.len()
            invariant
                i <= self.entries@.len(),
                idv@ == id@,
                forall|k: int| 0 <= k < i ==> self.entries@[k].0@ != id@,
                state_in(self.entries@, id@) == state_in(self.entries@.skip(i as int), id@),
            decreases self.entries.len() - i,
        {
            let x = chars_of(self.entries[i].0.as_str());
            if chars_eq(&x, &idv) {
                return Some(i);
            }
            assert(self.entries@.skip(i as int).skip(1) =~= self.entries@.skip(i + 1));
            i = i + 1;
        }
        None
    }

    /// The state of `id`, or the default for a plugin never touched.
    pub fn get(&self, id: &str) -> (r: PluginRuntimeState)
        ensures
            r == state_or_default(self.entries@, id@),
    {
        match self.find(id) {
            Some(i) => PluginRuntimeState {
                installed: self.entries[i].1.installed,
                enabled: self.entries[i].1.enabled,
                last_error: clone_opt_string(&self.entries[i].1.last_error),
            },
            None => PluginRuntimeState::default(),
        }
    }

    /// Record the outcome of `op` on plugin `id`, and pass a failure on.
    pub fn record_outcome(&mut self, id: &str, op: PluginOp, outcome: Result<(), String>) -> (r: Result<(), String>)
        ensures
            r == outcome,
            state_in(final(self).entries@, id@) == Some(match outcome {
                Ok(()) => after_success(state_or_default(old(self).entries@, id@), op),
                Err(m) => after_failure(state_or_default(old(self).entries@, id@), m),
            }),
            forall|other: Seq<char>| other != id@ ==> state_in(final(self).entries@, other) == state_in(old(self).entries@, other),
    {
        let cur = self.get(id);
        let next = match &outcome {
            Ok(()) => match op {
                PluginOp::Install => PluginRuntimeState { installed: true, enabled: cur.enabled, last_error: None },
                PluginOp::Uninstall => PluginRuntimeState { installed: false, enabled: false, last_error: None },
                PluginOp::Enable => PluginRuntimeState { installed: cur.installed, enabled: true, last_error: None },
                PluginOp::Disable => PluginRuntimeState { installed: cur.installed, enabled: false, last_error: None },
            },
            Err(m) => PluginRuntimeState { installed: cur.installed, enabled: cur.enabled, last_error: Some(m.clone()) },
        };
        let ghost old_entries = self.entries@;
        match self.find(id) {
            Some(i) => {
                let (k, _) = self.entries.remove(i);
                self.entries.insert(i, (k, next));
                proof {
                    let e = self.entries@;
                    assert(e =~= old_entries.update(i as int, (old_entries[i as int].0, next)));
                    lemma_state_in_update(old_entries, i as int, next, id@);
                }
            },
            None => {
                let key = String::from_str(id);
                let ghost entry = (key, next);
                self.entries.push((key, next));
                proof {
                    lemma_state_in_push(old_entries, entry, id@);
                }
            },
        }
        outcome
    }
}

/// Updating the first entry of an identifier changes only that identifier's state.
pub proof fn lemma_state_in_update(e: Seq<(String, PluginRuntimeState)>, i: int, s: PluginRuntimeState, id: Seq<char>)
    requires
        0 <= i < e.len(),
        e[i].0@ == id,
        forall|k: int| 0 <= k < i ==> e[k].0@ != id,
    ensures
        state_in(e.update(i, (e[i].0, s)), id) == Some(s),
        forall|other: Seq<char>| other != id ==> state_in(e.update(i, (e[i].0, s)), other) == state_in(e, other),
    decreases i,
{
    let u = e.update(i, (e[i].0, s));
    if i == 0 {
        assert(u.skip(1) =~= e.skip(1));
        assert forall|other: Seq<char>| other != id implies state_in(u, other) == state_in(e, other) by {
            assert(u[0].0@ == id);
        }
    } else {
        let t = e.skip(1);
        assert forall|k: int| 0 <= k < i - 1 implies t[k].0@ != id by {
            assert(t[k] == e[k + 1]);
        }
        lemma_state_in_update(t, i - 1, s, id);
        assert(u.skip(1) =~= t.update(i - 1, (t[i - 1].0, s)));
        assert(u[0] == e[0]);
        assert forall|other: Seq<char>| other != id implies state_in(u, other) == state_in(e, other) by {
            if e[0].0@ != other {
                assert(state_in(u, other) == state_in(u.skip(1), other));
                assert(state_in(t.update(i - 1, (t[i - 1].0, s)), other) == state_in(t, other));
            }
        }
    }
}

/// Appending an entry for an identifier without one records its state and
/// changes no other.
pub proof fn lemma_state_in_push(e: Seq<(String, PluginRuntimeState)>, x: (String, PluginRuntimeState), id: Seq<char>)
    requires
        state_in(e, id) is None,
        x.0@ == id,
    ensures
        state_in(e.push(x), id) == Some(x.1),
        forall|other: Seq<char>| other != id ==> state_in(e.push(x), other) == state_in(e, other),
    decreases e.len(),
{
    let p = e.push(x);
    if e.len() == 0 {
        assert(p.skip(1) =~= Seq::<(String, PluginRuntimeState)>::empty());
        assert forall|other: Seq<char>| other != id implies state_in(p, other) == state_in(e, other) by {
            assert(p[0] == x);
            assert(state_in(p, other) == state_in(p.skip(1), other));
        }
    } else {
        let t = e.skip(1);
        lemma_state_in_push(t, x, id);
        assert(p.skip(1) =~= t.push(x));
        assert(p[0] == e[0]);
        assert forall|other: Seq<char>| other != id implies state_in(p, other) == state_in(e, other) by {
            if e[0].0@ != other {
                assert(state_in(p, other) == state_in(p.skip(1), other));
                assert(state_in(t.push(x), other) == state_in(t, other));
            }
        }
    }
}

/// `a` comes before `b` or equals it, comparing characters in order
/// (for UTF-8 text, the order of `String`'s `Ord`).
pub open spec fn text_le(a: Seq<char>, b: Seq<char>) -> bool
    decreases a.len(),
{
    if a.len() == 0 {
        true
    } else if b.len() == 0 {
        false
    } else if a[0] != b[0] {
        (a[0] as int) < (b[0] as int)
    } else {
        text_le(a.skip(1), b.skip(1))
    }
}

pub proof fn lemma_text_le_total(a: Seq<char>, b: Seq<char>)
    ensures
        text_le(a, b) || text_le(b, a),
    decreases a.len(),
{
    if a.len() > 0 && b.len() > 0 && a[0] == b[0] {
        lemma_text_le_total(a.skip(1), b.skip(1));
    }
}

pub proof fn lemma_text_le_trans(a: Seq<char>, b: Seq<char>, c: Seq<char>)
    requires
        text_le(a, b),
        text_le(b, c),
    ensures
        text_le(a, c),
    decreases a.len(),
{
    if a.len() > 0 && b.len() > 0 && c.len() > 0 {
        if a[0] == b[0] && b[0] == c[0] {
            lemma_text_le_trans(a.skip(1), b.skip(1), c.skip(1));
        }
    }
}

fn text_le_exec(a: &str, b: &str) -> (r: bool)
    ensures
        r == text_le(a@, b@),
{
    let av = chars_of(a);
    let bv = chars_of(b);
    let mut i: usize = 0;
    assert(av@.skip(0) =~= av@);
    assert(bv@.skip(0) =~= bv@);
    while i < av.len() && i < bv.len() && av[i] == bv[i]
        invariant
            i <= av@.len(),
            i <= bv@.len(),
            av@ == a@,
            bv@ == b@,
            text_le(a@, b@) == text_le(av@.skip(i as int), bv@.skip(i as int)),
        decreases av.len() - i,
    {
        assert(av@.skip(i as int).skip(1) =~= av@.skip(i + 1));
        assert(bv@.skip(i as int).skip(1) =~= bv@.skip(i + 1));
        i = i + 1;
    }
    if i == av.len() {
        return true;
    }
    if i == bv.len() {
        return false;
    }
    av[i] < bv[i]
}

/// Sorted by identifier.
pub open spec fn sorted_by_id(v: Seq<PluginInfo>) -> bool {
    forall|i: int, j: int| 0 <= i < j < v.len() ==> text_le(v[i].id@, v[j].id@)
}

/// The plugin list, sorted by identifier.
pub fn sort_plugins(infos: Vec<PluginInfo>) -> (r: Vec<PluginInfo>)
    ensures
        sorted_by_id(r@),
        r@.to_multiset() == infos@.to_multiset(),
{
    let mut infos = infos;
    let ghost orig = infos@;
    let mut r: Vec<PluginInfo> = Vec::new();
    proof {
        broadcast use vstd::seq_lib::group_to_multiset_ensures;
        assert(orig.skip(0) =~= orig);
    }
    while infos.len() > 0
        invariant
            sorted_by_id(r@),
            r@.to_multiset().add(infos@.to_multiset()) == orig.to_multiset(),
        decreases infos@.len(),
    {
        let ghost before_pop = infos@;
        let x = infos.pop().unwrap();
        let ghost rest = infos@;
        assert(before_pop =~= rest.push(x));
        let mut pos: usize = 0;
        while pos < r.len() && text_le_exec(r[pos].id.as_str(), x.id.as_str())
            invariant
                pos <= r@.len(),
                forall|k: int| 0 <= k < pos ==> text_le(r@[k].id@, x.id@),
            decreases r.len() - pos,
        {
            pos = pos + 1;
        }
        let ghost o = r@;
        let ghost xv = x;
        r.insert(pos, x);
        proof {
            broadcast use vstd::seq_lib::group_to_multiset_ensures;
            vstd::seq_lib::to_multiset_insert(o, pos as int, xv);
            vstd::seq_lib::to_multiset_build(rest, xv);
            assert(r@.to_multiset().add(rest.to_multiset()) =~= o.to_multiset().add(before_pop.to_multiset()));
            assert forall|i: int, j: int| 0 <= i < j < r@.len() implies text_le(r@[i].id@, r@[j].id@) by {
                if pos < o.len() {
                    lemma_text_le_total(o[pos as int].id@, xv.id@);
                }
                if j < pos {
                } else if i > pos {
                    assert(r@[i] == o[i - 1] && r@[j] == o[j - 1]);
                } else if i == pos {
                    assert(r@[j] == o[j - 1]);
                    if j - 1 > pos {
                        lemma_text_le_trans(xv.id@, o[pos as int].id@, o[j - 1].id@);
                    }
                } else {
                    assert(r@[i] == o[i]);
                    if j > pos {
                        assert(r@[j] == o[j - 1]);
                        if j - 1 > pos {
                            lemma_text_le_trans(o[i].id@, xv.id@, o[pos as int].id@);
                            lemma_text_le_trans(o[i].id@, o[pos as int].id@, o[j - 1].id@);
                        } else {
                            lemma_text_le_trans(o[i].id@, xv.id@, o[pos as int].id@);
                        }
                    }
                }
            }
        }
    }
    proof {
        broadcast use vstd::seq_lib::group_to_multiset_ensures;
    }
    r
}

/// What the list shows of a plugin, given its saved state and whether its
/// files are found: installed when either says so.
pub fn plugin_info(
    id: String,
    name: String,
    version: String,
    description: String,
    plugin_type: PluginType,
    state: PluginRuntimeState,
    files_installed: bool,
) -> (r: PluginInfo)
    ensures
        r == (PluginInfo {
            id,
            name,
            version,
            description,
            plugin_type,
            installed: state.installed || files_installed,
            enabled: state.enabled,
            last_error: state.last_error,
        }),
{
    PluginInfo {
        id,
        name,
        version,
        description,
        plugin_type,
        installed: state.installed || files_installed,
        enabled: state.enabled,
        last_error: state.last_error,
    }
}

} // verus!
