//! Scheduled actions on instances: which schedules are due at a given
//! minute of a given day, and how running them updates them.
use vstd::prelude::*;
use crate::codec::{new_uuid, uuid_to_string, unix_now_secs};
use crate::text::{chars_of, string_of, push_decimal, hex_fixed, decimal};

verus! {

broadcast use vstd::string::group_string_axioms;

#[derive(Debug)]
pub enum ScheduleAction {
    StartInstance { instance_id: String },
    StopInstance { instance_id: String },
    ChangeIp { instance_id: String },
}

#[derive(Debug, Clone, Copy, PartialEq, Eq, Structural)]
pub enum ScheduleRepeat {
    Once,
    Daily,
}

#[derive(Debug)]
pub struct Schedule {
    pub id: String,
    pub name: String,
    /// `HH:MM`, local time.
    pub time: String,
    pub action: ScheduleAction,
    pub repeat: ScheduleRepeat,
    pub enabled: bool,
    /// The day (see [`day_ordinal`]) it last ran.
    pub last_run_day: Option<u32>,
}

#[derive(Debug)]
pub struct SaveScheduleRequest {
    pub id: Option<String>,
    pub name: String,
    pub time: String,
    pub action: ScheduleAction,
    pub repeat: ScheduleRepeat,
    pub enabled: bool,
}

pub fn clone_action(a: &ScheduleAction) -> (r: ScheduleAction)
    ensures
        r == *a,
{
    match a {
        ScheduleAction::StartInstance { instance_id } => ScheduleAction::StartInstance { instance_id: instance_id.clone() },
        ScheduleAction::StopInstance { instance_id } => ScheduleAction::StopInstance { instance_id: instance_id.clone() },
        ScheduleAction::ChangeIp { instance_id } => ScheduleAction::ChangeIp { instance_id: instance_id.clone() },
    }
}

pub fn clone_schedule(s: &Schedule) -> (r: Schedule)
    ensures
        r == *s,
{
    Schedule {
        id: s.id.clone(),
        name: s.name.clone(),
        time: s.time.clone(),
        action: clone_action(&s.action),
        repeat: s.repeat,
        enabled: s.enabled,
        last_run_day: s.last_run_day,
    }
}

/// The day number used to run a schedule once a day: days since the epoch,
/// modulo 366.
pub open spec fn day_of(secs: u64) -> u32 {
    ((secs / 86_400) % 366) as u32
}

pub fn day_ordinal(secs: u64) -> (r: u32)
    ensures
        r == day_of(secs),
{
    ((secs / 86_400) % 366) as u32
}

/// Today's day number, from the system clock.
pub fn today_ordinal() -> (r: u32)
    ensures
        r < 366,
{
    day_ordinal(unix_now_secs())
}

/// `HH:MM` with two digits each.
pub open spec fn hhmm(hour: u32, minute: u32) -> Seq<char> {
    hex_free_2(hour as nat) + ":"@ + hex_free_2(minute as nat)
}

/// A number below 100 as two decimal digits.
pub open spec fn hex_free_2(n: nat) -> Seq<char> {
    if n < 10 {
        "0"@ + decimal(n)
    } else {
        decimal(n)
    }
}

fn push_two_digits(out: &mut Vec<char>, n: u32)
    requires
        n < 100,
    ensures
        final(out)@ == old(out)@ + hex_free_2(n as nat),
{
    if n < 10 {
        out.push('0');
        push_decimal(out, n as u64);
        proof {
            reveal_strlit("0");
            assert(final(out)@ =~= old(out)@ + "0"@ + decimal(n as nat));
        }
    } else {
        push_decimal(out, n as u64);
    }
}

/// `format!("{:02}:{:02}", hour, minute)`.
pub fn format_hhmm(hour: u32, minute: u32) -> (r: String)
    requires
        hour < 100,
        minute < 100,
    ensures
        r@ == hhmm(hour, minute),
{
    let mut out: Vec<char> = Vec::new();
    push_two_digits(&mut out, hour);
    out.push(':');
    push_two_digits(&mut out, minute);
    proof {
        reveal_strlit(":");
        assert(out@ =~= hex_free_2(hour as nat) + ":"@ + hex_free_2(minute as nat));
    }
    string_of(&out)
}

/// `chrono::Local::now()` with `Timelike::hour` and `minute`: the local
/// hour (0..=23) and minute (0..=59). Nothing else is promised of them.
#[verifier::external_body]
fn local_hour_minute() -> (r: (u32, u32))
    ensures
        r.0 < 24,
        r.1 < 60,
{
    let now = chrono::Local::now();
    (chrono::Timelike::hour(&now), chrono::Timelike::minute(&now))
}

/// The local time as `HH:MM`.
pub fn now_hhmm() -> (r: String)
    ensures
        exists|h: u32, m: u32| h < 24 && m < 60 && r@ == hhmm(h, m),
{
    let (h, m) = local_hour_minute();
    format_hhmm(h, m)
}

/// A schedule is due at `now` on `day`: enabled, set for that minute, and
/// not yet run that day.
pub open spec fn is_due(s: Schedule, now: Seq<char>, day: u32) -> bool {
    s.enabled && s.time@ == now && s.last_run_day != Some(day)
}

/// A schedule after it ran on `day`: marked as run; a one-off is disabled.
pub open spec fn after_run(s: Schedule, day: u32) -> Schedule {
    Schedule {
        last_run_day: Some(day),
        enabled: if s.repeat == ScheduleRepeat::Once {
            false
        } else {
            s.enabled
        },
        ..s
    }
}

pub open spec fn stepped(s: Schedule, now: Seq<char>, day: u32) -> Schedule {
    if is_due(s, now, day) {
        after_run(s, day)
    } else {
        s
    }
}

/// The due schedules, in order, as they are after running.
pub open spec fn due_list(v: Seq<Schedule>, now: Seq<char>, day: u32) -> Seq<Schedule>
    decreases v.len(),
{
    if v.len() == 0 {
        Seq::empty()
    } else {
        let rest = due_list(v.drop_last(), now, day);
        if is_due(v.last(), now, day) {
            rest.push(after_run(v.last(), day))
        } else {
            rest
        }
    }
}

/// Take the schedules due at `now` on `day`: each is marked as run (a
/// one-off is disabled) and returned, in order.
pub fn take_due(schedules: &mut Vec<Schedule>, now: &str, day: u32) -> (r: Vec<Schedule>)
    ensures
        final(schedules)@.len() == old(schedules)@.len(),
        forall|i: int| 0 <= i < old(schedules)@.len() ==> #[trigger] final(schedules)@[i] == stepped(
            old(schedules)@[i],
            now@,
            day,
        ),
        r@ == due_list(old(schedules)@, now@, day),
{
    let nv = chars_of(now);
    let mut due: Vec<Schedule> = Vec::new();
    let mut i: usize = 0;
    let ghost orig = schedules@;
    while i < schedules.len()
        invariant
            i <= schedules@.len() == orig.len(),
            nv@ == now@,
            forall|k: int| 0 <= k < i ==> #[trigger] schedules@[k] == stepped(orig[k], now@, day),
            forall|k: int| i <= k < orig.len() ==> #[trigger] schedules@[k] == orig[k],
            due@ == due_list(orig.take(i as int), now@, day),
        decreases schedules.len() - i,
    {
        assert(orig.take(i + 1).drop_last() =~= orig.take(i as int));
        let tv = chars_of(schedules[i].time.as_str());
        let is_now = crate::text::chars_eq(&tv, &nv);
        let ran_today = match schedules[i].last_run_day {
            Some(d) => d == day,
            None => false,
        };
        if schedules[i].enabled && is_now && !ran_today {
            let mut s = schedules.remove(i);
            s.last_run_day = Some(day);
            if s.repeat == ScheduleRepeat::Once {
                s.enabled = false;
            }
            due.push(clone_schedule(&s));
            schedules.insert(i, s);
        }
        i = i + 1;
    }
    assert(orig.take(orig.len() as int) =~= orig);
    due
}

/// Take the schedules due now, by the local clock.
pub fn take_due_schedules(schedules: &mut Vec<Schedule>) -> (r: Vec<Schedule>)
    ensures
        exists|now: Seq<char>, day: u32| day < 366 && (exists|h: u32, m: u32| h < 24 && m < 60 && now == hhmm(h, m))
            && final(schedules)@.len() == old(schedules)@.len()
            && (forall|i: int| 0 <= i < old(schedules)@.len() ==> #[trigger] final(schedules)@[i]
            == stepped(old(schedules)@[i], now, day)) && r@ == due_list(old(schedules)@, now, day),
{
    let now = now_hhmm();
    let day = today_ordinal();
    take_due(schedules, now.as_str(), day)
}

/// A schedule that ran is not due again at the same minute of the same day:
/// taking the due schedules twice takes nothing the second time.
pub proof fn lemma_take_due_once(s: Schedule, now: Seq<char>, day: u32)
    ensures
        !is_due(stepped(s, now, day), now, day),
        is_due(s, now, day) && s.repeat == ScheduleRepeat::Once ==> !stepped(s, now, day).enabled,
{
}

/// After a run, no schedule is due again at the same minute and day.
pub proof fn lemma_due_list_empty_after(v: Seq<Schedule>, now: Seq<char>, day: u32)
    requires
        forall|i: int| 0 <= i < v.len() ==> !is_due(#[trigger] v[i], now, day),
    ensures
        due_list(v, now, day).len() == 0,
    decreases v.len(),
{
    if v.len() > 0 {
        let t = v.drop_last();
        assert forall|i: int| 0 <= i < t.len() implies !is_due(#[trigger] t[i], now, day) by {
            assert(t[i] == v[i]);
        }
        lemma_due_list_empty_after(t, now, day);
        assert(v[v.len() - 1] == v.last());
    }
}

/// Find the schedule with identifier `id`.
fn find_schedule(v: &Vec<Schedule>, id: &str) -> (r: Option<usize>)
    ensures
        match r {
            Some(i) => i < v@.len() && v@[i as int].id@ == id@ && forall|k: int| 0 <= k < i ==> v@[k].id@ != id@,
            None => forall|k: int| 0 <= k < v@.len() ==> v@[k].id@ != id@,
        },
{
    let idv = chars_of(id);
    let mut i: usize = 0;
    while i < v.len()
        invariant
            i <= v@.len(),
            idv@ == id@,
            forall|k: int| 0 <= k < i ==> v@[k].id@ != id@,
        decreases v.len() - i,
    {
        let x = chars_of(v[i].id.as_str());
        if crate::text::chars_eq(&x, &idv) {
            return Some(i);
        }
        i = i + 1;
    }
    None
}

/// Save a schedule: the one with the request's identifier is updated (its
/// last run kept); otherwise a new one with a fresh identifier is appended.
/// Returns its position.
pub fn upsert_schedule(schedules: &mut Vec<Schedule>, req: SaveScheduleRequest) -> (r: usize)
    ensures
        r < final(schedules)@.len(),
        final(schedules)@[r as int].name == req.name,
        final(schedules)@[r as int].time == req.time,
        final(schedules)@[r as int].action == req.action,
        final(schedules)@[r as int].repeat == req.repeat,
        final(schedules)@[r as int].enabled == req.enabled,
        match req.id {
            Some(id) => if exists|k: int| 0 <= k < old(schedules)@.len() && #[trigger] old(schedules)@[k].id@ == id@ {
                &&& old(schedules)@[r as int].id@ == id@
                &&& final(schedules)@ == old(schedules)@.update(r as int, Schedule {
                    name: req.name,
                    time: req.time,
                    action: req.action,
                    repeat: req.repeat,
                    enabled: req.enabled,
                    ..old(schedules)@[r as int]
                })
                &&& forall|k: int| 0 <= k < r ==> old(schedules)@[k].id@ != id@
            } else {
                &&& final(schedules)@.len() == old(schedules)@.len() + 1
                &&& r == old(schedules)@.len()
                &&& final(schedules)@.drop_last() == old(schedules)@
                &&& final(schedules)@[r as int].last_run_day is None
            },
            None => {
                &&& final(schedules)@.len() == old(schedules)@.len() + 1
                &&& r == old(schedules)@.len()
                &&& final(schedules)@.drop_last() == old(schedules)@
                &&& final(schedules)@[r as int].last_run_day is None
            },
        },
{
    let found = match &req.id {
        Some(id) => find_schedule(schedules, id.as_str()),
        None => None,
    };
    match found {
        Some(i) => {
            let mut s = schedules.remove(i);
            s.name = req.name;
            s.time = req.time;
            s.action = req.action;
            s.repeat = req.repeat;
            s.enabled = req.enabled;
            schedules.insert(i, s);
            assert(schedules@ =~= old(schedules)@.update(i as int, schedules@[i as int]));
            i
        },
        None => {
            let s = Schedule {
                id: uuid_to_string(new_uuid()),
                name: req.name,
                time: req.time,
                action: req.action,
                repeat: req.repeat,
                enabled: req.enabled,
                last_run_day: None,
            };
            schedules.push(s);
            assert(schedules@.drop_last() =~= old(schedules)@);
            schedules.len() - 1
        },
    }
}

/// The schedules other than those with identifier `id`.
pub open spec fn other_schedule(id: Seq<char>) -> spec_fn(Schedule) -> bool {
    |s: Schedule| s.id@ != id
}

/// Remove every schedule with identifier `id`; the others keep their order.
pub fn delete_schedule(schedules: &mut Vec<Schedule>, id: &str)
    ensures
        final(schedules)@ == old(schedules)@.filter(other_schedule(id@)),
{
    let idv = chars_of(id);
    let ghost orig = schedules@;
    let ghost keep = other_schedule(id@);
    let mut kept: Vec<Schedule> = Vec::new();
    let mut all: Vec<Schedule> = Vec::new();
    std::mem::swap(&mut all, schedules);
    let mut i: usize = 0;
    let n = all.len();
    proof {
        reveal(Seq::filter);
        assert(orig.take(0) =~= Seq::<Schedule>::empty());
    }
    while i < n
        invariant
            n == orig.len(),
            all@.len() == n - i,
            forall|k: int| 0 <= k < all@.len() ==> all@[k] == orig[k + i],
            idv@ == id@,
            keep == other_schedule(id@),
            kept@ == orig.take(i as int).filter(keep),
        decreases n - i,
    {
        let s = all.remove(0);
        let x = chars_of(s.id.as_str());
        proof {
            reveal(Seq::filter);
            assert(orig.take(i + 1).drop_last() =~= orig.take(i as int));
            assert(orig.take(i + 1).last() == s);
        }
        if !crate::text::chars_eq(&x, &idv) {
            kept.push(s);
        }
        i = i + 1;
    }
    assert(orig.take(n as int) =~= orig);
    *schedules = kept;
}

} // verus!
