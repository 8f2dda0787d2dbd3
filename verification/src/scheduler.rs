//! The scheduler: which job is due when.
//!
//! Times are seconds since the epoch. A job waits under its identifier with
//! its next due time; popping at `now` fires every job that is due, retires
//! the one-shot jobs among them and gives the others a due time after `now`.
//! A job that was due long ago fires once, not once for each time it missed.

use crate::protocol::{JobAction, JobActionView};
use crate::table::{as_map, distinct_keys, has_key, Keyed, Selector, Table};
use crate::text::{clone_texts, texts};
use vstd::prelude::*;
use vstd::string::*;

verus! {

/// The seconds of a week: a calendar pattern repeats after that.
pub const WEEK: u64 = 604800;

/// When a job fires.
#[derive(Debug, Clone, Copy, PartialEq, Eq, Structural)]
pub enum Trigger {
    /// Once, at `at`.
    OneShot { at: u64 },
    /// First at `start`, then `every` seconds after each firing; `every` is
    /// not zero.
    Interval { start: u64, every: u64 },
    /// At the start of each minute of the UTC calendar whose minute of the
    /// hour, hour of the day and day of the week are all switched on: bit
    /// `i` of `minutes` for minute `i`, of `hours` for hour `i`, of
    /// `weekdays` for day `i`, where day 0 is Sunday.
    Calendar { minutes: u64, hours: u32, weekdays: u8 },
}

/// Bit `i` of `mask` is set.
pub open spec fn bit(mask: u64, i: u64) -> bool {
    (mask >> i) & 1 == 1
}

/// The minute of the hour at `t`.
pub open spec fn minute_of(t: u64) -> u64 {
    ((t / 60) % 60) as u64
}

/// The hour of the day at `t`.
pub open spec fn hour_of(t: u64) -> u64 {
    ((t / 3600) % 24) as u64
}

/// The day of the week at `t`, Sunday being 0; the epoch began on a Thursday.
pub open spec fn weekday_of(t: u64) -> u64 {
    ((t / 86400 + 4) % 7) as u64
}

/// A calendar trigger fires at `t`.
pub open spec fn calendar_matches(t: u64, minutes: u64, hours: u32, weekdays: u8) -> bool {
    &&& t % 60 == 0
    &&& bit(minutes, minute_of(t))
    &&& bit(hours as u64, hour_of(t))
    &&& bit(weekdays as u64, weekday_of(t))
}

/// `t` is the first time after `now` at which the calendar trigger fires.
pub open spec fn is_next_match(now: u64, t: u64, minutes: u64, hours: u32, weekdays: u8) -> bool {
    &&& now < t
    &&& calendar_matches(t, minutes, hours, weekdays)
    &&& forall|u: u64| now < u < t ==> !calendar_matches(u, minutes, hours, weekdays)
}

/// The first time within a week after `now` at which the calendar trigger
/// fires, if there is one.
pub open spec fn calendar_after(now: u64, minutes: u64, hours: u32, weekdays: u8) -> Option<u64> {
    if exists|t: u64| is_next_match(now, t, minutes, hours, weekdays) && t - now <= WEEK {
        Some(choose|t: u64| is_next_match(now, t, minutes, hours, weekdays) && t - now <= WEEK)
    } else {
        None
    }
}

/// A calendar trigger fires a week later exactly when it fires now.
pub proof fn lemma_calendar_repeats(t: u64, minutes: u64, hours: u32, weekdays: u8)
    requires
        t + WEEK <= u64::MAX,
    ensures
        calendar_matches((t + WEEK) as u64, minutes, hours, weekdays) == calendar_matches(
            t,
            minutes,
            hours,
            weekdays,
        ),
{
    let u = (t + WEEK) as u64;
    assert(u / 60 == t / 60 + 10080);
    assert(u / 3600 == t / 3600 + 168);
    assert(u / 86400 == t / 86400 + 7);
    assert(u % 60 == t % 60);
    assert(minute_of(u) == minute_of(t));
    assert(hour_of(u) == hour_of(t));
    assert(weekday_of(u) == weekday_of(t));
}

proof fn lemma_first_match(now: u64, t: u64, minutes: u64, hours: u32, weekdays: u8)
    requires
        now < t,
        calendar_matches(t, minutes, hours, weekdays),
    ensures
        exists|u: u64| is_next_match(now, u, minutes, hours, weekdays) && u <= t,
    decreases t - now,
{
    if forall|v: u64| now < v < t ==> !calendar_matches(v, minutes, hours, weekdays) {
        assert(is_next_match(now, t, minutes, hours, weekdays) && t <= t);
    } else {
        let v = choose|v: u64| now < v < t && calendar_matches(v, minutes, hours, weekdays);
        lemma_first_match(now, v, minutes, hours, weekdays);
        let u = choose|u: u64| is_next_match(now, u, minutes, hours, weekdays) && u <= v;
        assert(is_next_match(now, u, minutes, hours, weekdays) && u <= t);
    }
}

proof fn lemma_no_later_match(now: u64, t: u64, minutes: u64, hours: u32, weekdays: u8)
    requires
        calendar_after(now, minutes, hours, weekdays) is None,
        now < t,
    ensures
        !calendar_matches(t, minutes, hours, weekdays),
    decreases t,
{
    if calendar_matches(t, minutes, hours, weekdays) {
        if t - now <= WEEK {
            lemma_first_match(now, t, minutes, hours, weekdays);
            let u = choose|u: u64| is_next_match(now, u, minutes, hours, weekdays) && u <= t;
            assert(is_next_match(now, u, minutes, hours, weekdays) && u - now <= WEEK);
        } else {
            let s = (t - WEEK) as u64;
            lemma_calendar_repeats(s, minutes, hours, weekdays);
            lemma_no_later_match(now, s, minutes, hours, weekdays);
        }
    }
}

/// Looking one week ahead is enough: what is found is the first time after
/// `now` at which the trigger fires, and where nothing is found the trigger
/// never fires after `now`.
pub proof fn lemma_calendar_after_exact(now: u64, minutes: u64, hours: u32, weekdays: u8)
    ensures
        match calendar_after(now, minutes, hours, weekdays) {
            Some(t) => is_next_match(now, t, minutes, hours, weekdays),
            None => forall|t: u64| now < t ==> !calendar_matches(t, minutes, hours, weekdays),
        },
{
    if calendar_after(now, minutes, hours, weekdays) is None {
        assert forall|t: u64| now < t implies !calendar_matches(t, minutes, hours, weekdays) by {
            lemma_no_later_match(now, t, minutes, hours, weekdays);
        }
    }
}

/// The trigger can be scheduled: an interval is not zero.
pub open spec fn trigger_ok(t: Trigger) -> bool {
    match t {
        Trigger::Interval { start, every } => every > 0,
        _ => true,
    }
}

/// When a job that is scheduled at `now` is first due; nothing when the
/// trigger can never fire.
pub open spec fn first_due(t: Trigger, now: u64) -> Option<u64> {
    match t {
        Trigger::OneShot { at } => Some(at),
        Trigger::Interval { start, every } => if every > 0 {
            Some(start)
        } else {
            None
        },
        Trigger::Calendar { minutes, hours, weekdays } => calendar_after(
            now,
            minutes,
            hours,
            weekdays,
        ),
    }
}

/// When a job that fired at `now` is due next; nothing when its trigger is
/// exhausted.
pub open spec fn next_due(t: Trigger, now: u64) -> Option<u64> {
    match t {
        Trigger::OneShot { at } => None,
        Trigger::Interval { start, every } => if now + every <= u64::MAX {
            Some((now + every) as u64)
        } else {
            None
        },
        Trigger::Calendar { minutes, hours, weekdays } => calendar_after(
            now,
            minutes,
            hours,
            weekdays,
        ),
    }
}

fn bit_at(mask: u64, i: u64) -> (b: bool)
    requires
        i < 64,
    ensures
        b == bit(mask, i),
{
    (mask >> i) & 1 == 1
}

fn matches_at(t: u64, minutes: u64, hours: u32, weekdays: u8) -> (b: bool)
    ensures
        b == calendar_matches(t, minutes, hours, weekdays),
{
    t % 60 == 0 && bit_at(minutes, (t / 60) % 60) && bit_at(hours as u64, (t / 3600) % 24)
        && bit_at(weekdays as u64, (t / 86400 + 4) % 7)
}

/// The first time within a week after `now` at which a calendar trigger
/// fires.
pub fn next_match(now: u64, minutes: u64, hours: u32, weekdays: u8) -> (r: Option<u64>)
    ensures
        r == calendar_after(now, minutes, hours, weekdays),
{
    let base: u64 = now - now % 60;
    let mut k: u64 = 0;
    while k < 10080
        invariant
            k <= 10080,
            base == now - now % 60,
            forall|u: u64| now < u <= base + 60 * k ==> !calendar_matches(u, minutes, hours, weekdays),
        decreases 10080 - k,
    {
        let c = match base.checked_add(60 * (k + 1)) {
            Some(c) => c,
            None => {
                proof {
                    assert forall|t: u64| !(is_next_match(now, t, minutes, hours, weekdays) && t
                        - now <= WEEK) by {
                        if now < t && t > base + 60 * k {
                            assert(t % 60 != 0);
                        }
                    }
                }
                return None;
            },
        };
        if matches_at(c, minutes, hours, weekdays) {
            proof {
                assert forall|u: u64| now < u < c implies !calendar_matches(
                    u,
                    minutes,
                    hours,
                    weekdays,
                ) by {
                    if u > base + 60 * k {
                        assert(u % 60 != 0);
                    }
                }
                assert(is_next_match(now, c, minutes, hours, weekdays) && c - now <= WEEK);
                let t = choose|t: u64|
                    is_next_match(now, t, minutes, hours, weekdays) && t - now <= WEEK;
                assert(t == c);
            }
            return Some(c);
        }
        proof {
            assert forall|u: u64| now < u <= base + 60 * (k + 1) implies !calendar_matches(
                u,
                minutes,
                hours,
                weekdays,
            ) by {
                if u > base + 60 * k && u < c {
                    assert(u % 60 != 0);
                }
            }
        }
        k = k + 1;
    }
    proof {
        assert forall|t: u64| !(is_next_match(now, t, minutes, hours, weekdays) && t - now
            <= WEEK) by {
            if now < t && t - now <= WEEK && t > base + 60 * k {
                assert(t % 60 != 0);
            }
        }
    }
    None
}

/// When a job that is scheduled at `now` is first due.
pub fn first_due_at(t: &Trigger, now: u64) -> (r: Option<u64>)
    ensures
        r == first_due(*t, now),
{
    match t {
        Trigger::OneShot { at } => Some(*at),
        Trigger::Interval { start, every } => if *every > 0 {
            Some(*start)
        } else {
            None
        },
        Trigger::Calendar { minutes, hours, weekdays } => next_match(
            now,
            *minutes,
            *hours,
            *weekdays,
        ),
    }
}

/// When a job that fired at `now` is due next.
pub fn next_due_at(t: &Trigger, now: u64) -> (r: Option<u64>)
    ensures
        r == next_due(*t, now),
{
    match t {
        Trigger::OneShot { at } => None,
        Trigger::Interval { start, every } => now.checked_add(*every),
        Trigger::Calendar { minutes, hours, weekdays } => next_match(
            now,
            *minutes,
            *hours,
            *weekdays,
        ),
    }
}

/// A schedulable unit: what to dispatch, to whom, and when.
#[derive(Debug, PartialEq, Eq)]
pub struct BaseJob {
    pub id: String,
    pub trigger: Trigger,
    /// The routing keys of the agents that the action goes to.
    pub targets: Vec<String>,
    pub action: JobAction,
}

impl BaseJob {
    /// A copy of the job.
    pub fn duplicate(&self) -> (j: BaseJob)
        ensures
            j.id@ == self.id@,
            j.trigger == self.trigger,
            texts(j.targets@) == texts(self.targets@),
            j.action@ == self.action@,
    {
        BaseJob {
            id: self.id.clone(),
            trigger: self.trigger,
            targets: clone_texts(&self.targets),
            action: self.action.duplicate(),
        }
    }
}

/// A job in the scheduler: with its next due time and the number of times
/// it has fired.
#[derive(Debug, PartialEq, Eq)]
pub struct Scheduled {
    pub job: BaseJob,
    pub due: u64,
    pub runs: u64,
}

/// The model of a [`Scheduled`] job, without its identifier.
pub struct ScheduledInfo {
    pub trigger: Trigger,
    pub targets: Seq<Seq<char>>,
    pub action: JobActionView,
    pub due: u64,
    pub runs: u64,
}

impl Scheduled {
    /// The job without its identifier.
    pub open spec fn info(self) -> ScheduledInfo {
        ScheduledInfo {
            trigger: self.job.trigger,
            targets: texts(self.job.targets@),
            action: self.job.action@,
            due: self.due,
            runs: self.runs,
        }
    }
}

impl Keyed for Scheduled {
    open spec fn key(&self) -> Seq<char> {
        self.job.id@
    }

    fn key_ref(&self) -> (k: &str) {
        self.job.id.as_str()
    }
}

/// The jobs of a table, each without its identifier.
pub open spec fn job_infos(m: Map<Seq<char>, Scheduled>) -> Map<Seq<char>, ScheduledInfo> {
    m.map_values(|s: Scheduled| s.info())
}

/// Picks the jobs that are due at `now`.
pub struct DueAt {
    pub now: u64,
}

impl Selector<Scheduled> for DueAt {
    open spec fn picks(&self, e: &Scheduled) -> bool {
        e.due <= self.now
    }

    fn test(&self, e: &Scheduled) -> (b: bool) {
        e.due <= self.now
    }
}

/// One more than `runs`, as far as the count goes.
pub open spec fn bumped(runs: u64) -> u64 {
    if runs < u64::MAX {
        (runs + 1) as u64
    } else {
        u64::MAX
    }
}

/// A job as it first waits.
pub open spec fn scheduled_info(
    trigger: Trigger,
    targets: Seq<Seq<char>>,
    action: JobActionView,
    due: u64,
) -> ScheduledInfo {
    ScheduledInfo { trigger, targets, action, due, runs: 0 }
}

/// The job after it fired, waiting for `due`.
pub open spec fn rescheduled(e: ScheduledInfo, due: u64) -> ScheduledInfo {
    ScheduledInfo {
        trigger: e.trigger,
        targets: e.targets,
        action: e.action,
        due,
        runs: bumped(e.runs),
    }
}

/// The jobs that are due at `now`.
pub open spec fn due_jobs(jobs: Map<Seq<char>, ScheduledInfo>, now: u64) -> Map<
    Seq<char>,
    ScheduledInfo,
> {
    jobs.restrict(Set::new(|id: Seq<char>| jobs[id].due <= now))
}

/// The jobs after those due at `now` have fired: a job that was not due is
/// as it was; one that was due waits for its next time, or is gone when its
/// trigger is exhausted.
pub open spec fn after_pop(jobs: Map<Seq<char>, ScheduledInfo>, now: u64) -> Map<
    Seq<char>,
    ScheduledInfo,
> {
    Map::new(
        |id: Seq<char>|
            jobs.contains_key(id) && (jobs[id].due > now || next_due(jobs[id].trigger, now)
                is Some),
        |id: Seq<char>|
            if jobs[id].due > now {
                jobs[id]
            } else {
                rescheduled(jobs[id], next_due(jobs[id].trigger, now).unwrap())
            },
    )
}

/// Whatever waits after a pop is due later than `now`: a job does not fire
/// twice at one time, and one that was due long ago fires once, not once for
/// each time it missed.
pub proof fn lemma_after_pop_future(jobs: Map<Seq<char>, ScheduledInfo>, now: u64)
    requires
        forall|id: Seq<char>| #[trigger] jobs.contains_key(id) ==> trigger_ok(jobs[id].trigger),
    ensures
        forall|id: Seq<char>| #[trigger]
            after_pop(jobs, now).contains_key(id) ==> after_pop(jobs, now)[id].due > now,
        due_jobs(after_pop(jobs, now), now) == Map::<Seq<char>, ScheduledInfo>::empty(),
{
    assert forall|id: Seq<char>| #[trigger] after_pop(jobs, now).contains_key(id) implies after_pop(
        jobs,
        now,
    )[id].due > now by {
        assert(jobs.contains_key(id));
        if jobs[id].due <= now {
            match jobs[id].trigger {
                Trigger::Calendar { minutes, hours, weekdays } => {
                    let t = choose|t: u64|
                        is_next_match(now, t, minutes, hours, weekdays) && t - now <= WEEK;
                    assert(is_next_match(now, t, minutes, hours, weekdays));
                },
                _ => {},
            }
        }
    }
    assert(due_jobs(after_pop(jobs, now), now) =~= Map::<Seq<char>, ScheduledInfo>::empty());
}

/// A one-shot job fires exactly once: when it is due it is among the jobs
/// that fire, and it waits no more afterwards, so no later pop fires it.
pub proof fn lemma_one_shot_fires_once(
    jobs: Map<Seq<char>, ScheduledInfo>,
    id: Seq<char>,
    now: u64,
    later: u64,
)
    requires
        jobs.contains_key(id),
        jobs[id].trigger is OneShot,
        jobs[id].due <= now,
    ensures
        due_jobs(jobs, now).contains_key(id),
        !after_pop(jobs, now).contains_key(id),
        !due_jobs(after_pop(jobs, now), later).contains_key(id),
{
}

/// A one-shot job that is not due yet does not fire and goes on waiting.
pub proof fn lemma_not_due_waits(jobs: Map<Seq<char>, ScheduledInfo>, id: Seq<char>, now: u64)
    requires
        jobs.contains_key(id),
        jobs[id].due > now,
    ensures
        !due_jobs(jobs, now).contains_key(id),
        after_pop(jobs, now).contains_key(id),
        after_pop(jobs, now)[id] == jobs[id],
{
}

/// An interval job fires again and again, and never twice within its
/// interval: after it fired at `now` it waits for `now + every`, having run
/// once more, so a pop that fires it again comes `every` or more later. It
/// stops only where the clock ends.
pub proof fn lemma_interval_spacing(
    jobs: Map<Seq<char>, ScheduledInfo>,
    id: Seq<char>,
    now: u64,
    later: u64,
)
    requires
        jobs.contains_key(id),
        jobs[id].trigger is Interval,
        jobs[id].trigger->every > 0,
        jobs[id].due <= now,
    ensures
        due_jobs(jobs, now).contains_key(id),
        now + jobs[id].trigger->every <= u64::MAX ==> after_pop(jobs, now).contains_key(id)
            && after_pop(jobs, now)[id] == rescheduled(
            jobs[id],
            (now + jobs[id].trigger->every) as u64,
        ),
        due_jobs(after_pop(jobs, now), later).contains_key(id) ==> later - now
            >= jobs[id].trigger->every,
{
}

/// Why a job was not scheduled.
#[derive(Debug, Clone, Copy, PartialEq, Eq, Structural)]
pub enum ScheduleError {
    /// The trigger can never fire: an interval of zero, or a calendar
    /// pattern without a matching minute.
    DeadTrigger,
}

/// Among the first `i` of `fired`, one with the identifier `id` fires again.
pub open spec fn comes_back(fired: Seq<Scheduled>, i: int, now: u64, id: Seq<char>) -> bool {
    exists|j: int|
        0 <= j < i && #[trigger] fired[j].key() == id && next_due(fired[j].job.trigger, now)
            is Some
}

/// The trigger state of all active jobs.
pub struct Scheduler {
    jobs: Table<Scheduled>,
}

impl Scheduler {
    /// The jobs that wait, each under its identifier.
    pub closed spec fn jobs(&self) -> Map<Seq<char>, ScheduledInfo> {
        job_infos(self.jobs@)
    }

    /// The table is sound and every trigger in it can be scheduled.
    pub closed spec fn wf(&self) -> bool {
        &&& self.jobs.wf()
        &&& forall|k: Seq<char>| #[trigger]
            self.jobs@.contains_key(k) ==> trigger_ok(self.jobs@[k].job.trigger)
    }

    /// Every trigger that waits can be scheduled.
    pub proof fn lemma_triggers_ok(&self, id: Seq<char>)
        requires
            self.wf(),
            self.jobs().contains_key(id),
        ensures
            trigger_ok(self.jobs()[id].trigger),
    {
        assert(self.jobs@.contains_key(id));
    }

    /// A scheduler without jobs.
    pub fn new() -> (s: Scheduler)
        ensures
            s.wf(),
            s.jobs() == Map::<Seq<char>, ScheduledInfo>::empty(),
    {
        let s = Scheduler { jobs: Table::new() };
        assert(s.jobs() =~= Map::<Seq<char>, ScheduledInfo>::empty());
        s
    }

    /// The number of jobs that wait.
    pub fn len(&self) -> (n: usize)
        requires
            self.wf(),
        ensures
            n == self.jobs().len(),
            self.jobs().dom().finite(),
    {
        proof {
            crate::table::lemma_as_map_len(self.jobs.entries());
            assert(self.jobs().dom() =~= self.jobs@.dom());
        }
        self.jobs.len()
    }

    /// Schedules a job, in the place of the one that had its identifier if
    /// there was one, and says when it is first due. A job whose trigger can
    /// never fire is refused and changes nothing.
    pub fn insert(&mut self, job: BaseJob, now: u64) -> (r: Result<u64, ScheduleError>)
        requires
            old(self).wf(),
        ensures
            final(self).wf(),
            match first_due(job.trigger, now) {
                None => r == Err::<u64, ScheduleError>(ScheduleError::DeadTrigger) && final(self).jobs() == old(self).jobs(),
                Some(d) => r == Ok::<u64, ScheduleError>(d) && final(self).jobs() == old(self).jobs().insert(
                    job.id@,
                    scheduled_info(job.trigger, texts(job.targets@), job.action@, d),
                ),
            },
    {
        match first_due_at(&job.trigger, now) {
            None => Err(ScheduleError::DeadTrigger),
            Some(d) => {
                let entry = Scheduled { job, due: d, runs: 0 };
                let _ = self.jobs.put(entry);
                proof {
                    assert(self.jobs@ == old(self).jobs@.insert(entry.key(), entry));
                    assert(self.jobs() =~= old(self).jobs().insert(
                        job.id@,
                        scheduled_info(job.trigger, texts(job.targets@), job.action@, d),
                    ));
                    assert forall|k: Seq<char>| #[trigger]
                        self.jobs@.contains_key(k) implies trigger_ok(
                        self.jobs@[k].job.trigger,
                    ) by {
                        if k != entry.key() {
                            assert(old(self).jobs@.contains_key(k));
                        }
                    }
                }
                Ok(d)
            },
        }
    }

    /// Takes the job with this identifier out; says whether there was one.
    pub fn cancel(&mut self, id: &str) -> (found: bool)
        requires
            old(self).wf(),
        ensures
            final(self).wf(),
            found == old(self).jobs().contains_key(id@),
            final(self).jobs() == old(self).jobs().remove(id@),
    {
        let prev = self.jobs.take(id);
        proof {
            assert(self.jobs() =~= old(self).jobs().remove(id@));
            assert forall|k: Seq<char>| #[trigger]
                self.jobs@.contains_key(k) implies trigger_ok(self.jobs@[k].job.trigger) by {
                assert(old(self).jobs@.contains_key(k));
            }
        }
        prev.is_some()
    }

    /// The earliest due time among the jobs that wait: when the loop has to
    /// wake next. Nothing when no job waits.
    pub fn next_wake(&self) -> (r: Option<u64>)
        requires
            self.wf(),
        ensures
            match r {
                None => self.jobs() == Map::<Seq<char>, ScheduledInfo>::empty(),
                Some(t) => (exists|id: Seq<char>| #[trigger]
                    self.jobs().contains_key(id) && self.jobs()[id].due == t) && (forall|
                    id: Seq<char>,
                | #[trigger] self.jobs().contains_key(id) ==> self.jobs()[id].due >= t),
            },
    {
        let n = self.jobs.len();
        if n == 0 {
            proof {
                assert forall|k: Seq<char>| !self.jobs@.contains_key(k) by {
                    if has_key(self.jobs.entries(), k) {
                    }
                }
                assert(self.jobs() =~= Map::<Seq<char>, ScheduledInfo>::empty());
            }
            return None;
        }
        let mut best: u64 = self.jobs.at(0).due;
        let ghost mut who: int = 0;
        let mut i: usize = 1;
        while i < n
            invariant
                1 <= i <= n,
                n == self.jobs.entries().len(),
                0 <= who < i,
                self.jobs.entries()[who].due == best,
                forall|j: int| 0 <= j < i ==> (#[trigger] self.jobs.entries()[j]).due >= best,
            decreases n - i,
        {
            let d = self.jobs.at(i).due;
            if d < best {
                best = d;
                proof {
                    who = i as int;
                }
            }
            i = i + 1;
        }
        proof {
            let s = self.jobs.entries();
            crate::table::lemma_as_map_at(s, who);
            assert(self.jobs().contains_key(s[who].key()) && self.jobs()[s[who].key()].due
                == best);
            assert forall|id: Seq<char>| #[trigger] self.jobs().contains_key(id) implies self.jobs()[id].due
                >= best by {
                assert(self.jobs@.contains_key(id));
                let j = crate::table::index_of(s, id);
                assert(s[j].due >= best);
            }
        }
        Some(best)
    }

    /// Fires every job that is due at `now` and hands them back as they
    /// were. Each of them then waits for its next time, which lies after
    /// `now`, or is gone when its trigger is exhausted.
    pub fn pop_due(&mut self, now: u64) -> (fired: Vec<Scheduled>)
        requires
            old(self).wf(),
        ensures
            final(self).wf(),
            final(self).jobs() == after_pop(old(self).jobs(), now),
            distinct_keys(fired@),
            job_infos(as_map(fired@)) == due_jobs(old(self).jobs(), now),
    {
        let sel = DueAt { now };
        let fired = self.jobs.drain(&sel);
        let ghost kept = self.jobs@;
        proof {
            assert(job_infos(as_map(fired@)) =~= due_jobs(old(self).jobs(), now));
            assert forall|j: int| 0 <= j < fired@.len() implies as_map(fired@).contains_key(
                #[trigger] fired@[j].key(),
            ) && as_map(fired@)[fired@[j].key()] == fired@[j] by {
                crate::table::lemma_as_map_at(fired@, j);
            }
        }
        let mut i: usize = 0;
        while i < fired.len()
            invariant
                i <= fired@.len(),
                self.jobs.wf(),
                distinct_keys(fired@),
                forall|k: Seq<char>| #[trigger]
                    kept.contains_key(k) ==> trigger_ok(kept[k].job.trigger),
                forall|j: int|
                    0 <= j < fired@.len() ==> !kept.contains_key(#[trigger] fired@[j].key())
                        && trigger_ok(fired@[j].job.trigger),
                forall|k: Seq<char>| #[trigger]
                    self.jobs@.contains_key(k) <==> (kept.contains_key(k) || comes_back(
                        fired@,
                        i as int,
                        now,
                        k,
                    )),
                forall|k: Seq<char>|
                    kept.contains_key(k) ==> #[trigger] self.jobs@[k] == kept[k],
                forall|j: int|
                    0 <= j < i && next_due(fired@[j].job.trigger, now) is Some ==> (
                    #[trigger] self.jobs@[fired@[j].key()]).info() == rescheduled(
                        fired@[j].info(),
                        next_due(fired@[j].job.trigger, now).unwrap(),
                    ),
            decreases fired@.len() - i,
        {
            let e = &fired[i];
            let ghost before = self.jobs@;
            match next_due_at(&e.job.trigger, now) {
                Some(d) => {
                    let runs = if e.runs < u64::MAX {
                        e.runs + 1
                    } else {
                        u64::MAX
                    };
                    let again = Scheduled { job: e.job.duplicate(), due: d, runs };
                    proof {
                        assert(again.key() == fired@[i as int].key());
                        assert(!kept.contains_key(fired@[i as int].key()));
                        if comes_back(fired@, i as int, now, again.key()) {
                            let j = choose|j: int|
                                0 <= j < i && #[trigger] fired@[j].key() == again.key()
                                    && next_due(fired@[j].job.trigger, now) is Some;
                            assert(fired@[j].key() != fired@[i as int].key());
                        }
                        assert(!self.jobs@.contains_key(again.key()));
                    }
                    self.jobs.add(again);
                    proof {
                        assert(self.jobs@ == before.insert(again.key(), again));
                        assert forall|k: Seq<char>| #[trigger]
                            self.jobs@.contains_key(k) <==> (kept.contains_key(k) || comes_back(
                                fired@,
                                i + 1,
                                now,
                                k,
                            )) by {
                            if comes_back(fired@, i + 1, now, k) {
                                let j = choose|j: int|
                                    0 <= j < i + 1 && #[trigger] fired@[j].key() == k && next_due(
                                        fired@[j].job.trigger,
                                        now,
                                    ) is Some;
                                if j < i {
                                    assert(comes_back(fired@, i as int, now, k));
                                }
                            }
                            if comes_back(fired@, i as int, now, k) {
                                let j = choose|j: int|
                                    0 <= j < i && #[trigger] fired@[j].key() == k && next_due(
                                        fired@[j].job.trigger,
                                        now,
                                    ) is Some;
                                assert(0 <= j < i + 1 && fired@[j].key() == k);
                            }
                            if k == again.key() {
                                assert(fired@[i as int].key() == k);
                                assert(comes_back(fired@, i + 1, now, k));
                            }
                        }
                        assert forall|j: int|
                            0 <= j < i + 1 && next_due(fired@[j].job.trigger, now)
                                is Some implies (#[trigger] self.jobs@[fired@[j].key()]).info()
                            == rescheduled(
                            fired@[j].info(),
                            next_due(fired@[j].job.trigger, now).unwrap(),
                        ) by {
                            if j < i {
                                assert(fired@[j].key() != fired@[i as int].key());
                                assert(comes_back(fired@, i as int, now, fired@[j].key()));
                            }
                        }
                    }
                },
                None => {
                    proof {
                        assert forall|k: Seq<char>| #[trigger]
                            self.jobs@.contains_key(k) <==> (kept.contains_key(k) || comes_back(
                                fired@,
                                i + 1,
                                now,
                                k,
                            )) by {
                            if comes_back(fired@, i + 1, now, k) {
                                let j = choose|j: int|
                                    0 <= j < i + 1 && #[trigger] fired@[j].key() == k && next_due(
                                        fired@[j].job.trigger,
                                        now,
                                    ) is Some;
                                assert(j < i);
                                assert(comes_back(fired@, i as int, now, k));
                            }
                            if comes_back(fired@, i as int, now, k) {
                                let j = choose|j: int|
                                    0 <= j < i && #[trigger] fired@[j].key() == k && next_due(
                                        fired@[j].job.trigger,
                                        now,
                                    ) is Some;
                                assert(0 <= j < i + 1 && fired@[j].key() == k);
                            }
                        }
                    }
                },
            }
            i = i + 1;
        }
        proof {
            let was = old(self).jobs@;
            let goal = after_pop(old(self).jobs(), now);
            assert forall|k: Seq<char>| self.jobs().contains_key(k) <==> goal.contains_key(k) by {
                if comes_back(fired@, fired@.len() as int, now, k) {
                    let j = choose|j: int|
                        0 <= j < fired@.len() && #[trigger] fired@[j].key() == k && next_due(
                            fired@[j].job.trigger,
                            now,
                        ) is Some;
                    assert(as_map(fired@).contains_key(fired@[j].key()));
                }
                if was.contains_key(k) && was[k].due <= now {
                    assert(as_map(fired@).contains_key(k));
                    let j = crate::table::index_of(fired@, k);
                    assert(fired@[j].key() == k);
                    assert(as_map(fired@)[fired@[j].key()] == fired@[j]);
                    if next_due(was[k].job.trigger, now) is Some {
                        assert(comes_back(fired@, fired@.len() as int, now, k));
                    }
                }
            }
            assert forall|k: Seq<char>| self.jobs().contains_key(k) implies self.jobs()[k]
                == goal[k] by {
                if kept.contains_key(k) {
                    assert(self.jobs@[k] == kept[k]);
                } else {
                    let j = choose|j: int|
                        0 <= j < fired@.len() && #[trigger] fired@[j].key() == k && next_due(
                            fired@[j].job.trigger,
                            now,
                        ) is Some;
                    assert(as_map(fired@).contains_key(fired@[j].key()));
                    assert(as_map(fired@)[fired@[j].key()] == fired@[j]);
                    assert((self.jobs@[fired@[j].key()]).info() == rescheduled(
                        fired@[j].info(),
                        next_due(fired@[j].job.trigger, now).unwrap(),
                    ));
                }
            }
            assert(self.jobs() =~= goal);
            assert forall|k: Seq<char>| #[trigger]
                self.jobs@.contains_key(k) implies trigger_ok(self.jobs@[k].job.trigger) by {
                if !kept.contains_key(k) {
                    let j = choose|j: int|
                        0 <= j < fired@.len() && #[trigger] fired@[j].key() == k && next_due(
                            fired@[j].job.trigger,
                            now,
                        ) is Some;
                    assert((self.jobs@[fired@[j].key()]).info() == rescheduled(
                        fired@[j].info(),
                        next_due(fired@[j].job.trigger, now).unwrap(),
                    ));
                }
            }
        }
        fired
    }

    /// The due time and the number of runs of the job `id`, if it waits.
    pub fn waiting(&self, id: &str) -> (r: Option<(u64, u64)>)
        requires
            self.wf(),
        ensures
            r == (if self.jobs().contains_key(id@) {
                Some((self.jobs()[id@].due, self.jobs()[id@].runs))
            } else {
                None
            }),
    {
        match self.jobs.get(id) {
            Some(s) => Some((s.due, s.runs)),
            None => None,
        }
    }
}

} // verus!
