use automate::protocol::JobAction;
use automate::scheduler::{
    first_due_at, next_due_at, next_match, BaseJob, ScheduleError, Scheduler, Trigger, WEEK,
};

fn job(id: &str, trigger: Trigger) -> BaseJob {
    BaseJob {
        id: String::from(id),
        trigger,
        targets: vec![String::from("jiascheduler:ins:10.0.0.1")],
        action: JobAction::Run { command: String::from("date"), timeout_secs: 10 },
    }
}

fn fired_ids(s: &mut Scheduler, now: u64) -> Vec<String> {
    s.pop_due(now).into_iter().map(|f| f.job.id).collect()
}

const ALL_MINUTES: u64 = (1 << 60) - 1;
const ALL_HOURS: u32 = (1 << 24) - 1;
const ALL_DAYS: u8 = 127;

#[test]
fn one_shot_is_first_due_at_its_time() {
    assert_eq!(first_due_at(&Trigger::OneShot { at: 50 }, 10), Some(50));
    assert_eq!(first_due_at(&Trigger::OneShot { at: 5 }, 10), Some(5));
    assert_eq!(next_due_at(&Trigger::OneShot { at: 50 }, 50), None);
}

#[test]
fn interval_is_first_due_at_start_and_then_every() {
    let t = Trigger::Interval { start: 100, every: 5 };
    assert_eq!(first_due_at(&t, 0), Some(100));
    assert_eq!(next_due_at(&t, 100), Some(105));
    assert_eq!(next_due_at(&t, 123), Some(128));
    assert_eq!(next_due_at(&t, u64::MAX - 5), Some(u64::MAX));
    assert_eq!(next_due_at(&t, u64::MAX - 4), None);
}

#[test]
fn interval_of_zero_is_dead() {
    assert_eq!(first_due_at(&Trigger::Interval { start: 100, every: 0 }, 0), None);
}

#[test]
fn calendar_every_minute() {
    assert_eq!(next_match(0, ALL_MINUTES, ALL_HOURS, ALL_DAYS), Some(60));
    assert_eq!(next_match(59, ALL_MINUTES, ALL_HOURS, ALL_DAYS), Some(60));
    assert_eq!(next_match(60, ALL_MINUTES, ALL_HOURS, ALL_DAYS), Some(120));
    assert_eq!(next_match(61, ALL_MINUTES, ALL_HOURS, ALL_DAYS), Some(120));
}

#[test]
fn calendar_minute_thirty_of_every_hour() {
    let m = 1u64 << 30;
    assert_eq!(next_match(0, m, ALL_HOURS, ALL_DAYS), Some(1800));
    assert_eq!(next_match(1800, m, ALL_HOURS, ALL_DAYS), Some(5400));
    assert_eq!(next_match(1799, m, ALL_HOURS, ALL_DAYS), Some(1800));
}

#[test]
fn calendar_three_fifteen_on_mondays() {
    let m = 1u64 << 15;
    let h = 1u32 << 3;
    let d = 1u8 << 1;
    // The epoch began on a Thursday; the first Monday is day 4.
    let expected = 4 * 86400 + 3 * 3600 + 15 * 60;
    assert_eq!(next_match(0, m, h, d), Some(expected));
    assert_eq!(next_match(expected, m, h, d), Some(expected + WEEK));
    assert_eq!(next_match(expected - 1, m, h, d), Some(expected));
}

#[test]
fn calendar_known_date() {
    // 2024-01-01T00:00:00Z was a Monday.
    let monday = 1704067200u64;
    let noon_sunday = monday + 6 * 86400 + 12 * 3600;
    assert_eq!(next_match(monday, 1, 1 << 12, 1), Some(noon_sunday));
    assert_eq!(next_match(monday - 1, 1, 1, 1 << 1), Some(monday));
}

#[test]
fn calendar_without_a_match_is_dead() {
    assert_eq!(next_match(0, 0, ALL_HOURS, ALL_DAYS), None);
    assert_eq!(next_match(0, ALL_MINUTES, 0, ALL_DAYS), None);
    assert_eq!(next_match(0, ALL_MINUTES, ALL_HOURS, 0), None);
    assert_eq!(next_match(0, 1 << 60, ALL_HOURS, ALL_DAYS), None);
    assert_eq!(next_match(0, ALL_MINUTES, 1 << 24, ALL_DAYS), None);
    assert_eq!(next_match(0, ALL_MINUTES, ALL_HOURS, 1 << 7), None);
}

#[test]
fn calendar_at_the_end_of_time() {
    assert_eq!(next_match(u64::MAX, ALL_MINUTES, ALL_HOURS, ALL_DAYS), None);
    assert_eq!(next_match(u64::MAX - 10, ALL_MINUTES, ALL_HOURS, ALL_DAYS), None);
    let last_minute = u64::MAX - u64::MAX % 60;
    assert_eq!(next_match(last_minute - 1, ALL_MINUTES, ALL_HOURS, ALL_DAYS), Some(last_minute));
}

#[test]
fn new_scheduler_is_empty() {
    let mut s = Scheduler::new();
    assert_eq!(s.len(), 0);
    assert_eq!(s.next_wake(), None);
    assert!(s.pop_due(u64::MAX).is_empty());
}

#[test]
fn insert_says_when_the_job_is_first_due() {
    let mut s = Scheduler::new();
    assert_eq!(s.insert(job("a", Trigger::OneShot { at: 50 }), 10), Ok(50));
    assert_eq!(s.insert(job("b", Trigger::Interval { start: 20, every: 5 }), 10), Ok(20));
    assert_eq!(
        s.insert(job("c", Trigger::Calendar { minutes: 1, hours: ALL_HOURS, weekdays: ALL_DAYS }), 10),
        Ok(3600)
    );
    assert_eq!(s.len(), 3);
    assert_eq!(s.waiting("a"), Some((50, 0)));
    assert_eq!(s.waiting("b"), Some((20, 0)));
    assert_eq!(s.waiting("c"), Some((3600, 0)));
    assert_eq!(s.next_wake(), Some(20));
}

#[test]
fn insert_refuses_dead_triggers() {
    let mut s = Scheduler::new();
    assert_eq!(
        s.insert(job("a", Trigger::Interval { start: 0, every: 0 }), 10),
        Err(ScheduleError::DeadTrigger)
    );
    assert_eq!(
        s.insert(job("b", Trigger::Calendar { minutes: 0, hours: 0, weekdays: 0 }), 10),
        Err(ScheduleError::DeadTrigger)
    );
    assert_eq!(s.len(), 0);
}

#[test]
fn insert_replaces_a_job_with_the_same_id() {
    let mut s = Scheduler::new();
    s.insert(job("a", Trigger::OneShot { at: 50 }), 10).unwrap();
    s.insert(job("a", Trigger::Interval { start: 70, every: 5 }), 10).unwrap();
    assert_eq!(s.len(), 1);
    assert_eq!(s.waiting("a"), Some((70, 0)));
}

#[test]
fn earlier_insert_moves_the_wake_time() {
    let mut s = Scheduler::new();
    s.insert(job("late", Trigger::OneShot { at: 500 }), 0).unwrap();
    assert_eq!(s.next_wake(), Some(500));
    assert_eq!(s.insert(job("soon", Trigger::OneShot { at: 100 }), 0), Ok(100));
    assert_eq!(s.next_wake(), Some(100));
}

#[test]
fn cancel_removes_the_job() {
    let mut s = Scheduler::new();
    s.insert(job("a", Trigger::OneShot { at: 50 }), 10).unwrap();
    assert!(s.cancel("a"));
    assert!(!s.cancel("a"));
    assert_eq!(s.len(), 0);
    assert!(s.pop_due(100).is_empty());
}

#[test]
fn one_shot_fires_exactly_once() {
    let mut s = Scheduler::new();
    s.insert(job("a", Trigger::OneShot { at: 50 }), 10).unwrap();
    assert!(s.pop_due(49).is_empty());
    let fired = s.pop_due(50);
    assert_eq!(fired.len(), 1);
    assert_eq!(fired[0].job, job("a", Trigger::OneShot { at: 50 }));
    assert_eq!(fired[0].due, 50);
    assert_eq!(fired[0].runs, 0);
    assert_eq!(s.len(), 0);
    assert_eq!(s.waiting("a"), None);
    assert!(s.pop_due(50).is_empty());
    assert!(s.pop_due(1000).is_empty());
}

#[test]
fn overdue_one_shot_fires_at_the_next_pop() {
    let mut s = Scheduler::new();
    s.insert(job("a", Trigger::OneShot { at: 5 }), 10).unwrap();
    assert_eq!(fired_ids(&mut s, 10), vec![String::from("a")]);
    assert!(s.pop_due(11).is_empty());
}

#[test]
fn interval_fires_again_and_again() {
    let mut s = Scheduler::new();
    s.insert(job("a", Trigger::Interval { start: 0, every: 5 }), 0).unwrap();
    let mut fires = Vec::new();
    for now in 0..=20 {
        if !s.pop_due(now).is_empty() {
            fires.push(now);
        }
    }
    assert_eq!(fires, vec![0, 5, 10, 15, 20]);
    assert_eq!(s.waiting("a"), Some((25, 5)));
}

#[test]
fn interval_fires_are_never_closer_than_the_interval() {
    let mut s = Scheduler::new();
    s.insert(job("a", Trigger::Interval { start: 3, every: 7 }), 0).unwrap();
    let mut last: Option<u64> = None;
    let mut count = 0;
    for now in [0u64, 3, 4, 9, 10, 11, 16, 17, 30, 31, 36, 37, 44, 100, 101, 106, 107] {
        if !s.pop_due(now).is_empty() {
            if let Some(prev) = last {
                assert!(now - prev >= 7);
            }
            last = Some(now);
            count += 1;
        }
    }
    assert_eq!(count, 8);
}

#[test]
fn missed_intervals_fire_once_on_resume() {
    let mut s = Scheduler::new();
    s.insert(job("a", Trigger::Interval { start: 10, every: 5 }), 0).unwrap();
    assert_eq!(fired_ids(&mut s, 10), vec![String::from("a")]);
    assert_eq!(fired_ids(&mut s, 1000), vec![String::from("a")]);
    assert!(s.pop_due(1000).is_empty());
    assert!(s.pop_due(1004).is_empty());
    assert_eq!(s.waiting("a"), Some((1005, 2)));
    assert_eq!(fired_ids(&mut s, 1005), vec![String::from("a")]);
}

#[test]
fn interval_retires_where_the_clock_ends() {
    let mut s = Scheduler::new();
    s.insert(job("a", Trigger::Interval { start: u64::MAX - 3, every: 5 }), 0).unwrap();
    assert_eq!(fired_ids(&mut s, u64::MAX - 3), vec![String::from("a")]);
    assert_eq!(s.len(), 0);
}

#[test]
fn calendar_job_waits_for_its_next_minute() {
    let mut s = Scheduler::new();
    let t = Trigger::Calendar { minutes: 1 << 30, hours: ALL_HOURS, weekdays: ALL_DAYS };
    assert_eq!(s.insert(job("c", t), 0), Ok(1800));
    assert!(s.pop_due(1799).is_empty());
    assert_eq!(fired_ids(&mut s, 1800), vec![String::from("c")]);
    assert_eq!(s.waiting("c"), Some((5400, 1)));
    assert_eq!(fired_ids(&mut s, 9000), vec![String::from("c")]);
    assert_eq!(s.waiting("c"), Some((12600, 2)));
}

#[test]
fn pop_fires_all_due_jobs_and_leaves_the_rest() {
    let mut s = Scheduler::new();
    s.insert(job("a", Trigger::OneShot { at: 10 }), 0).unwrap();
    s.insert(job("b", Trigger::Interval { start: 20, every: 100 }), 0).unwrap();
    s.insert(job("c", Trigger::OneShot { at: 30 }), 0).unwrap();
    s.insert(job("d", Trigger::OneShot { at: 40 }), 0).unwrap();
    let mut ids = fired_ids(&mut s, 30);
    ids.sort();
    assert_eq!(ids, vec![String::from("a"), String::from("b"), String::from("c")]);
    assert_eq!(s.len(), 2);
    assert_eq!(s.waiting("b"), Some((130, 1)));
    assert_eq!(s.waiting("d"), Some((40, 0)));
    assert_eq!(s.next_wake(), Some(40));
}

#[test]
fn rescheduled_job_keeps_targets_and_action() {
    let mut s = Scheduler::new();
    s.insert(job("a", Trigger::Interval { start: 0, every: 5 }), 0).unwrap();
    let first = s.pop_due(0);
    let second = s.pop_due(5);
    assert_eq!(first[0].job, second[0].job);
    assert_eq!(second[0].due, 5);
    assert_eq!(second[0].runs, 1);
}

#[test]
fn job_duplicate_is_equal() {
    let j = job("a", Trigger::Interval { start: 1, every: 2 });
    assert_eq!(j.duplicate(), j);
}
