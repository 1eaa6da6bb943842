use owa_calendar::moment::{Moment, Wait, FIRST_SECOND};
use owa_calendar::schedule::{can_plan, Job, Schedule};
use owa_calendar::types::{CalendarItem, NotificationType};

fn event(subject: &str, secs: i64) -> CalendarItem {
    CalendarItem {
        subject: subject.to_string(),
        start: Moment { secs, nanos: 0 },
        end: Moment { secs: secs + 3600, nanos: 0 },
        location: None,
        is_all_day_event: false,
        organizer: None,
        is_cancelled: None,
    }
}

fn at(secs: i64) -> Moment {
    Moment { secs, nanos: 0 }
}

fn job(event: usize, kind: NotificationType, secs: u64) -> Job {
    Job { event, kind, wait: Wait { secs, nanos: 0 } }
}

fn plan(schedule: &mut Schedule, events: &Vec<CalendarItem>, now: Moment) -> Vec<Job> {
    assert!(can_plan(events, 15));
    schedule.schedule_notifications(events, 15, now)
}

const AHEAD: NotificationType = NotificationType::FifteenMinutes;
const START: NotificationType = NotificationType::EventStart;

#[test]
fn two_notifications_for_an_event() {
    let mut schedule = Schedule::new();
    let events = vec![event("a", 10_000)];
    assert_eq!(
        plan(&mut schedule, &events, at(5_000)),
        vec![job(0, AHEAD, 4_100), job(0, START, 5_000)]
    );
    assert!(schedule.is_waiting(&events[0], AHEAD));
    assert!(schedule.is_waiting(&events[0], START));
}

#[test]
fn only_notifications_still_to_come() {
    let events = vec![event("a", 10_000)];
    assert_eq!(plan(&mut Schedule::new(), &events, at(9_099)).len(), 2);
    assert_eq!(plan(&mut Schedule::new(), &events, at(9_100)), vec![job(0, START, 900)]);
    assert_eq!(plan(&mut Schedule::new(), &events, at(9_999)), vec![job(0, START, 1)]);
    assert_eq!(plan(&mut Schedule::new(), &events, at(10_000)), vec![]);
    let now = Moment { secs: 9_999, nanos: 400_000_000 };
    let jobs = plan(&mut Schedule::new(), &events, now);
    assert_eq!(jobs[0].wait, Wait { secs: 0, nanos: 600_000_000 });
}

#[test]
fn cancelled_events_are_passed_over() {
    let mut events = vec![event("a", 10_000), event("b", 11_000)];
    events[0].is_cancelled = Some(true);
    events[1].is_cancelled = Some(false);
    let jobs = plan(&mut Schedule::new(), &events, at(10_500));
    assert_eq!(jobs, vec![job(1, START, 500)]);
}

#[test]
fn reading_the_calendar_again_plans_nothing() {
    let mut schedule = Schedule::new();
    let events = vec![event("a", 10_000), event("b", 20_000)];
    assert_eq!(plan(&mut schedule, &events, at(0)).len(), 4);
    assert_eq!(plan(&mut schedule, &events, at(0)), vec![]);
    assert_eq!(plan(&mut schedule, &events, at(600)), vec![]);
}

#[test]
fn the_same_event_twice_is_planned_once() {
    let mut schedule = Schedule::new();
    let events = vec![event("a", 10_000), event("a", 10_000), event("a", 10_001), event("b", 10_000)];
    let jobs = plan(&mut schedule, &events, at(0));
    let of: Vec<usize> = jobs.iter().map(|j| j.event).collect();
    assert_eq!(of, vec![0, 0, 2, 2, 3, 3]);
}

#[test]
fn a_notification_made_can_be_planned_again() {
    let mut schedule = Schedule::new();
    let events = vec![event("a", 10_000), event("b", 10_000)];
    plan(&mut schedule, &events, at(0));
    schedule.finish(&events[0], AHEAD);
    assert!(!schedule.is_waiting(&events[0], AHEAD));
    assert!(schedule.is_waiting(&events[0], START));
    assert!(schedule.is_waiting(&events[1], AHEAD));
    assert!(schedule.is_waiting(&events[1], START));
    assert_eq!(plan(&mut schedule, &events, at(0)), vec![job(0, AHEAD, 9_100)]);
    schedule.finish(&event("c", 1), START);
    assert_eq!(plan(&mut schedule, &events, at(0)), vec![]);
}

#[test]
fn minutes_of_the_settings() {
    let events = vec![event("a", 10_000)];
    let jobs = Schedule::new().schedule_notifications(&events, 1, at(9_000));
    assert_eq!(jobs, vec![job(0, AHEAD, 940), job(0, START, 1_000)]);
    // A negative number of minutes comes after the start.
    let jobs = Schedule::new().schedule_notifications(&events, -1, at(10_000));
    assert_eq!(jobs, vec![job(0, AHEAD, 60)]);
}

#[test]
fn what_can_be_planned_for() {
    let mut events = vec![event("a", FIRST_SECOND + 899)];
    assert!(!can_plan(&events, 15));
    assert!(can_plan(&events, 14));
    assert!(!can_plan(&events, i64::MAX));
    assert!(!can_plan(&events, i64::MIN));
    events[0].is_cancelled = Some(true);
    assert!(can_plan(&events, 15));
    assert!(can_plan(&vec![], i64::MAX));
    assert!(can_plan(&vec![], i64::MIN));
}
