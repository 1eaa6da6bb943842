//! When to notify.
//!
//! Every event gets a notification some minutes ahead of it and one at its start. A schedule
//! remembers which of them are waiting, so that reading the calendar again does not make them
//! twice.
use vstd::prelude::*;

use crate::moment::{self, is_shiftable, shift, wait_between, Moment, Wait};
use crate::text::same_text;
use crate::types::{CalendarItem, NotificationType};

verus! {

/// What a waiting notification is known by: its event's subject and start, and its type.
pub type Key = (Seq<char>, Moment, NotificationType);

/// A waiting notification.
#[derive(Debug)]
struct Waiting {
    subject: String,
    start: Moment,
    kind: NotificationType,
}

impl Waiting {
    /// What the notification is known by.
    closed spec fn key(self) -> Key {
        (self.subject@, self.start, self.kind)
    }
}

/// The waiting notifications.
#[derive(Debug)]
pub struct Schedule {
    waiting: Vec<Waiting>,
}

/// A notification to be made: of which event, of what type and when.
#[derive(Debug, Clone, Copy, PartialEq, Eq, Structural)]
pub struct Job {
    /// The event's position in the list.
    pub event: usize,
    pub kind: NotificationType,
    pub wait: Wait,
}

/// A schedule and the notifications that were added to it.
#[verifier::ext_equal]
pub struct Plan {
    pub keys: Set<Key>,
    /// Event, type and nanoseconds to wait.
    pub jobs: Seq<(int, NotificationType, int)>,
}

/// What a job says.
pub open spec fn job_facts(jobs: Seq<Job>) -> Seq<(int, NotificationType, int)> {
    jobs.map_values(|j: Job| (j.event as int, j.kind, j.wait.total()))
}

/// What an event's notification is known by.
pub open spec fn key_of(event: CalendarItem, kind: NotificationType) -> Key {
    (event.subject@, event.start, kind)
}

/// When an event's notification is to be made, `minutes` being how far ahead the first one comes.
pub open spec fn notify_at(event: CalendarItem, kind: NotificationType, minutes: int) -> Moment {
    match kind {
        NotificationType::FifteenMinutes => moment::shifted_moment(event.start, -60 * minutes),
        NotificationType::EventStart => event.start,
    }
}

/// Whether an event's notification is still to come.
pub open spec fn due(
    event: CalendarItem,
    kind: NotificationType,
    minutes: int,
    now: Moment,
) -> bool {
    !event.cancelled() && notify_at(event, kind, minutes).after(now)
}

impl Plan {
    /// The plan with one notification of event `i` added, if it is still to come and not waiting
    /// already.
    pub open spec fn with(
        self,
        events: Seq<CalendarItem>,
        i: int,
        kind: NotificationType,
        minutes: int,
        now: Moment,
    ) -> Plan {
        let key = key_of(events[i], kind);
        if due(events[i], kind, minutes, now) && !self.keys.contains(key) {
            Plan {
                keys: self.keys.insert(key),
                jobs: self.jobs.push(
                    (i, kind, moment::nanos_until(now, notify_at(events[i], kind, minutes))),
                ),
            }
        } else {
            self
        }
    }
}

/// The plan for the first `n` events, where the notifications `keys` are waiting: event by event,
/// the one ahead of it and then the one at its start.
pub open spec fn plan(
    keys: Set<Key>,
    events: Seq<CalendarItem>,
    n: int,
    minutes: int,
    now: Moment,
) -> Plan
    decreases n,
{
    if n <= 0 {
        Plan { keys, jobs: seq![] }
    } else {
        plan(keys, events, n - 1, minutes, now).with(
            events,
            n - 1,
            NotificationType::FifteenMinutes,
            minutes,
            now,
        ).with(events, n - 1, NotificationType::EventStart, minutes, now)
    }
}

/// Whether the events can be planned for: their moments, and those `minutes` ahead of them, can be
/// represented. Cancelled events do not matter.
pub open spec fn plannable(events: Seq<CalendarItem>, minutes: int) -> bool {
    forall|i: int|
        0 <= i < events.len() && !(#[trigger] events[i]).cancelled() ==> {
            &&& events[i].start.valid()
            &&& moment::can_shift(events[i].start, -60 * minutes)
        }
}

/// Whether the events can be planned for.
pub fn can_plan(events: &Vec<CalendarItem>, minutes: i64) -> (r: bool)
    ensures
        r == plannable(events@, minutes as int),
{
    let in_span = minutes <= moment::LONGEST_SPAN / 60 && minutes >= -(moment::LONGEST_SPAN / 60);
    let mut i: usize = 0;
    while i < events.len()
        invariant
            i <= events@.len(),
            in_span <==> -moment::LONGEST_SPAN <= 60 * minutes <= moment::LONGEST_SPAN,
            forall|k: int|
                0 <= k < i && !(#[trigger] events@[k]).cancelled() ==> {
                    &&& events@[k].start.valid()
                    &&& moment::can_shift(events@[k].start, -60 * minutes)
                },
        decreases events@.len() - i,
    {
        if !events[i].called_off() {
            assert(!events@[i as int].cancelled());
            let start = events[i].start;
            if !in_span || !start.is_valid() || !is_shiftable(start, -60 * minutes) {
                return false;
            }
        }
        i = i + 1;
    }
    true
}

impl Schedule {
    /// Whether no notification is waiting twice.
    pub closed spec fn well_formed(&self) -> bool {
        forall|i: int, j: int|
            0 <= i < j < self.waiting@.len() ==> (#[trigger] self.waiting@[i]).key() != (
            #[trigger] self.waiting@[j]).key()
    }

    /// An empty schedule.
    pub fn new() -> (r: Schedule)
        ensures
            r.well_formed(),
            r@ == Set::<Key>::empty(),
    {
        let r = Schedule { waiting: Vec::new() };
        assert(r@ =~= Set::<Key>::empty());
        r
    }

    /// Where a notification stands in the list, or the list's length.
    fn position(&self, event: &CalendarItem, kind: NotificationType) -> (r: usize)
        ensures
            r <= self.waiting@.len(),
            r < self.waiting@.len() ==> self.waiting@[r as int].key() == key_of(*event, kind),
            r == self.waiting@.len() <==> !self@.contains(key_of(*event, kind)),
    {
        let mut i: usize = 0;
        while i < self.waiting.len()
            invariant
                i <= self.waiting@.len(),
                forall|k: int|
                    0 <= k < i ==> (#[trigger] self.waiting@[k]).key() != key_of(*event, kind),
            decreases self.waiting@.len() - i,
        {
            let w = &self.waiting[i];
            if same_text(w.subject.as_str(), event.subject.as_str()) && w.start == event.start
                && w.kind == kind {
                assert(self.waiting@[i as int].key() == key_of(*event, kind));
                return i;
            }
            i = i + 1;
        }
        i
    }

    /// Whether an event's notification is waiting.
    pub fn is_waiting(&self, event: &CalendarItem, kind: NotificationType) -> (r: bool)
        ensures
            r == self@.contains(key_of(*event, kind)),
            r == self@.contains((event.subject@, event.start, kind)),
    {
        self.position(event, kind) < self.waiting.len()
    }

    /// Adds one notification, if it is still to come and not waiting already.
    fn add(
        &mut self,
        events: &Vec<CalendarItem>,
        i: usize,
        kind: NotificationType,
        at: Moment,
        now: Moment,
        jobs: &mut Vec<Job>,
        Ghost(minutes): Ghost<int>,
    )
        requires
            old(self).well_formed(),
            i < events@.len(),
            !events@[i as int].cancelled(),
            at == notify_at(events@[i as int], kind, minutes),
            at.valid(),
            now.valid(),
        ensures
            final(self).well_formed(),
            (Plan { keys: final(self)@, jobs: job_facts(final(jobs)@) }) == (Plan {
                keys: old(self)@,
                jobs: job_facts(old(jobs)@),
            }).with(events@, i as int, kind, minutes, now),
            forall|k: int|
                0 <= k < final(jobs)@.len() && k < old(jobs)@.len() ==> final(jobs)@[k]
                    == old(jobs)@[k],
            forall|k: int|
                old(jobs)@.len() <= k < final(jobs)@.len() ==> (
                #[trigger] final(jobs)@[k]).wait.valid() && final(jobs)@[k].event < events@.len(),
            old(jobs)@.len() <= final(jobs)@.len(),
    {
        if !at.is_after(&now) {
            return;
        }
        if self.is_waiting(&events[i], kind) {
            return;
        }
        let ghost before = *self;
        let ghost jobs_before = jobs@;
        self.waiting.push(
            Waiting { subject: events[i].subject.clone(), start: events[i].start, kind },
        );
        jobs.push(Job { event: i, kind, wait: wait_between(now, at) });
        proof {
            let key = key_of(events@[i as int], kind);
            let last = self.waiting@.len() - 1;
            assert(self.waiting@[last].key() == key);
            assert(forall|k: int| 0 <= k < last ==> self.waiting@[k] == before.waiting@[k]);
            assert forall|k: int| 0 <= k < last implies (#[trigger] self.waiting@[k]).key()
                != key by {
                assert(before.waiting@[k].key() != key);
            }
            assert(self@ =~= before@.insert(key)) by {
                assert forall|x: Key| self@.contains(x) == before@.insert(key).contains(x) by {
                    if before@.contains(x) {
                        let k = choose|k: int|
                            0 <= k < before.waiting@.len() && (
                            #[trigger] before.waiting@[k]).key() == x;
                        assert(self.waiting@[k].key() == x);
                    }
                    if self@.contains(x) {
                        let k = choose|k: int|
                            0 <= k < self.waiting@.len() && (#[trigger] self.waiting@[k]).key()
                                == x;
                        if k < last {
                            assert(before.waiting@[k].key() == x);
                        }
                    }
                }
            }
            assert(job_facts(jobs@) =~= job_facts(jobs_before).push(
                (i as int, kind, moment::nanos_until(now, at)),
            ));
        }
    }

    /// Plans the notifications of all events that are not cancelled: those still to come and not
    /// waiting already are added to the schedule and handed out as jobs.
    pub fn schedule_notifications(
        &mut self,
        events: &Vec<CalendarItem>,
        minutes: i64,
        now: Moment,
    ) -> (r: Vec<Job>)
        requires
            old(self).well_formed(),
            plannable(events@, minutes as int),
            now.valid(),
        ensures
            final(self).well_formed(),
            (Plan { keys: final(self)@, jobs: job_facts(r@) }) == plan(
                old(self)@,
                events@,
                events@.len() as int,
                minutes as int,
                now,
            ),
            forall|k: int|
                0 <= k < r@.len() ==> (#[trigger] r@[k]).wait.valid() && r@[k].event
                    < events@.len(),
            forall|k: int|
                0 <= k < r@.len() ==> {
                    let job = #[trigger] r@[k];
                    let start = events@[job.event as int].start;
                    let ahead: int = if job.kind == NotificationType::FifteenMinutes {
                        60 * minutes
                    } else {
                        0
                    };
                    now.nanos < 1_000_000_000 && start.nanos < 1_000_000_000 ==> (now.secs
                        + job.wait.secs) * 1_000_000_000 + now.nanos + job.wait.nanos == (start.secs
                        - ahead) * 1_000_000_000 + start.nanos
                },
    {
        let mut jobs: Vec<Job> = Vec::new();
        let mut i: usize = 0;
        let ghost first = self@;
        assert(job_facts(jobs@) =~= seq![]);
        while i < events.len()
            invariant
                i <= events@.len(),
                self.well_formed(),
                plannable(events@, minutes as int),
                now.valid(),
                (Plan { keys: self@, jobs: job_facts(jobs@) }) == plan(
                    first,
                    events@,
                    i as int,
                    minutes as int,
                    now,
                ),
                forall|k: int|
                    0 <= k < jobs@.len() ==> (#[trigger] jobs@[k]).wait.valid() && jobs@[k].event
                        < events@.len(),
            decreases events@.len() - i,
        {
            if !events[i].called_off() {
                assert(!events@[i as int].cancelled());
                let start = events[i].start;
                let ahead = shift(start, -60 * minutes);
                self.add(
                    events,
                    i,
                    NotificationType::FifteenMinutes,
                    ahead,
                    now,
                    &mut jobs,
                    Ghost(minutes as int),
                );
                self.add(
                    events,
                    i,
                    NotificationType::EventStart,
                    start,
                    now,
                    &mut jobs,
                    Ghost(minutes as int),
                );
            }
            i = i + 1;
        }
        assert forall|k: int| 0 <= k < jobs@.len() implies {
            let job = #[trigger] jobs@[k];
            let start = events@[job.event as int].start;
            let ahead: int = if job.kind == NotificationType::FifteenMinutes {
                60 * minutes
            } else {
                0
            };
            now.nanos < 1_000_000_000 && start.nanos < 1_000_000_000 ==> (now.secs
                + job.wait.secs) * 1_000_000_000 + now.nanos + job.wait.nanos == (start.secs
                - ahead) * 1_000_000_000 + start.nanos
        } by {
            law_job(first, events@, minutes as int, now, k);
            assert(job_facts(jobs@)[k] == (
                jobs@[k].event as int,
                jobs@[k].kind,
                jobs@[k].wait.total(),
            ));
        }
        jobs
    }

    /// Takes an event's notification off the schedule, once it has been made.
    pub fn finish(&mut self, event: &CalendarItem, kind: NotificationType)
        requires
            old(self).well_formed(),
        ensures
            final(self).well_formed(),
            final(self)@ == old(self)@.remove(key_of(*event, kind)),
            final(self)@ == old(self)@.remove((event.subject@, event.start, kind)),
    {
        let i: usize = self.position(event, kind);
        let ghost before = *self;
        let ghost key = key_of(*event, kind);
        if i < self.waiting.len() {
            let _ = self.waiting.remove(i);
            proof {
                assert(self.waiting@ =~= before.waiting@.remove(i as int));
                assert(forall|k: int| 0 <= k < i ==> self.waiting@[k] == before.waiting@[k]);
                assert(forall|k: int|
                    i <= k < self.waiting@.len() ==> self.waiting@[k] == before.waiting@[k + 1]);
            }
        }
        proof {
            assert(self@ =~= before@.remove(key)) by {
                assert forall|x: Key| self@.contains(x) == before@.remove(key).contains(x) by {
                    if before@.contains(x) && x != key {
                        let k = choose|k: int|
                            0 <= k < before.waiting@.len() && (
                            #[trigger] before.waiting@[k]).key() == x;
                        if i < before.waiting@.len() {
                            if k < i {
                                assert(self.waiting@[k].key() == x);
                            } else {
                                assert(self.waiting@[k - 1].key() == x);
                            }
                        }
                    }
                    if self@.contains(x) {
                        let k = choose|k: int|
                            0 <= k < self.waiting@.len() && (#[trigger] self.waiting@[k]).key()
                                == x;
                        if i < before.waiting@.len() {
                            if k < i {
                                assert(before.waiting@[k].key() == x);
                            } else {
                                assert(before.waiting@[k + 1].key() == x);
                            }
                        }
                    }
                }
            }
        }
    }
}

impl View for Schedule {
    type V = Set<Key>;

    closed spec fn view(&self) -> Set<Key> {
        Set::new(
            |x: Key|
                exists|k: int|
                    0 <= k < self.waiting@.len() && (#[trigger] self.waiting@[k]).key() == x,
        )
    }
}

// ---------------------------------------------------------------------------
// Laws
// ---------------------------------------------------------------------------

/// Whether one of the first `n` events has a notification still to come that is known by `key`.
pub open spec fn wanted(
    events: Seq<CalendarItem>,
    n: int,
    minutes: int,
    now: Moment,
    key: Key,
) -> bool {
    exists|i: int, kind: NotificationType|
        0 <= i < n && #[trigger] due(events[i], kind, minutes, now) && key_of(events[i], kind)
            == key
}

/// After planning, exactly those notifications wait that waited before or are still to come.
pub proof fn law_planned_keys(
    keys: Set<Key>,
    events: Seq<CalendarItem>,
    n: int,
    minutes: int,
    now: Moment,
)
    requires
        0 <= n <= events.len(),
    ensures
        forall|key: Key| #[trigger]
            plan(keys, events, n, minutes, now).keys.contains(key) <==> keys.contains(key)
                || wanted(events, n, minutes, now, key),
    decreases n,
{
    let p = plan(keys, events, n, minutes, now);
    if n > 0 {
        law_planned_keys(keys, events, n - 1, minutes, now);
        let q = plan(keys, events, n - 1, minutes, now);
        let first = NotificationType::FifteenMinutes;
        let second = NotificationType::EventStart;
        assert forall|key: Key| #[trigger] p.keys.contains(key) implies keys.contains(key)
            || wanted(events, n, minutes, now, key) by {
            if q.keys.contains(key) {
                if !keys.contains(key) {
                    let (i, kind) = choose|i: int, kind: NotificationType|
                        0 <= i < n - 1 && #[trigger] due(events[i], kind, minutes, now) && key_of(
                            events[i],
                            kind,
                        ) == key;
                    assert(due(events[i], kind, minutes, now));
                }
            } else if key == key_of(events[n - 1], first) {
                assert(due(events[n - 1], first, minutes, now));
            } else {
                assert(due(events[n - 1], second, minutes, now));
            }
        }
        assert forall|key: Key| keys.contains(key) || wanted(events, n, minutes, now, key) implies
            #[trigger] p.keys.contains(key) by {
            if !keys.contains(key) {
                let (i, kind) = choose|i: int, kind: NotificationType|
                    0 <= i < n && #[trigger] due(events[i], kind, minutes, now) && key_of(
                        events[i],
                        kind,
                    ) == key;
                if i < n - 1 {
                    assert(due(events[i], kind, minutes, now));
                    assert(wanted(events, n - 1, minutes, now, key));
                    assert(q.keys.contains(key));
                }
            } else {
                assert(q.keys.contains(key));
            }
        }
    }
}

/// What a job is known by.
pub open spec fn job_key(
    events: Seq<CalendarItem>,
    job: (int, NotificationType, int),
) -> Key {
    key_of(events[job.0], job.1)
}

/// Whether a plan's jobs for the first `n` events are sound, `keys` having waited before: each is
/// for an event that is not cancelled and a notification still to come, waits until just then, and
/// was not waiting before; no two are for the same notification; and every notification that came
/// to wait has its job.
pub open spec fn sound(
    keys: Set<Key>,
    p: Plan,
    events: Seq<CalendarItem>,
    n: int,
    minutes: int,
    now: Moment,
) -> bool {
    &&& forall|key: Key| keys.contains(key) ==> #[trigger] p.keys.contains(key)
    &&& forall|j: int|
        0 <= j < p.jobs.len() ==> {
            let job = #[trigger] p.jobs[j];
            &&& 0 <= job.0 < n
            &&& !events[job.0].cancelled()
            &&& due(events[job.0], job.1, minutes, now)
            &&& job.2 == moment::nanos_until(now, notify_at(events[job.0], job.1, minutes))
            &&& !keys.contains(job_key(events, job))
            &&& p.keys.contains(job_key(events, job))
        }
    &&& forall|j: int, k: int|
        0 <= j < k < p.jobs.len() ==> job_key(events, #[trigger] p.jobs[j]) != job_key(
            events,
            #[trigger] p.jobs[k],
        )
    &&& forall|key: Key| #[trigger]
        p.keys.contains(key) && !keys.contains(key) ==> exists|j: int|
            0 <= j < p.jobs.len() && job_key(events, #[trigger] p.jobs[j]) == key
}

/// Planning hands out sound jobs: every job is for an event that is not cancelled and a
/// notification still to come, waits until just then, and was not waiting before; no two jobs are
/// for the same notification; and every notification that came to wait has its job.
pub proof fn law_jobs(
    keys: Set<Key>,
    events: Seq<CalendarItem>,
    n: int,
    minutes: int,
    now: Moment,
)
    requires
        0 <= n <= events.len(),
    ensures
        sound(keys, plan(keys, events, n, minutes, now), events, n, minutes, now),
    decreases n,
{
    if n > 0 {
        law_jobs(keys, events, n - 1, minutes, now);
        let q = plan(keys, events, n - 1, minutes, now);
        let r = q.with(events, n - 1, NotificationType::FifteenMinutes, minutes, now);
        lemma_with_keeps_jobs(
            keys,
            q,
            events,
            n - 1,
            NotificationType::FifteenMinutes,
            minutes,
            now,
        );
        lemma_with_keeps_jobs(keys, r, events, n - 1, NotificationType::EventStart, minutes, now);
    }
}

/// Adding one notification keeps the jobs sound.
proof fn lemma_with_keeps_jobs(
    keys: Set<Key>,
    p: Plan,
    events: Seq<CalendarItem>,
    i: int,
    kind: NotificationType,
    minutes: int,
    now: Moment,
)
    requires
        0 <= i < events.len(),
        sound(keys, p, events, i, minutes, now) || sound(keys, p, events, i + 1, minutes, now),
    ensures
        sound(keys, p.with(events, i, kind, minutes, now), events, i + 1, minutes, now),
{
    let q = p.with(events, i, kind, minutes, now);
    let new_key = key_of(events[i], kind);
    if due(events[i], kind, minutes, now) && !p.keys.contains(new_key) {
        let last = p.jobs.len() as int;
        assert(job_key(events, q.jobs[last]) == new_key);
        assert forall|j: int| 0 <= j < last implies q.jobs[j] == #[trigger] p.jobs[j] && job_key(
            events,
            p.jobs[j],
        ) != new_key by {
            assert(p.keys.contains(job_key(events, p.jobs[j])));
        }
        assert forall|key: Key| #[trigger]
            q.keys.contains(key) && !keys.contains(key) implies exists|j: int|
            0 <= j < q.jobs.len() && job_key(events, #[trigger] q.jobs[j]) == key by {
            if key == new_key {
                assert(job_key(events, q.jobs[last]) == key);
            } else {
                assert(p.keys.contains(key));
                let j = choose|j: int|
                    0 <= j < p.jobs.len() && job_key(events, #[trigger] p.jobs[j]) == key;
                assert(job_key(events, q.jobs[j]) == key);
            }
        }
    }
}

/// Reading the same calendar again later plans nothing: no notification is made twice.
pub proof fn law_no_repeats(
    keys: Set<Key>,
    events: Seq<CalendarItem>,
    minutes: int,
    now: Moment,
    later: Moment,
)
    requires
        !now.after(later),
    ensures
        ({
            let n = events.len() as int;
            let waiting = plan(keys, events, n, minutes, now).keys;
            plan(waiting, events, n, minutes, later) == (Plan { keys: waiting, jobs: seq![] })
        }),
{
    let n = events.len() as int;
    law_planned_keys(keys, events, n, minutes, now);
    lemma_nothing_new(
        plan(keys, events, n, minutes, now).keys,
        events,
        n,
        n,
        minutes,
        now,
        later,
    );
}

/// Nothing is planned for events whose notifications all wait.
proof fn lemma_nothing_new(
    waiting: Set<Key>,
    events: Seq<CalendarItem>,
    n: int,
    total: int,
    minutes: int,
    now: Moment,
    later: Moment,
)
    requires
        0 <= n <= total <= events.len(),
        !now.after(later),
        forall|key: Key| wanted(events, total, minutes, now, key) ==> #[trigger] waiting.contains(
            key,
        ),
    ensures
        plan(waiting, events, n, minutes, later) == (Plan { keys: waiting, jobs: seq![] }),
    decreases n,
{
    if n > 0 {
        lemma_nothing_new(waiting, events, n - 1, total, minutes, now, later);
        assert forall|kind: NotificationType| #[trigger]
            due(events[n - 1], kind, minutes, later) implies waiting.contains(
            key_of(events[n - 1], kind),
        ) by {
            assert(due(events[n - 1], kind, minutes, now));
            assert(wanted(events, total, minutes, now, key_of(events[n - 1], kind)));
        }
    }
}

/// The nanoseconds from the Unix epoch to a moment, without leap seconds before it.
pub open spec fn whole_nanos(m: Moment) -> int {
    m.secs * 1_000_000_000 + m.nanos
}

/// A job waits for exactly the time that is left until its notification, as long as no leap second
/// is counted in between and none at midnight makes the time left negative.
pub proof fn law_wait_reaches_notification(
    event: CalendarItem,
    kind: NotificationType,
    minutes: int,
    now: Moment,
)
    requires
        due(event, kind, minutes, now),
        ({
            let at = notify_at(event, kind, minutes);
            let now_in_day = moment::second_of_day(now.secs as int);
            let at_in_day = moment::second_of_day(at.secs as int);
            &&& now.leap() ==> at_in_day <= now_in_day && whole_nanos(now) <= whole_nanos(at)
            &&& at.leap() ==> now_in_day <= at_in_day
        }),
    ensures
        ({
            let at = notify_at(event, kind, minutes);
            &&& whole_nanos(now) + moment::nanos_until(now, at) == whole_nanos(at)
            &&& !now.leap() ==> moment::nanos_until(now, at) > 0
        }),
{
}

/// Whether a time, in seconds and nanoseconds, comes after `now`.
pub open spec fn comes_after(time: (int, int), now: Moment) -> bool {
    time.0 > now.secs || (time.0 == now.secs && time.1 > now.nanos)
}

/// When a notification is to be made, in seconds and nanoseconds: at the event's start, or that
/// many minutes before it.
pub open spec fn target(event: CalendarItem, kind: NotificationType, minutes: int) -> (int, int) {
    if kind == NotificationType::EventStart {
        (event.start.secs as int, event.start.nanos as int)
    } else {
        moment::shifted(event.start, -60 * minutes)
    }
}

/// Outside leap seconds, the notification ahead of an event comes exactly as many minutes before
/// its start as the settings say.
pub proof fn law_target(event: CalendarItem, minutes: int)
    requires
        event.start.nanos < 1_000_000_000,
    ensures
        target(event, NotificationType::FifteenMinutes, minutes) == (
            event.start.secs - 60 * minutes,
            event.start.nanos as int,
        ),
{
}

/// A notification is still to come exactly if its event is not cancelled and its time comes later
/// than now.
proof fn lemma_due(
    events: Seq<CalendarItem>,
    e: int,
    kind: NotificationType,
    minutes: int,
    now: Moment,
)
    requires
        plannable(events, minutes),
        0 <= e < events.len(),
    ensures
        due(events[e], kind, minutes, now) <==> events[e].is_cancelled != Some(true)
            && comes_after(target(events[e], kind, minutes), now),
        events[e].is_cancelled != Some(true) ==> {
            let at = notify_at(events[e], kind, minutes);
            target(events[e], kind, minutes) == (at.secs as int, at.nanos as int)
        },
{
    if events[e].is_cancelled != Some(true) {
        assert(!events[e].cancelled());
        assert(moment::can_shift(events[e].start, -60 * minutes));
    }
}

/// After planning a notification waits exactly if it waited before, or if it is that of an event
/// that is not cancelled and its time comes later than now.
pub proof fn law_waiting(
    keys: Set<Key>,
    events: Seq<CalendarItem>,
    minutes: int,
    now: Moment,
    subject: Seq<char>,
    start: Moment,
    kind: NotificationType,
)
    requires
        plannable(events, minutes),
    ensures
        plan(keys, events, events.len() as int, minutes, now).keys.contains((subject, start, kind))
            <==> keys.contains((subject, start, kind)) || exists|e: int|
            {
                &&& 0 <= e < events.len()
                &&& (#[trigger] events[e]).subject@ == subject
                &&& events[e].start == start
                &&& events[e].is_cancelled != Some(true)
                &&& comes_after(target(events[e], kind, minutes), now)
            },
{
    let n = events.len() as int;
    let key = (subject, start, kind);
    law_planned_keys(keys, events, n, minutes, now);
    assert(plan(keys, events, n, minutes, now).keys.contains(key) <==> keys.contains(key)
        || wanted(events, n, minutes, now, key));
    if wanted(events, n, minutes, now, key) {
        let (i, k) = choose|i: int, k: NotificationType|
            0 <= i < n && #[trigger] due(events[i], k, minutes, now) && key_of(events[i], k) == key;
        lemma_due(events, i, k, minutes, now);
        assert(events[i].subject@ == subject);
    }
    if exists|e: int|
        {
            &&& 0 <= e < events.len()
            &&& (#[trigger] events[e]).subject@ == subject
            &&& events[e].start == start
            &&& events[e].is_cancelled != Some(true)
            &&& comes_after(target(events[e], kind, minutes), now)
        } {
        let e = choose|e: int|
            {
                &&& 0 <= e < events.len()
                &&& (#[trigger] events[e]).subject@ == subject
                &&& events[e].start == start
                &&& events[e].is_cancelled != Some(true)
                &&& comes_after(target(events[e], kind, minutes), now)
            };
        lemma_due(events, e, kind, minutes, now);
        assert(due(events[e], kind, minutes, now) && key_of(events[e], kind) == key);
    }
}

/// Every notification that is still to come and was not waiting is planned: there is a job of its
/// type for an event with its subject and start.
pub proof fn law_nothing_is_missed(
    keys: Set<Key>,
    events: Seq<CalendarItem>,
    minutes: int,
    now: Moment,
    e: int,
    kind: NotificationType,
)
    requires
        plannable(events, minutes),
        0 <= e < events.len(),
        events[e].is_cancelled != Some(true),
        comes_after(target(events[e], kind, minutes), now),
        !keys.contains((events[e].subject@, events[e].start, kind)),
    ensures
        ({
            let jobs = plan(keys, events, events.len() as int, minutes, now).jobs;
            exists|j: int|
                {
                    &&& 0 <= j < jobs.len()
                    &&& (#[trigger] jobs[j]).1 == kind
                    &&& events[jobs[j].0].subject@ == events[e].subject@
                    &&& events[jobs[j].0].start == events[e].start
                }
        }),
{
    let n = events.len() as int;
    let p = plan(keys, events, n, minutes, now);
    let key = key_of(events[e], kind);
    law_waiting(keys, events, minutes, now, events[e].subject@, events[e].start, kind);
    law_jobs(keys, events, n, minutes, now);
    assert(p.keys.contains(key));
    let j = choose|j: int| 0 <= j < p.jobs.len() && job_key(events, #[trigger] p.jobs[j]) == key;
    assert(p.jobs[j].1 == kind);
}

/// Every job is for a notification that was not waiting, of an event that is not cancelled, at a
/// time later than now; of events with the same subject and start it is for the first. Outside leap
/// seconds the job waits exactly until the event's start, or until as many minutes before it as the
/// settings say.
pub proof fn law_job(
    keys: Set<Key>,
    events: Seq<CalendarItem>,
    minutes: int,
    now: Moment,
    j: int,
)
    requires
        plannable(events, minutes),
        0 <= j < plan(keys, events, events.len() as int, minutes, now).jobs.len(),
    ensures
        ({
            let job = plan(keys, events, events.len() as int, minutes, now).jobs[j];
            let event = events[job.0];
            let ahead: int = if job.1 == NotificationType::FifteenMinutes {
                60 * minutes
            } else {
                0
            };
            &&& 0 <= job.0 < events.len()
            &&& event.is_cancelled != Some(true)
            &&& comes_after(target(event, job.1, minutes), now)
            &&& !keys.contains((event.subject@, event.start, job.1))
            &&& forall|i: int|
                0 <= i < job.0 && (#[trigger] events[i]).is_cancelled != Some(true)
                    && events[i].start == event.start ==> events[i].subject@ != event.subject@
            &&& now.nanos < 1_000_000_000 && event.start.nanos < 1_000_000_000 ==> now.secs
                * 1_000_000_000 + now.nanos + job.2 == (event.start.secs - ahead) * 1_000_000_000
                + event.start.nanos
        }),
{
    let n = events.len() as int;
    let p = plan(keys, events, n, minutes, now);
    let job = p.jobs[j];
    law_jobs(keys, events, n, minutes, now);
    lemma_due(events, job.0, job.1, minutes, now);
    lemma_first_of_its_kind(keys, events, n, minutes, now, j);
    assert forall|i: int|
        0 <= i < job.0 && (#[trigger] events[i]).is_cancelled != Some(true) && events[i].start
            == events[job.0].start implies events[i].subject@ != events[job.0].subject@ by {
        assert(due(events[i], job.1, minutes, now));
    }
}

/// A job is for the first of the events that want its notification.
proof fn lemma_first_of_its_kind(
    keys: Set<Key>,
    events: Seq<CalendarItem>,
    n: int,
    minutes: int,
    now: Moment,
    j: int,
)
    requires
        0 <= n <= events.len(),
        0 <= j < plan(keys, events, n, minutes, now).jobs.len(),
    ensures
        ({
            let job = plan(keys, events, n, minutes, now).jobs[j];
            forall|i: int|
                0 <= i < job.0 && #[trigger] due(events[i], job.1, minutes, now) ==> key_of(
                    events[i],
                    job.1,
                ) != job_key(events, job)
        }),
    decreases n,
{
    if n > 0 {
        let q = plan(keys, events, n - 1, minutes, now);
        let job = plan(keys, events, n, minutes, now).jobs[j];
        if j < q.jobs.len() {
            lemma_first_of_its_kind(keys, events, n - 1, minutes, now, j);
            assert(job == q.jobs[j]);
        } else {
            assert(job.0 == n - 1);
            law_planned_keys(keys, events, n - 1, minutes, now);
            let key = job_key(events, job);
            assert(!q.keys.contains(key));
            assert forall|i: int|
                0 <= i < job.0 && #[trigger] due(events[i], job.1, minutes, now) implies key_of(
                events[i],
                job.1,
            ) != key by {
                if key_of(events[i], job.1) == key {
                    assert(wanted(events, n - 1, minutes, now, key));
                }
            }
        }
    }
}

/// Jobs come in the order of the events, and of one event's the one ahead of it first.
pub proof fn law_jobs_in_order(
    keys: Set<Key>,
    events: Seq<CalendarItem>,
    n: int,
    minutes: int,
    now: Moment,
    j: int,
    k: int,
)
    requires
        0 <= n <= events.len(),
        0 <= j < k < plan(keys, events, n, minutes, now).jobs.len(),
    ensures
        ({
            let jobs = plan(keys, events, n, minutes, now).jobs;
            ||| jobs[j].0 < jobs[k].0
            ||| jobs[j].0 == jobs[k].0 && jobs[j].1 == NotificationType::FifteenMinutes
                && jobs[k].1 == NotificationType::EventStart
        }),
    decreases n,
{
    if n > 0 {
        let q = plan(keys, events, n - 1, minutes, now);
        law_jobs(keys, events, n - 1, minutes, now);
        let jobs = plan(keys, events, n, minutes, now).jobs;
        if k < q.jobs.len() {
            law_jobs_in_order(keys, events, n - 1, minutes, now, j, k);
            assert(jobs[j] == q.jobs[j] && jobs[k] == q.jobs[k]);
        } else if j < q.jobs.len() {
            assert(jobs[j] == q.jobs[j]);
            assert(q.jobs[j].0 < n - 1);
        }
    }
}

/// A job is seen whole: its event, its type and its wait in nanoseconds.
pub proof fn law_jobs_seen(jobs: Seq<Job>)
    ensures
        job_facts(jobs).len() == jobs.len(),
        forall|i: int|
            0 <= i < jobs.len() ==> #[trigger] job_facts(jobs)[i] == (
                jobs[i].event as int,
                jobs[i].kind,
                jobs[i].wait.secs * 1_000_000_000 + jobs[i].wait.nanos,
            ),
{
}

/// Events outside leap seconds can be planned for if they, and the times that many minutes before
/// them, lie between the first and the last second.
pub proof fn law_plannable(events: Seq<CalendarItem>, minutes: int)
    requires
        -9223372036854775 <= 60 * minutes <= 9223372036854775,
        forall|i: int|
            0 <= i < events.len() && (#[trigger] events[i]).is_cancelled != Some(true) ==> {
                let start = events[i].start;
                &&& start.nanos < 1_000_000_000
                &&& -8334601228800 <= start.secs <= 8210266876799
                &&& -8334601228800 <= start.secs - 60 * minutes <= 8210266876799
            },
    ensures
        plannable(events, minutes),
{
}

} // verus!
