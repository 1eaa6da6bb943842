//! The calendar on the screen.
//!
//! The board shows whole weeks from the current one's Monday on, as far as there are events. Days
//! without events keep their cell; Saturdays and Sundays have a column only if one of them has an
//! event.
use vstd::prelude::*;

use crate::moment::{
    self, clock_text, date_text, days_from_monday, is_offset, local_day, weekday_text, Moment,
};
use crate::notice::{self, extract_url};
use crate::text::{self, push_decimal};
use crate::types::CalendarItem;

verus! {

/// An event with how many seconds local clocks are ahead of UTC at its start and at its end.
#[derive(Debug)]
pub struct LocalEvent {
    pub item: CalendarItem,
    pub start_offset: i32,
    pub end_offset: i32,
}

impl LocalEvent {
    /// Whether the moments and the offsets can be represented.
    pub open spec fn valid(&self) -> bool {
        &&& self.item.valid()
        &&& moment::valid_offset(self.start_offset)
        &&& moment::valid_offset(self.end_offset)
    }

    /// Whether the moments and the offsets can be represented.
    pub fn is_valid(&self) -> (r: bool)
        ensures
            r == self.valid(),
    {
        self.item.is_valid() && is_offset(self.start_offset) && is_offset(self.end_offset)
    }

    /// The local day on which the event starts.
    pub open spec fn day(&self) -> int {
        moment::day_at(self.item.start.secs as int, self.start_offset as int)
    }

    /// Whether the board shows the event on `day`.
    pub open spec fn shown_on(&self, day: int) -> bool {
        !self.item.cancelled() && self.day() == day
    }
}

/// Whether all events can be represented.
pub open spec fn all_valid(events: Seq<LocalEvent>) -> bool {
    forall|i: int| 0 <= i < events.len() ==> (#[trigger] events[i]).valid()
}

// ---------------------------------------------------------------------------
// What the board shows
// ---------------------------------------------------------------------------

/// The Monday of the week of `today`.
pub open spec fn monday(today: int) -> int {
    today - moment::weekday(today)
}

/// Whether there is anything to show.
pub open spec fn any_shown(events: Seq<LocalEvent>) -> bool {
    exists|i: int| 0 <= i < events.len() && !(#[trigger] events[i]).item.cancelled()
}

/// Whether there is an event on `day`.
pub open spec fn busy(events: Seq<LocalEvent>, day: int) -> bool {
    exists|i: int| 0 <= i < events.len() && (#[trigger] events[i]).shown_on(day)
}

/// The last day, from `first` on, on which one of the first `n` events is shown; `first` where
/// there is none.
pub open spec fn last_day(events: Seq<LocalEvent>, n: int, first: int) -> int
    decreases n,
{
    if n <= 0 {
        first
    } else {
        let rest = last_day(events, n - 1, first);
        let day = events[n - 1].day();
        if !events[n - 1].item.cancelled() && rest < day <= moment::LAST_DAY {
            day
        } else {
            rest
        }
    }
}

/// How many weeks the board shows: up to that of the last event, and none at all without events.
pub open spec fn week_count(events: Seq<LocalEvent>, today: int) -> int {
    if any_shown(events) {
        (last_day(events, events.len() as int, monday(today)) - monday(today)) / 7 + 1
    } else {
        0
    }
}

/// Whether one of the weeks shown has an event `offset` days after its Monday.
pub open spec fn column_used(events: Seq<LocalEvent>, today: int, offset: int) -> bool {
    exists|w: int|
        0 <= w < week_count(events, today) && #[trigger] busy(
            events,
            monday(today) + 7 * w + offset,
        )
}

/// The columns of the board, as days after Monday.
pub open spec fn columns(events: Seq<LocalEvent>, today: int) -> Seq<int> {
    let saturday: Seq<int> = if column_used(events, today, 5) {
        seq![5]
    } else {
        seq![]
    };
    let sunday: Seq<int> = if column_used(events, today, 6) {
        seq![6]
    } else {
        seq![]
    };
    seq![0int, 1, 2, 3, 4] + saturday + sunday
}

/// The day in cell `i`.
pub open spec fn cell_day(events: Seq<LocalEvent>, today: int, i: int) -> int {
    let k = columns(events, today).len() as int;
    monday(today) + 7 * (i / k) + columns(events, today)[i % k]
}

/// The number of cells.
pub open spec fn cell_count(events: Seq<LocalEvent>, today: int) -> int {
    week_count(events, today) * columns(events, today).len()
}

/// The positions among the first `n` events of those shown on `day`.
pub open spec fn events_on(events: Seq<LocalEvent>, n: int, day: int) -> Seq<int>
    decreases n,
{
    if n <= 0 {
        seq![]
    } else if events[n - 1].shown_on(day) {
        events_on(events, n - 1, day).push(n - 1)
    } else {
        events_on(events, n - 1, day)
    }
}

/// What stands above a day's events.
pub open spec fn day_title(day: int) -> Seq<char> {
    moment::weekday_name(moment::weekday(day)) + ", "@ + moment::dotted_date(day)
}

/// Whether the board's days can be represented: its first Monday and the Monday after its last
/// week.
pub open spec fn drawable(events: Seq<LocalEvent>, today: int) -> bool {
    &&& moment::FIRST_DAY <= today <= moment::LAST_DAY
    &&& moment::FIRST_DAY <= monday(today)
    &&& any_shown(events) ==> monday(today) + 7 * week_count(events, today) <= moment::LAST_DAY
}

// ---------------------------------------------------------------------------
// Drawing it
// ---------------------------------------------------------------------------

/// One day on the board.
#[derive(Debug)]
pub struct DayCell {
    pub day: i32,
    pub title: String,
    pub is_today: bool,
    /// The positions of the day's events.
    pub events: Vec<usize>,
}

/// The board.
#[derive(Debug)]
pub struct Board {
    /// Whether there is nothing to show.
    pub is_empty: bool,
    /// How many days a row has.
    pub day_count: usize,
    /// The days, row by row.
    pub cells: Vec<DayCell>,
}

/// A list of positions.
pub open spec fn positions(list: Seq<usize>) -> Seq<int> {
    list.map_values(|i: usize| i as int)
}

impl DayCell {
    /// Whether the cell is that of `day`.
    pub open spec fn is_for(&self, events: Seq<LocalEvent>, today: int, day: int) -> bool {
        &&& self.day == day
        &&& self.title@ == day_title(day)
        &&& self.is_today == (day == today)
        &&& positions(self.events@) == events_on(events, events.len() as int, day)
    }
}

/// Whether there is anything to show.
fn anything_shown(events: &Vec<LocalEvent>) -> (r: bool)
    ensures
        r == any_shown(events@),
{
    let mut i: usize = 0;
    while i < events.len()
        invariant
            i <= events@.len(),
            forall|k: int| 0 <= k < i ==> (#[trigger] events@[k]).item.cancelled(),
        decreases events@.len() - i,
    {
        if !events[i].item.called_off() {
            assert(!events@[i as int].item.cancelled());
            return true;
        }
        i = i + 1;
    }
    false
}

/// The last day from `first` on with an event.
fn find_last_day(events: &Vec<LocalEvent>, first: i32) -> (r: i32)
    requires
        all_valid(events@),
        moment::FIRST_DAY <= first <= moment::LAST_DAY,
    ensures
        r == last_day(events@, events@.len() as int, first as int),
        first <= r <= moment::LAST_DAY,
{
    let mut last: i32 = first;
    let mut i: usize = 0;
    while i < events.len()
        invariant
            i <= events@.len(),
            all_valid(events@),
            last == last_day(events@, i as int, first as int),
            first <= last <= moment::LAST_DAY,
        decreases events@.len() - i,
    {
        assert(events@[i as int].valid());
        if !events[i].item.called_off() {
            let day: i32 = local_day(events[i].item.start, events[i].start_offset);
            if last < day && day <= moment::LAST_DAY {
                last = day;
            }
        }
        i = i + 1;
    }
    last
}

/// How many weeks the board shows.
fn count_weeks(events: &Vec<LocalEvent>, first: i32, Ghost(today): Ghost<int>) -> (r: i32)
    requires
        all_valid(events@),
        first == monday(today),
        moment::FIRST_DAY <= first <= moment::LAST_DAY,
    ensures
        r == week_count(events@, today),
        0 <= r <= 27_358_790,
        r == 0 <==> !any_shown(events@),
{
    if anything_shown(events) {
        (find_last_day(events, first) - first) / 7 + 1
    } else {
        0
    }
}

/// Whether the board's days can be represented.
pub fn can_draw(events: &Vec<LocalEvent>, today: i32) -> (r: bool)
    requires
        all_valid(events@),
    ensures
        r == drawable(events@, today as int),
{
    if today < moment::FIRST_DAY || today > moment::LAST_DAY {
        return false;
    }
    let first: i32 = today - days_from_monday(today);
    if first < moment::FIRST_DAY {
        return false;
    }
    let weeks: i32 = count_weeks(events, first, Ghost(today as int));
    weeks == 0 || first + 7 * weeks <= moment::LAST_DAY
}

/// The positions of the events shown on `day`.
fn find_events(events: &Vec<LocalEvent>, day: i32) -> (r: Vec<usize>)
    requires
        all_valid(events@),
    ensures
        positions(r@) == events_on(events@, events@.len() as int, day as int),
{
    let mut out: Vec<usize> = Vec::new();
    let mut i: usize = 0;
    assert(positions(out@) =~= seq![]);
    while i < events.len()
        invariant
            i <= events@.len(),
            all_valid(events@),
            positions(out@) == events_on(events@, i as int, day as int),
        decreases events@.len() - i,
    {
        assert(events@[i as int].valid());
        if !events[i].item.called_off() && local_day(
            events[i].item.start,
            events[i].start_offset,
        ) == day {
            let ghost before = out@;
            out.push(i);
            assert(positions(out@) =~= positions(before).push(i as int));
        }
        i = i + 1;
    }
    out
}

/// Whether there is an event on `day`.
fn is_busy(events: &Vec<LocalEvent>, day: i32) -> (r: bool)
    requires
        all_valid(events@),
    ensures
        r == busy(events@, day as int),
{
    let mut i: usize = 0;
    while i < events.len()
        invariant
            i <= events@.len(),
            all_valid(events@),
            forall|k: int| 0 <= k < i ==> !(#[trigger] events@[k]).shown_on(day as int),
        decreases events@.len() - i,
    {
        assert(events@[i as int].valid());
        if !events[i].item.called_off() && local_day(
            events[i].item.start,
            events[i].start_offset,
        ) == day {
            assert(events@[i as int].shown_on(day as int));
            return true;
        }
        i = i + 1;
    }
    false
}

/// Whether one of the weeks shown has an event `offset` days after its Monday.
fn is_column_used(
    events: &Vec<LocalEvent>,
    first: i32,
    weeks: i32,
    offset: i32,
    Ghost(today): Ghost<int>,
) -> (r: bool)
    requires
        all_valid(events@),
        first == monday(today),
        weeks == week_count(events@, today),
        0 <= weeks,
        moment::FIRST_DAY <= first,
        weeks > 0 ==> first + 7 * weeks <= moment::LAST_DAY,
        0 <= offset < 7,
    ensures
        r == column_used(events@, today, offset as int),
{
    let mut w: i32 = 0;
    while w < weeks
        invariant
            all_valid(events@),
            first == monday(today),
            weeks == week_count(events@, today),
            0 <= w <= weeks,
            moment::FIRST_DAY <= first,
            weeks > 0 ==> first + 7 * weeks <= moment::LAST_DAY,
            0 <= offset < 7,
            forall|v: int|
                0 <= v < w ==> !#[trigger] busy(events@, monday(today) + 7 * v + offset),
        decreases weeks - w,
    {
        if is_busy(events, first + 7 * w + offset) {
            assert(busy(events@, monday(today) + 7 * w + offset));
            return true;
        }
        assert(!busy(events@, monday(today) + 7 * w + offset));
        w = w + 1;
    }
    false
}

/// The cell of `day`.
fn draw_cell(events: &Vec<LocalEvent>, today: i32, day: i32) -> (r: DayCell)
    requires
        all_valid(events@),
        moment::FIRST_DAY <= day <= moment::LAST_DAY,
    ensures
        r.is_for(events@, today as int, day as int),
{
    let mut title = weekday_text(day);
    title.append(", ");
    title.append(date_text(day).as_str());
    DayCell { day, title, is_today: day == today, events: find_events(events, day) }
}

/// Draws the board for the events as of `today`.
pub fn draw(events: &Vec<LocalEvent>, today: i32) -> (r: Board)
    requires
        all_valid(events@),
        drawable(events@, today as int),
    ensures
        r.is_empty == !any_shown(events@),
        r.day_count == columns(events@, today as int).len(),
        r.cells@.len() == cell_count(events@, today as int),
        forall|i: int|
            0 <= i < r.cells@.len() ==> (#[trigger] r.cells@[i]).is_for(
                events@,
                today as int,
                cell_day(events@, today as int, i),
            ),
        drawn(r, events@, today as int),
        forall|c: int, e: int|
            #![trigger r.cells@[c], events@[e]]
            0 <= c < r.cells@.len() && 0 <= e < events@.len() ==> ((exists|k: int|
                0 <= k < r.cells@[c].events@.len() && #[trigger] r.cells@[c].events@[k] == e)
                <==> events@[e].item.is_cancelled != Some(true) && falls_on(
                events@[e].item.start.secs as int,
                events@[e].start_offset as int,
                r.cells@[c].day as int,
            )),
{
    let first: i32 = today - days_from_monday(today);
    let weeks: i32 = count_weeks(events, first, Ghost(today as int));
    let is_empty = weeks == 0;
    let ghost all = columns(events@, today as int);
    let mut offsets: Vec<i32> = Vec::new();
    offsets.push(0);
    offsets.push(1);
    offsets.push(2);
    offsets.push(3);
    offsets.push(4);
    if is_column_used(events, first, weeks, 5, Ghost(today as int)) {
        offsets.push(5);
    }
    if is_column_used(events, first, weeks, 6, Ghost(today as int)) {
        offsets.push(6);
    }
    let day_count: usize = offsets.len();
    assert(offsets@.map_values(|o: i32| o as int) =~= all);
    let mut cells: Vec<DayCell> = Vec::new();
    let mut w: i32 = 0;
    while w < weeks
        invariant
            all_valid(events@),
            drawable(events@, today as int),
            first == monday(today as int),
            weeks == week_count(events@, today as int),
            weeks > 0 ==> first + 7 * weeks <= moment::LAST_DAY,
            0 <= w <= weeks,
            all == columns(events@, today as int),
            offsets@.map_values(|o: i32| o as int) == all,
            day_count == all.len(),
            5 <= day_count <= 7,
            cells@.len() == w * day_count,
            forall|i: int|
                0 <= i < cells@.len() ==> (#[trigger] cells@[i]).is_for(
                    events@,
                    today as int,
                    cell_day(events@, today as int, i),
                ),
        decreases weeks - w,
    {
        let mut k: usize = 0;
        while k < day_count
            invariant
                all_valid(events@),
                moment::FIRST_DAY <= first == monday(today as int),
                first + 7 * weeks <= moment::LAST_DAY,
                0 <= w < weeks,
                all == columns(events@, today as int),
                offsets@.map_values(|o: i32| o as int) == all,
                k <= day_count,
                day_count == all.len(),
                5 <= day_count <= 7,
                cells@.len() == w * day_count + k,
                forall|i: int|
                    0 <= i < cells@.len() ==> (#[trigger] cells@[i]).is_for(
                        events@,
                        today as int,
                        cell_day(events@, today as int, i),
                    ),
            decreases day_count - k,
        {
            let offset: i32 = offsets[k];
            assert(all[k as int] == offset);
            assert(0 <= offset < 7);
            proof {
                lemma_row_and_column(w as int, k as int, day_count as int);
            }
            cells.push(draw_cell(events, today, first + 7 * w + offset));
            k = k + 1;
        }
        assert((w + 1) * day_count == w * day_count + day_count) by (nonlinear_arith);
        w = w + 1;
    }
    let r = Board { is_empty, day_count, cells };
    assert forall|c: int, e: int|
        #![trigger r.cells@[c], events@[e]]
        0 <= c < r.cells@.len() && 0 <= e < events@.len() implies ((exists|k: int|
        0 <= k < r.cells@[c].events@.len() && #[trigger] r.cells@[c].events@[k] == e)
        <==> events@[e].item.is_cancelled != Some(true) && falls_on(
        events@[e].item.start.secs as int,
        events@[e].start_offset as int,
        r.cells@[c].day as int,
    )) by {
        law_event_in_its_cell(r, events@, today as int, c, e);
    }
    r
}

/// Counting `columns` to a row, cell `k` of row `w` is where it should be.
proof fn lemma_row_and_column(w: int, k: int, columns: int)
    requires
        0 <= w,
        0 <= k < columns,
    ensures
        (w * columns + k) / columns == w,
        (w * columns + k) % columns == k,
{
    vstd::arithmetic::div_mod::lemma_fundamental_div_mod_converse(
        w * columns + k,
        columns,
        w,
        k,
    );
}

// ---------------------------------------------------------------------------
// Days, events and the head line
// ---------------------------------------------------------------------------

/// The style of a day's cell; today's is set off.
pub open spec fn cell_style(is_today: bool) -> Seq<char> {
    if is_today {
        "border: 2px solid #f1e8ddff; padding: 8px; display: flex; flex-direction: column; background-color: #f1e8ddff;"@
    } else {
        "border: 1px solid #f2ded7; padding: 8px; display: flex; flex-direction: column; background-color: unset;"@
    }
}

/// The style of a day's cell.
pub fn day_style(is_today: bool) -> (r: String)
    ensures
        r@ == cell_style(is_today),
{
    if is_today {
        "border: 2px solid #f1e8ddff; padding: 8px; display: flex; flex-direction: column; background-color: #f1e8ddff;".to_string()
    } else {
        "border: 1px solid #f2ded7; padding: 8px; display: flex; flex-direction: column; background-color: unset;".to_string()
    }
}

/// How an event is shown.
#[derive(Debug)]
pub struct EventLine {
    /// The style of its subject.
    pub style: String,
    /// When it starts and ends.
    pub time: String,
    /// The address to link to, or nothing.
    pub link: String,
}

/// The style of an event's subject: bold while the event lasts, struck through once it is over.
pub open spec fn subject_style(event: CalendarItem, now: Moment) -> Seq<char> {
    if !event.start.after(now) && !now.after(event.end) {
        "font-weight: bold;"@
    } else if now.after(event.end) {
        "text-decoration: line-through; color: #aaaaaaff"@
    } else {
        seq![]
    }
}

/// When an event starts and ends by local clocks.
pub open spec fn event_time(event: LocalEvent) -> Seq<char> {
    moment::clock(moment::second_of_day(event.item.start.secs + event.start_offset)) + " - "@
        + moment::clock(moment::second_of_day(event.item.end.secs + event.end_offset))
}

/// The address to link to: the first web address in the event's place, as long as the event is not
/// over.
pub open spec fn event_link(event: CalendarItem, now: Moment) -> Seq<char> {
    if now.after(event.end) {
        seq![]
    } else {
        notice::first_address(event.place(), 0)
    }
}

/// How an event is shown at the moment `now`.
pub fn event_line(event: &LocalEvent, now: Moment) -> (r: EventLine)
    requires
        event.valid(),
    ensures
        r.style@ == subject_style(event.item, now),
        r.time@ == event_time(*event),
        r.link@ == event_link(event.item, now),
        ({
            let start = event.item.start;
            let end = event.item.end;
            let started = now.secs > start.secs || (now.secs == start.secs && now.nanos
                >= start.nanos);
            let over = now.secs > end.secs || (now.secs == end.secs && now.nanos > end.nanos);
            &&& started && !over ==> r.style@ == "font-weight: bold;"@
            &&& over ==> r.style@ == "text-decoration: line-through; color: #aaaaaaff"@
            &&& !started && !over ==> r.style@.len() == 0
            &&& over ==> r.link@.len() == 0
            &&& !over ==> notice::is_first_link(event.item.place(), r.link@)
        }),
        r.time@ == moment::clock((event.item.start.secs + event.start_offset) % 86400) + " - "@
            + moment::clock((event.item.end.secs + event.end_offset) % 86400),
{
    proof {
        notice::law_first_link(event.item.place());
    }
    let over = now.is_after(&event.item.end);
    let style = if !event.item.start.is_after(&now) && !over {
        "font-weight: bold;".to_string()
    } else if over {
        "text-decoration: line-through; color: #aaaaaaff".to_string()
    } else {
        String::new()
    };
    let mut time = clock_text(event.item.start, event.start_offset);
    time.append(" - ");
    time.append(clock_text(event.item.end, event.end_offset).as_str());
    let link = if over {
        String::new()
    } else {
        let place = event.item.place_name();
        extract_url(place.as_str()).to_string()
    };
    EventLine { style, time, link }
}

/// Today's date for the head line.
pub fn today_title(today: i32) -> (r: String)
    requires
        moment::FIRST_DAY <= today <= moment::LAST_DAY,
    ensures
        r@ == moment::dotted_date(today as int),
{
    date_text(today)
}

/// The link to the inbox in the head line: its text and its style.
pub open spec fn inbox_label(unread: Option<u32>) -> (Seq<char>, Seq<char>) {
    match unread {
        Some(n) if n > 0 => (
            "непрочитанных писем: "@ + text::decimal(n as nat),
            "font-weight: 700; color: #cc2200;"@,
        ),
        _ => ("Открыть почту в браузере"@, "font-weight: 400; color: #555;"@),
    }
}

/// The link to the inbox in the head line: its text and its style.
pub fn unread_label(unread: Option<u32>) -> (r: (String, String))
    ensures
        (r.0@, r.1@) == inbox_label(unread),
        unread matches Some(n) && n > 0 ==> r.0@ == "непрочитанных писем: "@ + text::decimal(
            unread->0 as nat,
        ),
{
    if let Some(n) = unread {
        if n > 0 {
            let mut label = "непрочитанных писем: ".to_string();
            push_decimal(&mut label, n as u128);
            return (label, "font-weight: 700; color: #cc2200;".to_string());
        }
    }
    (
        "Открыть почту в браузере".to_string(),
        "font-weight: 400; color: #555;".to_string(),
    )
}

// ---------------------------------------------------------------------------
// Laws
// ---------------------------------------------------------------------------

/// The columns are days of the week in order, Monday first.
proof fn lemma_columns(events: Seq<LocalEvent>, today: int)
    ensures
        5 <= columns(events, today).len() <= 7,
        columns(events, today)[0] == 0,
        forall|k: int|
            0 <= k < columns(events, today).len() ==> 0 <= #[trigger] columns(events, today)[k] < 7,
        forall|j: int, k: int|
            0 <= j < k < columns(events, today).len() ==> #[trigger] columns(events, today)[j]
                < #[trigger] columns(events, today)[k],
{
}

/// The last day is not before the first.
proof fn lemma_last_day(events: Seq<LocalEvent>, n: int, first: int)
    requires
        0 <= n <= events.len(),
    ensures
        first <= last_day(events, n, first),
        forall|i: int|
            0 <= i < n && !(#[trigger] events[i]).item.cancelled() && events[i].day()
                <= moment::LAST_DAY ==> events[i].day() <= last_day(events, n, first),
    decreases n,
{
    if n > 0 {
        lemma_last_day(events, n - 1, first);
    }
}

/// Row `w` of the board is week `w`: it starts on that week's Monday and has the board's columns,
/// so that rows and weeks go together.
pub proof fn law_rows_are_weeks(events: Seq<LocalEvent>, today: int, w: int, k: int)
    requires
        0 <= w < week_count(events, today),
        0 <= k < columns(events, today).len(),
    ensures
        ({
            let n = columns(events, today).len();
            &&& 0 <= w * n + k < cell_count(events, today)
            &&& cell_day(events, today, w * n + k) == monday(today) + 7 * w + columns(
                events,
                today,
            )[k]
            &&& moment::weekday(cell_day(events, today, w * n)) == 0
        }),
{
    lemma_columns(events, today);
    let n = columns(events, today).len() as int;
    lemma_row_and_column(w, k, n);
    lemma_row_and_column(w, 0, n);
    let weeks = week_count(events, today);
    assert(w * n + k < weeks * n) by (nonlinear_arith)
        requires
            0 <= w < weeks,
            0 <= k < n,
    ;
    assert(0 <= w * n) by (nonlinear_arith)
        requires
            0 <= w,
            0 <= n,
    ;
}

/// The board starts with the current week and its days come in order.
pub proof fn law_days_in_order(events: Seq<LocalEvent>, today: int, i: int, j: int)
    requires
        0 <= i < j < cell_count(events, today),
    ensures
        cell_day(events, today, 0) == monday(today),
        cell_day(events, today, i) < cell_day(events, today, j),
{
    lemma_columns(events, today);
    let c = columns(events, today);
    let n = c.len() as int;
    vstd::arithmetic::div_mod::lemma_fundamental_div_mod(i, n);
    vstd::arithmetic::div_mod::lemma_fundamental_div_mod(j, n);
    vstd::arithmetic::div_mod::lemma_mod_bound(i, n);
    vstd::arithmetic::div_mod::lemma_mod_bound(j, n);
    vstd::arithmetic::div_mod::lemma_div_is_ordered(i, j, n);
    if i / n == j / n {
        assert(i % n < j % n);
    }
    lemma_row_and_column(0, 0, n);
}

/// Every weekday from Monday to Friday of every week shown has a cell, with or without events;
/// Saturday and Sunday have one exactly where one of the weeks shown has an event on that day.
pub proof fn law_cells_of_a_week(events: Seq<LocalEvent>, today: int, w: int, offset: int)
    requires
        0 <= w < week_count(events, today),
        0 <= offset < 7,
    ensures
        (exists|i: int|
            0 <= i < cell_count(events, today) && #[trigger] cell_day(events, today, i) == monday(
                today,
            ) + 7 * w + offset) <==> offset < 5 || column_used(events, today, offset),
{
    lemma_columns(events, today);
    let c = columns(events, today);
    let n = c.len() as int;
    let day = monday(today) + 7 * w + offset;
    if offset < 5 || column_used(events, today, offset) {
        let k = if offset < 5 {
            offset
        } else if offset == 5 {
            5
        } else {
            n - 1
        };
        assert(c[k] == offset);
        law_rows_are_weeks(events, today, w, k);
        assert(cell_day(events, today, w * n + k) == day);
    }
    if exists|i: int|
        0 <= i < cell_count(events, today) && #[trigger] cell_day(events, today, i) == day {
        let i = choose|i: int|
            0 <= i < cell_count(events, today) && #[trigger] cell_day(events, today, i) == day;
        vstd::arithmetic::div_mod::lemma_mod_bound(i, n);
        assert(0 <= c[i % n] < 7);
        assert(c[i % n] == offset);
    }
}

/// An event's position is among those of its day.
proof fn lemma_events_on(events: Seq<LocalEvent>, n: int, e: int)
    requires
        0 <= e < n <= events.len(),
        !events[e].item.cancelled(),
    ensures
        events_on(events, n, events[e].day()).contains(e),
    decreases n,
{
    let day = events[e].day();
    let list = events_on(events, n, day);
    if e == n - 1 {
        assert(list[list.len() - 1] == e);
    } else {
        lemma_events_on(events, n - 1, e);
        let rest = events_on(events, n - 1, day);
        let k = choose|k: int| 0 <= k < rest.len() && rest[k] == e;
        assert(list[k] == e);
    }
}

/// Every event from the current week on that is not cancelled stands on the board, in the cell of
/// its day.
pub proof fn law_event_on_board(events: Seq<LocalEvent>, today: int, e: int)
    requires
        0 <= e < events.len(),
        !events[e].item.cancelled(),
        monday(today) <= events[e].day() <= moment::LAST_DAY,
    ensures
        exists|i: int|
            0 <= i < cell_count(events, today) && #[trigger] cell_day(events, today, i)
                == events[e].day(),
        events_on(events, events.len() as int, events[e].day()).contains(e),
{
    let first = monday(today);
    let day = events[e].day();
    lemma_events_on(events, events.len() as int, e);
    lemma_last_day(events, events.len() as int, first);
    assert(any_shown(events));
    let w = (day - first) / 7;
    let offset = (day - first) % 7;
    assert(w < week_count(events, today));
    if offset >= 5 {
        assert(events[e].shown_on(first + 7 * w + offset));
        assert(busy(events, first + 7 * w + offset));
    }
    law_cells_of_a_week(events, today, w, offset);
}

/// What stands in a day's cell are events of that day that are not cancelled, in their order.
pub proof fn law_cell_holds_its_events(events: Seq<LocalEvent>, n: int, day: int)
    requires
        0 <= n <= events.len(),
    ensures
        forall|k: int|
            0 <= k < events_on(events, n, day).len() ==> {
                let e = #[trigger] events_on(events, n, day)[k];
                0 <= e < n && events[e].shown_on(day)
            },
        forall|j: int, k: int|
            0 <= j < k < events_on(events, n, day).len() ==> #[trigger] events_on(
                events,
                n,
                day,
            )[j] < #[trigger] events_on(events, n, day)[k],
    decreases n,
{
    if n > 0 {
        law_cell_holds_its_events(events, n - 1, day);
        let rest = events_on(events, n - 1, day);
        let list = events_on(events, n, day);
        assert(forall|k: int| 0 <= k < rest.len() ==> list[k] == #[trigger] rest[k]);
    }
}

/// Whether `board` is what `draw` makes of the events.
pub open spec fn drawn(board: Board, events: Seq<LocalEvent>, today: int) -> bool {
    &&& board.is_empty == !any_shown(events)
    &&& board.day_count == columns(events, today).len()
    &&& board.cells@.len() == cell_count(events, today)
    &&& forall|i: int|
        0 <= i < board.cells@.len() ==> (#[trigger] board.cells@[i]).is_for(
            events,
            today,
            cell_day(events, today, i),
        )
}

/// Whether second `secs` falls on `day` where clocks are `offset` seconds ahead of UTC: it lies in
/// the 86400 seconds that begin with the day's midnight there. Day 719163 began at second 0.
pub open spec fn falls_on(secs: int, offset: int, day: int) -> bool {
    86400 * (day - 719163) <= secs + offset < 86400 * (day - 719163) + 86400
}

/// On the drawn board an event stands in a cell exactly if it is not cancelled and its start, by
/// local clocks, falls on the cell's day. Where and when it ends does not matter.
pub proof fn law_event_in_its_cell(
    board: Board,
    events: Seq<LocalEvent>,
    today: int,
    c: int,
    e: int,
)
    requires
        drawn(board, events, today),
        0 <= c < board.cells@.len(),
        0 <= e < events.len(),
    ensures
        (exists|k: int|
            0 <= k < board.cells@[c].events@.len() && #[trigger] board.cells@[c].events@[k] == e)
            <==> events[e].item.is_cancelled != Some(true) && falls_on(
            events[e].item.start.secs as int,
            events[e].start_offset as int,
            board.cells@[c].day as int,
        ),
{
    let cell = board.cells@[c];
    let day = cell.day as int;
    let n = events.len() as int;
    let list = events_on(events, n, day);
    assert(cell.is_for(events, today, cell_day(events, today, c)));
    assert(positions(cell.events@) == list);
    law_cell_holds_its_events(events, n, day);
    if events[e].item.is_cancelled != Some(true) && falls_on(
        events[e].item.start.secs as int,
        events[e].start_offset as int,
        day,
    ) {
        assert(events[e].day() == day);
        lemma_events_on(events, n, e);
        let k = choose|k: int| 0 <= k < list.len() && list[k] == e;
        assert(positions(cell.events@)[k] == cell.events@[k]);
        assert(cell.events@[k] == e);
    }
    if exists|k: int| 0 <= k < cell.events@.len() && #[trigger] cell.events@[k] == e {
        let k = choose|k: int| 0 <= k < cell.events@.len() && #[trigger] cell.events@[k] == e;
        assert(positions(cell.events@)[k] == e);
        assert(list[k] == e);
    }
}

/// The events of a cell stand in the order in which they were given, each once.
pub proof fn law_cell_in_order(
    board: Board,
    events: Seq<LocalEvent>,
    today: int,
    c: int,
    j: int,
    k: int,
)
    requires
        drawn(board, events, today),
        0 <= c < board.cells@.len(),
        0 <= j < k < board.cells@[c].events@.len(),
    ensures
        board.cells@[c].events@[j] < board.cells@[c].events@[k] < events.len(),
{
    let cell = board.cells@[c];
    assert(cell.is_for(events, today, cell_day(events, today, c)));
    let list = events_on(events, events.len() as int, cell.day as int);
    law_cell_holds_its_events(events, events.len() as int, cell.day as int);
    assert(positions(cell.events@)[j] == list[j]);
    assert(positions(cell.events@)[k] == list[k]);
    assert(list[j] < list[k] < events.len());
}

/// A cell says which day it is for, and whether that is today.
pub proof fn law_cell_head(board: Board, events: Seq<LocalEvent>, today: int, c: int)
    requires
        drawn(board, events, today),
        0 <= c < board.cells@.len(),
    ensures
        board.cells@[c].is_today == (board.cells@[c].day == today),
        board.cells@[c].title@ == moment::weekday_name((board.cells@[c].day - 1) % 7) + ", "@
            + moment::dotted_date(board.cells@[c].day as int),
{
    assert(board.cells@[c].is_for(events, today, cell_day(events, today, c)));
}

/// The current week's Monday: the last day up to today whose number is one more than a multiple of
/// seven, as day 1 was a Monday.
pub proof fn law_monday(today: int)
    ensures
        monday(today) <= today < monday(today) + 7,
        (monday(today) - 1) % 7 == 0,
{
}

/// The board has weeks exactly if there is an event that is not cancelled. They reach at least to
/// the last event, as far as days can be represented, and they end with a week that has one, unless
/// the current week is all there is.
pub proof fn law_weeks(events: Seq<LocalEvent>, today: int)
    ensures
        week_count(events, today) >= 0,
        week_count(events, today) == 0 <==> forall|e: int|
            0 <= e < events.len() ==> (#[trigger] events[e]).item.is_cancelled == Some(true),
        forall|e: int, day: int|
            0 <= e < events.len() && (#[trigger] events[e]).item.is_cancelled != Some(true)
                && #[trigger] falls_on(
                events[e].item.start.secs as int,
                events[e].start_offset as int,
                day,
            ) && day <= 95745399 ==> day < monday(today) + 7 * week_count(events, today),
        week_count(events, today) > 1 ==> exists|e: int, day: int|
            0 <= e < events.len() && (#[trigger] events[e]).item.is_cancelled != Some(true)
                && #[trigger] falls_on(
                events[e].item.start.secs as int,
                events[e].start_offset as int,
                day,
            ) && day >= monday(today) + 7 * (week_count(events, today) - 1),
{
    let first = monday(today);
    let n = events.len() as int;
    lemma_last_day(events, n, first);
    lemma_last_day_reached(events, n, first);
    let last = last_day(events, n, first);
    if !any_shown(events) {
        assert forall|e: int| 0 <= e < events.len() implies (
        #[trigger] events[e]).item.is_cancelled == Some(true) by {
            assert(events[e].item.cancelled());
        }
    } else {
        let e = choose|i: int| 0 <= i < events.len() && !(#[trigger] events[i]).item.cancelled();
        assert(events[e].item.is_cancelled != Some(true));
    }
    assert forall|e: int, day: int|
        0 <= e < events.len() && (#[trigger] events[e]).item.is_cancelled != Some(true)
            && #[trigger] falls_on(
            events[e].item.start.secs as int,
            events[e].start_offset as int,
            day,
        ) && day <= 95745399 implies day < first + 7 * week_count(events, today) by {
        assert(events[e].day() == day);
        assert(!events[e].item.cancelled());
    }
    if week_count(events, today) > 1 {
        assert(last > first);
        let e = choose|e: int|
            0 <= e < n && !(#[trigger] events[e]).item.cancelled() && events[e].day() == last;
        assert(falls_on(
            events[e].item.start.secs as int,
            events[e].start_offset as int,
            last,
        ));
        assert(events[e].item.is_cancelled != Some(true));
    }
}

/// A last day after the first has an event.
proof fn lemma_last_day_reached(events: Seq<LocalEvent>, n: int, first: int)
    requires
        0 <= n <= events.len(),
    ensures
        last_day(events, n, first) > first ==> exists|e: int|
            0 <= e < n && !(#[trigger] events[e]).item.cancelled() && events[e].day() == last_day(
                events,
                n,
                first,
            ),
    decreases n,
{
    if n > 0 {
        lemma_last_day_reached(events, n - 1, first);
        let rest = last_day(events, n - 1, first);
        if last_day(events, n, first) == rest && rest > first {
            let e = choose|e: int|
                0 <= e < n - 1 && !(#[trigger] events[e]).item.cancelled() && events[e].day()
                    == rest;
            assert(!events[e].item.cancelled());
        } else if last_day(events, n, first) > first {
            assert(!events[n - 1].item.cancelled());
        }
    }
}

/// Monday to Friday always have a column. Saturday and Sunday have one exactly if an event that is
/// not cancelled falls on such a day in one of the weeks shown. Columns come in the days' order.
pub proof fn law_columns(events: Seq<LocalEvent>, today: int, offset: int)
    requires
        0 <= offset < 7,
    ensures
        columns(events, today).contains(offset) <==> offset < 5 || exists|e: int, day: int|
            {
                &&& 0 <= e < events.len()
                &&& (#[trigger] events[e]).item.is_cancelled != Some(true)
                &&& #[trigger] falls_on(
                    events[e].item.start.secs as int,
                    events[e].start_offset as int,
                    day,
                )
                &&& monday(today) <= day < monday(today) + 7 * week_count(events, today)
                &&& (day - monday(today)) % 7 == offset
            },
        forall|i: int, j: int|
            0 <= i < j < columns(events, today).len() ==> 0 <= #[trigger] columns(events, today)[i]
                < #[trigger] columns(events, today)[j] < 7,
{
    lemma_columns(events, today);
    let c = columns(events, today);
    let first = monday(today);
    if offset < 5 {
        assert(c[offset] == offset);
    } else {
        if column_used(events, today, offset) {
            let w = choose|w: int|
                0 <= w < week_count(events, today) && #[trigger] busy(
                    events,
                    first + 7 * w + offset,
                );
            let day = first + 7 * w + offset;
            let e = choose|i: int| 0 <= i < events.len() && (#[trigger] events[i]).shown_on(day);
            assert(events[e].item.is_cancelled != Some(true));
            assert(falls_on(
                events[e].item.start.secs as int,
                events[e].start_offset as int,
                day,
            ));
            assert((day - first) % 7 == offset);
            if offset == 5 {
                assert(c[5] == 5);
            } else {
                assert(c[c.len() - 1] == 6);
            }
        }
        if exists|e: int, day: int|
            {
                &&& 0 <= e < events.len()
                &&& (#[trigger] events[e]).item.is_cancelled != Some(true)
                &&& #[trigger] falls_on(
                    events[e].item.start.secs as int,
                    events[e].start_offset as int,
                    day,
                )
                &&& first <= day < first + 7 * week_count(events, today)
                &&& (day - first) % 7 == offset
            } {
            let (e, day) = choose|e: int, day: int|
                {
                    &&& 0 <= e < events.len()
                    &&& (#[trigger] events[e]).item.is_cancelled != Some(true)
                    &&& #[trigger] falls_on(
                        events[e].item.start.secs as int,
                        events[e].start_offset as int,
                        day,
                    )
                    &&& first <= day < first + 7 * week_count(events, today)
                    &&& (day - first) % 7 == offset
                };
            let w = (day - first) / 7;
            assert(events[e].day() == day);
            assert(events[e].shown_on(first + 7 * w + offset));
            assert(busy(events, first + 7 * w + offset));
        }
    }
}

/// Only starts count: events that start at the same times give the same board, whenever they end
/// and whatever else they hold.
pub proof fn law_only_starts_count(a: Seq<LocalEvent>, b: Seq<LocalEvent>, today: int)
    requires
        a.len() == b.len(),
        forall|i: int|
            0 <= i < a.len() ==> {
                &&& (#[trigger] a[i]).item.is_cancelled == (#[trigger] b[i]).item.is_cancelled
                &&& a[i].item.start.secs == b[i].item.start.secs
                &&& a[i].start_offset == b[i].start_offset
            },
    ensures
        cell_count(a, today) == cell_count(b, today),
        columns(a, today) == columns(b, today),
        forall|i: int| #[trigger] cell_day(a, today, i) == cell_day(b, today, i),
        forall|day: int| #[trigger]
            events_on(a, a.len() as int, day) == events_on(b, b.len() as int, day),
{
    assert forall|i: int| 0 <= i < a.len() implies (#[trigger] a[i]).item.cancelled()
        == b[i].item.cancelled() && a[i].day() == b[i].day() by {
        assert(b[i].item.is_cancelled == a[i].item.is_cancelled);
    }
    let n = a.len() as int;
    lemma_same_last_day(a, b, n, monday(today));
    assert forall|day: int| #[trigger] busy(a, day) == busy(b, day) by {
        if busy(a, day) {
            let i = choose|i: int| 0 <= i < a.len() && (#[trigger] a[i]).shown_on(day);
            assert(b[i].shown_on(day));
        }
        if busy(b, day) {
            let i = choose|i: int| 0 <= i < b.len() && (#[trigger] b[i]).shown_on(day);
            assert(a[i].shown_on(day));
        }
    }
    if any_shown(a) {
        let i = choose|i: int| 0 <= i < a.len() && !(#[trigger] a[i]).item.cancelled();
        assert(!b[i].item.cancelled());
    }
    if any_shown(b) {
        let i = choose|i: int| 0 <= i < b.len() && !(#[trigger] b[i]).item.cancelled();
        assert(!a[i].item.cancelled());
    }
    assert forall|offset: int| #[trigger]
        column_used(a, today, offset) == column_used(b, today, offset) by {
        if column_used(a, today, offset) {
            let w = choose|w: int|
                0 <= w < week_count(a, today) && #[trigger] busy(
                    a,
                    monday(today) + 7 * w + offset,
                );
            assert(busy(b, monday(today) + 7 * w + offset));
        }
        if column_used(b, today, offset) {
            let w = choose|w: int|
                0 <= w < week_count(b, today) && #[trigger] busy(
                    b,
                    monday(today) + 7 * w + offset,
                );
            assert(busy(a, monday(today) + 7 * w + offset));
        }
    }
    assert(columns(a, today) == columns(b, today));
    assert forall|day: int| #[trigger]
        events_on(a, a.len() as int, day) == events_on(b, b.len() as int, day) by {
        lemma_same_events_on(a, b, n, day);
    }
}

/// The last day is the same where days and cancellations are.
proof fn lemma_same_last_day(a: Seq<LocalEvent>, b: Seq<LocalEvent>, n: int, first: int)
    requires
        0 <= n <= a.len(),
        forall|i: int|
            0 <= i < n ==> (#[trigger] a[i]).item.cancelled() == b[i].item.cancelled()
                && a[i].day() == b[i].day(),
    ensures
        last_day(a, n, first) == last_day(b, n, first),
    decreases n,
{
    if n > 0 {
        lemma_same_last_day(a, b, n - 1, first);
        assert(a[n - 1].item.cancelled() == b[n - 1].item.cancelled());
    }
}

/// A day's events are the same where days and cancellations are.
proof fn lemma_same_events_on(a: Seq<LocalEvent>, b: Seq<LocalEvent>, n: int, day: int)
    requires
        0 <= n <= a.len(),
        forall|i: int|
            0 <= i < n ==> (#[trigger] a[i]).item.cancelled() == b[i].item.cancelled()
                && a[i].day() == b[i].day(),
    ensures
        events_on(a, n, day) == events_on(b, n, day),
    decreases n,
{
    if n > 0 {
        lemma_same_events_on(a, b, n - 1, day);
        assert(a[n - 1].item.cancelled() == b[n - 1].item.cancelled());
    }
}

/// Whether `line` is what `event_line` makes of an event at the moment `now`.
pub open spec fn lined(line: EventLine, event: LocalEvent, now: Moment) -> bool {
    &&& line.style@ == subject_style(event.item, now)
    &&& line.time@ == event_time(event)
    &&& line.link@ == event_link(event.item, now)
}

/// From its start to its end, both included, an event is bold and has its link; later it is struck
/// through and has none; before, it is plain and has its link. The link is the first word of the
/// place that starts as a web address. The times are those of start and end by local clocks.
pub proof fn law_event_line(
    line: EventLine,
    event: LocalEvent,
    now: Moment,
    place: Seq<char>,
    word: Seq<char>,
)
    requires
        lined(line, event, now),
        event.item.location matches Some(l) ==> place == l.display_name@,
        event.item.location is None ==> place.len() == 0,
        notice::is_first_link(place, word),
    ensures
        ({
            let start = event.item.start;
            let end = event.item.end;
            let started = now.secs > start.secs || (now.secs == start.secs && now.nanos
                >= start.nanos);
            let over = now.secs > end.secs || (now.secs == end.secs && now.nanos > end.nanos);
            &&& started && !over ==> line.style@ == "font-weight: bold;"@
            &&& over ==> line.style@ == "text-decoration: line-through; color: #aaaaaaff"@
            &&& !started && !over ==> line.style@.len() == 0
            &&& !over ==> line.link@ == word
            &&& over ==> line.link@.len() == 0
        }),
        line.time@ == moment::clock((event.item.start.secs + event.start_offset) % 86400) + " - "@
            + moment::clock((event.item.end.secs + event.end_offset) % 86400),
{
    assert(event.item.place() =~= place);
    notice::law_first_link(place);
    notice::law_first_link_is_one(place, word, notice::first_address(place, 0));
}

/// The link to the inbox names the number of unread messages, in digits that can be read back, if
/// there are any.
pub proof fn law_inbox_label(n: u32)
    requires
        n > 0,
    ensures
        ({
            let label = inbox_label(Some(n)).0;
            let words = "непрочитанных писем: "@;
            &&& label.len() > words.len()
            &&& label.take(words.len() as int) == words
            &&& text::all_digits(label.skip(words.len() as int))
            &&& text::number_of(label.skip(words.len() as int)) == n
        }),
        inbox_label(Some(n)).1 == "font-weight: 700; color: #cc2200;"@,
        inbox_label(Some(0)) == inbox_label(None),
        inbox_label(None) == ("Открыть почту в браузере"@, "font-weight: 400; color: #555;"@),
{
    let words = "непрочитанных писем: "@;
    let digits = text::decimal(n as nat);
    text::law_decimal(n as nat);
    assert(inbox_label(Some(n)).0 =~= words + digits);
    assert((words + digits).take(words.len() as int) =~= words);
    assert((words + digits).skip(words.len() as int) =~= digits);
}

/// The board has a cell for each column of each week, and it is empty exactly if all events are
/// cancelled.
pub proof fn law_board_size(board: Board, events: Seq<LocalEvent>, today: int)
    requires
        drawn(board, events, today),
    ensures
        board.day_count == columns(events, today).len(),
        board.cells@.len() == week_count(events, today) * board.day_count,
        board.is_empty <==> forall|e: int|
            0 <= e < events.len() ==> (#[trigger] events[e]).item.is_cancelled == Some(true),
{
    if any_shown(events) {
        let e = choose|i: int| 0 <= i < events.len() && !(#[trigger] events[i]).item.cancelled();
        assert(events[e].item.is_cancelled != Some(true));
    } else {
        assert forall|e: int| 0 <= e < events.len() implies (
        #[trigger] events[e]).item.is_cancelled == Some(true) by {
            assert(events[e].item.cancelled());
        }
    }
}

/// The cells' days follow from weeks and columns: a cell is for the day of its column in the week
/// of its row.
pub proof fn law_cell_day(board: Board, events: Seq<LocalEvent>, today: int, w: int, k: int)
    requires
        drawn(board, events, today),
        0 <= w < week_count(events, today),
        0 <= k < columns(events, today).len(),
    ensures
        ({
            let c = w * columns(events, today).len() + k;
            &&& 0 <= c < board.cells@.len()
            &&& board.cells@[c].day == monday(today) + 7 * w + columns(events, today)[k]
        }),
{
    law_rows_are_weeks(events, today, w, k);
    let c = w * columns(events, today).len() + k;
    assert(board.cells@[c].is_for(events, today, cell_day(events, today, c)));
}

/// A board can be drawn if today, its week's Monday and the Monday after the last week are days
/// that can be represented; without events, the first two are enough.
pub proof fn law_drawable(events: Seq<LocalEvent>, today: int)
    ensures
        drawable(events, today) <==> {
            &&& -95746129 <= monday(today)
            &&& today <= 95745399
            &&& week_count(events, today) > 0 ==> monday(today) + 7 * week_count(events, today)
                <= 95745399
        },
{
    lemma_last_day(events, events.len() as int, monday(today));
}

} // verus!
