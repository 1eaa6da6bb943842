use owa_calendar::board::{
    can_draw, day_style, draw, event_line, today_title, unread_label, Board, LocalEvent,
};
use owa_calendar::moment::{Moment, FIRST_DAY, LAST_DAY};
use owa_calendar::types::{CalendarItem, Location};

/// Monday, March 4, 2024.
const MONDAY: i32 = 738949;

/// The first second of that day.
const SECOND: i64 = 1709510400;

/// An event `day` days after that Monday, at `hour` by UTC, for an hour.
fn event(day: i64, hour: i64) -> LocalEvent {
    let start = SECOND + 86400 * day + 3600 * hour;
    let item = CalendarItem {
        subject: "x".to_string(),
        start: Moment { secs: start, nanos: 0 },
        end: Moment { secs: start + 3600, nanos: 0 },
        location: Some(Location { display_name: "at https://meet/1 2".to_string() }),
        is_all_day_event: false,
        organizer: None,
        is_cancelled: None,
    };
    LocalEvent { item, start_offset: 0, end_offset: 0 }
}

fn board(events: &Vec<LocalEvent>, today: i32) -> Board {
    assert!(events.iter().all(|e| e.is_valid()));
    assert!(can_draw(events, today));
    draw(events, today)
}

fn days(board: &Board) -> Vec<i32> {
    board.cells.iter().map(|c| c.day - MONDAY).collect()
}

#[test]
fn a_week_of_working_days() {
    let b = board(&vec![event(2, 9), event(2, 8), event(0, 8)], MONDAY + 3);
    assert!(!b.is_empty);
    assert_eq!(b.day_count, 5);
    assert_eq!(days(&b), vec![0, 1, 2, 3, 4]);
    assert_eq!(b.cells[0].title, "Mon, 04.03.2024");
    assert_eq!(b.cells[1].title, "Tue, 05.03.2024");
    assert_eq!(b.cells[2].title, "Wed, 06.03.2024");
    assert_eq!(b.cells[3].title, "Thu, 07.03.2024");
    assert_eq!(b.cells[4].title, "Fri, 08.03.2024");
    assert_eq!(b.cells[0].events, vec![2]);
    assert_eq!(b.cells[2].events, vec![0, 1]);
    assert_eq!(b.cells[4].events, Vec::<usize>::new());
    let today: Vec<bool> = b.cells.iter().map(|c| c.is_today).collect();
    assert_eq!(today, vec![false, false, false, true, false]);
}

#[test]
fn weeks_go_on_to_the_last_event() {
    let b = board(&vec![event(15, 9)], MONDAY);
    assert_eq!(b.day_count, 5);
    assert_eq!(days(&b), vec![0, 1, 2, 3, 4, 7, 8, 9, 10, 11, 14, 15, 16, 17, 18]);
    assert_eq!(b.cells[11].events, vec![0]);
}

#[test]
fn a_weekend_column_is_there_for_every_week() {
    let b = board(&vec![event(5, 9), event(8, 9)], MONDAY + 1);
    assert_eq!(b.day_count, 6);
    assert_eq!(days(&b), vec![0, 1, 2, 3, 4, 5, 7, 8, 9, 10, 11, 12]);
    assert_eq!(b.cells[5].title, "Sat, 09.03.2024");
    let b = board(&vec![event(13, 9)], MONDAY + 1);
    assert_eq!(b.day_count, 6);
    assert_eq!(days(&b), vec![0, 1, 2, 3, 4, 6, 7, 8, 9, 10, 11, 13]);
    assert_eq!(b.cells[5].title, "Sun, 10.03.2024");
    let b = board(&vec![event(5, 9), event(6, 9)], MONDAY + 6);
    assert_eq!(b.day_count, 7);
    assert_eq!(days(&b), vec![0, 1, 2, 3, 4, 5, 6]);
}

#[test]
fn past_weeks_are_not_shown() {
    let b = board(&vec![event(-2, 9), event(-1, 9), event(1, 9)], MONDAY);
    assert_eq!(b.day_count, 5);
    assert_eq!(days(&b), vec![0, 1, 2, 3, 4]);
    // With only past events the current week is shown.
    let b = board(&vec![event(-3, 9)], MONDAY);
    assert!(!b.is_empty);
    assert_eq!(days(&b), vec![0, 1, 2, 3, 4]);
    assert!(b.cells.iter().all(|c| c.events.is_empty()));
}

#[test]
fn nothing_to_show() {
    let b = board(&vec![], MONDAY);
    assert!(b.is_empty);
    assert_eq!(b.day_count, 5);
    assert_eq!(days(&b), Vec::<i32>::new());
    let mut cancelled = event(1, 9);
    cancelled.item.is_cancelled = Some(true);
    let b = board(&vec![cancelled], MONDAY);
    assert!(b.is_empty);
    assert!(b.cells.is_empty());
}

#[test]
fn cancelled_events_are_not_shown() {
    let mut cancelled = event(6, 9);
    cancelled.item.is_cancelled = Some(true);
    let b = board(&vec![cancelled, event(0, 9)], MONDAY);
    assert_eq!(b.day_count, 5);
    assert_eq!(b.cells[0].events, vec![1]);
}

#[test]
fn local_time_tells_the_day() {
    let mut late = event(0, 22);
    late.start_offset = 10800;
    let b = board(&vec![late], MONDAY);
    assert_eq!(b.cells[0].events, Vec::<usize>::new());
    assert_eq!(b.cells[1].events, vec![0]);
}

#[test]
fn what_can_be_drawn() {
    assert!(can_draw(&vec![], LAST_DAY));
    assert!(!can_draw(&vec![], LAST_DAY + 1));
    assert!(!can_draw(&vec![], FIRST_DAY - 1));
    assert!(!can_draw(&vec![event(0, 0)], LAST_DAY));
    let mut e = event(0, 0);
    assert!(e.is_valid());
    e.end_offset = 86400;
    assert!(!e.is_valid());
}

#[test]
fn styles_of_days() {
    assert_eq!(
        day_style(true),
        "border: 2px solid #f1e8ddff; padding: 8px; display: flex; flex-direction: column; background-color: #f1e8ddff;"
    );
    assert_eq!(
        day_style(false),
        "border: 1px solid #f2ded7; padding: 8px; display: flex; flex-direction: column; background-color: unset;"
    );
}

#[test]
fn lines_of_events() {
    let mut e = event(0, 9);
    e.start_offset = 10800;
    e.end_offset = 7200;
    let at = |secs: i64, nanos: u32| Moment { secs: SECOND + secs, nanos };
    let before = event_line(&e, at(9 * 3600 - 1, 999_999_999));
    assert_eq!(before.time, "12:00 - 12:00");
    assert_eq!(before.style, "");
    assert_eq!(before.link, "https://meet/1");
    let first = event_line(&e, at(9 * 3600, 0));
    assert_eq!(first.style, "font-weight: bold;");
    let last = event_line(&e, at(10 * 3600, 0));
    assert_eq!(last.style, "font-weight: bold;");
    assert_eq!(last.link, "https://meet/1");
    let over = event_line(&e, at(10 * 3600, 1));
    assert_eq!(over.style, "text-decoration: line-through; color: #aaaaaaff");
    assert_eq!(over.link, "");
    e.item.location = None;
    assert_eq!(event_line(&e, at(0, 0)).link, "");
}

#[test]
fn head_line() {
    assert_eq!(today_title(MONDAY), "04.03.2024");
    assert_eq!(
        unread_label(Some(3)),
        (
            "непрочитанных писем: 3".to_string(),
            "font-weight: 700; color: #cc2200;".to_string()
        )
    );
    let none = (
        "Открыть почту в браузере".to_string(),
        "font-weight: 400; color: #555;".to_string(),
    );
    assert_eq!(unread_label(Some(0)), none);
    assert_eq!(unread_label(None), none);
}
