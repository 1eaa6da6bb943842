use owa_calendar::extract_url;
use owa_calendar::moment::Moment;
use owa_calendar::notice::{event_notice, sample_notice, unread_notice};
use owa_calendar::types::{CalendarItem, Location, NotificationType};

fn event(place: Option<&str>) -> CalendarItem {
    CalendarItem {
        subject: "Планёрка".to_string(),
        start: Moment { secs: 1709550000, nanos: 0 },
        end: Moment { secs: 1709553600, nanos: 0 },
        location: place.map(|p| Location { display_name: p.to_string() }),
        is_all_day_event: false,
        organizer: None,
        is_cancelled: None,
    }
}

#[test]
fn first_address_in_a_place() {
    assert_eq!(
        extract_url("Room 4, https://meet.example.com/abc tail"),
        "https://meet.example.com/abc"
    );
    assert_eq!(extract_url("see http://a https://b"), "http://a");
    assert_eq!(extract_url("no link here"), "");
    assert_eq!(extract_url(""), "");
    assert_eq!(extract_url("xhttps://x"), "");
    assert_eq!(extract_url("HTTP://x http:/y http://"), "http://");
}

#[test]
fn every_kind_of_white_space_parts_words() {
    let spaces = "\t\n\u{b}\u{c}\r \u{85}\u{a0}\u{1680}\u{2000}\u{2001}\u{2002}\u{2003}\u{2004}\
        \u{2005}\u{2006}\u{2007}\u{2008}\u{2009}\u{200a}\u{2028}\u{2029}\u{202f}\u{205f}\u{3000}";
    for c in spaces.chars() {
        let place = format!("a{}https://x{}y", c, c);
        assert_eq!(extract_url(&place), "https://x");
    }
    // A zero-width space is none.
    assert_eq!(extract_url("a\u{200b}https://x"), "");
    assert_eq!(extract_url("https://x\u{200b}y"), "https://x\u{200b}y");
}

#[test]
fn notification_ahead_of_an_event() {
    let e = event(Some("Зал https://meet.example.com/1 этаж 2"));
    let n = event_notice(&e, NotificationType::FifteenMinutes, 10800);
    assert_eq!(n.summary, "⏰ Через 15 минут: Планёрка");
    assert_eq!(
        n.body,
        "<b>Начало:</b> 14:00\n<a href='https://meet.example.com/1'>https://meet.example.com/1</a>"
    );
    assert!(!n.critical);
}

#[test]
fn notification_at_an_events_start() {
    let e = event(None);
    let n = event_notice(&e, NotificationType::EventStart, -5400);
    assert_eq!(n.summary, "🔔 Началось: Планёрка");
    assert_eq!(n.body, "<b>Время:</b> 09:30\n<a href=''></a>");
    assert!(n.critical);
}

#[test]
fn notification_of_unread_mail() {
    let n = unread_notice(12, "https://owa.example.com/owa/#path=/mail/inbox");
    assert_eq!(n.summary, "📬 У вас 12 непрочитанных писем");
    assert_eq!(
        n.body,
        "<a href='https://owa.example.com/owa/#path=/mail/inbox'>https://owa.example.com/owa/#path=/mail/inbox</a>"
    );
    assert!(!n.critical);
    assert_eq!(unread_notice(u32::MAX, "").summary, "📬 У вас 4294967295 непрочитанных писем");
}

#[test]
fn notification_of_the_test_button() {
    let n = sample_notice();
    assert_eq!(n.summary, "🔔 Some event");
    assert_eq!(n.body, "<b>Start:</b> 10:00\n<a href='https://google.com'>Open</a>");
    assert!(!n.critical);
}
