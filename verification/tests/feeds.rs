use owa_calendar::feed::Feed;

#[test]
fn unread_mail_is_told_of_once() {
    let mut feed = Feed::new();
    feed.begin();
    assert!(feed.is_loading);
    assert!(feed.loaded(3));
    assert!(!feed.is_loading);
    assert_eq!(feed.unread, Some(3));
    assert!(!feed.loaded(3));
    assert!(feed.loaded(2));
    assert!(!feed.loaded(0));
    assert!(feed.loaded(2));
}

#[test]
fn no_unread_mail_is_not_told_of() {
    let mut feed = Feed::new();
    assert!(!feed.loaded(0));
    assert_eq!(feed.unread, Some(0));
}

#[test]
fn errors_of_updates_asked_for_are_kept() {
    let mut feed = Feed::new();
    feed.begin();
    feed.failed("quiet", false);
    assert!(!feed.is_loading);
    assert_eq!(feed.error, "");
    feed.failed("loud", true);
    assert_eq!(feed.error, "loud");
    feed.failed("quiet", false);
    assert_eq!(feed.error, "loud");
    assert!(feed.loaded(1));
    assert_eq!(feed.error, "loud");
}

#[test]
fn what_stands_on_an_empty_board() {
    let mut feed = Feed::new();
    assert_eq!(feed.empty_board_note(true), Some(String::new()));
    assert_eq!(feed.empty_board_note(false), None);
    feed.begin();
    assert_eq!(feed.empty_board_note(true), None);
    feed.failed("no route", true);
    assert_eq!(feed.empty_board_note(true), Some("no route".to_string()));
    assert_eq!(feed.empty_board_note(false), None);
}
