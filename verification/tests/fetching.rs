use owa_calendar::config::{AppConfig, CalendarConfig};
use owa_calendar::fetch::{config_error, Fetch, FetchAction, FetchEvent, RequestClock};
use owa_calendar::http::{HttpReply, HttpRequest};
use owa_calendar::login::{LoginAction, LoginEvent};
use owa_calendar::moment::Moment;
use owa_calendar::requests::{RequestTime, ViewRange};
use owa_calendar::types::{CalendarItem, CalendarResponse, ResponseBody};

fn settings() -> AppConfig {
    AppConfig {
        calendar: CalendarConfig {
            host: "https://owa.example.com/".to_string(),
            username: "CORP\\ann".to_string(),
            password: "secret".to_string(),
            fetch: 10,
            notify: 15,
            build_version: "15".to_string(),
            action_calendar_view: -27,
            action_calendar_folders: -8,
            action_get_folder: -57,
        },
    }
}

fn clock() -> RequestClock {
    let now = Moment { secs: 1709550000, nanos: 0 };
    let clock = RequestClock {
        time: RequestTime { nanos: 1709550000000000000, begin: now, offset: 0 },
        range: ViewRange { start_now: now, start_offset: 0, end_now: now, end_offset: 0 },
    };
    assert!(clock.is_valid());
    clock
}

fn step(fetch: &mut Fetch, event: FetchEvent) -> FetchAction {
    assert!(fetch.accepts(&event));
    fetch.step(event, &clock())
}

fn sent(action: FetchAction) -> HttpRequest {
    match action {
        FetchAction::Send { request } => request,
        FetchAction::SendView { request } => {
            assert_eq!(value(&request, "Action"), "GetCalendarView");
            request
        }
        _ => unreachable!(),
    }
}

fn value<'a>(request: &'a HttpRequest, name: &str) -> &'a str {
    request.headers.iter().find(|h| h.name == name).map(|h| h.value.as_str()).unwrap()
}

fn end(action: FetchAction) -> Result<(Vec<CalendarItem>, u32), String> {
    match action {
        FetchAction::Finish { result } => result,
        _ => unreachable!(),
    }
}

fn reply(status: u16, body: &str) -> FetchEvent {
    FetchEvent::Reply { status, body: body.to_string() }
}

fn view(code: &str, subject: &str) -> FetchEvent {
    let start = Moment { secs: 1709550000, nanos: 0 };
    let item = CalendarItem {
        subject: subject.to_string(),
        start,
        end: start,
        location: None,
        is_all_day_event: true,
        organizer: None,
        is_cancelled: Some(false),
    };
    let body = ResponseBody { response_code: code.to_string(), items: vec![item] };
    FetchEvent::View(Ok(CalendarResponse { body }))
}

/// A fetching that has just logged in by the form.
fn logged_in() -> Fetch {
    let (mut fetch, action) = Fetch::start(settings());
    match action {
        FetchAction::Login { action: LoginAction::PostForm { url, .. } } => {
            assert_eq!(url, "https://owa.example.com/owa/auth.owa")
        }
        _ => unreachable!(),
    }
    let ok = HttpReply {
        status: 200,
        url: "https://owa.example.com/owa/".to_string(),
        path: "/owa/".to_string(),
        challenges: vec![],
    };
    match step(&mut fetch, FetchEvent::Login(LoginEvent::Reply(ok))) {
        FetchAction::Login { action: LoginAction::ReadCookies { url } } => {
            assert_eq!(url, "https://owa.example.com/owa/")
        }
        _ => unreachable!(),
    }
    let cookies = LoginEvent::Cookies(Some(b"X-OWA-CANARY=can".to_vec()));
    let request = sent(step(&mut fetch, FetchEvent::Login(cookies)));
    assert_eq!(value(&request, "Action"), "GetCalendarFolders");
    assert_eq!(value(&request, "X-OWA-CANARY"), "can");
    fetch
}

const FOLDERS: &str = r#"{"CalendarFolders": [{"FolderId": {"Id": "f/1"}}]}"#;
const UNREAD: &str =
    r#"{"Body": {"ResponseMessages": {"Items": [{"Folders": [{"UnreadCount": 4}]}]}}}"#;

#[test]
fn everything_is_fetched() {
    let mut fetch = logged_in();
    let request = sent(step(&mut fetch, reply(200, FOLDERS)));
    assert_eq!(value(&request, "Action"), "GetCalendarView");
    assert_eq!(value(&request, "X-OWA-CANARY"), "can");
    let data = value(&request, "X-OWA-UrlPostData");
    assert!(data.contains("f%2F1"));
    assert!(data.contains("2024-02-23T11:00:00.000"));
    assert!(data.contains("2024-03-25T11:00:00.000"));
    let request = sent(step(&mut fetch, view("NoError", "Stand-up")));
    assert_eq!(value(&request, "Action"), "GetFolder");
    assert_eq!(value(&request, "X-OWA-CANARY"), "can");
    let (items, unread) = end(step(&mut fetch, reply(200, UNREAD))).unwrap();
    assert_eq!(items.len(), 1);
    assert_eq!(items[0].subject, "Stand-up");
    assert_eq!(unread, 4);
    assert!(!fetch.accepts(&reply(200, UNREAD)));
}

#[test]
fn login_that_fails() {
    let (mut fetch, _) = Fetch::start(settings());
    let failed = FetchEvent::Login(LoginEvent::Failed("down".to_string()));
    assert_eq!(end(step(&mut fetch, failed)), Err("down".to_string()));
    assert!(!fetch.accepts(&FetchEvent::Failed(String::new())));
}

#[test]
fn folder_that_is_not_found() {
    let mut fetch = logged_in();
    assert_eq!(
        end(step(&mut fetch, reply(503, ""))),
        Err("Failed to discover calendar folder: GetCalendarFolders: server returned 503 Service Unavailable".to_string())
    );
    let mut fetch = logged_in();
    assert_eq!(
        end(step(&mut fetch, FetchEvent::Failed("reset".to_string()))),
        Err("Failed to discover calendar folder: reset".to_string())
    );
}

#[test]
fn view_that_fails() {
    let mut fetch = logged_in();
    sent(step(&mut fetch, reply(200, FOLDERS)));
    assert!(!fetch.accepts(&reply(200, "")));
    assert_eq!(
        end(step(&mut fetch, view("ErrorItemNotFound", ""))),
        Err("OWA error: ErrorItemNotFound".to_string())
    );
    let mut fetch = logged_in();
    sent(step(&mut fetch, reply(200, FOLDERS)));
    let unreadable = FetchEvent::View(Err("missing field".to_string()));
    assert_eq!(end(step(&mut fetch, unreadable)), Err("missing field".to_string()));
    let mut fetch = logged_in();
    sent(step(&mut fetch, reply(200, FOLDERS)));
    let failed = FetchEvent::Failed("reset".to_string());
    assert_eq!(end(step(&mut fetch, failed)), Err("reset".to_string()));
}

#[test]
fn unread_messages_that_fail() {
    let mut fetch = logged_in();
    sent(step(&mut fetch, reply(200, FOLDERS)));
    sent(step(&mut fetch, view("NoError", "")));
    assert_eq!(
        end(step(&mut fetch, reply(500, "oops"))),
        Err("expected value at line 1 column 1".to_string())
    );
    // The status of this reply does not matter.
    let mut fetch = logged_in();
    sent(step(&mut fetch, reply(200, FOLDERS)));
    sent(step(&mut fetch, view("NoError", "")));
    assert_eq!(end(step(&mut fetch, reply(500, UNREAD))).unwrap().1, 4);
}

#[test]
fn settings_that_cannot_be_read() {
    assert_eq!(config_error("missing field `host`"), "Failed to load config: missing field `host`");
}
