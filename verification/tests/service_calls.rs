use owa_calendar::config::{AppConfig, CalendarConfig};
use owa_calendar::http::HttpRequest;
use owa_calendar::json::{parse_json, Json};
use owa_calendar::moment::Moment;
use owa_calendar::requests::{
    calendar_folder_id, calendar_folders_request, calendar_view_request, read_calendar_folders,
    read_calendar_view, read_unread_count, unread_count, unread_count_request, RequestTime,
    ViewRange,
};
use owa_calendar::types::{CalendarItem, CalendarResponse, ResponseBody};
use owa_calendar::OwaSession;

fn settings() -> AppConfig {
    AppConfig {
        calendar: CalendarConfig {
            host: "https://owa.example.com//".to_string(),
            username: "CORP\\ann".to_string(),
            password: "secret".to_string(),
            fetch: 10,
            notify: 15,
            build_version: "15.2.1748.10".to_string(),
            action_calendar_view: -27,
            action_calendar_folders: -8,
            action_get_folder: 57,
        },
    }
}

fn time() -> RequestTime {
    RequestTime {
        nanos: 1709550000123456789,
        begin: Moment { secs: 1709550000, nanos: 123_456_789 },
        offset: 10800,
    }
}

fn range() -> ViewRange {
    let now = Moment { secs: 1709550000, nanos: 7_000_000 };
    ViewRange { start_now: now, start_offset: 10800, end_now: now, end_offset: 14400 }
}

fn session(basic: Option<&str>) -> OwaSession {
    OwaSession { canary: "c4n".to_string(), basic_auth_header: basic.map(|s| s.to_string()) }
}

fn pairs(request: &HttpRequest) -> Vec<(&str, &str)> {
    request.headers.iter().map(|h| (h.name.as_str(), h.value.as_str())).collect()
}

fn value<'a>(request: &'a HttpRequest, name: &str) -> Option<&'a str> {
    request.headers.iter().find(|h| h.name == name).map(|h| h.value.as_str())
}

const ID: &str = "000000000000000017B98AAAE320AD15_1709550000123";

#[test]
fn request_for_calendars() {
    let r = calendar_folders_request(&session(None), &settings(), &time());
    assert_eq!(
        r.url,
        "https://owa.example.com/owa/service.svc?action=GetCalendarFolders&EP=1&ID=-8&AC=1"
    );
    assert_eq!(
        pairs(&r),
        vec![
            ("Accept", "*/*"),
            ("Action", "GetCalendarFolders"),
            ("Cache-Control", "no-cache"),
            ("Connection", "keep-alive"),
            ("Content-Length", "0"),
            ("Content-Type", "application/json; charset=UTF-8"),
            ("Origin", "https://owa.example.com"),
            ("X-OWA-ActionId", "-8"),
            ("X-OWA-ActionName", "GetCalendarFoldersAction"),
            ("X-OWA-Attempt", "1"),
            ("X-OWA-CANARY", "c4n"),
            ("X-OWA-ClientBegin", "2024-03-04T14:00:00.123"),
            ("X-OWA-ClientBuildVersion", "15.2.1748.10"),
            ("X-OWA-CorrelationId", ID),
            ("X-OWA-UrlPostData", "%7B%7D"),
            ("X-Requested-With", "XMLHttpRequest"),
            ("client-request-id", ID),
        ]
    );
}

#[test]
fn request_for_events() {
    let r = calendar_view_request(&session(None), &settings(), "AAMk=/+", &range(), &time());
    assert_eq!(
        r.url,
        "https://owa.example.com/owa/service.svc?action=GetCalendarView&EP=1&ID=-27&AC=1"
    );
    let data = value(&r, "X-OWA-UrlPostData").unwrap();
    assert!(data.starts_with("%7B%22__type%22%3A%22GetCalendarViewJsonRequest%3A%23Exchange%22"));
    assert!(data.ends_with(
        "%22Id%22%3A%22AAMk%3D%2F%2B%22%7D%7D%2C%22RangeStart%22%3A%222024-02-23T14:00:00.007%22%2C%22RangeEnd%22%3A%222024-03-25T15:00:00.007%22%7D%7D"
    ));
    let names: Vec<&str> = r.headers.iter().map(|h| h.name.as_str()).collect();
    assert_eq!(
        names,
        vec![
            "Accept",
            "Accept-Language",
            "Action",
            "Cache-Control",
            "Connection",
            "Content-Length",
            "Content-Type",
            "Origin",
            "Pragma",
            "Sec-Fetch-Dest",
            "Sec-Fetch-Mode",
            "Sec-Fetch-Site",
            "X-OWA-ActionId",
            "X-OWA-ActionName",
            "X-OWA-Attempt",
            "X-OWA-CANARY",
            "X-OWA-ClientBegin",
            "X-OWA-ClientBuildVersion",
            "X-OWA-CorrelationId",
            "X-OWA-UrlPostData",
            "X-Requested-With",
            "client-request-id",
            "sec-ch-ua",
            "sec-ch-ua-mobile",
            "sec-ch-ua-platform",
        ]
    );
    assert_eq!(value(&r, "X-OWA-ActionName"), Some("GetCalendarViewAction_PrefetchMonth"));
    assert_eq!(
        value(&r, "sec-ch-ua"),
        Some("\"Google Chrome\";v=\"141\", \"Not?A_Brand\";v=\"8\", \"Chromium\";v=\"141\"")
    );
    assert_eq!(value(&r, "sec-ch-ua-platform"), Some("\"Linux\""));
}

/// What percent-encoded JSON stands for.
fn decoded(data: &str) -> serde_json::Value {
    let mut bytes: Vec<u8> = Vec::new();
    let mut rest = data.as_bytes();
    while !rest.is_empty() {
        if rest[0] == b'%' {
            let hex = std::str::from_utf8(&rest[1..3]).unwrap();
            bytes.push(u8::from_str_radix(hex, 16).unwrap());
            rest = &rest[3..];
        } else {
            bytes.push(rest[0]);
            rest = &rest[1..];
        }
    }
    serde_json::from_slice(&bytes).unwrap()
}

#[test]
fn payloads_are_json() {
    let r = calendar_view_request(&session(None), &settings(), "AQ\\/=Я", &range(), &time());
    let bad = value(&r, "X-OWA-UrlPostData").unwrap();
    assert!(bad.contains("AQ%5C%2F%3D%D0%AF"));
    let r = calendar_view_request(&session(None), &settings(), "AQ/=Я", &range(), &time());
    let body = &decoded(value(&r, "X-OWA-UrlPostData").unwrap())["Body"];
    assert_eq!(body["CalendarId"]["BaseFolderId"]["Id"], "AQ/=Я");
    assert_eq!(body["RangeStart"], "2024-02-23T14:00:00.007");
    assert_eq!(body["RangeEnd"], "2024-03-25T15:00:00.007");
    let r = unread_count_request(&session(None), &settings(), &time());
    let data = decoded(value(&r, "X-OWA-UrlPostData").unwrap());
    assert_eq!(data["Body"]["FolderIds"][0]["Id"], "inbox");
    let field = &data["Body"]["FolderShape"]["AdditionalProperties"][0]["FieldURI"];
    assert_eq!(field, "folder:UnreadCount");
    assert_eq!(
        data["Header"]["TimeZoneContext"]["TimeZoneDefinition"]["Id"],
        "Russian Standard Time"
    );
}

#[test]
fn request_for_unread_messages() {
    let r = unread_count_request(&session(None), &settings(), &time());
    assert_eq!(
        r.url,
        "https://owa.example.com/owa/service.svc?action=GetFolder&EP=1&ID=57&AC=1"
    );
    let names: Vec<&str> = r.headers.iter().map(|h| h.name.as_str()).collect();
    assert_eq!(
        names,
        vec![
            "Accept",
            "Action",
            "Cache-Control",
            "Connection",
            "Content-Length",
            "Content-Type",
            "X-OWA-ActionId",
            "X-OWA-ActionName",
            "X-OWA-Attempt",
            "X-OWA-CANARY",
            "X-OWA-ClientBegin",
            "X-OWA-ClientBuildVersion",
            "X-OWA-CorrelationId",
            "X-OWA-UrlPostData",
            "X-Requested-With",
            "client-request-id",
        ]
    );
    assert_eq!(value(&r, "X-OWA-ActionName"), Some("GetFolderAction"));
}

#[test]
fn requests_carry_the_session() {
    for basic in [None, Some("Basic Og==")] {
        let s = session(basic);
        let all = [
            calendar_folders_request(&s, &settings(), &time()),
            calendar_view_request(&s, &settings(), "x", &range(), &time()),
            unread_count_request(&s, &settings(), &time()),
        ];
        for r in all {
            assert_eq!(value(&r, "Authorization"), basic);
            assert_eq!(value(&r, "X-OWA-CANARY"), Some("c4n"));
        }
    }
}

#[test]
fn range_of_a_view() {
    assert!(range().is_valid());
    let mut r = range();
    r.end_offset = 86400;
    assert!(!r.is_valid());
    r = range();
    r.start_now = Moment { secs: owa_calendar::moment::FIRST_SECOND + 863999, nanos: 0 };
    assert!(!r.is_valid());
    r.start_now.secs += 1;
    assert!(r.is_valid());
}

#[test]
fn folder_of_the_default_calendar() {
    let body = r#"{"CalendarGroups": [
        {"Calendars": [{"CalendarFolderId": {"Id": "one"}, "IsDefaultCalendar": false}]},
        {"Name": "no calendars"},
        {"Calendars": [
            {"CalendarFolderId": {"Id": "two"}},
            {"CalendarFolderId": {"Id": "three"}, "IsDefaultCalendar": true},
            {"CalendarFolderId": {"Id": "four"}, "IsDefaultCalendar": true}]}],
        "CalendarFolders": [{"FolderId": {"Id": "five"}}]}"#;
    assert_eq!(read_calendar_folders(200, body), Ok("three".to_string()));
    assert_eq!(read_calendar_folders(299, body), Ok("three".to_string()));
}

#[test]
fn folder_where_no_calendar_is_the_default() {
    let folders = r#"{"CalendarFolders": [{"FolderId": {"Id": "five"}}, {"FolderId": {"Id": "six"}}]}"#;
    assert_eq!(read_calendar_folders(200, folders), Ok("five".to_string()));
    let marked = r#"{"CalendarGroups": [{"Calendars": [{"IsDefaultCalendar": "true", "CalendarFolderId": {"Id": "one"}}]}],
        "CalendarFolders": [{"FolderId": {"Id": "five"}}]}"#;
    assert_eq!(read_calendar_folders(200, marked), Ok("five".to_string()));
}

#[test]
fn no_folder() {
    let missing = Err("GetCalendarFolders: cannot find FolderId in response".to_string());
    assert_eq!(read_calendar_folders(200, "{}"), missing);
    assert_eq!(read_calendar_folders(200, "[1, 2]"), missing);
    // A default calendar without an id is not passed over.
    let body = r#"{"CalendarGroups": [{"Calendars": [{"IsDefaultCalendar": true}]}],
        "CalendarFolders": [{"FolderId": {"Id": "five"}}]}"#;
    assert_eq!(read_calendar_folders(200, body), missing);
    let number = r#"{"CalendarFolders": [{"FolderId": {"Id": 5}}]}"#;
    assert_eq!(read_calendar_folders(200, number), missing);
}

#[test]
fn folders_refused_or_unreadable() {
    assert_eq!(
        read_calendar_folders(440, "{}"),
        Err("GetCalendarFolders: server returned 440 <unknown status code>".to_string())
    );
    assert_eq!(
        read_calendar_folders(500, "{}"),
        Err("GetCalendarFolders: server returned 500 Internal Server Error".to_string())
    );
    assert_eq!(
        read_calendar_folders(199, "{}"),
        Err("GetCalendarFolders: server returned 199 <unknown status code>".to_string())
    );
    assert_eq!(
        read_calendar_folders(302, "{}"),
        Err("GetCalendarFolders: server returned 302 Found".to_string())
    );
    assert_eq!(
        read_calendar_folders(200, "<html>"),
        Err("GetCalendarFolders: failed to parse: expected value at line 1 column 1".to_string())
    );
}

fn record(entries: Vec<(&str, Json)>) -> Json {
    Json::Record(entries.into_iter().map(|(k, v)| (k.to_string(), v)).collect())
}

#[test]
fn folder_in_a_value() {
    let id = record(vec![("Id", Json::Text("x1".to_string()))]);
    let calendar = record(vec![("IsDefaultCalendar", Json::Bool(true)), ("CalendarFolderId", id)]);
    let group = record(vec![("Calendars", Json::List(vec![Json::Null, calendar]))]);
    let reply = record(vec![("CalendarGroups", Json::List(vec![Json::Bool(true), group]))]);
    assert_eq!(calendar_folder_id(&reply), Ok("x1".to_string()));
    assert!(calendar_folder_id(&Json::Null).is_err());
}

#[test]
fn parsed_json() {
    let parsed = parse_json(r#" {"b": [null, true, "t", 18446744073709551615, -1, 1.5]} "#).unwrap();
    let entries = match parsed {
        Json::Record(entries) => entries,
        _ => unreachable!(),
    };
    assert_eq!(entries.len(), 1);
    assert_eq!(entries[0].0, "b");
    let items = match &entries[0].1 {
        Json::List(items) => items,
        _ => unreachable!(),
    };
    assert!(matches!(items[0], Json::Null));
    assert!(matches!(items[1], Json::Bool(true)));
    assert!(matches!(&items[2], Json::Text(t) if t == "t"));
    assert!(matches!(items[3], Json::Number(Some(u64::MAX))));
    assert!(matches!(items[4], Json::Number(None)));
    assert!(matches!(items[5], Json::Number(None)));
    assert!(parse_json("{").is_err());
}

fn response(code: &str) -> CalendarResponse {
    let start = Moment { secs: 0, nanos: 0 };
    let item = CalendarItem {
        subject: "a".to_string(),
        start,
        end: start,
        location: None,
        is_all_day_event: false,
        organizer: None,
        is_cancelled: None,
    };
    CalendarResponse { body: ResponseBody { response_code: code.to_string(), items: vec![item] } }
}

#[test]
fn events_of_a_view() {
    assert_eq!(read_calendar_view(response("NoError")).unwrap(), response("NoError").body.items);
    assert_eq!(
        read_calendar_view(response("ErrorAccessDenied")),
        Err("OWA error: ErrorAccessDenied".to_string())
    );
    assert_eq!(read_calendar_view(response("")), Err("OWA error: ".to_string()));
}

fn unread(count: &str) -> String {
    format!(
        r#"{{"Body": {{"ResponseMessages": {{"Items": [{{"Folders": [{{"UnreadCount": {}}}]}}]}}}}}}"#,
        count
    )
}

#[test]
fn number_of_unread_messages() {
    assert_eq!(read_unread_count(&unread("7")), Ok(7));
    assert_eq!(read_unread_count(&unread("4294967295")), Ok(u32::MAX));
    assert_eq!(read_unread_count(&unread("4294967299")), Ok(3));
    assert_eq!(read_unread_count(&unread("-7")), Ok(0));
    assert_eq!(read_unread_count(&unread("\"7\"")), Ok(0));
    assert_eq!(read_unread_count("{}"), Ok(0));
    assert_eq!(
        read_unread_count(""),
        Err("EOF while parsing a value at line 1 column 0".to_string())
    );
    assert_eq!(unread_count(&Json::Number(Some(7))), 0);
    assert_eq!(unread_count(&parse_json(&unread("12")).unwrap()), 12);
}
