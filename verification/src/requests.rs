//! The calls of OWA's service.svc and what their replies say.
use vstd::prelude::*;
use vstd::utf8::*;

use crate::config::AppConfig;
use crate::encode::{self, generate_correlation_id, url_encode};
use crate::http::{self, push_header, status_text, Header, HttpRequest};
use crate::json::{self, as_text, field, item, parse_json, Json, Tree};
use crate::moment::{self, is_offset, is_shiftable, shift, stamp_text, Moment};
use crate::session::{OwaSession, SessionView};
use crate::text::{self, same_text, signed_text, trim_end_slashes};
use crate::types::{CalendarItem, CalendarResponse};

verus! {

/// When a request is made.
#[derive(Debug, Clone, Copy)]
pub struct RequestTime {
    /// Nanoseconds since the Unix epoch, from which the correlation id is made.
    pub nanos: u128,
    /// The moment that the request gives as its beginning.
    pub begin: Moment,
    /// How many seconds local clocks were ahead of UTC then.
    pub offset: i32,
}

impl RequestTime {
    /// Whether the moment and the offset can be represented.
    pub open spec fn valid(&self) -> bool {
        self.begin.valid() && moment::valid_offset(self.offset)
    }

    /// Whether the moment and the offset can be represented.
    pub fn is_valid(&self) -> (r: bool)
        ensures
            r == self.valid(),
    {
        self.begin.is_valid() && is_offset(self.offset)
    }
}

/// The address of a call.
pub open spec fn service_url(host: Seq<char>, action: Seq<char>, id: int) -> Seq<char> {
    text::without_end_slashes(host) + "/owa/service.svc?action="@ + action + "&EP=1&ID="@
        + text::signed_decimal(id) + "&AC=1"@
}

/// The address of a call.
fn call_url(host: &str, action: &str, id: i32) -> (r: String)
    ensures
        r@ == service_url(host@, action@, id as int),
{
    let mut url = trim_end_slashes(host);
    url.append("/owa/service.svc?action=");
    url.append(action);
    url.append("&EP=1&ID=");
    url.append(signed_text(id).as_str());
    url.append("&AC=1");
    assert(url@ =~= service_url(host@, action@, id as int));
    url
}

/// The header that repeats the credentials, where the session has to.
pub open spec fn auth_headers(session: SessionView) -> Seq<http::Pair> {
    match session.basic {
        Some(h) => seq![("Authorization"@, h)],
        None => seq![],
    }
}

/// A request's headers, behind the one that repeats the credentials where the session has to.
fn apply_auth(session: &OwaSession, headers: Vec<Header>) -> (r: Vec<Header>)
    ensures
        http::pairs(r@) == auth_headers(session@) + http::pairs(headers@),
{
    let ghost given = headers@;
    let mut rest = headers;
    let mut out: Vec<Header> = Vec::new();
    assert(http::pairs(out@) =~= seq![]);
    match &session.basic_auth_header {
        Some(h) => {
            push_header(&mut out, "Authorization", h.as_str());
        },
        None => {},
    }
    assert(http::pairs(out@) =~= auth_headers(session@));
    let ghost auth = out@;
    out.append(&mut rest);
    assert(http::pairs(auth + given) =~= http::pairs(auth) + http::pairs(given));
    out
}

// ---------------------------------------------------------------------------
// GetCalendarFolders
// ---------------------------------------------------------------------------

/// The headers of `GetCalendarFolders` but the one that repeats the credentials.
pub open spec fn folders_fields(
    session: SessionView,
    config: AppConfig,
    time: RequestTime,
) -> Seq<http::Pair> {
    let id = encode::correlation_id(time.nanos as nat);
    seq![
        ("Accept"@, "*/*"@),
        ("Action"@, "GetCalendarFolders"@),
        ("Cache-Control"@, "no-cache"@),
        ("Connection"@, "keep-alive"@),
        ("Content-Length"@, "0"@),
        ("Content-Type"@, "application/json; charset=UTF-8"@),
        ("Origin"@, text::without_end_slashes(config.calendar.host@)),
        ("X-OWA-ActionId"@, text::signed_decimal(config.calendar.action_calendar_folders as int)),
        ("X-OWA-ActionName"@, "GetCalendarFoldersAction"@),
        ("X-OWA-Attempt"@, "1"@),
        ("X-OWA-CANARY"@, session.canary),
        ("X-OWA-ClientBegin"@, moment::stamp(time.begin, time.offset as int)),
        ("X-OWA-ClientBuildVersion"@, config.calendar.build_version@),
        ("X-OWA-CorrelationId"@, id),
        ("X-OWA-UrlPostData"@, "%7B%7D"@),
        ("X-Requested-With"@, "XMLHttpRequest"@),
        ("client-request-id"@, id),
    ]
}

/// The headers of `GetCalendarFolders`.
pub open spec fn folders_headers(
    session: SessionView,
    config: AppConfig,
    time: RequestTime,
) -> Seq<http::Pair> {
    auth_headers(session) + folders_fields(session, config, time)
}

/// The request for the list of calendars.
pub fn calendar_folders_request(
    session: &OwaSession,
    config: &AppConfig,
    time: &RequestTime,
) -> (r: HttpRequest)
    requires
        time.valid(),
    ensures
        r.url@ == service_url(
            config.calendar.host@,
            "GetCalendarFolders"@,
            config.calendar.action_calendar_folders as int,
        ),
        http::pairs(r.headers@) == folders_headers(session@, *config, *time),
{
    let id = generate_correlation_id(time.nanos);
    let begin = stamp_text(time.begin, time.offset);
    let base = trim_end_slashes(config.calendar.host.as_str());
    let action = signed_text(config.calendar.action_calendar_folders);
    let url = call_url(
        config.calendar.host.as_str(),
        "GetCalendarFolders",
        config.calendar.action_calendar_folders,
    );
    let mut headers: Vec<Header> = Vec::new();
    assert(http::pairs(headers@) =~= seq![]);
    push_header(&mut headers, "Accept", "*/*");
    push_header(&mut headers, "Action", "GetCalendarFolders");
    push_header(&mut headers, "Cache-Control", "no-cache");
    push_header(&mut headers, "Connection", "keep-alive");
    push_header(&mut headers, "Content-Length", "0");
    push_header(&mut headers, "Content-Type", "application/json; charset=UTF-8");
    push_header(&mut headers, "Origin", base.as_str());
    push_header(&mut headers, "X-OWA-ActionId", action.as_str());
    push_header(&mut headers, "X-OWA-ActionName", "GetCalendarFoldersAction");
    push_header(&mut headers, "X-OWA-Attempt", "1");
    push_header(&mut headers, "X-OWA-CANARY", session.canary.as_str());
    push_header(&mut headers, "X-OWA-ClientBegin", begin.as_str());
    push_header(
        &mut headers,
        "X-OWA-ClientBuildVersion",
        config.calendar.build_version.as_str(),
    );
    push_header(&mut headers, "X-OWA-CorrelationId", id.as_str());
    push_header(&mut headers, "X-OWA-UrlPostData", "%7B%7D");
    push_header(&mut headers, "X-Requested-With", "XMLHttpRequest");
    push_header(&mut headers, "client-request-id", id.as_str());
    HttpRequest { url, headers: apply_auth(session, headers) }
}

/// All calendars of the groups, in order.
pub open spec fn all_calendars(groups: Seq<Tree>) -> Seq<Tree>
    decreases groups.len(),
{
    if groups.len() == 0 {
        seq![]
    } else {
        all_calendars(groups.drop_last()) + groups.last().field("Calendars"@).items()
    }
}

/// Whether the reply marks a calendar as the default one.
pub open spec fn is_default(calendar: Tree) -> bool {
    calendar.field("IsDefaultCalendar"@) == Tree::Bool(true)
}

/// The first default calendar at or after position `from`.
pub open spec fn first_default(calendars: Seq<Tree>, from: int) -> Option<Tree>
    decreases calendars.len() - from,
{
    if from >= calendars.len() {
        None
    } else if is_default(calendars[from]) {
        Some(calendars[from])
    } else {
        first_default(calendars, from + 1)
    }
}

/// The id of the calendar's folder: that of the first calendar marked as default in any group, or,
/// where none is, that of the first folder.
pub open spec fn folder_id(reply: Tree) -> Option<Seq<char>> {
    match first_default(all_calendars(reply.field("CalendarGroups"@).items()), 0) {
        Some(c) => c.field("CalendarFolderId"@).field("Id"@).text(),
        None => reply.field("CalendarFolders"@).item(0).field("FolderId"@).field("Id"@).text(),
    }
}

/// Looking for a default calendar in two lists, one after the other.
proof fn lemma_first_default_concat(a: Seq<Tree>, b: Seq<Tree>, from: int)
    requires
        0 <= from <= a.len(),
    ensures
        first_default(a + b, from) == match first_default(a, from) {
            Some(c) => Some(c),
            None => first_default(b, 0),
        },
    decreases a.len() - from,
{
    if from < a.len() {
        assert((a + b)[from] == a[from]);
        if !is_default(a[from]) {
            lemma_first_default_concat(a, b, from + 1);
        }
    } else {
        lemma_first_default_shift(a, b, 0);
    }
}

/// Looking for a default calendar behind the list `a`.
proof fn lemma_first_default_shift(a: Seq<Tree>, b: Seq<Tree>, from: int)
    requires
        0 <= from <= b.len(),
    ensures
        first_default(a + b, a.len() + from) == first_default(b, from),
    decreases b.len() - from,
{
    if from < b.len() {
        assert((a + b)[a.len() + from] == b[from]);
        if !is_default(b[from]) {
            lemma_first_default_shift(a, b, from + 1);
        }
    }
}

/// A default calendar among the first groups is the first in all of them.
proof fn lemma_first_default_prefix(groups: Seq<Tree>, n: int)
    requires
        0 <= n <= groups.len(),
        first_default(all_calendars(groups.take(n)), 0) is Some,
    ensures
        first_default(all_calendars(groups), 0) == first_default(
            all_calendars(groups.take(n)),
            0,
        ),
    decreases groups.len() - n,
{
    if n < groups.len() {
        let next = groups.take(n + 1);
        assert(next.drop_last() =~= groups.take(n));
        lemma_first_default_concat(
            all_calendars(groups.take(n)),
            groups[n].field("Calendars"@).items(),
            0,
        );
        lemma_first_default_prefix(groups, n + 1);
    } else {
        assert(groups.take(n) =~= groups);
    }
}

/// Whether the reply marks a calendar as the default one.
fn marked_default(calendar: &Json) -> (r: bool)
    ensures
        r == is_default(calendar.tree()),
{
    match field(Some(calendar), "IsDefaultCalendar") {
        Some(Json::Bool(b)) => *b,
        _ => false,
    }
}

/// The first default calendar of one list.
fn default_in<'a>(calendars: &'a Vec<Json>) -> (r: Option<&'a Json>)
    ensures
        match r {
            Some(c) => first_default(Json::List(*calendars).tree().items(), 0) == Some(c.tree()),
            None => first_default(Json::List(*calendars).tree().items(), 0) is None,
        },
{
    let ghost all = Json::List(*calendars).tree().items();
    let mut i: usize = 0;
    while i < calendars.len()
        invariant
            i <= calendars@.len(),
            all == Json::List(*calendars).tree().items(),
            all.len() == calendars@.len(),
            forall|k: int| 0 <= k < all.len() ==> #[trigger] all[k] == calendars@[k].tree(),
            first_default(all, 0) == first_default(all, i as int),
        decreases calendars@.len() - i,
    {
        assert(all[i as int] == calendars@[i as int].tree());
        if marked_default(&calendars[i]) {
            return Some(&calendars[i]);
        }
        i = i + 1;
    }
    None
}

/// The first default calendar of all groups.
fn default_calendar<'a>(reply: &'a Json) -> (r: Option<&'a Json>)
    ensures
        ({
            let all = all_calendars(reply.tree().field("CalendarGroups"@).items());
            match r {
                Some(c) => first_default(all, 0) == Some(c.tree()),
                None => first_default(all, 0) is None,
            }
        }),
{
    match field(Some(reply), "CalendarGroups") {
        Some(Json::List(groups)) => {
            let ghost all = Json::List(*groups).tree().items();
            let mut i: usize = 0;
            assert(all_calendars(all.take(0)) =~= seq![]);
            while i < groups.len()
                invariant
                    i <= groups@.len(),
                    all.len() == groups@.len(),
                    forall|k: int| 0 <= k < all.len() ==> #[trigger] all[k] == groups@[k].tree(),
                    all == reply.tree().field("CalendarGroups"@).items(),
                    first_default(all_calendars(all.take(i as int)), 0) is None,
                decreases groups@.len() - i,
            {
                assert(all[i as int] == groups@[i as int].tree());
                let ghost list = all[i as int].field("Calendars"@).items();
                proof {
                    assert(all.take(i + 1).drop_last() =~= all.take(i as int));
                    lemma_first_default_concat(all_calendars(all.take(i as int)), list, 0);
                }
                match field(Some(&groups[i]), "Calendars") {
                    Some(Json::List(calendars)) => {
                        match default_in(calendars) {
                            Some(c) => {
                                proof {
                                    lemma_first_default_prefix(all, i + 1);
                                }
                                return Some(c);
                            },
                            None => {},
                        }
                    },
                    _ => {
                        assert(list =~= seq![]);
                    },
                }
                i = i + 1;
            }
            assert(all.take(all.len() as int) =~= all);
            None
        },
        _ => {
            assert(reply.tree().field("CalendarGroups"@).items() =~= seq![]);
            None
        },
    }
}

/// The id of the calendar's folder in the server's list, or that it cannot be found there.
pub fn calendar_folder_id(reply: &Json) -> (r: Result<String, String>)
    ensures
        match r {
            Ok(id) => folder_id(reply.tree()) == Some(id@),
            Err(e) => {
                &&& folder_id(reply.tree()) is None
                &&& e@ == "GetCalendarFolders: cannot find FolderId in response"@
            },
        },
{
    let id = match default_calendar(reply) {
        Some(c) => as_text(field(field(Some(c), "CalendarFolderId"), "Id")),
        None => as_text(
            field(field(item(field(Some(reply), "CalendarFolders"), 0), "FolderId"), "Id"),
        ),
    };
    match id {
        Some(s) => Ok(s),
        None => Err("GetCalendarFolders: cannot find FolderId in response".to_string()),
    }
}

/// What the reply to `GetCalendarFolders` comes to.
pub open spec fn folders_outcome(
    status: u16,
    parsed: Result<Tree, Seq<char>>,
) -> Result<Seq<char>, Seq<char>> {
    if !(200 <= status < 300) {
        Err("GetCalendarFolders: server returned "@ + http::status_line(status))
    } else {
        match parsed {
            Err(e) => Err("GetCalendarFolders: failed to parse: "@ + e),
            Ok(tree) => match folder_id(tree) {
                Some(id) => Ok(id),
                None => Err("GetCalendarFolders: cannot find FolderId in response"@),
            },
        }
    }
}

/// The texts of a result.
pub open spec fn result_text(r: Result<String, String>) -> Result<Seq<char>, Seq<char>> {
    match r {
        Ok(s) => Ok(s@),
        Err(e) => Err(e@),
    }
}

/// The folder's id from the reply to `GetCalendarFolders`.
pub fn read_calendar_folders(status: u16, body: &str) -> (r: Result<String, String>)
    requires
        http::valid_status(status),
    ensures
        result_text(r) == folders_outcome(status, json::json_parsed(body@)),
{
    if status < 200 || status >= 300 {
        let mut e = "GetCalendarFolders: server returned ".to_string();
        e.append(status_text(status).as_str());
        return Err(e);
    }
    match parse_json(body) {
        Err(m) => {
            let mut e = "GetCalendarFolders: failed to parse: ".to_string();
            e.append(m.as_str());
            Err(e)
        },
        Ok(reply) => calendar_folder_id(&reply),
    }
}

// ---------------------------------------------------------------------------
// GetCalendarView
// ---------------------------------------------------------------------------

/// Seconds from where the view starts to now: ten days.
pub const VIEW_BEFORE: i64 = 864000;

/// Seconds from now to where the view ends: three weeks.
pub const VIEW_AFTER: i64 = 1814400;

/// Where the view starts: ten days before now.
pub fn view_start(now: Moment) -> (r: Moment)
    requires
        now.valid(),
        moment::can_shift(now, -VIEW_BEFORE),
    ensures
        r == moment::shifted_moment(now, -VIEW_BEFORE),
        r.valid(),
        now.after(r),
{
    shift(now, -VIEW_BEFORE)
}

/// Where the view ends: three weeks after now.
pub fn view_end(now: Moment) -> (r: Moment)
    requires
        now.valid(),
        moment::can_shift(now, VIEW_AFTER as int),
    ensures
        r == moment::shifted_moment(now, VIEW_AFTER as int),
        r.valid(),
        r.after(now),
{
    shift(now, VIEW_AFTER)
}

/// The times from which a view's two ends are counted, each with how many seconds local clocks are
/// ahead of UTC at that end.
#[derive(Debug, Clone, Copy)]
pub struct ViewRange {
    /// The time ten days after the view's start.
    pub start_now: Moment,
    /// The offset at the view's start.
    pub start_offset: i32,
    /// The time three weeks before the view's end.
    pub end_now: Moment,
    /// The offset at the view's end.
    pub end_offset: i32,
}

impl ViewRange {
    /// Whether the moments and the offsets can be represented.
    pub open spec fn valid(&self) -> bool {
        &&& self.start_now.valid()
        &&& moment::can_shift(self.start_now, -VIEW_BEFORE)
        &&& moment::valid_offset(self.start_offset)
        &&& self.end_now.valid()
        &&& moment::can_shift(self.end_now, VIEW_AFTER as int)
        &&& moment::valid_offset(self.end_offset)
    }

    /// Where the view starts.
    pub open spec fn start(&self) -> Moment {
        moment::shifted_moment(self.start_now, -VIEW_BEFORE)
    }

    /// Where the view ends.
    pub open spec fn end(&self) -> Moment {
        moment::shifted_moment(self.end_now, VIEW_AFTER as int)
    }

    /// Whether the moments and the offsets can be represented.
    pub fn is_valid(&self) -> (r: bool)
        ensures
            r == self.valid(),
    {
        self.start_now.is_valid() && is_shiftable(self.start_now, -VIEW_BEFORE) && is_offset(
            self.start_offset,
        ) && self.end_now.is_valid() && is_shiftable(self.end_now, VIEW_AFTER) && is_offset(
            self.end_offset,
        )
    }
}

/// The percent-encoded JSON that asks for a folder's events in a range.
pub open spec fn view_payload(folder: Seq<char>, range: ViewRange) -> Seq<char> {
    "%7B%22__type%22%3A%22GetCalendarViewJsonRequest%3A%23Exchange%22%2C%22Header%22%3A%7B%22__type%22%3A%22JsonRequestHeaders%3A%23Exchange%22%2C%22RequestServerVersion%22%3A%22V2017_08_18%22%2C%22TimeZoneContext%22%3A%7B%22__type%22%3A%22TimeZoneContext%3A%23Exchange%22%2C%22TimeZoneDefinition%22%3A%7B%22__type%22%3A%22TimeZoneDefinitionType%3A%23Exchange%22%2C%22Id%22%3A%22Russian%20Standard%20Time%22%7D%7D%7D%2C%22Body%22%3A%7B%22__type%22%3A%22GetCalendarViewRequest%3A%23Exchange%22%2C%22CalendarId%22%3A%7B%22__type%22%3A%22TargetFolderId%3A%23Exchange%22%2C%22BaseFolderId%22%3A%7B%22__type%22%3A%22FolderId%3A%23Exchange%22%2C%22Id%22%3A%22"@
        + encode::percent_encoded(encode_utf8(folder)) + "%22%7D%7D%2C%22RangeStart%22%3A%22"@
        + moment::stamp(range.start(), range.start_offset as int) + "%22%2C%22RangeEnd%22%3A%22"@
        + moment::stamp(range.end(), range.end_offset as int) + "%22%7D%7D"@
}

/// The headers of `GetCalendarView` but the one that repeats the credentials.
pub open spec fn view_fields(
    session: SessionView,
    config: AppConfig,
    folder: Seq<char>,
    range: ViewRange,
    time: RequestTime,
) -> Seq<http::Pair> {
    let id = encode::correlation_id(time.nanos as nat);
    seq![
        ("Accept"@, "*/*"@),
        ("Accept-Language"@, "ru-RU,ru;q=0.9,en-US;q=0.8,en;q=0.7"@),
        ("Action"@, "GetCalendarView"@),
        ("Cache-Control"@, "no-cache"@),
        ("Connection"@, "keep-alive"@),
        ("Content-Length"@, "0"@),
        ("Content-Type"@, "application/json; charset=UTF-8"@),
        ("Origin"@, text::without_end_slashes(config.calendar.host@)),
        ("Pragma"@, "no-cache"@),
        ("Sec-Fetch-Dest"@, "empty"@),
        ("Sec-Fetch-Mode"@, "cors"@),
        ("Sec-Fetch-Site"@, "same-origin"@),
        ("X-OWA-ActionId"@, text::signed_decimal(config.calendar.action_calendar_view as int)),
        ("X-OWA-ActionName"@, "GetCalendarViewAction_PrefetchMonth"@),
        ("X-OWA-Attempt"@, "1"@),
        ("X-OWA-CANARY"@, session.canary),
        ("X-OWA-ClientBegin"@, moment::stamp(time.begin, time.offset as int)),
        ("X-OWA-ClientBuildVersion"@, config.calendar.build_version@),
        ("X-OWA-CorrelationId"@, id),
        ("X-OWA-UrlPostData"@, view_payload(folder, range)),
        ("X-Requested-With"@, "XMLHttpRequest"@),
        ("client-request-id"@, id),
        (
            "sec-ch-ua"@,
            "\"Google Chrome\";v=\"141\", \"Not?A_Brand\";v=\"8\", \"Chromium\";v=\"141\""@,
        ),
        ("sec-ch-ua-mobile"@, "?0"@),
        ("sec-ch-ua-platform"@, "\"Linux\""@),
    ]
}

/// The headers of `GetCalendarView`.
pub open spec fn view_headers(
    session: SessionView,
    config: AppConfig,
    folder: Seq<char>,
    range: ViewRange,
    time: RequestTime,
) -> Seq<http::Pair> {
    auth_headers(session) + view_fields(session, config, folder, range, time)
}

/// The percent-encoded JSON that asks for a folder's events in a range.
fn view_post_data(folder: &str, range: &ViewRange) -> (r: String)
    requires
        range.valid(),
    ensures
        r@ == view_payload(folder@, *range),
{
    let start = stamp_text(view_start(range.start_now), range.start_offset);
    let end = stamp_text(view_end(range.end_now), range.end_offset);
    let mut out = String::new();
    out.append(
        "%7B%22__type%22%3A%22GetCalendarViewJsonRequest%3A%23Exchange%22%2C%22Header%22%3A%7B%22__type%22%3A%22JsonRequestHeaders%3A%23Exchange%22%2C%22RequestServerVersion%22%3A%22V2017_08_18%22%2C%22TimeZoneContext%22%3A%7B%22__type%22%3A%22TimeZoneContext%3A%23Exchange%22%2C%22TimeZoneDefinition%22%3A%7B%22__type%22%3A%22TimeZoneDefinitionType%3A%23Exchange%22%2C%22Id%22%3A%22Russian%20Standard%20Time%22%7D%7D%7D%2C%22Body%22%3A%7B%22__type%22%3A%22GetCalendarViewRequest%3A%23Exchange%22%2C%22CalendarId%22%3A%7B%22__type%22%3A%22TargetFolderId%3A%23Exchange%22%2C%22BaseFolderId%22%3A%7B%22__type%22%3A%22FolderId%3A%23Exchange%22%2C%22Id%22%3A%22",
    );
    out.append(url_encode(folder).as_str());
    out.append("%22%7D%7D%2C%22RangeStart%22%3A%22");
    out.append(start.as_str());
    out.append("%22%2C%22RangeEnd%22%3A%22");
    out.append(end.as_str());
    out.append("%22%7D%7D");
    assert(out@ =~= view_payload(folder@, *range));
    out
}

/// The request for a folder's events in a range.
pub fn calendar_view_request(
    session: &OwaSession,
    config: &AppConfig,
    folder: &str,
    range: &ViewRange,
    time: &RequestTime,
) -> (r: HttpRequest)
    requires
        range.valid(),
        time.valid(),
    ensures
        r.url@ == service_url(
            config.calendar.host@,
            "GetCalendarView"@,
            config.calendar.action_calendar_view as int,
        ),
        http::pairs(r.headers@) == view_headers(session@, *config, folder@, *range, *time),
{
    let payload = view_post_data(folder, range);
    let id = generate_correlation_id(time.nanos);
    let begin = stamp_text(time.begin, time.offset);
    let base = trim_end_slashes(config.calendar.host.as_str());
    let action = signed_text(config.calendar.action_calendar_view);
    let url = call_url(
        config.calendar.host.as_str(),
        "GetCalendarView",
        config.calendar.action_calendar_view,
    );
    let mut headers: Vec<Header> = Vec::new();
    assert(http::pairs(headers@) =~= seq![]);
    push_header(&mut headers, "Accept", "*/*");
    push_header(&mut headers, "Accept-Language", "ru-RU,ru;q=0.9,en-US;q=0.8,en;q=0.7");
    push_header(&mut headers, "Action", "GetCalendarView");
    push_header(&mut headers, "Cache-Control", "no-cache");
    push_header(&mut headers, "Connection", "keep-alive");
    push_header(&mut headers, "Content-Length", "0");
    push_header(&mut headers, "Content-Type", "application/json; charset=UTF-8");
    push_header(&mut headers, "Origin", base.as_str());
    push_header(&mut headers, "Pragma", "no-cache");
    push_header(&mut headers, "Sec-Fetch-Dest", "empty");
    push_header(&mut headers, "Sec-Fetch-Mode", "cors");
    push_header(&mut headers, "Sec-Fetch-Site", "same-origin");
    push_header(&mut headers, "X-OWA-ActionId", action.as_str());
    push_header(&mut headers, "X-OWA-ActionName", "GetCalendarViewAction_PrefetchMonth");
    push_header(&mut headers, "X-OWA-Attempt", "1");
    push_header(&mut headers, "X-OWA-CANARY", session.canary.as_str());
    push_header(&mut headers, "X-OWA-ClientBegin", begin.as_str());
    push_header(
        &mut headers,
        "X-OWA-ClientBuildVersion",
        config.calendar.build_version.as_str(),
    );
    push_header(&mut headers, "X-OWA-CorrelationId", id.as_str());
    push_header(&mut headers, "X-OWA-UrlPostData", payload.as_str());
    push_header(&mut headers, "X-Requested-With", "XMLHttpRequest");
    push_header(&mut headers, "client-request-id", id.as_str());
    push_header(
        &mut headers,
        "sec-ch-ua",
        "\"Google Chrome\";v=\"141\", \"Not?A_Brand\";v=\"8\", \"Chromium\";v=\"141\"",
    );
    push_header(&mut headers, "sec-ch-ua-mobile", "?0");
    push_header(&mut headers, "sec-ch-ua-platform", "\"Linux\"");
    HttpRequest { url, headers: apply_auth(session, headers) }
}

/// The events of the view, or the server's response code where it is not `NoError`.
pub fn read_calendar_view(response: CalendarResponse) -> (r: Result<Vec<CalendarItem>, String>)
    ensures
        match r {
            Ok(items) => {
                &&& response.body.response_code@ == "NoError"@
                &&& items == response.body.items
            },
            Err(e) => {
                &&& response.body.response_code@ != "NoError"@
                &&& e@ == "OWA error: "@ + response.body.response_code@
            },
        },
{
    if !same_text(response.body.response_code.as_str(), "NoError") {
        let mut e = "OWA error: ".to_string();
        e.append(response.body.response_code.as_str());
        return Err(e);
    }
    Ok(response.body.items)
}

// ---------------------------------------------------------------------------
// GetFolder
// ---------------------------------------------------------------------------

/// The percent-encoded JSON that asks how many unread messages the inbox holds.
pub const UNREAD_PAYLOAD: &'static str =
    "%7B%22__type%22%3A%22GetFolderJsonRequest%3A%23Exchange%22%2C%22Header%22%3A%7B%22__type%22%3A%22JsonRequestHeaders%3A%23Exchange%22%2C%22RequestServerVersion%22%3A%22V2017_08_18%22%2C%22TimeZoneContext%22%3A%7B%22__type%22%3A%22TimeZoneContext%3A%23Exchange%22%2C%22TimeZoneDefinition%22%3A%7B%22__type%22%3A%22TimeZoneDefinitionType%3A%23Exchange%22%2C%22Id%22%3A%22Russian%20Standard%20Time%22%7D%7D%7D%2C%22Body%22%3A%7B%22__type%22%3A%22GetFolderRequest%3A%23Exchange%22%2C%22FolderShape%22%3A%7B%22__type%22%3A%22FolderResponseShape%3A%23Exchange%22%2C%22BaseShape%22%3A%22IdOnly%22%2C%22AdditionalProperties%22%3A%5B%7B%22__type%22%3A%22PropertyUri%3A%23Exchange%22%2C%22FieldURI%22%3A%22folder%3AUnreadCount%22%7D%5D%7D%2C%22FolderIds%22%3A%5B%7B%22__type%22%3A%22DistinguishedFolderId%3A%23Exchange%22%2C%22Id%22%3A%22inbox%22%7D%5D%7D%7D";

/// The headers of `GetFolder` but the one that repeats the credentials.
pub open spec fn unread_fields(
    session: SessionView,
    config: AppConfig,
    time: RequestTime,
) -> Seq<http::Pair> {
    let id = encode::correlation_id(time.nanos as nat);
    seq![
        ("Accept"@, "*/*"@),
        ("Action"@, "GetFolder"@),
        ("Cache-Control"@, "no-cache"@),
        ("Connection"@, "keep-alive"@),
        ("Content-Length"@, "0"@),
        ("Content-Type"@, "application/json; charset=UTF-8"@),
        ("X-OWA-ActionId"@, text::signed_decimal(config.calendar.action_get_folder as int)),
        ("X-OWA-ActionName"@, "GetFolderAction"@),
        ("X-OWA-Attempt"@, "1"@),
        ("X-OWA-CANARY"@, session.canary),
        ("X-OWA-ClientBegin"@, moment::stamp(time.begin, time.offset as int)),
        ("X-OWA-ClientBuildVersion"@, config.calendar.build_version@),
        ("X-OWA-CorrelationId"@, id),
        ("X-OWA-UrlPostData"@, UNREAD_PAYLOAD@),
        ("X-Requested-With"@, "XMLHttpRequest"@),
        ("client-request-id"@, id),
    ]
}

/// The headers of `GetFolder`.
pub open spec fn unread_headers(
    session: SessionView,
    config: AppConfig,
    time: RequestTime,
) -> Seq<http::Pair> {
    auth_headers(session) + unread_fields(session, config, time)
}

/// The request for the number of unread messages.
pub fn unread_count_request(
    session: &OwaSession,
    config: &AppConfig,
    time: &RequestTime,
) -> (r: HttpRequest)
    requires
        time.valid(),
    ensures
        r.url@ == service_url(
            config.calendar.host@,
            "GetFolder"@,
            config.calendar.action_get_folder as int,
        ),
        http::pairs(r.headers@) == unread_headers(session@, *config, *time),
{
    let id = generate_correlation_id(time.nanos);
    let begin = stamp_text(time.begin, time.offset);
    let action = signed_text(config.calendar.action_get_folder);
    let url = call_url(
        config.calendar.host.as_str(),
        "GetFolder",
        config.calendar.action_get_folder,
    );
    let mut headers: Vec<Header> = Vec::new();
    assert(http::pairs(headers@) =~= seq![]);
    push_header(&mut headers, "Accept", "*/*");
    push_header(&mut headers, "Action", "GetFolder");
    push_header(&mut headers, "Cache-Control", "no-cache");
    push_header(&mut headers, "Connection", "keep-alive");
    push_header(&mut headers, "Content-Length", "0");
    push_header(&mut headers, "Content-Type", "application/json; charset=UTF-8");
    push_header(&mut headers, "X-OWA-ActionId", action.as_str());
    push_header(&mut headers, "X-OWA-ActionName", "GetFolderAction");
    push_header(&mut headers, "X-OWA-Attempt", "1");
    push_header(&mut headers, "X-OWA-CANARY", session.canary.as_str());
    push_header(&mut headers, "X-OWA-ClientBegin", begin.as_str());
    push_header(
        &mut headers,
        "X-OWA-ClientBuildVersion",
        config.calendar.build_version.as_str(),
    );
    push_header(&mut headers, "X-OWA-CorrelationId", id.as_str());
    push_header(&mut headers, "X-OWA-UrlPostData", UNREAD_PAYLOAD);
    push_header(&mut headers, "X-Requested-With", "XMLHttpRequest");
    push_header(&mut headers, "client-request-id", id.as_str());
    HttpRequest { url, headers: apply_auth(session, headers) }
}

/// The number of unread messages in the server's answer: the last 32 bits of the first folder's
/// count, or zero where there is none.
pub open spec fn unread_in(reply: Tree) -> int {
    let count = reply.field("Body"@).field("ResponseMessages"@).field("Items"@).item(0).field(
        "Folders"@,
    ).item(0).field("UnreadCount"@);
    match count {
        Tree::Number(Some(n)) => n as int % 0x1_0000_0000,
        _ => 0,
    }
}

/// The number of unread messages in the server's answer.
pub fn unread_count(reply: &Json) -> (r: u32)
    ensures
        r == unread_in(reply.tree()),
{
    let messages = item(
        field(field(field(Some(reply), "Body"), "ResponseMessages"), "Items"),
        0,
    );
    let count = field(item(field(messages, "Folders"), 0), "UnreadCount");
    match count {
        Some(Json::Number(Some(n))) => (*n % 0x1_0000_0000) as u32,
        _ => 0,
    }
}

/// The number of unread messages from the reply to `GetFolder`.
pub fn read_unread_count(body: &str) -> (r: Result<u32, String>)
    ensures
        match r {
            Ok(n) => {
                &&& json::json_parsed(body@) is Ok
                &&& n == unread_in(json::json_parsed(body@)->Ok_0)
            },
            Err(e) => json::json_parsed(body@) == Err::<Tree, Seq<char>>(e@),
        },
{
    match parse_json(body) {
        Err(e) => Err(e),
        Ok(reply) => Ok(unread_count(&reply)),
    }
}

// ---------------------------------------------------------------------------
// Laws
// ---------------------------------------------------------------------------

/// Whether a request's headers carry the session: the header of Basic authentication where the
/// session has one and none where it has not, and the canary.
pub open spec fn carries_session(headers: Seq<http::Pair>, session: SessionView) -> bool {
    &&& forall|v: Seq<char>| #[trigger]
        headers.contains(("Authorization"@, v)) <==> session.basic == Some(v)
    &&& headers.contains(("X-OWA-CANARY"@, session.canary))
}

/// Headers carry the session where the credentials come first and the canary follows.
proof fn lemma_carries_session(session: SessionView, rest: Seq<http::Pair>, k: int)
    requires
        0 <= k < rest.len(),
        rest[k] == ("X-OWA-CANARY"@, session.canary),
        forall|i: int| 0 <= i < rest.len() ==> (#[trigger] rest[i]).0 != "Authorization"@,
    ensures
        carries_session(auth_headers(session) + rest, session),
{
    let auth = auth_headers(session);
    let h = auth + rest;
    assert(h[auth.len() + k] == rest[k]);
    assert forall|v: Seq<char>| #[trigger] h.contains(("Authorization"@, v)) implies session.basic
        == Some(v) by {
        let i = choose|i: int| 0 <= i < h.len() && h[i] == ("Authorization"@, v);
        if i >= auth.len() {
            assert(h[i] == rest[i - auth.len()]);
        }
    }
    assert forall|v: Seq<char>| session.basic == Some(v) implies #[trigger] h.contains(
        ("Authorization"@, v),
    ) by {
        assert(h[0] == ("Authorization"@, v));
    }
}

/// Header names have other lengths or letters than `Authorization`.
proof fn lemma_header_names()
    ensures
        "Accept"@ != "Authorization"@,
        "Accept-Language"@ != "Authorization"@,
        "Action"@ != "Authorization"@,
        "Cache-Control"@ != "Authorization"@,
        "Connection"@ != "Authorization"@,
        "Content-Length"@ != "Authorization"@,
        "Content-Type"@ != "Authorization"@,
        "Origin"@ != "Authorization"@,
        "Pragma"@ != "Authorization"@,
        "Sec-Fetch-Dest"@ != "Authorization"@,
        "Sec-Fetch-Mode"@ != "Authorization"@,
        "Sec-Fetch-Site"@ != "Authorization"@,
        "X-OWA-ActionId"@ != "Authorization"@,
        "X-OWA-ActionName"@ != "Authorization"@,
        "X-OWA-Attempt"@ != "Authorization"@,
        "X-OWA-CANARY"@ != "Authorization"@,
        "X-OWA-ClientBegin"@ != "Authorization"@,
        "X-OWA-ClientBuildVersion"@ != "Authorization"@,
        "X-OWA-CorrelationId"@ != "Authorization"@,
        "X-OWA-UrlPostData"@ != "Authorization"@,
        "X-Requested-With"@ != "Authorization"@,
        "client-request-id"@ != "Authorization"@,
        "sec-ch-ua"@ != "Authorization"@,
        "sec-ch-ua-mobile"@ != "Authorization"@,
        "sec-ch-ua-platform"@ != "Authorization"@,
{
    reveal_strlit("Authorization");
    assert("Authorization"@.len() == 13);
    reveal_strlit("Accept");
    assert("Accept"@.len() == 6);
    reveal_strlit("Accept-Language");
    assert("Accept-Language"@.len() == 15);
    reveal_strlit("Action");
    assert("Action"@.len() == 6);
    reveal_strlit("Cache-Control");
    assert("Cache-Control"@.len() == 13);
    reveal_strlit("Connection");
    assert("Connection"@.len() == 10);
    reveal_strlit("Content-Length");
    assert("Content-Length"@.len() == 14);
    reveal_strlit("Content-Type");
    assert("Content-Type"@.len() == 12);
    reveal_strlit("Origin");
    assert("Origin"@.len() == 6);
    reveal_strlit("Pragma");
    assert("Pragma"@.len() == 6);
    reveal_strlit("Sec-Fetch-Dest");
    assert("Sec-Fetch-Dest"@.len() == 14);
    reveal_strlit("Sec-Fetch-Mode");
    assert("Sec-Fetch-Mode"@.len() == 14);
    reveal_strlit("Sec-Fetch-Site");
    assert("Sec-Fetch-Site"@.len() == 14);
    reveal_strlit("X-OWA-ActionId");
    assert("X-OWA-ActionId"@.len() == 14);
    reveal_strlit("X-OWA-ActionName");
    assert("X-OWA-ActionName"@.len() == 16);
    reveal_strlit("X-OWA-Attempt");
    assert("X-OWA-Attempt"@.len() == 13);
    reveal_strlit("X-OWA-CANARY");
    assert("X-OWA-CANARY"@.len() == 12);
    reveal_strlit("X-OWA-ClientBegin");
    assert("X-OWA-ClientBegin"@.len() == 17);
    reveal_strlit("X-OWA-ClientBuildVersion");
    assert("X-OWA-ClientBuildVersion"@.len() == 24);
    reveal_strlit("X-OWA-CorrelationId");
    assert("X-OWA-CorrelationId"@.len() == 19);
    reveal_strlit("X-OWA-UrlPostData");
    assert("X-OWA-UrlPostData"@.len() == 17);
    reveal_strlit("X-Requested-With");
    assert("X-Requested-With"@.len() == 16);
    reveal_strlit("client-request-id");
    assert("client-request-id"@.len() == 17);
    reveal_strlit("sec-ch-ua");
    assert("sec-ch-ua"@.len() == 9);
    reveal_strlit("sec-ch-ua-mobile");
    assert("sec-ch-ua-mobile"@.len() == 16);
    reveal_strlit("sec-ch-ua-platform");
    assert("sec-ch-ua-platform"@.len() == 18);
    assert("Cache-Control"@[0] != "Authorization"@[0]);
    assert("X-OWA-Attempt"@[0] != "Authorization"@[0]);
}

/// `GetCalendarFolders` carries the session.
proof fn lemma_folders_carry(session: SessionView, config: AppConfig, time: RequestTime)
    ensures
        carries_session(folders_headers(session, config, time), session),
{
    lemma_header_names();
    lemma_carries_session(session, folders_fields(session, config, time), 10);
}

/// `GetCalendarView` carries the session.
proof fn lemma_view_carry(
    session: SessionView,
    config: AppConfig,
    folder: Seq<char>,
    range: ViewRange,
    time: RequestTime,
)
    ensures
        carries_session(view_headers(session, config, folder, range, time), session),
{
    lemma_header_names();
    lemma_carries_session(session, view_fields(session, config, folder, range, time), 15);
}

/// `GetFolder` carries the session.
proof fn lemma_unread_carry(session: SessionView, config: AppConfig, time: RequestTime)
    ensures
        carries_session(unread_headers(session, config, time), session),
{
    lemma_header_names();
    lemma_carries_session(session, unread_fields(session, config, time), 9);
}

/// Every request of a session that has the header of Basic authentication repeats it, and no other
/// request has one; every request carries the canary.
pub proof fn law_requests_carry_session(
    session: SessionView,
    config: AppConfig,
    folder: Seq<char>,
    range: ViewRange,
    time: RequestTime,
)
    ensures
        carries_session(folders_headers(session, config, time), session),
        carries_session(view_headers(session, config, folder, range, time), session),
        carries_session(unread_headers(session, config, time), session),
{
    lemma_folders_carry(session, config, time);
    lemma_view_carry(session, config, folder, range, time);
    lemma_unread_carry(session, config, time);
}

/// The credentials are repeated, whole and once, exactly where the session has them.
pub proof fn law_auth_headers(session: SessionView)
    ensures
        session.basic is None ==> auth_headers(session).len() == 0,
        session.basic matches Some(h) ==> auth_headers(session) == seq![("Authorization"@, h)],
{
}

/// A call of `GetCalendarFolders` has the headers of the browser's own call, and besides them only
/// the one that repeats the credentials: the call by its name and by its number, the session's
/// canary, the time, the client's version, the id of the request, twice, and what is asked for.
pub proof fn law_folders_headers(session: SessionView, config: AppConfig, time: RequestTime)
    ensures
        ({
            let h = folders_headers(session, config, time);
            &&& h.len() == auth_headers(session).len() + 17
            &&& h.contains(("Accept"@, "*/*"@))
            &&& h.contains(("Action"@, "GetCalendarFolders"@))
            &&& h.contains(("Cache-Control"@, "no-cache"@))
            &&& h.contains(("Connection"@, "keep-alive"@))
            &&& h.contains(("Content-Length"@, "0"@))
            &&& h.contains(("Content-Type"@, "application/json; charset=UTF-8"@))
            &&& h.contains(("Origin"@, text::without_end_slashes(config.calendar.host@)))
            &&& h.contains(
                (
                    "X-OWA-ActionId"@,
                    text::signed_decimal(config.calendar.action_calendar_folders as int),
                ),
            )
            &&& h.contains(("X-OWA-ActionName"@, "GetCalendarFoldersAction"@))
            &&& h.contains(("X-OWA-Attempt"@, "1"@))
            &&& h.contains(("X-OWA-CANARY"@, session.canary))
            &&& h.contains(("X-OWA-ClientBegin"@, moment::stamp(time.begin, time.offset as int)))
            &&& h.contains(("X-OWA-ClientBuildVersion"@, config.calendar.build_version@))
            &&& h.contains(("X-OWA-CorrelationId"@, encode::correlation_id(time.nanos as nat)))
            &&& h.contains(("X-OWA-UrlPostData"@, "%7B%7D"@))
            &&& h.contains(("X-Requested-With"@, "XMLHttpRequest"@))
            &&& h.contains(("client-request-id"@, encode::correlation_id(time.nanos as nat)))
        }),
{
    let n = auth_headers(session).len() as int;
    let f = folders_fields(session, config, time);
    let h = folders_headers(session, config, time);
    assert(f.len() == 17);
    assert(h[n + 0] == f[0]);
    assert(h[n + 1] == f[1]);
    assert(h[n + 2] == f[2]);
    assert(h[n + 3] == f[3]);
    assert(h[n + 4] == f[4]);
    assert(h[n + 5] == f[5]);
    assert(h[n + 6] == f[6]);
    assert(h[n + 7] == f[7]);
    assert(h[n + 8] == f[8]);
    assert(h[n + 9] == f[9]);
    assert(h[n + 10] == f[10]);
    assert(h[n + 11] == f[11]);
    assert(h[n + 12] == f[12]);
    assert(h[n + 13] == f[13]);
    assert(h[n + 14] == f[14]);
    assert(h[n + 15] == f[15]);
    assert(h[n + 16] == f[16]);
}

/// A call of `GetCalendarView` has the headers of the browser's own call, and besides them only
/// the one that repeats the credentials: the call by its name and by its number, the session's
/// canary, the time, the client's version, the id of the request, twice, and what is asked for.
pub proof fn law_view_headers(
    session: SessionView,
    config: AppConfig,
    folder: Seq<char>,
    range: ViewRange,
    time: RequestTime,
)
    ensures
        ({
            let h = view_headers(session, config, folder, range, time);
            &&& h.len() == auth_headers(session).len() + 25
            &&& h.contains(("Accept"@, "*/*"@))
            &&& h.contains(("Accept-Language"@, "ru-RU,ru;q=0.9,en-US;q=0.8,en;q=0.7"@))
            &&& h.contains(("Action"@, "GetCalendarView"@))
            &&& h.contains(("Cache-Control"@, "no-cache"@))
            &&& h.contains(("Connection"@, "keep-alive"@))
            &&& h.contains(("Content-Length"@, "0"@))
            &&& h.contains(("Content-Type"@, "application/json; charset=UTF-8"@))
            &&& h.contains(("Origin"@, text::without_end_slashes(config.calendar.host@)))
            &&& h.contains(("Pragma"@, "no-cache"@))
            &&& h.contains(("Sec-Fetch-Dest"@, "empty"@))
            &&& h.contains(("Sec-Fetch-Mode"@, "cors"@))
            &&& h.contains(("Sec-Fetch-Site"@, "same-origin"@))
            &&& h.contains(
                (
                    "X-OWA-ActionId"@,
                    text::signed_decimal(config.calendar.action_calendar_view as int),
                ),
            )
            &&& h.contains(("X-OWA-ActionName"@, "GetCalendarViewAction_PrefetchMonth"@))
            &&& h.contains(("X-OWA-Attempt"@, "1"@))
            &&& h.contains(("X-OWA-CANARY"@, session.canary))
            &&& h.contains(("X-OWA-ClientBegin"@, moment::stamp(time.begin, time.offset as int)))
            &&& h.contains(("X-OWA-ClientBuildVersion"@, config.calendar.build_version@))
            &&& h.contains(("X-OWA-CorrelationId"@, encode::correlation_id(time.nanos as nat)))
            &&& h.contains(("X-OWA-UrlPostData"@, view_payload(folder, range)))
            &&& h.contains(("X-Requested-With"@, "XMLHttpRequest"@))
            &&& h.contains(("client-request-id"@, encode::correlation_id(time.nanos as nat)))
            &&& h.contains(
                (
                    "sec-ch-ua"@,
                    "\"Google Chrome\";v=\"141\", \"Not?A_Brand\";v=\"8\", \"Chromium\";v=\"141\""@,
                ),
            )
            &&& h.contains(("sec-ch-ua-mobile"@, "?0"@))
            &&& h.contains(("sec-ch-ua-platform"@, "\"Linux\""@))
        }),
{
    let n = auth_headers(session).len() as int;
    let f = view_fields(session, config, folder, range, time);
    let h = view_headers(session, config, folder, range, time);
    assert(f.len() == 25);
    assert(h[n + 0] == f[0]);
    assert(h[n + 1] == f[1]);
    assert(h[n + 2] == f[2]);
    assert(h[n + 3] == f[3]);
    assert(h[n + 4] == f[4]);
    assert(h[n + 5] == f[5]);
    assert(h[n + 6] == f[6]);
    assert(h[n + 7] == f[7]);
    assert(h[n + 8] == f[8]);
    assert(h[n + 9] == f[9]);
    assert(h[n + 10] == f[10]);
    assert(h[n + 11] == f[11]);
    assert(h[n + 12] == f[12]);
    assert(h[n + 13] == f[13]);
    assert(h[n + 14] == f[14]);
    assert(h[n + 15] == f[15]);
    assert(h[n + 16] == f[16]);
    assert(h[n + 17] == f[17]);
    assert(h[n + 18] == f[18]);
    assert(h[n + 19] == f[19]);
    assert(h[n + 20] == f[20]);
    assert(h[n + 21] == f[21]);
    assert(h[n + 22] == f[22]);
    assert(h[n + 23] == f[23]);
    assert(h[n + 24] == f[24]);
}

/// A call of `GetFolder` has the headers of the browser's own call, and besides them only
/// the one that repeats the credentials: the call by its name and by its number, the session's
/// canary, the time, the client's version, the id of the request, twice, and what is asked for.
pub proof fn law_unread_headers(session: SessionView, config: AppConfig, time: RequestTime)
    ensures
        ({
            let h = unread_headers(session, config, time);
            &&& h.len() == auth_headers(session).len() + 16
            &&& h.contains(("Accept"@, "*/*"@))
            &&& h.contains(("Action"@, "GetFolder"@))
            &&& h.contains(("Cache-Control"@, "no-cache"@))
            &&& h.contains(("Connection"@, "keep-alive"@))
            &&& h.contains(("Content-Length"@, "0"@))
            &&& h.contains(("Content-Type"@, "application/json; charset=UTF-8"@))
            &&& h.contains(
                (
                    "X-OWA-ActionId"@,
                    text::signed_decimal(config.calendar.action_get_folder as int),
                ),
            )
            &&& h.contains(("X-OWA-ActionName"@, "GetFolderAction"@))
            &&& h.contains(("X-OWA-Attempt"@, "1"@))
            &&& h.contains(("X-OWA-CANARY"@, session.canary))
            &&& h.contains(("X-OWA-ClientBegin"@, moment::stamp(time.begin, time.offset as int)))
            &&& h.contains(("X-OWA-ClientBuildVersion"@, config.calendar.build_version@))
            &&& h.contains(("X-OWA-CorrelationId"@, encode::correlation_id(time.nanos as nat)))
            &&& h.contains(("X-OWA-UrlPostData"@, UNREAD_PAYLOAD@))
            &&& h.contains(("X-Requested-With"@, "XMLHttpRequest"@))
            &&& h.contains(("client-request-id"@, encode::correlation_id(time.nanos as nat)))
        }),
{
    let n = auth_headers(session).len() as int;
    let f = unread_fields(session, config, time);
    let h = unread_headers(session, config, time);
    assert(f.len() == 16);
    assert(h[n + 0] == f[0]);
    assert(h[n + 1] == f[1]);
    assert(h[n + 2] == f[2]);
    assert(h[n + 3] == f[3]);
    assert(h[n + 4] == f[4]);
    assert(h[n + 5] == f[5]);
    assert(h[n + 6] == f[6]);
    assert(h[n + 7] == f[7]);
    assert(h[n + 8] == f[8]);
    assert(h[n + 9] == f[9]);
    assert(h[n + 10] == f[10]);
    assert(h[n + 11] == f[11]);
    assert(h[n + 12] == f[12]);
    assert(h[n + 13] == f[13]);
    assert(h[n + 14] == f[14]);
    assert(h[n + 15] == f[15]);
}

/// The address of a call is the host without the slashes at its end, the service, the call's name
/// and its number.
pub proof fn law_service_url(host: Seq<char>, base: Seq<char>, action: Seq<char>, id: int)
    requires
        text::is_base(host, base),
    ensures
        service_url(host, action, id) == base + "/owa/service.svc?action="@ + action
            + "&EP=1&ID="@ + text::signed_decimal(id) + "&AC=1"@,
{
    text::law_base_is_one(host, base);
}

/// What asks for a folder's events names the whole folder: what stands between the text before the
/// id and the text before the range decodes to the id's bytes. The range starts ten days before now
/// and ends three weeks after, each end written by local clocks.
pub proof fn law_view_payload(folder: Seq<char>, range: ViewRange)
    requires
        range.valid(),
    ensures
        ({
            let start = moment::shifted(range.start_now, -864000);
            let end = moment::shifted(range.end_now, 1814400);
            exists|id: Seq<char>|
                {
                    &&& #[trigger] encode::percent_decoded(id) == encode_utf8(folder)
                    &&& id == encode::percent_encoded(encode_utf8(folder))
                    &&& view_payload(folder, range) == "%7B%22__type%22%3A%22GetCalendarViewJsonRequest%3A%23Exchange%22%2C%22Header%22%3A%7B%22__type%22%3A%22JsonRequestHeaders%3A%23Exchange%22%2C%22RequestServerVersion%22%3A%22V2017_08_18%22%2C%22TimeZoneContext%22%3A%7B%22__type%22%3A%22TimeZoneContext%3A%23Exchange%22%2C%22TimeZoneDefinition%22%3A%7B%22__type%22%3A%22TimeZoneDefinitionType%3A%23Exchange%22%2C%22Id%22%3A%22Russian%20Standard%20Time%22%7D%7D%7D%2C%22Body%22%3A%7B%22__type%22%3A%22GetCalendarViewRequest%3A%23Exchange%22%2C%22CalendarId%22%3A%7B%22__type%22%3A%22TargetFolderId%3A%23Exchange%22%2C%22BaseFolderId%22%3A%7B%22__type%22%3A%22FolderId%3A%23Exchange%22%2C%22Id%22%3A%22"@
                        + id + "%22%7D%7D%2C%22RangeStart%22%3A%22"@ + moment::stamp(
                        Moment { secs: start.0 as i64, nanos: start.1 as u32 },
                        range.start_offset as int,
                    ) + "%22%2C%22RangeEnd%22%3A%22"@ + moment::stamp(
                        Moment { secs: end.0 as i64, nanos: end.1 as u32 },
                        range.end_offset as int,
                    ) + "%22%7D%7D"@
                }
        }),
        range.start_now.nanos < 1_000_000_000 ==> range.start() == (Moment {
            secs: (range.start_now.secs - 864000) as i64,
            nanos: range.start_now.nanos,
        }),
        range.end_now.nanos < 1_000_000_000 ==> range.end() == (Moment {
            secs: (range.end_now.secs + 1814400) as i64,
            nanos: range.end_now.nanos,
        }),
{
    let id = encode::percent_encoded(encode_utf8(folder));
    encode::law_url_encode_round_trip(encode_utf8(folder));
    assert(encode::percent_decoded(id) == encode_utf8(folder));
}

/// Requests for different folders differ.
pub proof fn law_view_payloads_differ(a: Seq<char>, b: Seq<char>, range: ViewRange)
    requires
        view_payload(a, range) == view_payload(b, range),
    ensures
        a == b,
{
    let head = "%7B%22__type%22%3A%22GetCalendarViewJsonRequest%3A%23Exchange%22%2C%22Header%22%3A%7B%22__type%22%3A%22JsonRequestHeaders%3A%23Exchange%22%2C%22RequestServerVersion%22%3A%22V2017_08_18%22%2C%22TimeZoneContext%22%3A%7B%22__type%22%3A%22TimeZoneContext%3A%23Exchange%22%2C%22TimeZoneDefinition%22%3A%7B%22__type%22%3A%22TimeZoneDefinitionType%3A%23Exchange%22%2C%22Id%22%3A%22Russian%20Standard%20Time%22%7D%7D%7D%2C%22Body%22%3A%7B%22__type%22%3A%22GetCalendarViewRequest%3A%23Exchange%22%2C%22CalendarId%22%3A%7B%22__type%22%3A%22TargetFolderId%3A%23Exchange%22%2C%22BaseFolderId%22%3A%7B%22__type%22%3A%22FolderId%3A%23Exchange%22%2C%22Id%22%3A%22"@;
    let tail = "%22%7D%7D%2C%22RangeStart%22%3A%22"@ + moment::stamp(
        range.start(),
        range.start_offset as int,
    ) + "%22%2C%22RangeEnd%22%3A%22"@ + moment::stamp(range.end(), range.end_offset as int)
        + "%22%7D%7D"@;
    let x = encode::percent_encoded(encode_utf8(a));
    let y = encode::percent_encoded(encode_utf8(b));
    assert(view_payload(a, range) =~= head + x + tail);
    assert(view_payload(b, range) =~= head + y + tail);
    assert((head + x + tail).len() == (head + y + tail).len());
    assert(x.len() == y.len());
    assert forall|i: int| 0 <= i < x.len() implies x[i] == y[i] by {
        assert((head + x + tail)[head.len() + i] == x[i]);
        assert((head + y + tail)[head.len() + i] == y[i]);
    }
    assert(x =~= y);
    encode::law_url_encode_injective(a, b);
}

/// The folder is that of the first calendar that is marked as default, group by group.
pub proof fn law_default_calendar(reply: Tree, g: int, c: int)
    requires
        ({
            let groups = reply.field("CalendarGroups"@).items();
            let calendars = groups[g].field("Calendars"@).items();
            &&& 0 <= g < groups.len()
            &&& 0 <= c < calendars.len()
            &&& calendars[c].field("IsDefaultCalendar"@) == Tree::Bool(true)
            &&& forall|k: int|
                0 <= k < c ==> (#[trigger] calendars[k]).field("IsDefaultCalendar"@) != Tree::Bool(
                    true,
                )
            &&& forall|h: int, k: int|
                0 <= h < g && 0 <= k < groups[h].field("Calendars"@).items().len() ==> (
                #[trigger] groups[h].field("Calendars"@).items()[k]).field("IsDefaultCalendar"@)
                    != Tree::Bool(true)
        }),
    ensures
        folder_id(reply) == reply.field("CalendarGroups"@).items()[g].field(
            "Calendars"@,
        ).items()[c].field("CalendarFolderId"@).field("Id"@).text(),
{
    let groups = reply.field("CalendarGroups"@).items();
    let calendars = groups[g].field("Calendars"@).items();
    lemma_no_default(groups, g);
    lemma_default_found(calendars, 0, c);
    assert(groups.take(g + 1).drop_last() =~= groups.take(g));
    lemma_first_default_concat(all_calendars(groups.take(g)), calendars, 0);
    assert(first_default(all_calendars(groups.take(g + 1)), 0) == Some(calendars[c]));
    lemma_first_default_prefix(groups, g + 1);
}

/// Where no calendar is marked as default, the folder is the first one listed.
pub proof fn law_no_default_calendar(reply: Tree)
    requires
        ({
            let groups = reply.field("CalendarGroups"@).items();
            forall|h: int, k: int|
                0 <= h < groups.len() && 0 <= k < groups[h].field("Calendars"@).items().len() ==> (
                #[trigger] groups[h].field("Calendars"@).items()[k]).field("IsDefaultCalendar"@)
                    != Tree::Bool(true)
        }),
    ensures
        folder_id(reply) == reply.field("CalendarFolders"@).item(0).field("FolderId"@).field(
            "Id"@,
        ).text(),
{
    let groups = reply.field("CalendarGroups"@).items();
    lemma_no_default(groups, groups.len() as int);
    assert(groups.take(groups.len() as int) =~= groups);
}

/// The first default calendar of a list is where it is.
proof fn lemma_default_found(calendars: Seq<Tree>, from: int, c: int)
    requires
        0 <= from <= c < calendars.len(),
        is_default(calendars[c]),
        forall|k: int| from <= k < c ==> !is_default(#[trigger] calendars[k]),
    ensures
        first_default(calendars, from) == Some(calendars[c]),
    decreases c - from,
{
    if from < c {
        lemma_default_found(calendars, from + 1, c);
    }
}

/// There is no default calendar where none is marked.
proof fn lemma_none_found(calendars: Seq<Tree>, from: int)
    requires
        0 <= from <= calendars.len(),
        forall|k: int| from <= k < calendars.len() ==> !is_default(#[trigger] calendars[k]),
    ensures
        first_default(calendars, from) is None,
    decreases calendars.len() - from,
{
    if from < calendars.len() {
        lemma_none_found(calendars, from + 1);
    }
}

/// There is no default calendar in the first groups where none of them has one.
proof fn lemma_no_default(groups: Seq<Tree>, n: int)
    requires
        0 <= n <= groups.len(),
        forall|h: int, k: int|
            0 <= h < n && 0 <= k < groups[h].field("Calendars"@).items().len() ==> (
            #[trigger] groups[h].field("Calendars"@).items()[k]).field("IsDefaultCalendar"@)
                != Tree::Bool(true),
    ensures
        first_default(all_calendars(groups.take(n)), 0) is None,
    decreases n,
{
    if n > 0 {
        lemma_no_default(groups, n - 1);
        assert(groups.take(n).drop_last() =~= groups.take(n - 1));
        let last = groups[n - 1].field("Calendars"@).items();
        assert forall|k: int| 0 <= k < last.len() implies !is_default(#[trigger] last[k]) by {
            assert(groups[n - 1].field("Calendars"@).items()[k].field("IsDefaultCalendar"@)
                != Tree::Bool(true));
        }
        lemma_none_found(last, 0);
        lemma_first_default_concat(all_calendars(groups.take(n - 1)), last, 0);
    }
}

/// A list of calendars is read exactly where the status is one of success; what is wrong with it is
/// told with the status or with the parser's words.
pub proof fn law_folders_outcome(status: u16, parsed: Result<Tree, Seq<char>>)
    ensures
        status < 200 || status > 299 ==> folders_outcome(status, parsed) == Err::<Seq<char>, _>(
            "GetCalendarFolders: server returned "@ + http::status_line(status),
        ),
        200 <= status <= 299 && parsed is Err ==> folders_outcome(status, parsed) == Err::<
            Seq<char>,
            _,
        >("GetCalendarFolders: failed to parse: "@ + parsed->Err_0),
        200 <= status <= 299 && parsed is Ok && folder_id(parsed->Ok_0) is Some ==> folders_outcome(
            status,
            parsed,
        ) == Ok::<_, Seq<char>>(folder_id(parsed->Ok_0)->0),
        200 <= status <= 299 && parsed is Ok && folder_id(parsed->Ok_0) is None ==> folders_outcome(
            status,
            parsed,
        ) == Err::<Seq<char>, _>("GetCalendarFolders: cannot find FolderId in response"@),
{
}

/// The number of unread messages is the count of the first folder of the first answer, as far as 32
/// bits hold it; anything but a count means none.
pub proof fn law_unread(reply: Tree, n: u64)
    ensures
        ({
            let answer = reply.field("Body"@).field("ResponseMessages"@).field("Items"@).item(0);
            let count = answer.field("Folders"@).item(0).field("UnreadCount"@);
            &&& count == Tree::Number(Some(n)) && n <= 0xffff_ffff ==> unread_in(reply) == n
            &&& count == Tree::Number(Some(n)) ==> 0 <= unread_in(reply) <= 0xffff_ffff && (n
                - unread_in(reply)) % 0x1_0000_0000 == 0
            &&& !(count is Number) || count == Tree::Number(None) ==> unread_in(reply) == 0
        }),
{
}

/// The times of a request can be represented if they lie, with ten days before and three weeks
/// after, between the first and the last second, and local clocks are less than a day off UTC.
pub proof fn law_request_times(time: RequestTime, range: ViewRange)
    ensures
        time.begin.valid() && -86400 < time.offset < 86400 ==> time.valid(),
        ({
            let a = range.start_now;
            let b = range.end_now;
            &&& a.nanos < 1_000_000_000
            &&& b.nanos < 1_000_000_000
            &&& -8334601228800 + 864000 <= a.secs <= 8210266876799
            &&& -8334601228800 <= b.secs <= 8210266876799 - 1814400
            &&& -86400 < range.start_offset < 86400
            &&& -86400 < range.end_offset < 86400
        }) ==> range.valid(),
{
}

/// A result is seen whole.
pub proof fn law_result_seen(value: String)
    ensures
        result_text(Ok(value)) == Ok::<_, Seq<char>>(value@),
        result_text(Err(value)) == Err::<Seq<char>, _>(value@),
{
}

} // verus!
