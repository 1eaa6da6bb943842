//! Fetching everything: the login, the calendar's folder, its events and the unread messages.
//!
//! `Fetch` says what to do next, one step at a time; whoever drives it does that and reports what
//! came of it.
use vstd::prelude::*;

use crate::config::AppConfig;
use crate::http::{self, HttpRequest};
use crate::json;
use crate::login::{self, Login, LoginAction, LoginEvent, LoginView, Step};
use crate::ntlm::Chance;
use crate::requests::{
    self, calendar_folders_request, calendar_view_request, read_calendar_folders,
    read_calendar_view, read_unread_count, unread_count_request, RequestTime, ViewRange,
};
use crate::session::{OwaSession, SessionView};
use crate::types::{CalendarItem, CalendarResponse};

verus! {

/// How far the fetching has come.
#[derive(Debug, Clone, Copy, PartialEq, Eq, Structural)]
pub enum FetchStage {
    /// The login is under way.
    Login,
    /// The list of calendars has been asked for.
    Folder,
    /// The events have been asked for.
    View,
    /// The number of unread messages has been asked for.
    Unread,
    /// The fetching is over.
    Done,
}

/// A fetching under way.
pub struct Fetch {
    config: AppConfig,
    login: Login,
    stage: FetchStage,
    session: Option<OwaSession>,
    items: Vec<CalendarItem>,
}

/// A fetching under way, with texts as sequences of characters.
#[verifier::ext_equal]
pub struct FetchView {
    pub config: AppConfig,
    pub login: LoginView,
    pub stage: FetchStage,
    pub session: Option<SessionView>,
    pub items: Seq<CalendarItem>,
}

/// What time it is: for the next request and for the range of the view.
#[derive(Debug, Clone, Copy)]
pub struct RequestClock {
    pub time: RequestTime,
    pub range: ViewRange,
}

impl RequestClock {
    /// Whether all moments and offsets can be represented.
    pub open spec fn valid(&self) -> bool {
        self.time.valid() && self.range.valid()
    }

    /// Whether all moments and offsets can be represented.
    pub fn is_valid(&self) -> (r: bool)
        ensures
            r == self.valid(),
    {
        self.time.is_valid() && self.range.is_valid()
    }
}

/// What to do next.
pub enum FetchAction {
    /// Do what the login needs.
    Login { action: LoginAction },
    /// Send the request.
    Send { request: HttpRequest },
    /// Send the request for events, whose reply is to be read as a `CalendarResponse`.
    SendView { request: HttpRequest },
    /// Nothing more: this is what came of it.
    Finish { result: Result<(Vec<CalendarItem>, u32), String> },
}

/// What to do next, with texts as sequences of characters.
pub enum FetchStep {
    Login { step: Step },
    Send { url: Seq<char>, headers: Seq<http::Pair> },
    SendView { url: Seq<char>, headers: Seq<http::Pair> },
    Finish { result: Result<(Seq<CalendarItem>, u32), Seq<char>> },
}

/// What came of the last action.
#[derive(Debug)]
pub enum FetchEvent {
    /// What came of what the login needed.
    Login(LoginEvent),
    /// A reply to a request: its status and its body.
    Reply { status: u16, body: String },
    /// The reply to the request for events, or why its body cannot be read.
    View(Result<CalendarResponse, String>),
    /// The request could not be sent or its reply not be received.
    Failed(String),
}

impl FetchAction {
    /// The action with texts as sequences of characters.
    pub open spec fn step(self) -> FetchStep {
        match self {
            FetchAction::Login { action } => FetchStep::Login { step: action.step() },
            FetchAction::Send { request } => FetchStep::Send {
                url: request.url@,
                headers: http::pairs(request.headers@),
            },
            FetchAction::SendView { request } => FetchStep::SendView {
                url: request.url@,
                headers: http::pairs(request.headers@),
            },
            FetchAction::Finish { result } => FetchStep::Finish {
                result: match result {
                    Ok((items, unread)) => Ok((items@, unread)),
                    Err(e) => Err(e@),
                },
            },
        }
    }
}

/// What is said where the calendar's folder could not be found.
pub open spec fn folder_error(e: Seq<char>) -> Seq<char> {
    "Failed to discover calendar folder: "@ + e
}

/// What is said where the settings could not be read.
pub fn config_error(e: &str) -> (r: String)
    ensures
        r@ == "Failed to load config: "@ + e@,
{
    let mut out = "Failed to load config: ".to_string();
    out.append(e);
    out
}

impl FetchView {
    /// The fetching over with an error.
    pub open spec fn fail(self, e: Seq<char>) -> (FetchView, FetchStep) {
        (
            (FetchView { stage: FetchStage::Done, ..self }),
            (FetchStep::Finish { result: Err(e) }),
        )
    }

    /// Whether what came of the last action can be such an event. From the login's end on there is
    /// a session.
    pub open spec fn awaits(self, event: FetchEvent) -> bool {
        match self.stage {
            FetchStage::Login => match event {
                FetchEvent::Login(e) => self.login.awaits(e),
                _ => false,
            },
            FetchStage::Folder | FetchStage::Unread => self.session is Some && match event {
                FetchEvent::Reply { status, .. } => http::valid_status(status),
                FetchEvent::Failed(_) => true,
                _ => false,
            },
            FetchStage::View => self.session is Some && match event {
                FetchEvent::View(_) => true,
                FetchEvent::Failed(_) => true,
                _ => false,
            },
            FetchStage::Done => false,
        }
    }

    /// How the fetching goes on. Only what an NTLM challenge says, and the answer to it, depend on
    /// `chance`.
    pub open spec fn next(self, event: FetchEvent, clock: RequestClock, chance: Chance) -> (
        FetchView,
        FetchStep,
    ) {
        let host = self.config.calendar.host@;
        let session = self.session->0;
        match (self.stage, event) {
            (FetchStage::Login, FetchEvent::Login(e)) => {
                let (login, step) = self.login.next(e, chance);
                match step {
                    Step::Finish { result: Ok(s) } => (
                        (FetchView {
                            login,
                            stage: FetchStage::Folder,
                            session: Some(s),
                            ..self
                        }),
                        (FetchStep::Send {
                            url: requests::service_url(
                                host,
                                "GetCalendarFolders"@,
                                self.config.calendar.action_calendar_folders as int,
                            ),
                            headers: requests::folders_headers(s, self.config, clock.time),
                        }),
                    ),
                    Step::Finish { result: Err(e) } => (FetchView { login, ..self }).fail(e),
                    _ => ((FetchView { login, ..self }), (FetchStep::Login { step })),
                }
            },
            (FetchStage::Folder, FetchEvent::Reply { status, body }) =>
                match requests::folders_outcome(status, json::json_parsed(body@)) {
                Ok(id) => (
                    (FetchView { stage: FetchStage::View, ..self }),
                    (FetchStep::SendView {
                        url: requests::service_url(
                            host,
                            "GetCalendarView"@,
                            self.config.calendar.action_calendar_view as int,
                        ),
                        headers: requests::view_headers(
                            session,
                            self.config,
                            id,
                            clock.range,
                            clock.time,
                        ),
                    }),
                ),
                Err(e) => self.fail(folder_error(e)),
            },
            (FetchStage::Folder, FetchEvent::Failed(e)) => self.fail(folder_error(e@)),
            (FetchStage::View, FetchEvent::View(Ok(response))) => if response.body.response_code@
                == "NoError"@ {
                (
                    (FetchView {
                        stage: FetchStage::Unread,
                        items: response.body.items@,
                        ..self
                    }),
                    (FetchStep::Send {
                        url: requests::service_url(
                            host,
                            "GetFolder"@,
                            self.config.calendar.action_get_folder as int,
                        ),
                        headers: requests::unread_headers(session, self.config, clock.time),
                    }),
                )
            } else {
                self.fail("OWA error: "@ + response.body.response_code@)
            },
            (FetchStage::View, FetchEvent::View(Err(e))) => self.fail(e@),
            (FetchStage::Unread, FetchEvent::Reply { body, .. }) => match json::json_parsed(
                body@,
            ) {
                Ok(tree) => (
                    (FetchView { stage: FetchStage::Done, items: seq![], ..self }),
                    (FetchStep::Finish {
                        result: Ok((self.items, requests::unread_in(tree) as u32)),
                    }),
                ),
                Err(e) => self.fail(e),
            },
            (_, FetchEvent::Failed(e)) => self.fail(e@),
            _ => self.fail(seq![]),
        }
    }

    /// Whether the fetching can go on to `after` and `step`, for some `chance`.
    pub open spec fn leads_to(
        self,
        event: FetchEvent,
        clock: RequestClock,
        after: FetchView,
        step: FetchStep,
    ) -> bool {
        exists|chance: Chance|
            chance.valid() && (after, step) == #[trigger] self.next(event, clock, chance)
    }
}

impl View for Fetch {
    type V = FetchView;

    closed spec fn view(&self) -> FetchView {
        FetchView {
            config: self.config,
            login: self.login@,
            stage: self.stage,
            session: match self.session {
                Some(s) => Some(s@),
                None => None,
            },
            items: self.items@,
        }
    }
}

impl Fetch {
    /// Starts fetching, with the login.
    pub fn start(config: AppConfig) -> (r: (Fetch, FetchAction))
        ensures
            r.0@ == (FetchView {
                config,
                login: LoginView {
                    host: config.calendar.host@,
                    username: config.calendar.username@,
                    password: config.calendar.password@,
                    stage: login::Stage::Forms,
                    forms_error: seq![],
                    url: seq![],
                    nonce: seq![],
                    target_info: seq![],
                },
                stage: FetchStage::Login,
                session: None,
                items: seq![],
            }),
            r.1.step() == (FetchStep::Login {
                step: Step::PostForm {
                    url: login::form_url(config.calendar.host@),
                    fields: login::form_fields(
                        config.calendar.host@,
                        config.calendar.username@,
                        config.calendar.password@,
                    ),
                },
            }),
    {
        let (login, action) = Login::start(
            config.calendar.host.as_str(),
            config.calendar.username.as_str(),
            config.calendar.password.as_str(),
        );
        let fetch = Fetch {
            config,
            login,
            stage: FetchStage::Login,
            session: None,
            items: Vec::new(),
        };
        (fetch, FetchAction::Login { action })
    }

    /// Whether what came of the last action can be such an event.
    pub fn accepts(&self, event: &FetchEvent) -> (r: bool)
        ensures
            r == self@.awaits(*event),
    {
        match self.stage {
            FetchStage::Login => match event {
                FetchEvent::Login(e) => self.login.accepts(e),
                _ => false,
            },
            FetchStage::Folder | FetchStage::Unread => self.session.is_some() && match event {
                FetchEvent::Reply { status, .. } => 100 <= *status && *status <= 999,
                FetchEvent::Failed(_) => true,
                _ => false,
            },
            FetchStage::View => self.session.is_some() && match event {
                FetchEvent::View(_) => true,
                FetchEvent::Failed(_) => true,
                _ => false,
            },
            FetchStage::Done => false,
        }
    }

    /// Ends the fetching with an error.
    fn fail(&mut self, e: String) -> (r: FetchAction)
        ensures
            (final(self)@, r.step()) == old(self)@.fail(e@),
    {
        self.stage = FetchStage::Done;
        FetchAction::Finish { result: Err(e) }
    }

    /// Ends the fetching where the calendar's folder could not be found.
    fn fail_folder(&mut self, e: String) -> (r: FetchAction)
        ensures
            (final(self)@, r.step()) == old(self)@.fail(folder_error(e@)),
    {
        let mut out = "Failed to discover calendar folder: ".to_string();
        out.append(e.as_str());
        self.fail(out)
    }

    /// After a step of the login.
    fn after_login(&mut self, event: LoginEvent, clock: &RequestClock) -> (r: FetchAction)
        requires
            old(self)@.stage == FetchStage::Login,
            old(self)@.login.awaits(event),
            clock.valid(),
        ensures
            old(self)@.leads_to(FetchEvent::Login(event), *clock, final(self)@, r.step()),
            final(self)@.login.stage == login::Stage::Answer ==> final(self)@.login.nonce.len()
                == 8,
    {
        let action = self.login.step(event);
        let ghost chance = choose|chance: Chance|
            chance.valid() && (self.login@, action.step()) == #[trigger] old(self)@.login.next(
                event,
                chance,
            );
        let r = match action {
            LoginAction::Finish { result } => match result {
                Ok(session) => {
                    let request = calendar_folders_request(&session, &self.config, &clock.time);
                    self.session = Some(session);
                    self.stage = FetchStage::Folder;
                    FetchAction::Send { request }
                },
                Err(e) => self.fail(e),
            },
            action => FetchAction::Login { action },
        };
        assert((self@, r.step()) == old(self)@.next(FetchEvent::Login(event), *clock, chance));
        r
    }

    /// After the list of calendars.
    fn after_folders(&mut self, status: u16, body: String, clock: &RequestClock) -> (r: FetchAction)
        requires
            old(self)@.stage == FetchStage::Folder,
            old(self)@.session is Some,
            http::valid_status(status),
            clock.valid(),
        ensures
            forall|chance: Chance|
                (final(self)@, r.step()) == #[trigger] old(self)@.next(
                    (FetchEvent::Reply { status, body }),
                    *clock,
                    chance,
                ),
    {
        match read_calendar_folders(status, body.as_str()) {
            Ok(id) => match &self.session {
                Some(session) => {
                    let request = calendar_view_request(
                        session,
                        &self.config,
                        id.as_str(),
                        &clock.range,
                        &clock.time,
                    );
                    self.stage = FetchStage::View;
                    FetchAction::SendView { request }
                },
                None => self.fail(id),
            },
            Err(e) => self.fail_folder(e),
        }
    }

    /// After the events.
    fn after_view(&mut self, response: CalendarResponse, clock: &RequestClock) -> (r: FetchAction)
        requires
            old(self)@.stage == FetchStage::View,
            old(self)@.session is Some,
            clock.valid(),
        ensures
            forall|chance: Chance|
                (final(self)@, r.step()) == #[trigger] old(self)@.next(
                    FetchEvent::View(Ok(response)),
                    *clock,
                    chance,
                ),
    {
        match read_calendar_view(response) {
            Ok(items) => {
                self.items = items;
                match &self.session {
                    Some(session) => {
                        let request = unread_count_request(session, &self.config, &clock.time);
                        self.stage = FetchStage::Unread;
                        FetchAction::Send { request }
                    },
                    None => self.fail(String::new()),
                }
            },
            Err(e) => self.fail(e),
        }
    }

    /// After the number of unread messages.
    fn after_unread(&mut self, status: u16, body: String, clock: &RequestClock) -> (r: FetchAction)
        requires
            old(self)@.stage == FetchStage::Unread,
        ensures
            forall|chance: Chance|
                (final(self)@, r.step()) == #[trigger] old(self)@.next(
                    (FetchEvent::Reply { status, body }),
                    *clock,
                    chance,
                ),
    {
        match read_unread_count(body.as_str()) {
            Ok(unread) => {
                let mut items: Vec<CalendarItem> = Vec::new();
                items.append(&mut self.items);
                self.stage = FetchStage::Done;
                FetchAction::Finish { result: Ok((items, unread)) }
            },
            Err(e) => self.fail(e),
        }
    }

    /// Takes what came of the last action and says what to do next. A challenge that the login is
    /// to answer has eight bytes.
    pub fn step(&mut self, event: FetchEvent, clock: &RequestClock) -> (r: FetchAction)
        requires
            old(self)@.awaits(event),
            clock.valid(),
        ensures
            old(self)@.leads_to(event, *clock, final(self)@, r.step()),
            final(self)@.stage == FetchStage::Login && final(self)@.login.stage
                == login::Stage::Answer ==> final(self)@.login.nonce.len() == 8,
    {
        let ghost any = Chance { random: Seq::new(8, |i: int| 0u8), ansi: Set::empty() };
        let ghost before = self@;
        let r = match event {
            FetchEvent::Login(e) => {
                return self.after_login(e, clock);
            },
            FetchEvent::Reply { status, body } => match self.stage {
                FetchStage::Folder => self.after_folders(status, body, clock),
                _ => self.after_unread(status, body, clock),
            },
            FetchEvent::View(reply) => match reply {
                Ok(response) => self.after_view(response, clock),
                Err(e) => self.fail(e),
            },
            FetchEvent::Failed(e) => match self.stage {
                FetchStage::Folder => self.fail_folder(e),
                _ => self.fail(e),
            },
        };
        assert((self@, r.step()) == before.next(event, *clock, any));
        r
    }
}

// ---------------------------------------------------------------------------
// Laws
// ---------------------------------------------------------------------------

/// How many steps at most lie behind a stage.
pub open spec fn progress(fetch: FetchView) -> int {
    match fetch.stage {
        FetchStage::Login => login::progress(fetch.login.stage),
        FetchStage::Folder => 7,
        FetchStage::View => 8,
        FetchStage::Unread => 9,
        FetchStage::Done => 10,
    }
}

/// Whether there is a session wherever one is needed.
pub open spec fn session_known(fetch: FetchView) -> bool {
    fetch.stage == FetchStage::Folder || fetch.stage == FetchStage::View || fetch.stage
        == FetchStage::Unread ==> fetch.session is Some
}

/// Every step brings a fetching further, so it is over after ten; it is over exactly when it says
/// so; its settings stay as they were; and there is a session from the login's end on.
pub proof fn law_fetch_ends(
    fetch: FetchView,
    event: FetchEvent,
    clock: RequestClock,
    chance: Chance,
)
    requires
        fetch.awaits(event),
        session_known(fetch),
    ensures
        progress(fetch.next(event, clock, chance).0) > progress(fetch),
        fetch.next(event, clock, chance).0.stage == FetchStage::Done <==> fetch.next(
            event,
            clock,
            chance,
        ).1 is Finish,
        fetch.next(event, clock, chance).0.config == fetch.config,
        session_known(fetch.next(event, clock, chance).0),
{
    if fetch.stage == FetchStage::Login {
        login::law_login_ends(fetch.login, event->Login_0, chance);
    }
}

/// The headers of the request that a step sends, if it sends one.
pub open spec fn sent_headers(step: FetchStep) -> Option<Seq<http::Pair>> {
    match step {
        FetchStep::Send { headers, .. } => Some(headers),
        FetchStep::SendView { headers, .. } => Some(headers),
        _ => None,
    }
}

/// Every request after the login carries the session that the login ended with.
pub proof fn law_fetch_carries_session(
    fetch: FetchView,
    event: FetchEvent,
    clock: RequestClock,
    chance: Chance,
)
    requires
        fetch.awaits(event),
        session_known(fetch),
    ensures
        sent_headers(fetch.next(event, clock, chance).1) matches Some(headers) ==> {
            let session = fetch.next(event, clock, chance).0.session;
            &&& session is Some
            &&& fetch.stage != FetchStage::Login ==> session == fetch.session
            &&& requests::carries_session(headers, session->0)
        },
{
    let (after, step) = fetch.next(event, clock, chance);
    if sent_headers(step) is Some {
        let folder = if let FetchEvent::Reply { status, body } = event {
            requests::folders_outcome(status, json::json_parsed(body@))->Ok_0
        } else {
            seq![]
        };
        requests::law_requests_carry_session(
            after.session->0,
            fetch.config,
            folder,
            clock.range,
            clock.time,
        );
    }
}

/// What is handed out in the end are the events of the view, which the server gave without error.
pub proof fn law_fetch_hands_out_view(
    fetch: FetchView,
    event: FetchEvent,
    clock: RequestClock,
    chance: Chance,
)
    requires
        fetch.awaits(event),
    ensures
        fetch.next(event, clock, chance).1 matches FetchStep::Finish { result: Ok(r) } ==> {
            &&& fetch.stage == FetchStage::Unread
            &&& r.0 == fetch.items
        },
        fetch.next(event, clock, chance).0.stage == FetchStage::Unread ==> {
            &&& event matches FetchEvent::View(Ok(response))
            &&& response.body.response_code@ == "NoError"@
            &&& fetch.next(event, clock, chance).0.items == response.body.items@
        },
{
}

/// While the login goes on, its steps are passed on; where it fails, so does the fetching, with the
/// same words; with its session the list of calendars is asked for.
pub proof fn law_login_passed_on(
    fetch: FetchView,
    e: LoginEvent,
    clock: RequestClock,
    chance: Chance,
)
    requires
        fetch.stage == FetchStage::Login,
    ensures
        ({
            let (login, inner) = fetch.login.next(e, chance);
            let (after, step) = fetch.next(FetchEvent::Login(e), clock, chance);
            &&& after.login == login
            &&& !(inner is Finish) ==> after.stage == FetchStage::Login && step == (
            FetchStep::Login { step: inner })
            &&& inner matches Step::Finish { result: Err(m) } ==> after.stage == FetchStage::Done
                && step == (FetchStep::Finish { result: Err(m) })
            &&& inner matches Step::Finish { result: Ok(s) } ==> after.stage == FetchStage::Folder
                && after.session == Some(s) && step == (FetchStep::Send {
                url: requests::service_url(
                    fetch.config.calendar.host@,
                    "GetCalendarFolders"@,
                    fetch.config.calendar.action_calendar_folders as int,
                ),
                headers: requests::folders_headers(s, fetch.config, clock.time),
            })
        }),
{
}

/// With the folder's id the events of that very folder are asked for; without it the fetching ends
/// and says why.
pub proof fn law_after_folders(
    fetch: FetchView,
    status: u16,
    body: String,
    clock: RequestClock,
    chance: Chance,
)
    requires
        fetch.stage == FetchStage::Folder,
    ensures
        ({
            let event = FetchEvent::Reply { status, body };
            let (after, step) = fetch.next(event, clock, chance);
            match requests::folders_outcome(status, json::json_parsed(body@)) {
                Ok(id) => {
                    &&& after.stage == FetchStage::View
                    &&& after.session == fetch.session
                    &&& step == (FetchStep::SendView {
                        url: requests::service_url(
                            fetch.config.calendar.host@,
                            "GetCalendarView"@,
                            fetch.config.calendar.action_calendar_view as int,
                        ),
                        headers: requests::view_headers(
                            fetch.session->0,
                            fetch.config,
                            id,
                            clock.range,
                            clock.time,
                        ),
                    })
                },
                Err(e) => after.stage == FetchStage::Done && step == (FetchStep::Finish {
                    result: Err("Failed to discover calendar folder: "@ + e),
                }),
            }
        }),
{
}

/// Events that the server gave without error are kept, all of them and in their order, and the
/// unread messages are asked for; any other answer ends the fetching and is said.
pub proof fn law_after_view(
    fetch: FetchView,
    response: CalendarResponse,
    clock: RequestClock,
    chance: Chance,
)
    requires
        fetch.stage == FetchStage::View,
    ensures
        ({
            let (after, step) = fetch.next(FetchEvent::View(Ok(response)), clock, chance);
            let code = response.body.response_code@;
            &&& code == "NoError"@ ==> {
                &&& after.stage == FetchStage::Unread
                &&& after.session == fetch.session
                &&& after.items == response.body.items@
                &&& step == (FetchStep::Send {
                    url: requests::service_url(
                        fetch.config.calendar.host@,
                        "GetFolder"@,
                        fetch.config.calendar.action_get_folder as int,
                    ),
                    headers: requests::unread_headers(
                        fetch.session->0,
                        fetch.config,
                        clock.time,
                    ),
                })
            }
            &&& code != "NoError"@ ==> after.stage == FetchStage::Done && step == (
            FetchStep::Finish { result: Err("OWA error: "@ + code) })
        }),
{
}

/// With the unread messages the fetching is over: the events kept and the number are handed out,
/// whatever the status was; what cannot be parsed ends it with the parser's words.
pub proof fn law_after_unread(
    fetch: FetchView,
    status: u16,
    body: String,
    clock: RequestClock,
    chance: Chance,
)
    requires
        fetch.stage == FetchStage::Unread,
    ensures
        ({
            let event = FetchEvent::Reply { status, body };
            let (after, step) = fetch.next(event, clock, chance);
            &&& after.stage == FetchStage::Done
            &&& match json::json_parsed(body@) {
                Ok(tree) => step matches FetchStep::Finish { result: Ok(r) } && r.0 == fetch.items
                    && r.1 == requests::unread_in(tree),
                Err(e) => step == (FetchStep::Finish { result: Err(e) }),
            }
        }),
{
}

/// Where a request fails or its events cannot be read, the fetching is over and says so as it was
/// said; the request for calendars adds what could not be found.
pub proof fn law_after_fetch_failure(
    fetch: FetchView,
    e: String,
    clock: RequestClock,
    chance: Chance,
)
    ensures
        fetch.stage == FetchStage::Folder ==> fetch.next(FetchEvent::Failed(e), clock, chance).1
            == (FetchStep::Finish {
            result: Err("Failed to discover calendar folder: "@ + e@),
        }),
        fetch.stage == FetchStage::View || fetch.stage == FetchStage::Unread ==> fetch.next(
            FetchEvent::Failed(e),
            clock,
            chance,
        ).1 == (FetchStep::Finish { result: Err(e@) }),
        fetch.stage == FetchStage::View ==> fetch.next(
            FetchEvent::View(Err(e)),
            clock,
            chance,
        ).1 == (FetchStep::Finish { result: Err(e@) }),
{
}

/// An action is seen whole: the login's, the request's address and headers, the events and the
/// number, or the error.
pub proof fn law_fetch_actions_seen(
    action: LoginAction,
    request: HttpRequest,
    items: Vec<CalendarItem>,
    unread: u32,
    error: String,
)
    ensures
        (FetchAction::Login { action }).step() == (FetchStep::Login { step: action.step() }),
        (FetchAction::Send { request }).step() == (FetchStep::Send {
            url: request.url@,
            headers: http::pairs(request.headers@),
        }),
        (FetchAction::SendView { request }).step() == (FetchStep::SendView {
            url: request.url@,
            headers: http::pairs(request.headers@),
        }),
        (FetchAction::Finish { result: Ok((items, unread)) }).step() == (FetchStep::Finish {
            result: Ok((items@, unread)),
        }),
        (FetchAction::Finish { result: Err(error) }).step() == (FetchStep::Finish {
            result: Err(error@),
        }),
{
}

/// A fetching takes what its login takes, then every reply with a status of three digits, the
/// events where it has asked for them, and every failure.
pub proof fn law_fetch_awaits(
    fetch: FetchView,
    event: LoginEvent,
    status: u16,
    body: String,
    response: Result<CalendarResponse, String>,
    error: String,
)
    requires
        session_known(fetch),
    ensures
        ({
            let plain = fetch.stage == FetchStage::Folder || fetch.stage == FetchStage::Unread;
            &&& fetch.awaits(FetchEvent::Login(event)) <==> fetch.stage == FetchStage::Login
                && fetch.login.awaits(event)
            &&& fetch.awaits(FetchEvent::Reply { status, body }) <==> plain && 100 <= status
                <= 999
            &&& fetch.awaits(FetchEvent::View(response)) <==> fetch.stage == FetchStage::View
            &&& fetch.awaits(FetchEvent::Failed(error)) <==> plain || fetch.stage
                == FetchStage::View
        }),
{
}

} // verus!
