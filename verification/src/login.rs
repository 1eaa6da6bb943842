//! Logging in.
//!
//! The forms login comes first. Where the server answers it with an HTTP challenge instead, it is
//! asked which schemes it offers, and NTLM or else Basic authentication is tried. `Login` says what
//! to do next, one step at a time; whoever drives it does that and reports what came of it.
use vstd::prelude::*;
use vstd::utf8::*;

use crate::encode::{self, base64_encode};
use crate::http::{self, push_header, status_text, Header, HttpReply};
use crate::ntlm::{
    self, answer_challenge, is_answerable, is_readable, opening_bytes, read_challenge, Chance,
    NtlmChallenge,
};
use crate::session::{self, canary_from_jar, header_text, OwaSession, SessionView};
use crate::text::{self, chars_of, contains_text, join, trim_end_slashes};

verus! {

// ---------------------------------------------------------------------------
// Forms
// ---------------------------------------------------------------------------

/// The address of the mailbox.
pub open spec fn owa_url(host: Seq<char>) -> Seq<char> {
    text::without_end_slashes(host) + "/owa/"@
}

/// The address that takes the login form.
pub open spec fn form_url(host: Seq<char>) -> Seq<char> {
    text::without_end_slashes(host) + "/owa/auth.owa"@
}

/// The address of the mailbox.
pub fn mailbox_url(host: &str) -> (r: String)
    ensures
        r@ == owa_url(host@),
{
    let mut url = trim_end_slashes(host);
    url.append("/owa/");
    url
}

/// The fields of the login form.
pub open spec fn form_fields(
    host: Seq<char>,
    username: Seq<char>,
    password: Seq<char>,
) -> Seq<http::Pair> {
    seq![
        ("destination"@, owa_url(host)),
        ("flags"@, "4"@),
        ("forcedownlevel"@, "0"@),
        ("trusted"@, "0"@),
        ("username"@, username),
        ("password"@, password),
        ("isUtf8"@, "1"@),
    ]
}

/// The login form: its address and its fields.
pub fn login_form(host: &str, username: &str, password: &str) -> (r: (String, Vec<Header>))
    ensures
        r.0@ == form_url(host@),
        http::pairs(r.1@) == form_fields(host@, username@, password@),
{
    let mut url = trim_end_slashes(host);
    url.append("/owa/auth.owa");
    let destination = mailbox_url(host);
    let mut fields: Vec<Header> = Vec::new();
    push_header(&mut fields, "destination", destination.as_str());
    push_header(&mut fields, "flags", "4");
    push_header(&mut fields, "forcedownlevel", "0");
    push_header(&mut fields, "trusted", "0");
    push_header(&mut fields, "username", username);
    push_header(&mut fields, "password", password);
    push_header(&mut fields, "isUtf8", "1");
    assert(http::pairs(fields@) =~= form_fields(host@, username@, password@));
    (url, fields)
}

/// What came of the login form.
#[derive(Debug)]
pub enum FormsOutcome {
    /// The server took the form.
    Accepted,
    /// The server answered with an HTTP challenge, and this is what to say of it should the
    /// challenge not be met either.
    Challenged(String),
    /// The server sent its login page again: the credentials are wrong.
    Rejected(String),
}

/// Whether the reply is the login page again.
pub open spec fn sent_back(path: Seq<char>) -> bool {
    text::has_part(path, "logon.aspx"@)
}

/// What is said of a login that the server sent back to its login page.
pub open spec fn sent_back_error(url: Seq<char>) -> Seq<char> {
    "OWA auth failed: redirected back to login page ("@ + url + "). Check username/password."@
}

/// What is said of a forms login that the server challenged.
pub open spec fn challenged_error(status: u16) -> Seq<char> {
    "OWA auth failed: HTTP "@ + http::status_line(status)
}

/// What came of the login form. A reply from the login page means wrong credentials, whatever its
/// status; any other refusal means that the form is not wanted.
pub fn forms_outcome(reply: &HttpReply) -> (r: FormsOutcome)
    requires
        reply.valid(),
    ensures
        match r {
            FormsOutcome::Rejected(e) => sent_back(reply.path@) && e@ == sent_back_error(
                reply.url@,
            ),
            FormsOutcome::Challenged(e) => {
                &&& !sent_back(reply.path@)
                &&& http::refused(reply.status)
                &&& e@ == challenged_error(reply.status)
            },
            FormsOutcome::Accepted => !sent_back(reply.path@) && !http::refused(reply.status),
        },
{
    if contains_text(reply.path.as_str(), "logon.aspx") {
        let mut e = String::new();
        e.append("OWA auth failed: redirected back to login page (");
        e.append(reply.url.as_str());
        e.append("). Check username/password.");
        assert(e@ =~= sent_back_error(reply.url@));
        return FormsOutcome::Rejected(e);
    }
    if reply.status == 401 || reply.status == 403 {
        let mut e = "OWA auth failed: HTTP ".to_string();
        e.append(status_text(reply.status).as_str());
        return FormsOutcome::Challenged(e);
    }
    FormsOutcome::Accepted
}

// ---------------------------------------------------------------------------
// Schemes
// ---------------------------------------------------------------------------

/// The schemes that a server offers: its readable challenges, in lower case.
pub open spec fn offered(challenges: Seq<Seq<u8>>) -> Seq<Seq<char>>
    decreases challenges.len(),
{
    if challenges.len() == 0 {
        seq![]
    } else {
        let rest = offered(challenges.drop_last());
        match session::header_value(challenges.last()) {
            Some(s) => rest.push(s.map_values(|c: char| text::ascii_lower(c))),
            None => rest,
        }
    }
}

/// Whether one of the schemes is of the kind named.
pub open spec fn offers(schemes: Seq<Seq<char>>, kind: Seq<char>) -> bool {
    exists|i: int| 0 <= i < schemes.len() && #[trigger] text::has_part(schemes[i], kind)
}

/// The schemes that can be followed, or what to say where none is offered.
#[derive(Debug)]
pub enum Scheme {
    Ntlm,
    Basic,
    Neither(String),
}

/// What is said of a server that offers no scheme that can be followed.
pub open spec fn no_scheme_error(url: Seq<char>, schemes: Seq<Seq<char>>) -> Seq<char> {
    "OWA auth failed: server challenge at "@ + url + " didn't offer a supported scheme (got: "@
        + text::joined(schemes, ", "@) + ")"@
}

/// `s` with its ASCII letters in lower case.
fn lower(s: &str) -> (r: String)
    ensures
        r@ == s@.map_values(|c: char| text::ascii_lower(c)),
{
    let chars = chars_of(s);
    let mut out = String::new();
    let mut i: usize = 0;
    while i < chars.len()
        invariant
            i <= chars@.len(),
            chars@ == s@,
            out@ == s@.take(i as int).map_values(|c: char| text::ascii_lower(c)),
        decreases chars@.len() - i,
    {
        let c = chars[i];
        if 'A' <= c && c <= 'Z' {
            out.push((c as u8 + 32) as char);
        } else {
            out.push(c);
        }
        assert(out@ =~= s@.take(i + 1).map_values(|c: char| text::ascii_lower(c)));
        i = i + 1;
    }
    assert(s@.take(s@.len() as int) =~= s@);
    out
}

/// The schemes that a server offers.
fn read_schemes(challenges: &Vec<Vec<u8>>) -> (r: Vec<String>)
    ensures
        text::texts(r@) == offered(ntlm::header_bytes(challenges@)),
{
    let mut out: Vec<String> = Vec::new();
    let ghost all = ntlm::header_bytes(challenges@);
    let mut i: usize = 0;
    assert(text::texts(out@) =~= offered(all.take(0)));
    while i < challenges.len()
        invariant
            i <= challenges@.len(),
            all == ntlm::header_bytes(challenges@),
            text::texts(out@) == offered(all.take(i as int)),
        decreases challenges@.len() - i,
    {
        assert(all.take(i + 1).drop_last() =~= all.take(i as int));
        match header_text(&challenges[i]) {
            Some(s) => {
                out.push(lower(s.as_str()));
            },
            None => {},
        }
        assert(text::texts(out@) =~= offered(all.take(i + 1)));
        i = i + 1;
    }
    assert(all.take(all.len() as int) =~= all);
    out
}

/// Whether one of the schemes is of the kind named.
fn any_offers(schemes: &Vec<String>, kind: &str) -> (r: bool)
    ensures
        r == offers(text::texts(schemes@), kind@),
{
    let ghost all = text::texts(schemes@);
    let mut i: usize = 0;
    while i < schemes.len()
        invariant
            i <= schemes@.len(),
            all == text::texts(schemes@),
            forall|k: int| 0 <= k < i ==> !#[trigger] text::has_part(all[k], kind@),
        decreases schemes@.len() - i,
    {
        if contains_text(schemes[i].as_str(), kind) {
            assert(text::has_part(all[i as int], kind@));
            return true;
        }
        assert(!text::has_part(all[i as int], kind@));
        i = i + 1;
    }
    false
}

/// Which of the schemes that the server offers at `url` to follow: NTLM if it is offered, else
/// Basic if it is.
pub fn choose_scheme(challenges: &Vec<Vec<u8>>, url: &str) -> (r: Scheme)
    ensures
        ({
            let schemes = offered(ntlm::header_bytes(challenges@));
            match r {
                Scheme::Ntlm => offers(schemes, "ntlm"@),
                Scheme::Basic => !offers(schemes, "ntlm"@) && offers(schemes, "basic"@),
                Scheme::Neither(e) => {
                    &&& !offers(schemes, "ntlm"@)
                    &&& !offers(schemes, "basic"@)
                    &&& e@ == no_scheme_error(url@, schemes)
                },
            }
        }),
{
    let schemes = read_schemes(challenges);
    if any_offers(&schemes, "ntlm") {
        return Scheme::Ntlm;
    }
    if any_offers(&schemes, "basic") {
        return Scheme::Basic;
    }
    let mut e = String::new();
    e.append("OWA auth failed: server challenge at ");
    e.append(url);
    e.append(" didn't offer a supported scheme (got: ");
    e.append(join(&schemes, ", ").as_str());
    e.append(")");
    assert(e@ =~= no_scheme_error(url@, text::texts(schemes@)));
    Scheme::Neither(e)
}

// ---------------------------------------------------------------------------
// Basic and NTLM
// ---------------------------------------------------------------------------

/// The header of Basic authentication.
pub open spec fn basic_value(username: Seq<char>, password: Seq<char>) -> Seq<char> {
    "Basic "@ + encode::base64_text(encode_utf8(username + ":"@ + password))
}

/// The header of Basic authentication.
pub fn basic_header(username: &str, password: &str) -> (r: String)
    ensures
        r@ == basic_value(username@, password@),
{
    let mut plain = username.to_string();
    plain.append(":");
    plain.append(password);
    let mut out = "Basic ".to_string();
    out.append(base64_encode(plain.as_str().as_bytes()).as_str());
    out
}

/// The header that carries an NTLM message.
pub open spec fn ntlm_value(message: Seq<u8>) -> Seq<char> {
    "NTLM "@ + encode::base64_text(message)
}

/// The header that carries an NTLM message.
pub fn ntlm_header(message: &Vec<u8>) -> (r: String)
    ensures
        r@ == ntlm_value(message@),
{
    let mut out = "NTLM ".to_string();
    out.append(base64_encode(message.as_slice()).as_str());
    out
}

/// What is said of credentials that the server refused under Basic authentication.
pub open spec fn basic_error(status: u16) -> Seq<char> {
    "OWA Basic auth failed: HTTP "@ + http::status_line(status) + ". Check username/password."@
}

/// What is said of credentials that the server refused under NTLM.
pub open spec fn ntlm_error(status: u16) -> Seq<char> {
    "OWA NTLM auth failed: HTTP "@ + http::status_line(status)
        + ". Check username/password/domain."@
}

/// What is wrong with a reply under Basic authentication, if anything.
pub fn basic_refusal(status: u16) -> (r: Option<String>)
    requires
        http::valid_status(status),
    ensures
        match r {
            Some(e) => http::refused(status) && e@ == basic_error(status),
            None => !http::refused(status),
        },
{
    if status == 401 || status == 403 {
        let mut e = "OWA Basic auth failed: HTTP ".to_string();
        e.append(status_text(status).as_str());
        e.append(". Check username/password.");
        return Some(e);
    }
    None
}

/// What is wrong with the last reply under NTLM, if anything.
pub fn ntlm_refusal(status: u16) -> (r: Option<String>)
    requires
        http::valid_status(status),
    ensures
        match r {
            Some(e) => http::refused(status) && e@ == ntlm_error(status),
            None => !http::refused(status),
        },
{
    if status == 401 || status == 403 {
        let mut e = "OWA NTLM auth failed: HTTP ".to_string();
        e.append(status_text(status).as_str());
        e.append(". Check username/password/domain.");
        return Some(e);
    }
    None
}

/// What is said where neither the form nor the challenge was met.
pub open spec fn fallback_error(forms: Seq<char>, challenge: Seq<char>) -> Seq<char> {
    "Forms auth failed ("@ + forms + "); Basic/NTLM fallback also failed: "@ + challenge
}

/// What is said where neither the form nor the challenge was met.
pub fn both_failed(forms: &str, challenge: &str) -> (r: String)
    ensures
        r@ == fallback_error(forms@, challenge@),
{
    let mut e = "Forms auth failed (".to_string();
    e.append(forms);
    e.append("); Basic/NTLM fallback also failed: ");
    e.append(challenge);
    e
}

// ---------------------------------------------------------------------------
// The course of a login
// ---------------------------------------------------------------------------

/// How far a login has come.
#[derive(Debug, Clone, Copy, PartialEq, Eq, Structural)]
pub enum Stage {
    /// The form has been sent.
    Forms,
    /// The form was taken; the cookies are being read.
    FormsCookies,
    /// The form was not wanted; the server is being asked what it offers.
    Probe,
    /// Basic credentials have been sent.
    Basic,
    /// Basic credentials were taken; the cookies are being read.
    BasicCookies,
    /// The first NTLM message has been sent.
    Negotiate,
    /// The NTLM challenge has come; the clock is being read for the answer.
    Answer,
    /// The answer has been sent.
    Authenticate,
    /// The answer was taken; the cookies are being read.
    NtlmCookies,
    /// The login is over.
    Done,
}

/// A login under way.
pub struct Login {
    host: String,
    username: String,
    password: String,
    stage: Stage,
    forms_error: String,
    url: String,
    challenge: NtlmChallenge,
}

/// A login under way, with texts as sequences of characters.
#[verifier::ext_equal]
pub struct LoginView {
    pub host: Seq<char>,
    pub username: Seq<char>,
    pub password: Seq<char>,
    pub stage: Stage,
    /// What was wrong with the forms login.
    pub forms_error: Seq<char>,
    /// The address that NTLM goes on with.
    pub url: Seq<char>,
    /// The bytes of the NTLM challenge that are to be answered.
    pub nonce: Seq<u8>,
    /// The target's description in the NTLM challenge.
    pub target_info: Seq<u8>,
}

/// What to do next.
pub enum LoginAction {
    /// Send the form.
    PostForm { url: String, fields: Vec<Header> },
    /// Get the address, with an `Authorization` header if one is given.
    Get { url: String, authorization: Option<String> },
    /// Read the cookies that would be sent to the address.
    ReadCookies { url: String },
    /// Read the clock, in NTLM's count.
    ReadClock,
    /// Nothing more: this is what came of the login.
    Finish { result: Result<OwaSession, String> },
}

/// What to do next, with texts as sequences of characters.
pub enum Step {
    PostForm { url: Seq<char>, fields: Seq<http::Pair> },
    Get { url: Seq<char>, authorization: Option<Seq<char>> },
    ReadCookies { url: Seq<char> },
    ReadClock,
    Finish { result: Result<SessionView, Seq<char>> },
}

/// What came of the last action.
#[derive(Debug)]
pub enum LoginEvent {
    /// A reply to a request.
    Reply(HttpReply),
    /// The cookies for an address, if there are any.
    Cookies(Option<Vec<u8>>),
    /// The time in NTLM's count.
    Clock(i64),
    /// The action could not be carried out.
    Failed(String),
}

impl LoginAction {
    /// The action with texts as sequences of characters.
    pub open spec fn step(self) -> Step {
        match self {
            LoginAction::PostForm { url, fields } => Step::PostForm {
                url: url@,
                fields: http::pairs(fields@),
            },
            LoginAction::Get { url, authorization } => Step::Get {
                url: url@,
                authorization: text::text_option(authorization),
            },
            LoginAction::ReadCookies { url } => Step::ReadCookies { url: url@ },
            LoginAction::ReadClock => Step::ReadClock,
            LoginAction::Finish { result } => Step::Finish {
                result: match result {
                    Ok(s) => Ok(s@),
                    Err(e) => Err(e@),
                },
            },
        }
    }
}

impl LoginView {
    /// The login at another stage.
    pub open spec fn at(self, stage: Stage) -> LoginView {
        LoginView { stage, ..self }
    }

    /// The login over with an error.
    pub open spec fn fail(self, e: Seq<char>) -> (LoginView, Step) {
        (self.at(Stage::Done), (Step::Finish { result: Err(e) }))
    }

    /// The login over with an error after the forms login had been challenged.
    pub open spec fn fail_both(self, e: Seq<char>) -> (LoginView, Step) {
        self.fail(fallback_error(self.forms_error, e))
    }

    /// The login over with a session.
    pub open spec fn succeed(self, cookies: Option<Seq<u8>>, basic: Option<Seq<char>>) -> (
        LoginView,
        Step,
    ) {
        (
            self.at(Stage::Done),
            (Step::Finish { result: Ok(SessionView { canary: session::canary(cookies), basic }) }),
        )
    }

    /// Whether what came of the last action can be such an event.
    pub open spec fn awaits(self, event: LoginEvent) -> bool {
        match self.stage {
            Stage::Forms | Stage::Probe | Stage::Basic | Stage::Authenticate => match event {
                LoginEvent::Reply(reply) => reply.valid(),
                LoginEvent::Failed(_) => true,
                _ => false,
            },
            Stage::Negotiate => match event {
                LoginEvent::Reply(reply) => reply.valid() && ntlm::can_read(
                    ntlm::header_bytes(reply.challenges@),
                ),
                LoginEvent::Failed(_) => true,
                _ => false,
            },
            Stage::FormsCookies | Stage::BasicCookies | Stage::NtlmCookies => match event {
                LoginEvent::Cookies(_) => true,
                LoginEvent::Failed(_) => true,
                _ => false,
            },
            Stage::Answer => match event {
                LoginEvent::Clock(_) => ntlm::can_answer(
                    self.nonce,
                    self.target_info,
                    self.username,
                ),
                _ => false,
            },
            Stage::Done => false,
        }
    }

    /// How the login goes on. Only what an NTLM challenge says, and the answer to it, depend on
    /// `chance`.
    pub open spec fn next(self, event: LoginEvent, chance: Chance) -> (LoginView, Step) {
        let basic = basic_value(self.username, self.password);
        match (self.stage, event) {
            (Stage::Forms, LoginEvent::Reply(reply)) => if sent_back(reply.path@) {
                self.fail(sent_back_error(reply.url@))
            } else if http::refused(reply.status) {
                (
                    (LoginView {
                        stage: Stage::Probe,
                        forms_error: challenged_error(reply.status),
                        ..self
                    }),
                    (Step::Get { url: owa_url(self.host), authorization: None }),
                )
            } else {
                (
                    self.at(Stage::FormsCookies),
                    (Step::ReadCookies { url: owa_url(self.host) }),
                )
            },
            (Stage::Forms, LoginEvent::Failed(e)) => self.fail(e@),
            (Stage::FormsCookies, LoginEvent::Cookies(c)) => self.succeed(
                session::bytes_of(c),
                None,
            ),
            (Stage::FormsCookies, LoginEvent::Failed(e)) => self.fail(e@),
            (Stage::Probe, LoginEvent::Reply(reply)) => {
                let schemes = offered(ntlm::header_bytes(reply.challenges@));
                if offers(schemes, "ntlm"@) {
                    (
                        self.at(Stage::Negotiate),
                        (Step::Get {
                            url: owa_url(self.host),
                            authorization: Some(ntlm_value(ntlm::opening())),
                        }),
                    )
                } else if offers(schemes, "basic"@) {
                    (
                        self.at(Stage::Basic),
                        (Step::Get { url: owa_url(self.host), authorization: Some(basic) }),
                    )
                } else {
                    self.fail_both(no_scheme_error(owa_url(self.host), schemes))
                }
            },
            (Stage::Basic, LoginEvent::Reply(reply)) => if http::refused(reply.status) {
                self.fail_both(basic_error(reply.status))
            } else {
                (
                    self.at(Stage::BasicCookies),
                    (Step::ReadCookies { url: owa_url(self.host) }),
                )
            },
            (Stage::BasicCookies, LoginEvent::Cookies(c)) => self.succeed(
                session::bytes_of(c),
                Some(basic),
            ),
            (Stage::Negotiate, LoginEvent::Reply(reply)) => match ntlm::challenge_in(
                ntlm::header_bytes(reply.challenges@),
                chance.ansi,
            ) {
                Ok(c) => (
                    (LoginView {
                        stage: Stage::Answer,
                        url: reply.url@,
                        nonce: c.0,
                        target_info: c.1,
                        ..self
                    }),
                    Step::ReadClock,
                ),
                Err(e) => self.fail_both(e),
            },
            (Stage::Answer, LoginEvent::Clock(time)) => (
                self.at(Stage::Authenticate),
                (Step::Get {
                    url: self.url,
                    authorization: Some(
                        ntlm_value(
                            ntlm::closing(
                                self.nonce,
                                self.target_info,
                                time,
                                self.username,
                                self.password,
                                chance.random,
                            ),
                        ),
                    ),
                }),
            ),
            (Stage::Authenticate, LoginEvent::Reply(reply)) => if http::refused(reply.status) {
                self.fail_both(ntlm_error(reply.status))
            } else {
                (self.at(Stage::NtlmCookies), (Step::ReadCookies { url: self.url }))
            },
            (Stage::NtlmCookies, LoginEvent::Cookies(c)) => self.succeed(
                session::bytes_of(c),
                None,
            ),
            (_, LoginEvent::Failed(e)) => self.fail_both(e@),
            _ => self.fail(seq![]),
        }
    }

    /// Whether the login can go on to `after` and `step`, for some `chance`.
    pub open spec fn leads_to(self, event: LoginEvent, after: LoginView, step: Step) -> bool {
        exists|chance: Chance|
            chance.valid() && (after, step) == #[trigger] self.next(event, chance)
    }
}

impl View for Login {
    type V = LoginView;

    closed spec fn view(&self) -> LoginView {
        LoginView {
            host: self.host@,
            username: self.username@,
            password: self.password@,
            stage: self.stage,
            forms_error: self.forms_error@,
            url: self.url@,
            nonce: self.challenge.nonce@,
            target_info: self.challenge.target_info@,
        }
    }
}

impl Login {
    /// Starts a login, with the form.
    pub fn start(host: &str, username: &str, password: &str) -> (r: (Login, LoginAction))
        ensures
            r.0@ == (LoginView {
                host: host@,
                username: username@,
                password: password@,
                stage: Stage::Forms,
                forms_error: seq![],
                url: seq![],
                nonce: seq![],
                target_info: seq![],
            }),
            r.1.step() == (Step::PostForm {
                url: form_url(host@),
                fields: form_fields(host@, username@, password@),
            }),
    {
        let (url, fields) = login_form(host, username, password);
        let login = Login {
            host: host.to_string(),
            username: username.to_string(),
            password: password.to_string(),
            stage: Stage::Forms,
            forms_error: String::new(),
            url: String::new(),
            challenge: NtlmChallenge { nonce: Vec::new(), target_info: Vec::new() },
        };
        (login, LoginAction::PostForm { url, fields })
    }

    /// Whether what came of the last action can be such an event.
    pub fn accepts(&self, event: &LoginEvent) -> (r: bool)
        ensures
            r == self@.awaits(*event),
    {
        match self.stage {
            Stage::Forms | Stage::Probe | Stage::Basic | Stage::Authenticate => match event {
                LoginEvent::Reply(reply) => 100 <= reply.status && reply.status <= 999,
                LoginEvent::Failed(_) => true,
                _ => false,
            },
            Stage::Negotiate => match event {
                LoginEvent::Reply(reply) => 100 <= reply.status && reply.status <= 999
                    && is_readable(&reply.challenges),
                LoginEvent::Failed(_) => true,
                _ => false,
            },
            Stage::FormsCookies | Stage::BasicCookies | Stage::NtlmCookies => match event {
                LoginEvent::Cookies(_) => true,
                LoginEvent::Failed(_) => true,
                _ => false,
            },
            Stage::Answer => match event {
                LoginEvent::Clock(_) => is_answerable(&self.challenge, self.username.as_str()),
                _ => false,
            },
            Stage::Done => false,
        }
    }

    /// Ends the login with an error.
    fn fail(&mut self, e: String) -> (r: LoginAction)
        ensures
            (final(self)@, r.step()) == old(self)@.fail(e@),
    {
        self.stage = Stage::Done;
        LoginAction::Finish { result: Err(e) }
    }

    /// Ends the login with an error after the forms login had been challenged.
    fn fail_both(&mut self, e: String) -> (r: LoginAction)
        ensures
            (final(self)@, r.step()) == old(self)@.fail_both(e@),
    {
        let both = both_failed(self.forms_error.as_str(), e.as_str());
        self.fail(both)
    }

    /// Ends the login with a session.
    fn succeed(&mut self, cookies: Option<Vec<u8>>, basic: Option<String>) -> (r: LoginAction)
        ensures
            (final(self)@, r.step()) == old(self)@.succeed(
                session::bytes_of(cookies),
                text::text_option(basic),
            ),
    {
        let canary = canary_from_jar(&cookies);
        self.stage = Stage::Done;
        LoginAction::Finish { result: Ok(OwaSession { canary, basic_auth_header: basic }) }
    }

    /// After the form's reply.
    fn after_forms(&mut self, reply: HttpReply) -> (r: LoginAction)
        requires
            old(self)@.stage == Stage::Forms,
            reply.valid(),
        ensures
            forall|chance: Chance|
                (final(self)@, r.step()) == #[trigger] old(self)@.next(
                    LoginEvent::Reply(reply),
                    chance,
                ),
    {
        match forms_outcome(&reply) {
            FormsOutcome::Rejected(e) => self.fail(e),
            FormsOutcome::Challenged(e) => {
                self.forms_error = e;
                self.stage = Stage::Probe;
                LoginAction::Get { url: mailbox_url(self.host.as_str()), authorization: None }
            },
            FormsOutcome::Accepted => {
                self.stage = Stage::FormsCookies;
                LoginAction::ReadCookies { url: mailbox_url(self.host.as_str()) }
            },
        }
    }

    /// After the reply that names the schemes.
    fn after_probe(&mut self, reply: HttpReply) -> (r: LoginAction)
        requires
            old(self)@.stage == Stage::Probe,
        ensures
            forall|chance: Chance|
                (final(self)@, r.step()) == #[trigger] old(self)@.next(
                    LoginEvent::Reply(reply),
                    chance,
                ),
    {
        let url = mailbox_url(self.host.as_str());
        match choose_scheme(&reply.challenges, url.as_str()) {
            Scheme::Ntlm => match opening_bytes() {
                Ok(message) => {
                    self.stage = Stage::Negotiate;
                    LoginAction::Get { url, authorization: Some(ntlm_header(&message)) }
                },
                Err(e) => self.fail_both(e),
            },
            Scheme::Basic => {
                self.stage = Stage::Basic;
                let header = basic_header(self.username.as_str(), self.password.as_str());
                LoginAction::Get { url, authorization: Some(header) }
            },
            Scheme::Neither(e) => self.fail_both(e),
        }
    }

    /// After the reply to Basic credentials.
    fn after_basic(&mut self, reply: HttpReply) -> (r: LoginAction)
        requires
            old(self)@.stage == Stage::Basic,
            reply.valid(),
        ensures
            forall|chance: Chance|
                (final(self)@, r.step()) == #[trigger] old(self)@.next(
                    LoginEvent::Reply(reply),
                    chance,
                ),
    {
        match basic_refusal(reply.status) {
            Some(e) => self.fail_both(e),
            None => {
                self.stage = Stage::BasicCookies;
                LoginAction::ReadCookies { url: mailbox_url(self.host.as_str()) }
            },
        }
    }

    /// After the reply to the first NTLM message.
    fn after_negotiate(&mut self, reply: HttpReply) -> (r: LoginAction)
        requires
            old(self)@.stage == Stage::Negotiate,
            ntlm::can_read(ntlm::header_bytes(reply.challenges@)),
        ensures
            old(self)@.leads_to(LoginEvent::Reply(reply), final(self)@, r.step()),
            final(self)@.stage == Stage::Answer ==> final(self)@.nonce.len() == 8,
    {
        let ghost before = self@;
        let ghost list = ntlm::header_bytes(reply.challenges@);
        let read = read_challenge(&reply.challenges);
        let ghost ansi = choose|ansi: Set<Seq<u8>>|
            ntlm::challenge_result(read) == #[trigger] ntlm::challenge_in(list, ansi);
        let ghost chance = Chance { random: Seq::new(8, |i: int| 0u8), ansi };
        let ghost event = LoginEvent::Reply(reply);
        let r = match read {
            Ok(challenge) => {
                self.url = reply.url;
                self.challenge = challenge;
                self.stage = Stage::Answer;
                LoginAction::ReadClock
            },
            Err(e) => self.fail_both(e),
        };
        assert((self@, r.step()) == before.next(event, chance));
        r
    }

    /// After the reply to the last NTLM message.
    fn after_authenticate(&mut self, reply: HttpReply) -> (r: LoginAction)
        requires
            old(self)@.stage == Stage::Authenticate,
            reply.valid(),
        ensures
            forall|chance: Chance|
                (final(self)@, r.step()) == #[trigger] old(self)@.next(
                    LoginEvent::Reply(reply),
                    chance,
                ),
    {
        match ntlm_refusal(reply.status) {
            Some(e) => self.fail_both(e),
            None => {
                self.stage = Stage::NtlmCookies;
                LoginAction::ReadCookies { url: self.url.clone() }
            },
        }
    }

    /// After the time for the answer.
    fn after_clock(&mut self, time: i64) -> (r: LoginAction)
        requires
            old(self)@.stage == Stage::Answer,
            old(self)@.awaits(LoginEvent::Clock(time)),
        ensures
            old(self)@.leads_to(LoginEvent::Clock(time), final(self)@, r.step()),
            final(self)@.stage != Stage::Answer,
    {
        match answer_challenge(
            &self.challenge,
            self.username.as_str(),
            self.password.as_str(),
            time,
        ) {
            Ok(message) => {
                self.stage = Stage::Authenticate;
                let r = LoginAction::Get {
                    url: self.url.clone(),
                    authorization: Some(ntlm_header(&message)),
                };
                proof {
                    let random = choose|random: Seq<u8>|
                        random.len() == 8 && message@ == #[trigger] ntlm::closing(
                            self.challenge.nonce@,
                            self.challenge.target_info@,
                            time,
                            self.username@,
                            self.password@,
                            random,
                        );
                    let chance = Chance { random, ansi: Set::empty() };
                    assert((self@, r.step()) == old(self)@.next(LoginEvent::Clock(time), chance));
                }
                r
            },
            Err(e) => self.fail_both(e),
        }
    }

    /// Takes what came of the last action and says what to do next. A challenge to be answered has
    /// eight bytes.
    pub fn step(&mut self, event: LoginEvent) -> (r: LoginAction)
        requires
            old(self)@.awaits(event),
        ensures
            old(self)@.leads_to(event, final(self)@, r.step()),
            final(self)@.stage == Stage::Answer ==> final(self)@.nonce.len() == 8,
    {
        let ghost any = Chance { random: Seq::new(8, |i: int| 0u8), ansi: Set::empty() };
        let ghost before = self@;
        let r = match event {
            LoginEvent::Failed(e) => match self.stage {
                Stage::Forms | Stage::FormsCookies => self.fail(e),
                _ => self.fail_both(e),
            },
            LoginEvent::Reply(reply) => match self.stage {
                Stage::Forms => self.after_forms(reply),
                Stage::Probe => self.after_probe(reply),
                Stage::Basic => self.after_basic(reply),
                Stage::Negotiate => {
                    return self.after_negotiate(reply);
                },
                _ => self.after_authenticate(reply),
            },
            LoginEvent::Cookies(cookies) => match self.stage {
                Stage::BasicCookies => {
                    let header = basic_header(self.username.as_str(), self.password.as_str());
                    self.succeed(cookies, Some(header))
                },
                _ => self.succeed(cookies, None),
            },
            LoginEvent::Clock(time) => {
                return self.after_clock(time);
            },
        };
        assert((self@, r.step()) == before.next(event, any));
        r
    }
}

// ---------------------------------------------------------------------------
// Laws
// ---------------------------------------------------------------------------

/// How many steps at most lie behind a stage.
pub open spec fn progress(stage: Stage) -> int {
    match stage {
        Stage::Forms => 0,
        Stage::Probe => 1,
        Stage::Basic => 2,
        Stage::Negotiate => 2,
        Stage::Answer => 3,
        Stage::Authenticate => 4,
        Stage::FormsCookies => 5,
        Stage::BasicCookies => 5,
        Stage::NtlmCookies => 5,
        Stage::Done => 6,
    }
}

/// Every step brings a login further, so it is over after six; it is over exactly when it says
/// so; and its credentials stay as they were.
pub proof fn law_login_ends(login: LoginView, event: LoginEvent, chance: Chance)
    requires
        login.awaits(event),
    ensures
        progress(login.next(event, chance).0.stage) > progress(login.stage),
        login.next(event, chance).0.stage == Stage::Done <==> login.next(event, chance).1 is Finish,
        login.next(event, chance).0.host == login.host,
        login.next(event, chance).0.username == login.username,
        login.next(event, chance).0.password == login.password,
{
}

/// A form that is answered with the login page again ends the login: no other scheme is tried.
pub proof fn law_wrong_credentials_end_login(login: LoginView, reply: HttpReply, chance: Chance)
    requires
        login.stage == Stage::Forms,
        sent_back(reply.path@),
    ensures
        login.next(LoginEvent::Reply(reply), chance) == login.fail(sent_back_error(reply.url@)),
{
}

/// Any other refusal of the form leads on to the schemes that the server offers.
pub proof fn law_challenge_leads_on(login: LoginView, reply: HttpReply, chance: Chance)
    requires
        login.stage == Stage::Forms,
        !sent_back(reply.path@),
        http::refused(reply.status),
    ensures
        login.next(LoginEvent::Reply(reply), chance).0.stage == Stage::Probe,
{
}

/// Basic credentials are sent only to a server that offers Basic authentication and not NTLM.
pub proof fn law_basic_only_without_ntlm(login: LoginView, event: LoginEvent, chance: Chance)
    requires
        login.awaits(event),
        login.next(event, chance).0.stage == Stage::Basic,
    ensures
        login.stage == Stage::Probe,
        event is Reply,
        !offers(offered(ntlm::header_bytes(event->Reply_0.challenges@)), "ntlm"@),
        offers(offered(ntlm::header_bytes(event->Reply_0.challenges@)), "basic"@),
{
}

/// A session repeats the header of Basic authentication exactly where Basic authentication made
/// it, and what it repeats is then the header of the login's own credentials.
pub proof fn law_session_repeats_basic(login: LoginView, event: LoginEvent, chance: Chance)
    requires
        login.awaits(event),
    ensures
        login.next(event, chance).1 matches Step::Finish { result: Ok(s) } ==> {
            s.basic == if login.stage == Stage::BasicCookies {
                Some(basic_value(login.username, login.password))
            } else {
                None
            }
        },
{
}

/// Whether the cookies are being read.
pub open spec fn reads_cookies(stage: Stage) -> bool {
    stage == Stage::FormsCookies || stage == Stage::BasicCookies || stage == Stage::NtlmCookies
}

/// A session comes only of a request that the server did not refuse: the cookies are read only
/// after such a reply, and a session is made only of cookies.
pub proof fn law_session_after_acceptance(login: LoginView, event: LoginEvent, chance: Chance)
    requires
        login.awaits(event),
    ensures
        login.next(event, chance).1 is ReadCookies ==> event is Reply && !http::refused(
            event->Reply_0.status,
        ),
        login.next(event, chance).1 matches Step::Finish { result: Ok(s) } ==> {
            &&& event is Cookies
            &&& s.canary == session::canary(session::bytes_of(event->Cookies_0))
            &&& reads_cookies(login.stage)
        },
        reads_cookies(login.next(event, chance).0.stage) ==> login.next(
            event,
            chance,
        ).1 is ReadCookies,
{
}

/// An NTLM challenge that can be answered is answered: once the time is known, the address that it
/// came from is sent the message that answers this very challenge, at that time, under the login's
/// own name and password.
pub proof fn law_challenge_is_answered(
    login: LoginView,
    reply: HttpReply,
    time: i64,
    first: Chance,
    chance: Chance,
)
    requires
        login.stage == Stage::Negotiate,
        ntlm::challenge_in(ntlm::header_bytes(reply.challenges@), first.ansi) is Ok,
    ensures
        ({
            let c = ntlm::challenge_in(ntlm::header_bytes(reply.challenges@), first.ansi)->Ok_0;
            let (told, ask) = login.next(LoginEvent::Reply(reply), first);
            let message = ntlm::closing(
                c.0,
                c.1,
                time,
                login.username,
                login.password,
                chance.random,
            );
            &&& ask is ReadClock
            &&& told.awaits(LoginEvent::Clock(time)) == ntlm::can_answer(c.0, c.1, login.username)
            &&& told.next(LoginEvent::Clock(time), chance).0.stage == Stage::Authenticate
            &&& told.next(LoginEvent::Clock(time), chance).1 matches Step::Get {
                url,
                authorization: Some(value),
            }
            &&& url == reply.url@
            &&& encode::base64_bytes(value.skip(5)) == Some(message)
        }),
{
    reveal_strlit("NTLM ");
    let c = ntlm::challenge_in(ntlm::header_bytes(reply.challenges@), first.ansi)->Ok_0;
    let message = ntlm::closing(c.0, c.1, time, login.username, login.password, chance.random);
    assert(ntlm_value(message).skip(5) =~= encode::base64_text(message));
    encode::law_base64_round_trip(message);
}

/// After a challenge, an error names what was wrong with the form as well as what was wrong with
/// the challenge.
pub proof fn law_fallback_error_names_both(login: LoginView, event: LoginEvent, chance: Chance)
    requires
        login.awaits(event),
        login.stage != Stage::Forms,
        login.stage != Stage::FormsCookies,
    ensures
        login.next(event, chance).1 matches Step::Finish { result: Err(e) } ==> exists|c: Seq<char>|
            e == #[trigger] fallback_error(login.forms_error, c),
{
}

/// The header of Basic authentication carries the user name and the password: what follows
/// `Basic ` is the base64 of both with a colon between them.
pub proof fn law_basic_header_carries_credentials(username: Seq<char>, password: Seq<char>)
    ensures
        encode::base64_bytes(basic_value(username, password).skip(6)) == Some(
            encode_utf8(username + ":"@ + password),
        ),
{
    reveal_strlit("Basic ");
    let plain = encode_utf8(username + ":"@ + password);
    assert(basic_value(username, password).skip(6) =~= encode::base64_text(plain));
    encode::law_base64_round_trip(plain);
}

/// The addresses of a login lie below the host, whatever slashes the host ends with.
pub proof fn law_login_addresses(host: Seq<char>, base: Seq<char>)
    requires
        text::is_base(host, base),
    ensures
        owa_url(host) == base + "/owa/"@,
        form_url(host) == base + "/owa/auth.owa"@,
{
    text::law_base_is_one(host, base);
}

/// The form holds the user's name and password as they are, where to go on to, and four settings.
pub proof fn law_form_fields(host: Seq<char>, username: Seq<char>, password: Seq<char>)
    ensures
        ({
            let fields = form_fields(host, username, password);
            &&& fields.len() == 7
            &&& fields.contains(("destination"@, owa_url(host)))
            &&& fields.contains(("username"@, username))
            &&& fields.contains(("password"@, password))
            &&& fields.contains(("flags"@, "4"@))
            &&& fields.contains(("forcedownlevel"@, "0"@))
            &&& fields.contains(("trusted"@, "0"@))
            &&& fields.contains(("isUtf8"@, "1"@))
        }),
{
    let fields = form_fields(host, username, password);
    assert(fields[0] == ("destination"@, owa_url(host)));
    assert(fields[1] == ("flags"@, "4"@));
    assert(fields[2] == ("forcedownlevel"@, "0"@));
    assert(fields[3] == ("trusted"@, "0"@));
    assert(fields[4] == ("username"@, username));
    assert(fields[5] == ("password"@, password));
    assert(fields[6] == ("isUtf8"@, "1"@));
}

/// What is said of a login that failed: the address, the status, both complaints or all schemes,
/// whichever the message is about, stand in it whole.
pub proof fn law_login_errors(
    url: Seq<char>,
    forms: Seq<char>,
    challenge: Seq<char>,
    schemes: Seq<Seq<char>>,
)
    ensures
        sent_back_error(url) == "OWA auth failed: redirected back to login page ("@ + url
            + "). Check username/password."@,
        challenged_error(401) == "OWA auth failed: HTTP "@ + "401 Unauthorized"@,
        challenged_error(403) == "OWA auth failed: HTTP "@ + "403 Forbidden"@,
        basic_error(401) == "OWA Basic auth failed: HTTP "@ + "401 Unauthorized"@
            + ". Check username/password."@,
        basic_error(403) == "OWA Basic auth failed: HTTP "@ + "403 Forbidden"@
            + ". Check username/password."@,
        ntlm_error(401) == "OWA NTLM auth failed: HTTP "@ + "401 Unauthorized"@
            + ". Check username/password/domain."@,
        ntlm_error(403) == "OWA NTLM auth failed: HTTP "@ + "403 Forbidden"@
            + ". Check username/password/domain."@,
        fallback_error(forms, challenge) == "Forms auth failed ("@ + forms
            + "); Basic/NTLM fallback also failed: "@ + challenge,
        no_scheme_error(url, schemes) == "OWA auth failed: server challenge at "@ + url
            + " didn't offer a supported scheme (got: "@ + text::joined(schemes, ", "@) + ")"@,
{
}

/// The schemes offered are the challenges that can be read, in their order and in small letters.
pub proof fn law_offered(a: Seq<Seq<u8>>, b: Seq<Seq<u8>>, bytes: Seq<u8>, value: Seq<char>)
    ensures
        offered(a + b) == offered(a) + offered(b),
        session::header_value(bytes) is None ==> offered(seq![bytes]).len() == 0,
        session::reads_as(bytes, value) ==> {
            let s = offered(seq![bytes]);
            &&& s.len() == 1
            &&& s[0].len() == value.len()
            &&& forall|i: int|
                0 <= i < value.len() ==> #[trigger] s[0][i] == text::ascii_lower(value[i])
        },
    decreases b.len(),
{
    let one = seq![bytes];
    let front = one.drop_last();
    assert(front.len() == 0);
    assert(offered(front) =~= seq![]);
    assert(one.last() == bytes);
    session::law_header_value(bytes, value);
    if b.len() == 0 {
        assert(a + b =~= a);
        assert(offered(b) =~= seq![]);
    } else {
        law_offered(a, b.drop_last(), bytes, value);
        assert((a + b).drop_last() =~= a + b.drop_last());
        assert(offered(a + b) =~= offered(a) + offered(b));
    }
}

/// A kind of scheme is offered exactly if its name stands somewhere in one of the schemes.
pub proof fn law_offers(schemes: Seq<Seq<char>>, kind: Seq<char>)
    ensures
        offers(schemes, kind) <==> exists|i: int, a: Seq<char>, b: Seq<char>|
            0 <= i < schemes.len() && #[trigger] schemes[i] == #[trigger] ((a + kind) + b),
{
    if offers(schemes, kind) {
        let i = choose|i: int|
            0 <= i < schemes.len() && #[trigger] text::has_part(schemes[i], kind);
        text::law_has_part(schemes[i], kind);
        let (a, b) = choose|a: Seq<char>, b: Seq<char>| schemes[i] == #[trigger] ((a + kind) + b);
        assert(schemes[i] == ((a + kind) + b));
    }
    if exists|i: int, a: Seq<char>, b: Seq<char>|
        0 <= i < schemes.len() && #[trigger] schemes[i] == #[trigger] ((a + kind) + b) {
        let (i, a, b) = choose|i: int, a: Seq<char>, b: Seq<char>|
            0 <= i < schemes.len() && #[trigger] schemes[i] == #[trigger] ((a + kind) + b);
        text::law_has_part(schemes[i], kind);
        assert(text::has_part(schemes[i], kind));
    }
}

/// A header is its scheme's name, a space and base64 that gives the bytes back.
pub proof fn law_authorization(username: Seq<char>, password: Seq<char>, message: Seq<u8>)
    ensures
        basic_value(username, password) == "Basic "@ + encode::base64_text(
            encode_utf8(username + seq![':'] + password),
        ),
        ntlm_value(message) == "NTLM "@ + encode::base64_text(message),
{
    reveal_strlit(":");
    assert(":"@ =~= seq![':']);
}

/// After the form: the login page again ends the login; else a refusal leads to a request for the
/// mailbox without credentials, to see what the server offers; else the mailbox's cookies are read.
pub proof fn law_after_form(login: LoginView, reply: HttpReply, chance: Chance)
    requires
        login.stage == Stage::Forms,
    ensures
        ({
            let back = text::has_part(reply.path@, "logon.aspx"@);
            let refused = reply.status == 401 || reply.status == 403;
            let (after, step) = login.next(LoginEvent::Reply(reply), chance);
            &&& back ==> after.stage == Stage::Done && step == (Step::Finish {
                result: Err(sent_back_error(reply.url@)),
            })
            &&& !back && refused ==> after.stage == Stage::Probe && after.forms_error
                == challenged_error(reply.status) && step == (Step::Get {
                url: owa_url(login.host),
                authorization: None,
            })
            &&& !back && !refused ==> after.stage == Stage::FormsCookies && step == (
            Step::ReadCookies { url: owa_url(login.host) })
        }),
{
}

/// After the server has said what it offers: NTLM is opened where it is offered, else Basic
/// credentials are sent where those are, else the login ends with all that was offered.
pub proof fn law_after_probe(login: LoginView, reply: HttpReply, chance: Chance)
    requires
        login.stage == Stage::Probe,
    ensures
        ({
            let schemes = offered(ntlm::header_bytes(reply.challenges@));
            let (after, step) = login.next(LoginEvent::Reply(reply), chance);
            &&& offers(schemes, "ntlm"@) ==> after.stage == Stage::Negotiate && step == (Step::Get {
                url: owa_url(login.host),
                authorization: Some(ntlm_value(ntlm::opening())),
            })
            &&& !offers(schemes, "ntlm"@) && offers(schemes, "basic"@) ==> after.stage
                == Stage::Basic && step == (Step::Get {
                url: owa_url(login.host),
                authorization: Some(basic_value(login.username, login.password)),
            })
            &&& !offers(schemes, "ntlm"@) && !offers(schemes, "basic"@) ==> after.stage
                == Stage::Done && step == (Step::Finish {
                result: Err(
                    fallback_error(
                        login.forms_error,
                        no_scheme_error(owa_url(login.host), schemes),
                    ),
                ),
            })
            &&& after.forms_error == login.forms_error
        }),
{
}

/// After Basic credentials: a refusal ends the login, and anything else leads to the mailbox's
/// cookies.
pub proof fn law_after_basic(login: LoginView, reply: HttpReply, chance: Chance)
    requires
        login.stage == Stage::Basic,
    ensures
        ({
            let refused = reply.status == 401 || reply.status == 403;
            let (after, step) = login.next(LoginEvent::Reply(reply), chance);
            &&& refused ==> after.stage == Stage::Done && step == (Step::Finish {
                result: Err(fallback_error(login.forms_error, basic_error(reply.status))),
            })
            &&& !refused ==> after.stage == Stage::BasicCookies && step == (Step::ReadCookies {
                url: owa_url(login.host),
            })
        }),
{
}

/// After the first NTLM message: a challenge is kept, with the address that it came from, and the
/// clock is read; what is no challenge ends the login.
pub proof fn law_after_negotiate(login: LoginView, reply: HttpReply, chance: Chance)
    requires
        login.stage == Stage::Negotiate,
    ensures
        ({
            let (after, step) = login.next(LoginEvent::Reply(reply), chance);
            match ntlm::challenge_in(ntlm::header_bytes(reply.challenges@), chance.ansi) {
                Ok(c) => {
                    &&& after.stage == Stage::Answer
                    &&& after.url == reply.url@
                    &&& after.nonce == c.0
                    &&& after.target_info == c.1
                    &&& after.forms_error == login.forms_error
                    &&& step is ReadClock
                },
                Err(e) => after.stage == Stage::Done && step == (Step::Finish {
                    result: Err(fallback_error(login.forms_error, e)),
                }),
            }
        }),
{
}

/// After the last NTLM message: a refusal ends the login, and anything else leads to the cookies of
/// the address that the challenge came from.
pub proof fn law_after_authenticate(login: LoginView, reply: HttpReply, chance: Chance)
    requires
        login.stage == Stage::Authenticate,
    ensures
        ({
            let refused = reply.status == 401 || reply.status == 403;
            let (after, step) = login.next(LoginEvent::Reply(reply), chance);
            &&& refused ==> after.stage == Stage::Done && step == (Step::Finish {
                result: Err(fallback_error(login.forms_error, ntlm_error(reply.status))),
            })
            &&& !refused ==> after.stage == Stage::NtlmCookies && step == (Step::ReadCookies {
                url: login.url,
            })
        }),
{
}

/// Reading the clock keeps the challenge's address and what was wrong with the form.
pub proof fn law_after_clock(login: LoginView, time: i64, chance: Chance)
    requires
        login.stage == Stage::Answer,
    ensures
        ({
            let (after, step) = login.next(LoginEvent::Clock(time), chance);
            &&& after.stage == Stage::Authenticate
            &&& after.url == login.url
            &&& after.forms_error == login.forms_error
            &&& step is Get
        }),
{
}

/// With the cookies the login is over, and there is a session.
pub proof fn law_after_cookies(login: LoginView, cookies: Option<Vec<u8>>, chance: Chance)
    requires
        reads_cookies(login.stage),
    ensures
        ({
            let (after, step) = login.next(LoginEvent::Cookies(cookies), chance);
            &&& after.stage == Stage::Done
            &&& step matches Step::Finish { result: Ok(s) }
            &&& cookies is None ==> s.canary == session::canary(None)
            &&& cookies matches Some(bytes) ==> s.canary == session::canary(Some(bytes@))
        }),
{
}

/// Where a request fails, the login is over. Until the form has been refused what went wrong is
/// said as it is, later together with what was wrong with the form.
pub proof fn law_after_failure(login: LoginView, e: String, chance: Chance)
    requires
        login.awaits(LoginEvent::Failed(e)),
    ensures
        ({
            let early = login.stage == Stage::Forms || login.stage == Stage::FormsCookies;
            let (after, step) = login.next(LoginEvent::Failed(e), chance);
            &&& after.stage == Stage::Done
            &&& early ==> step == (Step::Finish { result: Err(e@) })
            &&& !early ==> step == (Step::Finish {
                result: Err(fallback_error(login.forms_error, e@)),
            })
        }),
{
}

/// An action is seen whole: its address, its form, its header, its session or its error.
pub proof fn law_actions_seen(
    url: String,
    fields: Vec<Header>,
    header: String,
    session: OwaSession,
    error: String,
)
    ensures
        (LoginAction::PostForm { url, fields }).step() == (Step::PostForm {
            url: url@,
            fields: http::pairs(fields@),
        }),
        (LoginAction::Get { url, authorization: Some(header) }).step() == (Step::Get {
            url: url@,
            authorization: Some(header@),
        }),
        (LoginAction::Get { url, authorization: None }).step() == (Step::Get {
            url: url@,
            authorization: None,
        }),
        (LoginAction::ReadCookies { url }).step() == (Step::ReadCookies { url: url@ }),
        LoginAction::ReadClock.step() == Step::ReadClock,
        (LoginAction::Finish { result: Ok(session) }).step() == (Step::Finish {
            result: Ok(session@),
        }),
        (LoginAction::Finish { result: Err(error) }).step() == (Step::Finish {
            result: Err(error@),
        }),
{
}

/// A login takes every reply with a status of three digits to a request, cookies where it reads
/// them, the time where it wants it and can answer, and a failure of any of these but the clock. Of
/// a reply to the first NTLM message it wants in addition that its buffers fit.
pub proof fn law_login_awaits(
    login: LoginView,
    reply: HttpReply,
    cookies: Option<Vec<u8>>,
    time: i64,
    error: String,
)
    ensures
        ({
            let asks = login.stage == Stage::Forms || login.stage == Stage::Probe || login.stage
                == Stage::Basic || login.stage == Stage::Negotiate || login.stage
                == Stage::Authenticate;
            let fit = login.stage == Stage::Negotiate ==> ntlm::can_read(
                ntlm::header_bytes(reply.challenges@),
            );
            &&& login.awaits(LoginEvent::Reply(reply)) <==> asks && 100 <= reply.status <= 999
                && fit
            &&& login.awaits(LoginEvent::Cookies(cookies)) <==> reads_cookies(login.stage)
            &&& login.awaits(LoginEvent::Clock(time)) <==> login.stage == Stage::Answer
                && ntlm::can_answer(login.nonce, login.target_info, login.username)
            &&& login.awaits(LoginEvent::Failed(error)) <==> asks || reads_cookies(login.stage)
        }),
{
}

/// The login page is known by `logon.aspx` in the path.
pub proof fn law_sent_back(path: Seq<char>)
    ensures
        sent_back(path) <==> exists|a: Seq<char>, b: Seq<char>|
            path == #[trigger] ((a + "logon.aspx"@) + b),
{
    text::law_has_part(path, "logon.aspx"@);
}

} // verus!
