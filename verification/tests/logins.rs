use owa_calendar::encode::decode_base64;
use owa_calendar::http::HttpReply;
use owa_calendar::login::{
    basic_refusal, both_failed, choose_scheme, forms_outcome, login_form, mailbox_url,
    ntlm_refusal, FormsOutcome, Login, LoginAction, LoginEvent, Scheme,
};
use owa_calendar::OwaSession;

const OWA: &str = "https://owa.example.com/owa/";

fn reply(status: u16, path: &str, challenges: &[&str]) -> HttpReply {
    HttpReply {
        status,
        url: format!("https://owa.example.com{}", path),
        path: path.to_string(),
        challenges: challenges.iter().map(|c| c.as_bytes().to_vec()).collect(),
    }
}

fn start() -> Login {
    let (login, action) = Login::start("https://owa.example.com/", "CORP\\ann", "secret");
    match action {
        LoginAction::PostForm { url, fields } => {
            assert_eq!(url, "https://owa.example.com/owa/auth.owa");
            assert_eq!(fields.len(), 7);
        }
        _ => unreachable!(),
    }
    login
}

fn step(login: &mut Login, event: LoginEvent) -> LoginAction {
    assert!(login.accepts(&event));
    login.step(event)
}

fn answer(login: &mut Login, status: u16, path: &str, challenges: &[&str]) -> LoginAction {
    step(login, LoginEvent::Reply(reply(status, path, challenges)))
}

fn got(action: LoginAction) -> (String, Option<String>) {
    match action {
        LoginAction::Get { url, authorization } => (url, authorization),
        _ => unreachable!(),
    }
}

fn cookies_of(action: LoginAction) -> String {
    match action {
        LoginAction::ReadCookies { url } => url,
        _ => unreachable!(),
    }
}

fn end(action: LoginAction) -> Result<OwaSession, String> {
    match action {
        LoginAction::Finish { result } => result,
        _ => unreachable!(),
    }
}

fn error(action: LoginAction) -> String {
    match end(action) {
        Ok(_) => unreachable!(),
        Err(e) => e,
    }
}

/// A login whose form was refused.
fn challenged() -> Login {
    let mut login = start();
    let (url, authorization) = got(answer(&mut login, 401, "/owa/auth.owa", &[]));
    assert_eq!(url, OWA);
    assert_eq!(authorization, None);
    login
}

const BOTH: &str =
    "Forms auth failed (OWA auth failed: HTTP 401 Unauthorized); Basic/NTLM fallback also failed: ";

#[test]
fn fields_of_the_form() {
    let (url, fields) = login_form("https://h//", "u", "p");
    assert_eq!(url, "https://h/owa/auth.owa");
    let pairs: Vec<(&str, &str)> =
        fields.iter().map(|f| (f.name.as_str(), f.value.as_str())).collect();
    assert_eq!(
        pairs,
        vec![
            ("destination", "https://h/owa/"),
            ("flags", "4"),
            ("forcedownlevel", "0"),
            ("trusted", "0"),
            ("username", "u"),
            ("password", "p"),
            ("isUtf8", "1"),
        ]
    );
    assert_eq!(mailbox_url("https://h"), "https://h/owa/");
}

#[test]
fn outcomes_of_the_form() {
    assert!(matches!(forms_outcome(&reply(200, "/owa/", &[])), FormsOutcome::Accepted));
    assert!(matches!(forms_outcome(&reply(500, "/owa/", &[])), FormsOutcome::Accepted));
    match forms_outcome(&reply(403, "/owa/auth.owa", &[])) {
        FormsOutcome::Challenged(e) => assert_eq!(e, "OWA auth failed: HTTP 403 Forbidden"),
        _ => unreachable!(),
    }
    // The login page counts for more than the status.
    match forms_outcome(&reply(401, "/owa/auth/logon.aspx", &[])) {
        FormsOutcome::Rejected(e) => assert_eq!(
            e,
            "OWA auth failed: redirected back to login page (https://owa.example.com/owa/auth/logon.aspx). Check username/password."
        ),
        _ => unreachable!(),
    }
    assert!(matches!(forms_outcome(&reply(200, "/logon.asp", &[])), FormsOutcome::Accepted));
}

#[test]
fn schemes() {
    let of = |list: &[&str]| {
        let bytes: Vec<Vec<u8>> = list.iter().map(|c| c.as_bytes().to_vec()).collect();
        choose_scheme(&bytes, OWA)
    };
    assert!(matches!(of(&["Negotiate", "NTLM"]), Scheme::Ntlm));
    assert!(matches!(of(&["Basic realm=\"x\"", "nTlM"]), Scheme::Ntlm));
    assert!(matches!(of(&["Basic realm=\"owa\""]), Scheme::Basic));
    match of(&["Negotiate", "Bearer X"]) {
        Scheme::Neither(e) => assert_eq!(
            e,
            "OWA auth failed: server challenge at https://owa.example.com/owa/ didn't offer a supported scheme (got: negotiate, bearer x)"
        ),
        _ => unreachable!(),
    }
    match of(&["NTLM\u{e9}"]) {
        Scheme::Neither(e) => assert!(e.ends_with("(got: )")),
        _ => unreachable!(),
    }
}

#[test]
fn refusals() {
    assert_eq!(
        basic_refusal(401),
        Some("OWA Basic auth failed: HTTP 401 Unauthorized. Check username/password.".to_string())
    );
    assert_eq!(
        ntlm_refusal(403),
        Some(
            "OWA NTLM auth failed: HTTP 403 Forbidden. Check username/password/domain.".to_string()
        )
    );
    for status in [100, 200, 302, 400, 402, 404, 500, 999] {
        assert_eq!(basic_refusal(status), None);
        assert_eq!(ntlm_refusal(status), None);
    }
    assert_eq!(
        both_failed("a", "b"),
        "Forms auth failed (a); Basic/NTLM fallback also failed: b"
    );
}

#[test]
fn login_by_form() {
    let mut login = start();
    assert_eq!(cookies_of(answer(&mut login, 200, "/owa/", &[])), OWA);
    let cookies = LoginEvent::Cookies(Some(b"a=1; X-OWA-CANARY=xyz".to_vec()));
    let session = end(step(&mut login, cookies)).ok().unwrap();
    assert_eq!(session.canary, "xyz");
    assert_eq!(session.basic_auth_header, None);
    assert!(!login.accepts(&LoginEvent::Failed(String::new())));
}

#[test]
fn wrong_credentials_end_a_login() {
    let mut login = start();
    let e = error(answer(&mut login, 401, "/owa/auth/logon.aspx", &["NTLM"]));
    assert!(e.starts_with("OWA auth failed: redirected back to login page"));
    assert!(!login.accepts(&LoginEvent::Reply(reply(200, "/", &[]))));
}

#[test]
fn login_by_basic_authentication() {
    let mut login = challenged();
    let (url, authorization) = got(answer(&mut login, 401, "/owa/", &["Basic realm=x"]));
    assert_eq!(url, OWA);
    let header = authorization.unwrap();
    let plain = decode_base64(header.strip_prefix("Basic ").unwrap()).unwrap();
    assert_eq!(plain, b"CORP\\ann:secret");
    assert_eq!(cookies_of(answer(&mut login, 200, "/owa/", &[])), OWA);
    let session = end(step(&mut login, LoginEvent::Cookies(None))).ok().unwrap();
    assert_eq!(session.canary, "");
    assert_eq!(session.basic_auth_header, Some(header));
}

#[test]
fn basic_credentials_refused() {
    let mut login = challenged();
    got(answer(&mut login, 401, "/owa/", &["Basic"]));
    let e = error(answer(&mut login, 401, "/owa/", &["Basic"]));
    assert_eq!(
        e,
        format!(
            "{}OWA Basic auth failed: HTTP 401 Unauthorized. Check username/password.",
            BOTH
        )
    );
}

/// A header with an NTLM challenge without a target's description.
fn type2() -> String {
    let mut m = b"NTLMSSP\0\x02\0\0\0".to_vec();
    m.extend_from_slice(&[0; 8]);
    m.extend_from_slice(&[1, 2, 0, 0]);
    m.extend_from_slice(&[1, 2, 3, 4, 5, 6, 7, 8]);
    m.extend_from_slice(&[0; 24]);
    owa_calendar::login::ntlm_header(&m)
}

#[test]
fn login_by_ntlm() {
    let mut login = challenged();
    let (url, authorization) = got(answer(&mut login, 401, "/owa/", &["Negotiate", "NTLM"]));
    assert_eq!(url, OWA);
    let opening = decode_base64(authorization.unwrap().strip_prefix("NTLM ").unwrap()).unwrap();
    assert_eq!(opening, owa_calendar::ntlm::opening_bytes().unwrap());
    let action = answer(&mut login, 401, "/owa/moved", &[&type2()]);
    assert!(matches!(action, LoginAction::ReadClock));
    // Nothing but the time is wanted now.
    assert!(!login.accepts(&LoginEvent::Failed(String::new())));
    let (url, authorization) = got(step(&mut login, LoginEvent::Clock(133_540_236_000_000_000)));
    assert_eq!(url, "https://owa.example.com/owa/moved");
    let message = decode_base64(authorization.unwrap().strip_prefix("NTLM ").unwrap()).unwrap();
    match ntlmclient::Message::try_from(message.as_slice()).unwrap() {
        ntlmclient::Message::Authenticate(m) => {
            assert_eq!(m.user_name, "ann");
            assert_eq!(m.domain_name, "CORP");
            assert_eq!(&m.ntlm_response[24..32], &133_540_236_000_000_000i64.to_le_bytes());
        }
        _ => unreachable!(),
    }
    let url = cookies_of(answer(&mut login, 200, "/owa/moved", &[]));
    assert_eq!(url, "https://owa.example.com/owa/moved");
    let cookies = LoginEvent::Cookies(Some(b"X-OWA-CANARY=n".to_vec()));
    let session = end(step(&mut login, cookies)).ok().unwrap();
    assert_eq!(session.canary, "n");
    assert_eq!(session.basic_auth_header, None);
}

#[test]
fn ntlm_refused() {
    let mut login = challenged();
    got(answer(&mut login, 401, "/owa/", &["NTLM"]));
    answer(&mut login, 401, "/owa/", &[&type2()]);
    got(step(&mut login, LoginEvent::Clock(0)));
    let e = error(answer(&mut login, 403, "/owa/", &[]));
    assert_eq!(
        e,
        format!(
            "{}OWA NTLM auth failed: HTTP 403 Forbidden. Check username/password/domain.",
            BOTH
        )
    );
}

#[test]
fn ntlm_without_a_challenge() {
    let mut login = challenged();
    got(answer(&mut login, 401, "/owa/", &["NTLM"]));
    let e = error(answer(&mut login, 200, "/owa/", &[]));
    assert_eq!(
        e,
        format!("{}OWA NTLM auth failed: server didn't send a Type2 challenge", BOTH)
    );
}

#[test]
fn no_scheme_offered() {
    let mut login = challenged();
    let e = error(answer(&mut login, 401, "/owa/", &["Negotiate"]));
    assert_eq!(
        e,
        format!(
            "{}OWA auth failed: server challenge at {} didn't offer a supported scheme (got: negotiate)",
            BOTH, OWA
        )
    );
}

#[test]
fn requests_that_fail() {
    let mut login = start();
    assert_eq!(error(step(&mut login, LoginEvent::Failed("down".to_string()))), "down");
    let mut login = challenged();
    let e = error(step(&mut login, LoginEvent::Failed("down".to_string())));
    assert_eq!(e, format!("{}down", BOTH));
    let mut login = start();
    cookies_of(answer(&mut login, 200, "/owa/", &[]));
    assert_eq!(error(step(&mut login, LoginEvent::Failed("bad url".to_string()))), "bad url");
}

#[test]
fn what_a_login_accepts() {
    let login = start();
    assert!(login.accepts(&LoginEvent::Failed(String::new())));
    assert!(login.accepts(&LoginEvent::Reply(reply(100, "/", &[]))));
    assert!(!login.accepts(&LoginEvent::Reply(reply(99, "/", &[]))));
    assert!(!login.accepts(&LoginEvent::Reply(reply(1000, "/", &[]))));
    assert!(!login.accepts(&LoginEvent::Cookies(None)));
    assert!(!login.accepts(&LoginEvent::Clock(0)));
    let mut login = challenged();
    got(answer(&mut login, 401, "/owa/", &["NTLM"]));
    assert!(login.accepts(&LoginEvent::Reply(reply(401, "/", &[&type2()]))));
    assert!(!login.accepts(&LoginEvent::Reply(reply(99, "/", &[&type2()]))));
    assert!(login.accepts(&LoginEvent::Failed(String::new())));
}

#[test]
fn challenge_that_cannot_be_answered() {
    let name = "a".repeat(32768);
    let (mut login, _) = Login::start("https://owa.example.com", &name, "");
    answer(&mut login, 401, "/owa/auth.owa", &[]);
    answer(&mut login, 401, "/owa/", &["NTLM"]);
    answer(&mut login, 401, "/owa/", &[&type2()]);
    assert!(!login.accepts(&LoginEvent::Clock(0)));
}
