use owa_calendar::session::{canary_from_jar, header_text, split_domain_username};

fn split(name: &str) -> (String, String) {
    split_domain_username(name)
}

fn pair(a: &str, b: &str) -> (String, String) {
    (a.to_string(), b.to_string())
}

fn canary(cookies: &str) -> String {
    canary_from_jar(&Some(cookies.as_bytes().to_vec()))
}

#[test]
fn domain_and_user() {
    assert_eq!(split("DOMAIN\\username"), pair("DOMAIN", "username"));
    assert_eq!(split("ann@example.com"), pair("", "ann@example.com"));
    assert_eq!(split(""), pair("", ""));
    assert_eq!(split("\\ann"), pair("", "ann"));
    assert_eq!(split("D\\a\\b"), pair("D", "a\\b"));
    assert_eq!(split("ДОМЕН\\юзер"), pair("ДОМЕН", "юзер"));
}

#[test]
fn splitting_loses_nothing() {
    for name in ["A\\b", "\\", "a\\\\b", "x\\y\\z"] {
        let (domain, user) = split(name);
        assert_eq!(format!("{}\\{}", domain, user), name);
    }
}

#[test]
fn canary_among_cookies() {
    assert_eq!(canary("a=1; X-OWA-CANARY=abc.def; b=2"), "abc.def");
    assert_eq!(canary("X-OWA-CANARY=x"), "x");
    assert_eq!(canary("X-OWA-CANARY=first; X-OWA-CANARY=second"), "first");
    assert_eq!(canary("X-OWA-CANARY=a=b=c"), "a=b=c");
    assert_eq!(canary("X-OWA-CANARY=  spaced\t"), "spaced");
}

#[test]
fn no_canary_among_cookies() {
    assert_eq!(canary_from_jar(&None), "");
    assert_eq!(canary(""), "");
    assert_eq!(canary("a=1; b=2"), "");
    assert_eq!(canary("X-OWA-CANARY; b=2"), "");
    assert_eq!(canary("x-owa-canary=abc"), "");
    assert_eq!(canary(" X-OWA-CANARY=abc"), "");
    // Without a space after it, a semicolon does not part cookies.
    assert_eq!(canary("a=1;X-OWA-CANARY=abc"), "");
    assert_eq!(canary("X-OWA-CANARY=abc;b=2"), "abc;b=2");
    assert_eq!(canary("a=1; "), "");
    assert_eq!(canary(";"), "");
}

#[test]
fn unreadable_cookies_hold_no_canary() {
    assert_eq!(canary_from_jar(&Some(b"X-OWA-CANARY=abc; c=\xff".to_vec())), "");
    assert_eq!(canary_from_jar(&Some(b"X-OWA-CANARY=abc; c=\n".to_vec())), "");
}

#[test]
fn readable_header_values() {
    assert_eq!(header_text(&b"NTLM \t~!".to_vec()), Some("NTLM \t~!".to_string()));
    assert_eq!(header_text(&vec![]), Some(String::new()));
    for b in [0u8, 8, 10, 31, 127, 128, 255] {
        assert_eq!(header_text(&vec![65, b]), None);
        assert!(reqwest::header::HeaderValue::from_bytes(&[65, b])
            .map(|v| v.to_str().is_err())
            .unwrap_or(true));
    }
    for b in 32u8..127 {
        let text = header_text(&vec![b]).unwrap();
        let value = reqwest::header::HeaderValue::from_bytes(&[b]).unwrap();
        assert_eq!(text, value.to_str().unwrap());
    }
}
