use owa_calendar::encode::decode_base64;
use owa_calendar::login::ntlm_header;
use owa_calendar::ntlm::{
    answer_challenge, challenge_message, fits_message, is_answerable, is_readable, opening_bytes,
    read_challenge, ChallengeMessage, NtlmChallenge, TargetEntry,
};

const NONCE: [u8; 8] = [1, 2, 3, 4, 5, 6, 7, 8];

/// A Challenge message with a target's description.
fn challenge_bytes(info: &[u8]) -> Vec<u8> {
    let mut m = b"NTLMSSP\0\x02\0\0\0".to_vec();
    m.extend_from_slice(&[0; 8]);
    m.extend_from_slice(&0x0080_0201u32.to_le_bytes());
    m.extend_from_slice(&NONCE);
    m.extend_from_slice(&[0; 8]);
    m.extend_from_slice(&(info.len() as u16).to_le_bytes());
    m.extend_from_slice(&(info.len() as u16).to_le_bytes());
    m.extend_from_slice(&56u32.to_le_bytes());
    m.extend_from_slice(&[0; 8]);
    m.extend_from_slice(info);
    m
}

/// A header that carries a message.
fn headers(message: &[u8]) -> Vec<Vec<u8>> {
    vec![ntlm_header(&message.to_vec()).into_bytes()]
}

const INFO: [u8; 12] = [2, 0, 4, 0, b'D', 0, b'O', 0, 0, 0, 0, 0];

#[test]
fn first_message() {
    let bytes = opening_bytes().unwrap();
    assert_eq!(&bytes[0..12], b"NTLMSSP\0\x01\0\0\0");
    assert_eq!(&bytes[12..16], &[0x05, 0x22, 0, 0]);
    match ntlmclient::Message::try_from(bytes.as_slice()).unwrap() {
        ntlmclient::Message::Negotiate(m) => {
            assert_eq!(
                m.flags,
                ntlmclient::Flags::NEGOTIATE_UNICODE
                    | ntlmclient::Flags::REQUEST_TARGET
                    | ntlmclient::Flags::NEGOTIATE_NTLM
                    | ntlmclient::Flags::NEGOTIATE_WORKSTATION_SUPPLIED
            );
            assert_eq!(m.supplied_domain, "");
            assert_eq!(m.supplied_workstation, "owa-calendar");
        }
        _ => unreachable!(),
    }
}

#[test]
fn challenge_in_a_header() {
    let c = read_challenge(&headers(&challenge_bytes(&INFO))).unwrap();
    assert_eq!(c.nonce, NONCE);
    assert_eq!(c.target_info, INFO);
    let c = read_challenge(&headers(&challenge_bytes(&[]))).unwrap();
    assert_eq!(c.target_info, Vec::<u8>::new());
}

#[test]
fn only_the_first_header_and_its_second_word_count() {
    let mut list = headers(&challenge_bytes(&INFO));
    list.push(b"Negotiate".to_vec());
    list[0].extend_from_slice(b" tail");
    assert_eq!(read_challenge(&list).unwrap().nonce, NONCE);
    list.insert(0, b"Negotiate".to_vec());
    assert_eq!(
        read_challenge(&list).unwrap_err(),
        "OWA NTLM auth failed: malformed WWW-Authenticate header"
    );
    assert!(read_challenge(&vec![b"NTLM  AAAA".to_vec()]).is_err());
}

#[test]
fn no_challenge_in_the_headers() {
    let none = "OWA NTLM auth failed: server didn't send a Type2 challenge";
    assert_eq!(read_challenge(&vec![]).unwrap_err(), none);
    let opening = opening_bytes().unwrap();
    assert_eq!(read_challenge(&headers(&opening)).unwrap_err(), none);
    assert_eq!(
        read_challenge(&vec![b"NTLM \xff".to_vec()]).unwrap_err(),
        "OWA NTLM auth failed: unreadable challenge header: failed to convert header to a str"
    );
    assert_eq!(
        read_challenge(&vec![b"NTLM A!==".to_vec()]).unwrap_err(),
        decode_base64("A!==").unwrap_err()
    );
    assert_eq!(
        read_challenge(&vec![b"NTLM ".to_vec()]).unwrap_err(),
        "header too short (expected at least 12 bytes, obtained 0)"
    );
    let mut cut = challenge_bytes(&INFO);
    cut.truncate(20);
    assert!(read_challenge(&headers(&cut)).is_err());
}

#[test]
fn unreadable_header_says_what_the_client_says() {
    let value = reqwest::header::HeaderValue::from_bytes(b"NTLM \xff").unwrap();
    assert_eq!(value.to_str().unwrap_err().to_string(), "failed to convert header to a str");
}

/// A Challenge message in the machine's code page, with the target's name.
fn named_challenge(name: &[u8]) -> Vec<u8> {
    let mut m = challenge_bytes(&[]);
    m[12..14].copy_from_slice(&(name.len() as u16).to_le_bytes());
    m[14..16].copy_from_slice(&(name.len() as u16).to_le_bytes());
    m[16..20].copy_from_slice(&56u32.to_le_bytes());
    m[20..24].copy_from_slice(&0x0000_0202u32.to_le_bytes());
    m.extend_from_slice(name);
    m
}

#[test]
fn names_outside_unicode() {
    let c = read_challenge(&headers(&named_challenge(b"SERVER"))).unwrap();
    assert_eq!(c.nonce, NONCE);
    // Whether other bytes are a name is up to the machine.
    if let Err(e) = read_challenge(&headers(&named_challenge(&[0xe9]))) {
        assert_eq!(e, "failed to decode value with the current OEM encoding: [233]");
    }
}

#[test]
fn messages_that_can_be_read() {
    assert!(is_readable(&vec![]));
    assert!(is_readable(&vec![b"NTLM".to_vec()]));
    assert!(is_readable(&vec![b"NTLM \xff".to_vec()]));
    assert!(is_readable(&vec![b"NTLM A!==".to_vec()]));
    assert!(is_readable(&headers(&opening_bytes().unwrap())));
    assert!(is_readable(&headers(&challenge_bytes(&INFO))));
    // An offset just below the largest 32-bit address leads past it, an empty buffer nowhere.
    let mut far = challenge_bytes(&INFO);
    far[44..48].copy_from_slice(&0x7fff_fffeu32.to_le_bytes());
    assert_eq!(is_readable(&headers(&far)), usize::BITS > 32);
    if is_readable(&headers(&far)) {
        assert_eq!(
            read_challenge(&headers(&far)).unwrap_err(),
            "start (2147483634) out of range (slice has 56 items)"
        );
    }
    far[40..42].copy_from_slice(&[0, 0]);
    assert!(is_readable(&headers(&far)));
    assert_eq!(read_challenge(&headers(&far)).unwrap().target_info, Vec::<u8>::new());
}

#[test]
fn challenge_of_a_message() {
    let entries = vec![
        TargetEntry { kind: 2, data: vec![b'D', 0, b'O', 0] },
        TargetEntry { kind: 0x1234, data: vec![9; 300] },
        TargetEntry { kind: 0, data: vec![] },
    ];
    let message = ChallengeMessage { nonce: NONCE.to_vec(), entries };
    let c = challenge_message(Ok(Some(message))).unwrap();
    let mut info = vec![2, 0, 4, 0, b'D', 0, b'O', 0, 0x34, 0x12, 44, 1];
    info.extend_from_slice(&[9; 300]);
    info.extend_from_slice(&[0, 0, 0, 0]);
    assert_eq!(c.target_info, info);
    assert_eq!(c.nonce, NONCE);
    assert!(challenge_message(Ok(None)).is_err());
    assert_eq!(challenge_message(Err("bad".to_string())).unwrap_err(), "bad");
}

#[test]
fn answer_to_a_challenge() {
    let c = NtlmChallenge { nonce: NONCE.to_vec(), target_info: INFO.to_vec() };
    assert!(is_answerable(&c, "CORP\\ann"));
    let time: i64 = 0x0102_0304_0506_0708;
    let bytes = answer_challenge(&c, "CORP\\ann", "secret", time).unwrap();
    let m = match ntlmclient::Message::try_from(bytes.as_slice()).unwrap() {
        ntlmclient::Message::Authenticate(m) => m,
        _ => unreachable!(),
    };
    assert_eq!(m.domain_name, "CORP");
    assert_eq!(m.user_name, "ann");
    assert_eq!(m.workstation_name, "owa-calendar");
    assert_eq!(
        m.flags,
        ntlmclient::Flags::NEGOTIATE_UNICODE | ntlmclient::Flags::NEGOTIATE_NTLM
    );
    assert_eq!(m.lm_response.len(), 24);
    assert_eq!(m.session_key.len(), 16);
    assert_eq!(m.ntlm_response.len(), 48 + INFO.len());
    // The answer holds the time, the random bytes of the LM response and the description.
    assert_eq!(&m.ntlm_response[24..32], &time.to_le_bytes());
    assert_eq!(&m.ntlm_response[32..40], &m.lm_response[16..24]);
    assert_eq!(&m.ntlm_response[44..44 + INFO.len()], &INFO);
}

#[test]
fn name_without_a_domain_answers_too() {
    let c = NtlmChallenge { nonce: NONCE.to_vec(), target_info: vec![] };
    let bytes = answer_challenge(&c, "ann@example.com", "", 0).unwrap();
    match ntlmclient::Message::try_from(bytes.as_slice()).unwrap() {
        ntlmclient::Message::Authenticate(m) => {
            assert_eq!(m.domain_name, "");
            assert_eq!(m.user_name, "ann@example.com");
        }
        _ => unreachable!(),
    }
}

#[test]
fn what_fits_into_a_message() {
    let longest = "a".repeat(32767);
    assert!(fits_message(&longest));
    assert!(!fits_message(&"a".repeat(32768)));
    assert!(fits_message(&"\u{1f514}".repeat(16383)));
    assert!(!fits_message(&"\u{1f514}".repeat(16384)));
    assert!(fits_message(&"\u{ffff}".repeat(32767)));
    let full = NtlmChallenge { nonce: NONCE.to_vec(), target_info: vec![0; 65487] };
    let name = format!("{}\\{}", longest, longest);
    assert!(is_answerable(&full, &name));
    assert!(answer_challenge(&full, &name, "", 0).is_ok());
    let over = NtlmChallenge { nonce: NONCE.to_vec(), target_info: vec![0; 65488] };
    assert!(!is_answerable(&over, "ann"));
    assert!(!is_answerable(&full, &"a".repeat(32768)));
    let short = NtlmChallenge { nonce: vec![1; 7], target_info: vec![] };
    assert!(!is_answerable(&short, "ann"));
}
