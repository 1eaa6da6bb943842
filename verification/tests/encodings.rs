use owa_calendar::encode::{decode_base64, generate_correlation_id, url_encode};
use owa_calendar::login::{basic_header, ntlm_header};

#[test]
fn unreserved_characters_stay() {
    let s = "ABCXYZabcxyz0189-_.~";
    assert_eq!(url_encode(s), s);
    assert_eq!(url_encode(""), "");
}

#[test]
fn other_bytes_are_percent_encoded() {
    assert_eq!(url_encode("AAMk=/+ b"), "AAMk%3D%2F%2B%20b");
    assert_eq!(url_encode("%"), "%25");
    assert_eq!(url_encode("@[`{"), "%40%5B%60%7B");
    assert_eq!(url_encode("Я"), "%D0%AF");
    assert_eq!(url_encode("\u{1f514}\u{7f}\0"), "%F0%9F%94%94%7F%00");
}

#[test]
fn percent_encoding_can_be_undone() {
    let plain = "AQMk/αβγ==~?&\n";
    let encoded = url_encode(plain);
    let mut bytes: Vec<u8> = Vec::new();
    let mut rest = encoded.as_str();
    while !rest.is_empty() {
        if rest.starts_with('%') {
            bytes.push(u8::from_str_radix(&rest[1..3], 16).unwrap());
            rest = &rest[3..];
        } else {
            bytes.push(rest.as_bytes()[0]);
            rest = &rest[1..];
        }
    }
    assert_eq!(bytes, plain.as_bytes());
    assert!(encoded.chars().all(|c| c == '%' || c.is_ascii_alphanumeric() || "-_.~".contains(c)));
}

#[test]
fn correlation_id_of_a_time() {
    assert_eq!(
        generate_correlation_id(1709550000123456789),
        "000000000000000017B98AAAE320AD15_1709550000123"
    );
    assert_eq!(generate_correlation_id(0), "00000000000000000000000000000000_0");
    assert_eq!(generate_correlation_id(999_999), "000000000000000000000000000F423F_0");
    assert_eq!(
        generate_correlation_id(u128::MAX),
        "FFFFFFFFFFFFFFFFFFFFFFFFFFFFFFFF_340282366920938463463374607431768"
    );
}

#[test]
fn correlation_ids_of_two_times_differ() {
    assert_ne!(generate_correlation_id(1_000_000), generate_correlation_id(1_000_001));
}

#[test]
fn basic_header_is_base64_of_both() {
    assert_eq!(basic_header("CORP\\ann", "pass:word"), "Basic Q09SUFxhbm46cGFzczp3b3Jk");
    assert_eq!(basic_header("юзер", "пароль"), "Basic 0Y7Qt9C10YA60L/QsNGA0L7Qu9GM");
    assert_eq!(basic_header("", ""), "Basic Og==");
}

#[test]
fn base64_round_trip() {
    for n in 0..70usize {
        let bytes: Vec<u8> = (0..n).map(|i| (i * 151 + 7) as u8).collect();
        let header = ntlm_header(&bytes);
        let text = header.strip_prefix("NTLM ").unwrap();
        assert_eq!(text.len(), 4 * ((n + 2) / 3));
        assert_eq!(decode_base64(text).unwrap(), bytes);
    }
}

#[test]
fn base64_padding() {
    assert_eq!(ntlm_header(&vec![0xfb]), "NTLM +w==");
    assert_eq!(ntlm_header(&vec![0xff, 0xff]), "NTLM //8=");
    assert_eq!(ntlm_header(&vec![0, 16, 131]), "NTLM ABCD");
    assert_eq!(ntlm_header(&vec![]), "NTLM ");
    assert_eq!(decode_base64("ABCD").unwrap(), vec![0, 16, 131]);
    assert_eq!(decode_base64("").unwrap(), Vec::<u8>::new());
}

#[test]
fn only_canonical_base64_is_read() {
    // A character outside the alphabet, missing padding, too much of it, and stray bits.
    for bad in ["AB!D", "//8", "AAAA=", "//9=", "+x==", "A", "=AAA", "AB CD"] {
        assert!(decode_base64(bad).is_err(), "{}", bad);
    }
    assert_eq!(decode_base64("AB!D").unwrap_err(), "Invalid symbol 33, offset 2.");
}
