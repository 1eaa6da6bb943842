//! NTLM: the messages of the handshake, as bytes.
//!
//! The message formats and the arithmetic of the answer are those of the `ntlmclient` crate. What
//! a challenge says can depend on the machine's code page, and the answer to it depends on eight
//! random bytes, so they are known only up to these.
use vstd::prelude::*;

use crate::encode::{self, decode_base64};
use crate::session::{self, header_text, split_domain_username};
use crate::text::{self, chars_of, find_char, text_of};

verus! {

/// What the messages give as the client's host name.
pub const WORKSTATION: &'static str = "owa-calendar";

/// The flags of the first message: Unicode, a request for the target's name, NTLM, and that the
/// client's host name is given.
pub const NEGOTIATE_FLAGS: u32 = 0x2205;

/// The flags of the last message: Unicode and NTLM.
pub const AUTHENTICATE_FLAGS: u32 = 0x0201;

/// The longest text, in UTF-16 code units, that a message can hold.
pub const LONGEST_TEXT: usize = 32767;

/// How long a target's description can be for an answer to hold it.
pub const LONGEST_TARGET: usize = 65487;

/// The number of UTF-16 code units of a text.
pub open spec fn utf16_units(s: Seq<char>) -> nat
    decreases s.len(),
{
    if s.len() == 0 {
        0
    } else {
        utf16_units(s.drop_last()) + if s.last() >= '\u{10000}' {
            2nat
        } else {
            1
        }
    }
}

/// Whether a message can hold the text.
pub open spec fn fits(s: Seq<char>) -> bool {
    utf16_units(s) <= LONGEST_TEXT
}

/// Whether a message can hold the text.
pub fn fits_message(s: &str) -> (r: bool)
    ensures
        r == fits(s@),
{
    let chars = chars_of(s);
    let mut units: usize = 0;
    let mut i: usize = 0;
    while i < chars.len()
        invariant
            i <= chars@.len(),
            chars@ == s@,
            units == utf16_units(s@.take(i as int)),
            units <= LONGEST_TEXT,
        decreases chars@.len() - i,
    {
        assert(s@.take(i + 1).drop_last() =~= s@.take(i as int));
        units = units + if chars[i] >= '\u{10000}' {
            2
        } else {
            1
        };
        i = i + 1;
        if units > LONGEST_TEXT {
            proof {
                lemma_units_grow(s@, i as int);
            }
            return false;
        }
    }
    assert(s@.take(s@.len() as int) =~= s@);
    true
}

/// A text has at least as many code units as its beginning.
proof fn lemma_units_grow(s: Seq<char>, n: int)
    requires
        0 <= n <= s.len(),
    ensures
        utf16_units(s.take(n)) <= utf16_units(s),
    decreases s.len() - n,
{
    if n < s.len() {
        assert(s.take(n + 1).drop_last() =~= s.take(n));
        lemma_units_grow(s, n + 1);
    } else {
        assert(s.take(n) =~= s);
    }
}

// ---------------------------------------------------------------------------
// The first message
// ---------------------------------------------------------------------------

/// The bytes of a Negotiate message.
pub uninterp spec fn negotiate_message(
    flags: u32,
    domain: Seq<char>,
    workstation: Seq<char>,
) -> Seq<u8>;

/// `ntlmclient::Message::to_bytes` of a `NegotiateMessage` with the default OS version. With the
/// Unicode flag, which is the lowest bit, it does not fail.
#[verifier::external_body]
fn negotiate_bytes(flags: u32, domain: &str, workstation: &str) -> (r: Result<Vec<u8>, String>)
    requires
        flags % 2 == 1,
        fits(domain@),
        fits(workstation@),
    ensures
        r is Ok,
        r matches Ok(bytes) ==> bytes@ == negotiate_message(flags, domain@, workstation@),
{
    let message = ntlmclient::Message::Negotiate(
        ntlmclient::NegotiateMessage {
            flags: ntlmclient::Flags::from_bits_retain(flags),
            supplied_domain: domain.to_string(),
            supplied_workstation: workstation.to_string(),
            os_version: Default::default(),
        },
    );
    message.to_bytes().map_err(|e| e.to_string())
}

/// The first message of the handshake.
pub open spec fn opening() -> Seq<u8> {
    negotiate_message(NEGOTIATE_FLAGS, Seq::empty(), WORKSTATION@)
}

/// The host name fits into a message.
proof fn lemma_workstation_fits()
    ensures
        fits(WORKSTATION@),
        fits(Seq::<char>::empty()),
{
    reveal_strlit("owa-calendar");
    lemma_units_bound(WORKSTATION@);
}

/// A character has at most two code units.
proof fn lemma_units_bound(s: Seq<char>)
    ensures
        utf16_units(s) <= 2 * s.len(),
    decreases s.len(),
{
    if s.len() > 0 {
        lemma_units_bound(s.drop_last());
    }
}

/// The first message of the handshake.
pub fn opening_bytes() -> (r: Result<Vec<u8>, String>)
    ensures
        r is Ok,
        r matches Ok(bytes) ==> bytes@ == opening(),
{
    proof {
        lemma_workstation_fits();
    }
    let none = String::new();
    negotiate_bytes(NEGOTIATE_FLAGS, none.as_str(), WORKSTATION)
}

// ---------------------------------------------------------------------------
// The challenge
// ---------------------------------------------------------------------------

/// One entry of a target's description.
#[derive(Debug)]
pub struct TargetEntry {
    pub kind: u16,
    pub data: Vec<u8>,
}

/// Entries as kinds and data.
pub open spec fn entries_of(entries: Seq<TargetEntry>) -> Seq<(u16, Seq<u8>)> {
    entries.map_values(|e: TargetEntry| (e.kind, e.data@))
}

/// A Challenge message, as far as the handshake needs it.
#[derive(Debug)]
pub struct ChallengeMessage {
    pub nonce: Vec<u8>,
    pub entries: Vec<TargetEntry>,
}

/// What a handshake depends on besides its messages, the time and the credentials.
pub struct Chance {
    /// The random bytes of the answer.
    pub random: Seq<u8>,
    /// The byte strings that are texts in the machine's code page.
    pub ansi: Set<Seq<u8>>,
}

impl Chance {
    /// Whether there are as many random bytes as an answer takes.
    pub open spec fn valid(self) -> bool {
        self.random.len() == 8
    }
}

/// Two bytes at `at` as a number, the lower one first.
pub open spec fn two_at(bytes: Seq<u8>, at: int) -> int {
    bytes[at] + 256 * bytes[at + 1]
}

/// Four bytes at `at` as a number, the lowest one first.
pub open spec fn four_at(bytes: Seq<u8>, at: int) -> int {
    two_at(bytes, at) + 65536 * two_at(bytes, at + 2)
}

/// Whether the end of the data that the security buffer at `at` points to can be computed: the
/// buffer is empty, or its offset is no address at all, or offset and length add up to one.
pub open spec fn buffer_fits(bytes: Seq<u8>, at: int) -> bool {
    let length = two_at(bytes, at);
    let offset = four_at(bytes, at + 4);
    length == 0 || offset > isize::MAX || offset + length <= isize::MAX
}

/// The bytes that every message starts with.
pub open spec fn signature() -> Seq<u8> {
    seq![0x4e, 0x54, 0x4c, 0x4d, 0x53, 0x53, 0x50, 0]
}

/// Whether the ends of all data that a message's security buffers point to can be computed.
/// A Negotiate and a Challenge message have two buffers each, an Authenticate message has six.
pub open spec fn buffers_fit(bytes: Seq<u8>) -> bool {
    bytes.len() >= 12 && bytes.take(8) == signature() ==> {
        &&& four_at(bytes, 8) == 1 && bytes.len() >= 44 ==> buffer_fits(bytes, 16)
            && buffer_fits(bytes, 24)
        &&& four_at(bytes, 8) == 2 && bytes.len() >= 56 ==> buffer_fits(bytes, 12)
            && buffer_fits(bytes, 40)
        &&& four_at(bytes, 8) == 3 && bytes.len() >= 72 ==> buffer_fits(bytes, 12)
            && buffer_fits(bytes, 20) && buffer_fits(bytes, 28) && buffer_fits(bytes, 36)
            && buffer_fits(bytes, 44) && buffer_fits(bytes, 52)
    }
}

/// With 64-bit addresses the buffers of every message fit.
pub proof fn law_wide_addresses_fit(bytes: Seq<u8>)
    requires
        usize::BITS == 64,
    ensures
        buffers_fit(bytes),
{
}

/// What the bytes of a message say: the nonce and the target's description where it is a Challenge
/// message, nothing where it is another one, or what is wrong with them. Two things besides the
/// bytes count. What is wrong with an offset is told in other words where it has more bits than an
/// address. And names in a message that is not in Unicode are taken only if they are texts in the
/// machine's code page, which `ansi` holds: on Windows that is the configured one, elsewhere it is
/// UTF-8.
pub uninterp spec fn message_read(
    bytes: Seq<u8>,
    address_bits: u32,
    ansi: Set<Seq<u8>>,
) -> Result<Option<(Seq<u8>, Seq<(u16, Seq<u8>)>)>, Seq<char>>;

/// A message as its nonce and the target's description.
pub open spec fn read_result(r: Result<Option<ChallengeMessage>, String>) -> Result<
    Option<(Seq<u8>, Seq<(u16, Seq<u8>)>)>,
    Seq<char>,
> {
    match r {
        Ok(Some(c)) => Ok(Some((c.nonce@, entries_of(c.entries@)))),
        Ok(None) => Ok(None),
        Err(e) => Err(e@),
    }
}

/// `ntlmclient::Message::try_from`: reads a message, with the machine's code page, of which nothing
/// is known. A nonce has eight bytes and an entry at most 65535, since its length is stored in
/// sixteen bits. A security buffer that leads past the largest address is left out: the sum of its
/// offset and its length would overflow.
#[verifier::external_body]
fn read_message(bytes: &[u8]) -> (r: Result<Option<ChallengeMessage>, String>)
    requires
        buffers_fit(bytes@),
    ensures
        exists|ansi: Set<Seq<u8>>|
            read_result(r) == #[trigger] message_read(bytes@, usize::BITS, ansi),
        r matches Ok(Some(c)) ==> c.nonce@.len() == 8,
        r matches Ok(Some(c)) ==> forall|i: int|
            0 <= i < c.entries@.len() ==> (#[trigger] c.entries@[i]).data@.len() <= 65535,
{
    match ntlmclient::Message::try_from(bytes).map_err(|e| e.to_string())? {
        ntlmclient::Message::Challenge(c) => {
            let list = c.target_information.into_iter();
            let entries = list.map(|e| TargetEntry { kind: e.entry_type.into(), data: e.data });
            Ok(Some(ChallengeMessage { nonce: c.challenge.to_vec(), entries: entries.collect() }))
        },
        _ => Ok(None),
    }
}

/// A number in two bytes, the lower one first.
pub open spec fn two_bytes(n: int) -> Seq<u8> {
    seq![(n % 256) as u8, (n / 256 % 256) as u8]
}

/// `ntlmclient::TargetInfoEntry::to_bytes`: the entry's kind and the length of its data, in two
/// bytes each, and the data.
#[verifier::external_body]
fn entry_bytes(kind: u16, data: &Vec<u8>) -> (r: Vec<u8>)
    requires
        data@.len() <= 65535,
    ensures
        r@ == two_bytes(kind as int) + two_bytes(data@.len() as int) + data@,
{
    ntlmclient::TargetInfoEntry { entry_type: kind.into(), data: data.clone() }.to_bytes()
}

/// A target's description as bytes: its entries, one after the other.
pub open spec fn target_bytes(entries: Seq<(u16, Seq<u8>)>) -> Seq<u8>
    decreases entries.len(),
{
    if entries.len() == 0 {
        seq![]
    } else {
        let e = entries.last();
        target_bytes(entries.drop_last()) + (two_bytes(e.0 as int) + two_bytes(e.1.len() as int)
            + e.1)
    }
}

/// What a challenge says.
#[derive(Debug)]
pub struct NtlmChallenge {
    /// Eight bytes to be answered.
    pub nonce: Vec<u8>,
    /// The target's description.
    pub target_info: Vec<u8>,
}

/// A target's description as bytes.
fn join_entries(entries: &Vec<TargetEntry>) -> (r: Vec<u8>)
    requires
        forall|i: int| 0 <= i < entries@.len() ==> (#[trigger] entries@[i]).data@.len() <= 65535,
    ensures
        r@ == target_bytes(entries_of(entries@)),
{
    let mut out: Vec<u8> = Vec::new();
    let ghost all = entries_of(entries@);
    let mut i: usize = 0;
    assert(all.take(0) =~= seq![]);
    while i < entries.len()
        invariant
            i <= entries@.len(),
            all == entries_of(entries@),
            forall|k: int|
                0 <= k < entries@.len() ==> (#[trigger] entries@[k]).data@.len() <= 65535,
            out@ == target_bytes(all.take(i as int)),
        decreases entries@.len() - i,
    {
        assert(all.take(i + 1).drop_last() =~= all.take(i as int));
        let mut next = entry_bytes(entries[i].kind, &entries[i].data);
        out.append(&mut next);
        i = i + 1;
    }
    assert(all.take(all.len() as int) =~= all);
    out
}

/// What a reply says that offers no challenge.
pub open spec fn no_challenge() -> Seq<char> {
    "OWA NTLM auth failed: server didn't send a Type2 challenge"@
}

/// What a challenge comes to: its nonce and the target's description, or what is wrong with it.
pub open spec fn challenge_of_bytes(
    read: Result<Option<(Seq<u8>, Seq<(u16, Seq<u8>)>)>, Seq<char>>,
) -> Result<(Seq<u8>, Seq<u8>), Seq<char>> {
    match read {
        Ok(Some(c)) => Ok((c.0, target_bytes(c.1))),
        Ok(None) => Err(no_challenge()),
        Err(e) => Err(e),
    }
}

/// The second word of a header value, words being what stands between single spaces.
pub open spec fn second_word(s: Seq<char>) -> Option<Seq<char>> {
    let i = text::next_position(s, ' ', 0);
    if i < s.len() {
        Some(s.subrange(i + 1, text::next_position(s, ' ', i + 1)))
    } else {
        None
    }
}

/// The challenge in the first of the `WWW-Authenticate` headers: the base64 that is its second
/// word, read with the code page `ansi`.
pub open spec fn challenge_in(headers: Seq<Seq<u8>>, ansi: Set<Seq<u8>>) -> Result<
    (Seq<u8>, Seq<u8>),
    Seq<char>,
> {
    if headers.len() == 0 {
        Err(no_challenge())
    } else {
        match session::header_value(headers[0]) {
            None => Err(
                "OWA NTLM auth failed: unreadable challenge header: failed to convert header to a str"@,
            ),
            Some(s) => match second_word(s) {
                None => Err("OWA NTLM auth failed: malformed WWW-Authenticate header"@),
                Some(word) => match encode::base64_bytes(word) {
                    None => Err(encode::base64_complaint(word)),
                    Some(bytes) => challenge_of_bytes(message_read(bytes, usize::BITS, ansi)),
                },
            },
        }
    }
}

/// The message in the first of the `WWW-Authenticate` headers, if there is one.
pub open spec fn message_in(headers: Seq<Seq<u8>>) -> Option<Seq<u8>> {
    if headers.len() == 0 {
        None
    } else {
        match session::header_value(headers[0]) {
            None => None,
            Some(s) => match second_word(s) {
                None => None,
                Some(word) => encode::base64_bytes(word),
            },
        }
    }
}

/// Whether the message in the headers, if there is one, can be read: its buffers fit.
pub open spec fn can_read(headers: Seq<Seq<u8>>) -> bool {
    message_in(headers) matches Some(bytes) ==> buffers_fit(bytes)
}

/// The contents of a list of header values.
pub open spec fn header_bytes(headers: Seq<Vec<u8>>) -> Seq<Seq<u8>> {
    headers.map_values(|h: Vec<u8>| h@)
}

/// A challenge as its nonce and the target's description.
pub open spec fn challenge_result(r: Result<NtlmChallenge, String>) -> Result<
    (Seq<u8>, Seq<u8>),
    Seq<char>,
> {
    match r {
        Ok(c) => Ok((c.nonce@, c.target_info@)),
        Err(e) => Err(e@),
    }
}

/// The second word of a header value.
fn word_two(s: &str) -> (r: Option<String>)
    ensures
        match r {
            Some(w) => second_word(s@) == Some(w@),
            None => second_word(s@) is None,
        },
{
    let chars = chars_of(s);
    let i: usize = find_char(&chars, ' ', 0);
    if i == chars.len() {
        return None;
    }
    let j: usize = find_char(&chars, ' ', i + 1);
    Some(text_of(&chars, i + 1, j))
}

/// The challenge that a message is.
pub fn challenge_message(message: Result<Option<ChallengeMessage>, String>) -> (r: Result<
    NtlmChallenge,
    String,
>)
    requires
        message matches Ok(Some(c)) ==> forall|i: int|
            0 <= i < c.entries@.len() ==> (#[trigger] c.entries@[i]).data@.len() <= 65535,
    ensures
        match message {
            Ok(Some(c)) => challenge_result(r) == Ok::<_, Seq<char>>(
                (c.nonce@, target_bytes(entries_of(c.entries@))),
            ),
            Ok(None) => challenge_result(r) == Err::<(Seq<u8>, Seq<u8>), _>(no_challenge()),
            Err(e) => challenge_result(r) == Err::<(Seq<u8>, Seq<u8>), _>(e@),
        },
{
    match message {
        Ok(Some(c)) => {
            let target_info = join_entries(&c.entries);
            Ok(NtlmChallenge { nonce: c.nonce, target_info })
        },
        Ok(None) => Err("OWA NTLM auth failed: server didn't send a Type2 challenge".to_string()),
        Err(e) => Err(e),
    }
}

/// Two bytes at `at` as a number.
fn number_of_two(bytes: &Vec<u8>, at: usize) -> (r: u64)
    requires
        at + 2 <= bytes.len(),
    ensures
        r == two_at(bytes@, at as int),
        r < 65536,
{
    bytes[at] as u64 + 256 * bytes[at + 1] as u64
}

/// Four bytes at `at` as a number.
fn number_of_four(bytes: &Vec<u8>, at: usize) -> (r: u64)
    requires
        at + 4 <= bytes.len(),
    ensures
        r == four_at(bytes@, at as int),
        r < 0x1_0000_0000,
{
    number_of_two(bytes, at) + 65536 * number_of_two(bytes, at + 2)
}

/// Whether the end of the data that the security buffer at `at` points to can be computed.
fn is_buffer_fit(bytes: &Vec<u8>, at: usize) -> (r: bool)
    requires
        at + 8 <= bytes.len(),
    ensures
        r == buffer_fits(bytes@, at as int),
{
    let length: u64 = number_of_two(bytes, at);
    let offset: u64 = number_of_four(bytes, at + 4);
    let last: u64 = isize::MAX as u64;
    length == 0 || offset > last || offset + length <= last
}

/// Whether the bytes start as every message does.
fn is_signed(bytes: &Vec<u8>) -> (r: bool)
    requires
        bytes@.len() >= 8,
    ensures
        r == (bytes@.take(8) == signature()),
{
    let r = bytes[0] == 0x4e && bytes[1] == 0x54 && bytes[2] == 0x4c && bytes[3] == 0x4d && bytes[4]
        == 0x53 && bytes[5] == 0x53 && bytes[6] == 0x50 && bytes[7] == 0;
    assert(forall|i: int| 0 <= i < 8 ==> bytes@[i] == #[trigger] bytes@.take(8)[i]);
    assert(r ==> bytes@.take(8) =~= signature());
    r
}

/// Whether the ends of all data that a message's security buffers point to can be computed.
fn are_buffers_fit(bytes: &Vec<u8>) -> (r: bool)
    ensures
        r == buffers_fit(bytes@),
{
    let size: usize = bytes.len();
    if size < 12 || !is_signed(bytes) {
        return true;
    }
    let number: u64 = number_of_four(bytes, 8);
    if number == 1 && size >= 44 {
        is_buffer_fit(bytes, 16) && is_buffer_fit(bytes, 24)
    } else if number == 2 && size >= 56 {
        is_buffer_fit(bytes, 12) && is_buffer_fit(bytes, 40)
    } else if number == 3 && size >= 72 {
        is_buffer_fit(bytes, 12) && is_buffer_fit(bytes, 20) && is_buffer_fit(bytes, 28)
            && is_buffer_fit(bytes, 36) && is_buffer_fit(bytes, 44) && is_buffer_fit(bytes, 52)
    } else {
        true
    }
}

/// Whether the message in the headers, if there is one, can be read.
pub fn is_readable(headers: &Vec<Vec<u8>>) -> (r: bool)
    ensures
        r == can_read(header_bytes(headers@)),
{
    if headers.len() == 0 {
        return true;
    }
    match header_text(&headers[0]) {
        None => true,
        Some(value) => match word_two(value.as_str()) {
            None => true,
            Some(word) => match decode_base64(word.as_str()) {
                Err(_) => true,
                Ok(bytes) => are_buffers_fit(&bytes),
            },
        },
    }
}

/// The challenge in the first of the `WWW-Authenticate` headers.
pub fn read_challenge(headers: &Vec<Vec<u8>>) -> (r: Result<NtlmChallenge, String>)
    requires
        can_read(header_bytes(headers@)),
    ensures
        exists|ansi: Set<Seq<u8>>|
            challenge_result(r) == #[trigger] challenge_in(header_bytes(headers@), ansi),
        r matches Ok(c) ==> c.nonce@.len() == 8,
{
    let ghost any = Set::<Seq<u8>>::empty();
    let ghost list = header_bytes(headers@);
    if headers.len() == 0 {
        assert(challenge_in(list, any) is Err);
        return Err("OWA NTLM auth failed: server didn't send a Type2 challenge".to_string());
    }
    let value = match header_text(&headers[0]) {
        Some(s) => s,
        None => {
            assert(challenge_in(list, any) is Err);
            return Err(
                "OWA NTLM auth failed: unreadable challenge header: failed to convert header to a str".to_string(),
            );
        },
    };
    let word = match word_two(value.as_str()) {
        Some(w) => w,
        None => {
            assert(challenge_in(list, any) is Err);
            return Err("OWA NTLM auth failed: malformed WWW-Authenticate header".to_string());
        },
    };
    let bytes = match decode_base64(word.as_str()) {
        Ok(b) => b,
        Err(e) => {
            assert(challenge_in(list, any) is Err);
            return Err(e);
        },
    };
    let message = read_message(bytes.as_slice());
    let ghost ansi = choose|ansi: Set<Seq<u8>>|
        read_result(message) == #[trigger] message_read(bytes@, usize::BITS, ansi);
    let r = challenge_message(message);
    assert(challenge_result(r) == challenge_in(list, ansi));
    r
}

// ---------------------------------------------------------------------------
// The answer
// ---------------------------------------------------------------------------

/// The answer to a challenge: the LM and the NTLM response and the session key.
pub struct NtlmAnswer {
    pub lm: Vec<u8>,
    pub ntlm: Vec<u8>,
    pub key: Vec<u8>,
}

/// The answer to a challenge for given random bytes.
pub uninterp spec fn ntlm_v2(
    nonce: Seq<u8>,
    target_info: Seq<u8>,
    time: i64,
    username: Seq<char>,
    password: Seq<char>,
    domain: Seq<char>,
    random: Seq<u8>,
) -> (Seq<u8>, Seq<u8>, Seq<u8>);

/// `ntlmclient::respond_challenge_ntlm_v2`: the answer to a challenge, for eight random bytes,
/// which are the last of the LM response. That has 24 bytes, the session key 16, and the NTLM
/// response 48 around the target's description.
#[verifier::external_body]
fn respond(
    challenge: &NtlmChallenge,
    time: i64,
    username: &str,
    password: &str,
    domain: &str,
) -> (r: NtlmAnswer)
    requires
        challenge.nonce@.len() == 8,
    ensures
        (r.lm@, r.ntlm@, r.key@) == ntlm_v2(
            challenge.nonce@,
            challenge.target_info@,
            time,
            username@,
            password@,
            domain@,
            r.lm@.subrange(16, 24),
        ),
        r.lm@.len() == 24,
        r.ntlm@.len() == 48 + challenge.target_info@.len(),
        r.key@.len() == 16,
{
    let creds = ntlmclient::Credentials {
        username: username.to_string(),
        password: password.to_string(),
        domain: domain.to_string(),
    };
    let nonce: [u8; 8] = challenge.nonce.as_slice().try_into().unwrap();
    let info = challenge.target_info.as_slice();
    let answer = ntlmclient::respond_challenge_ntlm_v2(nonce, info, time, &creds);
    NtlmAnswer { lm: answer.lm_response, ntlm: answer.ntlm_response, key: answer.session_key }
}

/// The bytes of an Authenticate message.
pub uninterp spec fn authenticate_message(
    answer: (Seq<u8>, Seq<u8>, Seq<u8>),
    username: Seq<char>,
    domain: Seq<char>,
    workstation: Seq<char>,
    flags: u32,
) -> Seq<u8>;

/// `ntlmclient::ChallengeResponse::to_message`, then `ntlmclient::Message::to_bytes`: the message
/// that carries an answer, with the default OS version. The password is no part of it. With the
/// Unicode flag, which is the lowest bit, it does not fail.
#[verifier::external_body]
fn authenticate_bytes(
    answer: NtlmAnswer,
    username: &str,
    domain: &str,
    workstation: &str,
    flags: u32,
) -> (r: Result<Vec<u8>, String>)
    requires
        flags % 2 == 1,
        answer.lm@.len() <= 65535,
        answer.ntlm@.len() <= 65535,
        answer.key@.len() <= 65535,
        fits(username@),
        fits(domain@),
        fits(workstation@),
    ensures
        r is Ok,
        r matches Ok(bytes) ==> bytes@ == authenticate_message(
            (answer.lm@, answer.ntlm@, answer.key@),
            username@,
            domain@,
            workstation@,
            flags,
        ),
{
    let creds = ntlmclient::Credentials {
        username: username.to_string(),
        password: String::new(),
        domain: domain.to_string(),
    };
    let (lm_response, ntlm_response, session_key) = (answer.lm, answer.ntlm, answer.key);
    let response = ntlmclient::ChallengeResponse { lm_response, ntlm_response, session_key };
    let flags = ntlmclient::Flags::from_bits_retain(flags);
    response.to_message(&creds, workstation, flags).to_bytes().map_err(|e| e.to_string())
}

/// The last message of the handshake, for given random bytes.
pub open spec fn closing(
    nonce: Seq<u8>,
    target_info: Seq<u8>,
    time: i64,
    name: Seq<char>,
    password: Seq<char>,
    random: Seq<u8>,
) -> Seq<u8> {
    let (domain, user) = session::domain_and_user(name);
    authenticate_message(
        ntlm_v2(nonce, target_info, time, user, password, domain, random),
        user,
        domain,
        WORKSTATION@,
        AUTHENTICATE_FLAGS,
    )
}

/// Whether a challenge can be answered under a user name: the message holds the name, its domain
/// and the target's description.
pub open spec fn can_answer(nonce: Seq<u8>, target_info: Seq<u8>, name: Seq<char>) -> bool {
    let (domain, user) = session::domain_and_user(name);
    &&& nonce.len() == 8
    &&& target_info.len() <= LONGEST_TARGET
    &&& fits(domain)
    &&& fits(user)
}

/// Whether a challenge can be answered under a user name.
pub fn is_answerable(challenge: &NtlmChallenge, name: &str) -> (r: bool)
    ensures
        r == can_answer(challenge.nonce@, challenge.target_info@, name@),
{
    let (domain, user) = split_domain_username(name);
    challenge.nonce.len() == 8 && challenge.target_info.len() <= LONGEST_TARGET && fits_message(
        domain.as_str(),
    ) && fits_message(user.as_str())
}

/// The last message of the handshake: the answer to a challenge at NTLM time `time`.
pub fn answer_challenge(challenge: &NtlmChallenge, name: &str, password: &str, time: i64) -> (r:
    Result<Vec<u8>, String>)
    requires
        can_answer(challenge.nonce@, challenge.target_info@, name@),
    ensures
        r is Ok,
        r matches Ok(bytes) ==> exists|random: Seq<u8>|
            random.len() == 8 && bytes@ == #[trigger] closing(
                challenge.nonce@,
                challenge.target_info@,
                time,
                name@,
                password@,
                random,
            ),
{
    let (domain, user) = split_domain_username(name);
    let answer = respond(challenge, time, user.as_str(), password, domain.as_str());
    let ghost random = answer.lm@.subrange(16, 24);
    proof {
        lemma_workstation_fits();
    }
    let r = authenticate_bytes(
        answer,
        user.as_str(),
        domain.as_str(),
        WORKSTATION,
        AUTHENTICATE_FLAGS,
    );
    assert(r->Ok_0@ == closing(
        challenge.nonce@,
        challenge.target_info@,
        time,
        name@,
        password@,
        random,
    ));
    r
}

// ---------------------------------------------------------------------------
// Laws
// ---------------------------------------------------------------------------

/// The handshake opens with a message that offers Unicode and NTLM, asks for the target and gives
/// the client's host name and no domain.
pub proof fn law_opening()
    ensures
        opening() == negotiate_message(0x2205, Seq::empty(), "owa-calendar"@),
{
}

/// The handshake closes with the answer for the user, the password and the domain, each in its own
/// place, and names user, domain and host.
pub proof fn law_closing(
    nonce: Seq<u8>,
    target_info: Seq<u8>,
    time: i64,
    name: Seq<char>,
    domain: Seq<char>,
    user: Seq<char>,
    password: Seq<char>,
    random: Seq<u8>,
)
    requires
        session::is_split(name, domain, user),
    ensures
        closing(nonce, target_info, time, name, password, random) == authenticate_message(
            ntlm_v2(nonce, target_info, time, user, password, domain, random),
            user,
            domain,
            "owa-calendar"@,
            0x0201,
        ),
{
    session::law_split_is_one(name, domain, user);
}

/// A challenge can be answered exactly if its bytes are eight, its description leaves room for the
/// 48 bytes around it, and the names' code units fit into 65535 bytes.
pub proof fn law_can_answer(
    nonce: Seq<u8>,
    target_info: Seq<u8>,
    name: Seq<char>,
    domain: Seq<char>,
    user: Seq<char>,
)
    requires
        session::is_split(name, domain, user),
    ensures
        can_answer(nonce, target_info, name) <==> nonce.len() == 8 && target_info.len() + 48
            <= 65535 && 2 * utf16_units(domain) <= 65535 && 2 * utf16_units(user) <= 65535,
{
    session::law_split_is_one(name, domain, user);
}

/// Code units add up; a character has one, or two from 0x10000 on.
pub proof fn law_utf16_units(a: Seq<char>, b: Seq<char>, c: char)
    ensures
        utf16_units(a + b) == utf16_units(a) + utf16_units(b),
        utf16_units(seq![c]) == if (c as int) < 0x10000 {
            1nat
        } else {
            2
        },
    decreases b.len(),
{
    let front = seq![c].drop_last();
    assert(front.len() == 0);
    assert(utf16_units(front) == 0);
    assert(seq![c].last() == c);
    if b.len() == 0 {
        assert(a + b =~= a);
    } else {
        law_utf16_units(a, b.drop_last(), c);
        assert((a + b).drop_last() =~= a + b.drop_last());
    }
}

/// A target's description is its entries one after the other; an entry is its kind and the length
/// of its data, in two bytes each with the lower one first, and the data.
pub proof fn law_target_bytes(
    a: Seq<(u16, Seq<u8>)>,
    b: Seq<(u16, Seq<u8>)>,
    kind: u16,
    data: Seq<u8>,
)
    requires
        data.len() <= 65535,
    ensures
        target_bytes(a + b) == target_bytes(a) + target_bytes(b),
        ({
            let t = target_bytes(seq![(kind, data)]);
            &&& t.len() == 4 + data.len()
            &&& two_at(t, 0) == kind
            &&& two_at(t, 2) == data.len()
            &&& t.skip(4) == data
        }),
    decreases b.len(),
{
    let one = seq![(kind, data)];
    let front = one.drop_last();
    assert(front.len() == 0);
    assert(target_bytes(front) =~= seq![]);
    assert(one.last() == (kind, data));
    let t = target_bytes(one);
    assert(t =~= two_bytes(kind as int) + two_bytes(data.len() as int) + data);
    assert(t.skip(4) =~= data);
    if b.len() == 0 {
        assert(a + b =~= a);
        assert(target_bytes(b) =~= seq![]);
    } else {
        law_target_bytes(a, b.drop_last(), kind, data);
        assert((a + b).drop_last() =~= a + b.drop_last());
        assert(target_bytes(a + b) =~= target_bytes(a) + target_bytes(b));
    }
}

/// The second word stands between the first space and the next one, or the end; without a space
/// there is none.
pub proof fn law_second_word(s: Seq<char>, i: int, j: int)
    ensures
        0 <= i < j <= s.len() && s[i] == ' ' && (forall|k: int| 0 <= k < i ==> s[k] != ' ') && (
        forall|k: int| i < k < j ==> s[k] != ' ') && (j == s.len() || s[j] == ' ') ==> second_word(
            s,
        ) == Some(s.subrange(i + 1, j)),
        !s.contains(' ') ==> second_word(s) is None,
{
    text::law_next_position(s, ' ', 0);
    let p = text::next_position(s, ' ', 0);
    if p < s.len() {
        text::law_next_position(s, ' ', p + 1);
        assert(s.contains(' '));
    }
}

/// Only the first header counts. Where it can be read and its second word is the base64 of a
/// message, what that message says is the challenge; where anything is wrong, that is said.
pub proof fn law_challenge_in(
    headers: Seq<Seq<u8>>,
    ansi: Set<Seq<u8>>,
    value: Seq<char>,
    word: Seq<char>,
    message: Seq<u8>,
)
    ensures
        headers.len() == 0 ==> challenge_in(headers, ansi) == Err::<(Seq<u8>, Seq<u8>), _>(
            "OWA NTLM auth failed: server didn't send a Type2 challenge"@,
        ),
        headers.len() > 0 && session::header_value(headers[0]) is None ==> challenge_in(
            headers,
            ansi,
        ) == Err::<(Seq<u8>, Seq<u8>), _>(
            "OWA NTLM auth failed: unreadable challenge header: failed to convert header to a str"@,
        ),
        headers.len() > 0 && session::reads_as(headers[0], value) && second_word(value) is None
            ==> challenge_in(headers, ansi) == Err::<(Seq<u8>, Seq<u8>), _>(
            "OWA NTLM auth failed: malformed WWW-Authenticate header"@,
        ),
        headers.len() > 0 && session::reads_as(headers[0], value) && second_word(value) == Some(
            word,
        ) ==> {
            &&& encode::base64_bytes(word) is None ==> challenge_in(headers, ansi) == Err::<
                (Seq<u8>, Seq<u8>),
                _,
            >(encode::base64_complaint(word))
            &&& word == encode::base64_text(message) ==> challenge_in(headers, ansi)
                == match message_read(message, usize::BITS, ansi) {
                Ok(Some(c)) => Ok((c.0, target_bytes(c.1))),
                Ok(None) => Err(
                    "OWA NTLM auth failed: server didn't send a Type2 challenge"@,
                ),
                Err(e) => Err(e),
            }
        },
{
    if headers.len() > 0 {
        session::law_header_value(headers[0], value);
    }
    encode::law_base64_round_trip(message);
}

/// Every header value is seen, in its place and whole.
pub proof fn law_header_bytes(headers: Seq<Vec<u8>>)
    ensures
        header_bytes(headers).len() == headers.len(),
        forall|i: int|
            0 <= i < headers.len() ==> #[trigger] header_bytes(headers)[i] == headers[i]@,
{
}

} // verus!
