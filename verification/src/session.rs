//! Sessions: credentials, cookies and the canary.
use vstd::prelude::*;

use crate::text::{self, chars_of, find_char, same_text, text_of, trim};

verus! {

/// Everything needed to call OWA's service.svc after a successful login. Session cookies live in
/// the client's cookie jar and go with every request by themselves; the header of Basic
/// authentication does not, since the server does not remember it.
pub struct OwaSession {
    pub canary: String,
    pub basic_auth_header: Option<String>,
}

/// A session, with texts as sequences of characters.
#[verifier::ext_equal]
pub struct SessionView {
    pub canary: Seq<char>,
    pub basic: Option<Seq<char>>,
}

impl View for OwaSession {
    type V = SessionView;

    open spec fn view(&self) -> SessionView {
        SessionView { canary: self.canary@, basic: text::text_option(self.basic_auth_header) }
    }
}

// ---------------------------------------------------------------------------
// User names
// ---------------------------------------------------------------------------

/// `DOMAIN\user` as its two parts; a name without a backslash has an empty domain.
pub open spec fn domain_and_user(name: Seq<char>) -> (Seq<char>, Seq<char>) {
    let i = text::next_position(name, '\\', 0);
    if i < name.len() {
        (name.take(i), name.skip(i + 1))
    } else {
        (seq![], name)
    }
}

/// Splits `DOMAIN\user` at its first backslash. NTLM needs the domain as a separate field; other
/// forms of names are passed through with an empty domain.
pub fn split_domain_username(username: &str) -> (r: (String, String))
    ensures
        (r.0@, r.1@) == domain_and_user(username@),
{
    let chars = chars_of(username);
    let i: usize = find_char(&chars, '\\', 0);
    if i < chars.len() {
        let domain = text_of(&chars, 0, i);
        let user = text_of(&chars, i + 1, chars.len());
        assert(domain@ =~= username@.take(i as int));
        assert(user@ =~= username@.skip(i + 1));
        (domain, user)
    } else {
        let user = text_of(&chars, 0, chars.len());
        assert(user@ =~= username@);
        (String::new(), user)
    }
}

/// What `next_position` finds.
proof fn lemma_next_position(s: Seq<char>, c: char, from: int)
    requires
        0 <= from <= s.len(),
    ensures
        from <= text::next_position(s, c, from) <= s.len(),
        text::next_position(s, c, from) < s.len() ==> s[text::next_position(s, c, from)] == c,
        forall|k: int| from <= k < text::next_position(s, c, from) ==> s[k] != c,
{
    text::law_next_position(s, c, from);
}

/// Splitting loses nothing: a name with a backslash is its domain, a backslash and its user, and
/// the domain holds no backslash; any other name is its user.
pub proof fn law_split_domain_username(name: Seq<char>)
    ensures
        name.contains('\\') ==> {
            let (domain, user) = domain_and_user(name);
            domain.push('\\') + user == name && !domain.contains('\\')
        },
        !name.contains('\\') ==> domain_and_user(name) == (Seq::<char>::empty(), name),
{
    lemma_next_position(name, '\\', 0);
    let i = text::next_position(name, '\\', 0);
    if name.contains('\\') {
        let k = choose|k: int| 0 <= k < name.len() && name[k] == '\\';
        assert(i <= k);
        let (domain, user) = domain_and_user(name);
        assert(domain.push('\\') + user =~= name);
    }
}

// ---------------------------------------------------------------------------
// Header values
// ---------------------------------------------------------------------------

/// The bytes that a readable header value is made of: visible ASCII, space and tab.
pub open spec fn readable(b: u8) -> bool {
    32 <= b < 127 || b == 9
}

/// The text of a header value, if all of it is readable.
pub open spec fn header_value(bytes: Seq<u8>) -> Option<Seq<char>> {
    if forall|i: int| 0 <= i < bytes.len() ==> readable(#[trigger] bytes[i]) {
        Some(bytes.map_values(|b: u8| b as char))
    } else {
        None
    }
}

/// The text of a header value, if all of it is readable.
pub fn header_text(bytes: &Vec<u8>) -> (r: Option<String>)
    ensures
        match r {
            Some(s) => header_value(bytes@) == Some(s@),
            None => header_value(bytes@) is None,
        },
{
    let mut out = String::new();
    let mut i: usize = 0;
    while i < bytes.len()
        invariant
            i <= bytes@.len(),
            forall|k: int| 0 <= k < i ==> readable(#[trigger] bytes@[k]),
            out@ == bytes@.take(i as int).map_values(|b: u8| b as char),
        decreases bytes@.len() - i,
    {
        let b: u8 = bytes[i];
        if !((32 <= b && b < 127) || b == 9) {
            assert(!readable(bytes@[i as int]));
            return None;
        }
        out.push(b as char);
        assert(out@ =~= bytes@.take(i + 1).map_values(|b: u8| b as char));
        i = i + 1;
    }
    assert(bytes@.take(bytes@.len() as int) =~= bytes@);
    Some(out)
}

// ---------------------------------------------------------------------------
// The canary
// ---------------------------------------------------------------------------

/// Where the first separator `"; "` at or after `from` stands, or the end of the text.
pub open spec fn next_separator(s: Seq<char>, from: int) -> int
    decreases s.len() - from,
{
    if from + 2 > s.len() {
        s.len() as int
    } else if s[from] == ';' && s[from + 1] == ' ' {
        from
    } else {
        next_separator(s, from + 1)
    }
}

/// The canary that the cookie `pair` holds, if it is the canary's cookie: what stands behind the
/// first equals sign, trimmed, where `X-OWA-CANARY` stands before it.
pub open spec fn canary_of_pair(pair: Seq<char>) -> Option<Seq<char>> {
    let i = text::next_position(pair, '=', 0);
    if i < pair.len() && pair.take(i) == "X-OWA-CANARY"@ {
        Some(text::trimmed(pair.skip(i + 1)))
    } else {
        None
    }
}

/// The canary in a list of cookies from position `from` on; nothing where it is not there.
pub open spec fn canary_in(s: Seq<char>, from: int) -> Seq<char>
    decreases s.len() - from,
    when 0 <= from <= s.len()
    via canary_in_ends
{
    let end = next_separator(s, from);
    match canary_of_pair(s.subrange(from, end)) {
        Some(c) => c,
        None => if end < s.len() {
            canary_in(s, end + 2)
        } else {
            seq![]
        },
    }
}

#[via_fn]
proof fn canary_in_ends(s: Seq<char>, from: int) {
    lemma_next_separator(s, from);
}

/// What `next_separator` finds.
proof fn lemma_next_separator(s: Seq<char>, from: int)
    requires
        0 <= from <= s.len(),
    ensures
        from <= next_separator(s, from) <= s.len(),
        next_separator(s, from) < s.len() ==> next_separator(s, from) + 2 <= s.len(),
    decreases s.len() - from,
{
    if from + 2 <= s.len() && !(s[from] == ';' && s[from + 1] == ' ') {
        lemma_next_separator(s, from + 1);
    }
}

/// The canary that the cookies for an address hold.
pub open spec fn canary(cookies: Option<Seq<u8>>) -> Seq<char> {
    match cookies {
        Some(bytes) => match header_value(bytes) {
            Some(s) => canary_in(s, 0),
            None => seq![],
        },
        None => seq![],
    }
}

/// A list of bytes that may be missing.
pub open spec fn bytes_of(v: Option<Vec<u8>>) -> Option<Seq<u8>> {
    match v {
        Some(b) => Some(b@),
        None => None,
    }
}

/// Whether a separator `"; "` stands in `s` at position `k`.
pub open spec fn separates(s: Seq<char>, k: int) -> bool {
    0 <= k <= s.len() - 2 && s[k] == ';' && s[k + 1] == ' '
}

/// Whether the characters `a..b` of `s` are one of its cookies: what stands between two separators,
/// or between one and an end of the text.
pub open spec fn is_cookie(s: Seq<char>, a: int, b: int) -> bool {
    &&& 0 <= a <= b <= s.len()
    &&& a == 0 || separates(s, a - 2)
    &&& b == s.len() || separates(s, b)
    &&& forall|k: int| a <= k < b ==> !#[trigger] separates(s, k)
}

/// A cookie is the canary's exactly if it starts with `X-OWA-CANARY=`, and the canary is what
/// follows, trimmed.
pub proof fn law_canary_cookie(pair: Seq<char>)
    ensures
        canary_of_pair(pair) == if text::stands_at(pair, "X-OWA-CANARY="@, 0) {
            Some(text::trimmed(pair.skip(13)))
        } else {
            None
        },
{
    reveal_strlit("X-OWA-CANARY");
    reveal_strlit("X-OWA-CANARY=");
    let name = "X-OWA-CANARY"@;
    let start = "X-OWA-CANARY="@;
    let i = text::next_position(pair, '=', 0);
    lemma_next_position(pair, '=', 0);
    assert(start =~= name.push('='));
    if text::stands_at(pair, start, 0) {
        let head = pair.subrange(0, 13);
        assert(head == start);
        assert(forall|k: int| 0 <= k < 13 ==> pair[k] == #[trigger] head[k]);
        assert(forall|k: int| 0 <= k < 12 ==> #[trigger] name[k] != '=');
        assert(head[12] == '=');
        assert forall|k: int| 0 <= k < 12 implies pair[k] != '=' by {
            assert(pair[k] == head[k]);
            assert(head[k] == name[k]);
        }
        assert(i == 12);
        assert(pair.take(12) =~= name);
    } else if i < pair.len() && pair.take(i) == name {
        assert(pair.subrange(0, 13) =~= start);
    }
}

/// The canary in a list of cookies is that of the first cookie that is the canary's, and nothing
/// where none is.
pub proof fn law_canary(s: Seq<char>)
    ensures
        (forall|a: int, b: int| #[trigger]
            is_cookie(s, a, b) ==> canary_of_pair(s.subrange(a, b)) is None) ==> canary_in(s, 0)
            == Seq::<char>::empty(),
        (exists|a: int, b: int| #[trigger]
            is_cookie(s, a, b) && canary_of_pair(s.subrange(a, b)) is Some) ==> exists|
            a: int,
            b: int,
        | {
            &&& #[trigger] is_cookie(s, a, b)
            &&& canary_of_pair(s.subrange(a, b)) == Some(canary_in(s, 0))
            &&& forall|c: int, d: int| #[trigger]
                is_cookie(s, c, d) && c < a ==> canary_of_pair(s.subrange(c, d)) is None
        },
{
    lemma_canary(s, 0);
}

/// Where the next separator is.
proof fn lemma_cookie_end(s: Seq<char>, from: int)
    requires
        0 <= from <= s.len(),
    ensures
        ({
            let end = next_separator(s, from);
            &&& end == s.len() || separates(s, end)
            &&& forall|k: int| from <= k < end ==> !#[trigger] separates(s, k)
        }),
    decreases s.len() - from,
{
    if from + 2 <= s.len() && !separates(s, from) {
        lemma_cookie_end(s, from + 1);
    }
}

/// The law for the cookies from position `from` on, where one starts.
proof fn lemma_canary(s: Seq<char>, from: int)
    requires
        0 <= from <= s.len(),
        from == 0 || separates(s, from - 2),
    ensures
        (forall|a: int, b: int|
            from <= a && #[trigger] is_cookie(s, a, b) ==> canary_of_pair(s.subrange(a, b)) is None)
            ==> canary_in(s, from) == Seq::<char>::empty(),
        (exists|a: int, b: int|
            from <= a && #[trigger] is_cookie(s, a, b) && canary_of_pair(
                s.subrange(a, b),
            ) is Some) ==> exists|a: int, b: int|
            {
                &&& from <= a
                &&& #[trigger] is_cookie(s, a, b)
                &&& canary_of_pair(s.subrange(a, b)) == Some(canary_in(s, from))
                &&& forall|c: int, d: int|
                    from <= c < a && #[trigger] is_cookie(s, c, d) ==> canary_of_pair(
                        s.subrange(c, d),
                    ) is None
            },
    decreases s.len() - from,
{
    let end = next_separator(s, from);
    lemma_next_separator(s, from);
    lemma_cookie_end(s, from);
    assert(is_cookie(s, from, end));
    assert forall|c: int, d: int|
        from <= c < end + 2 && #[trigger] is_cookie(s, c, d) implies c == from && d == end by {
        if c > from {
            if c - 2 >= from {
                assert(!separates(s, c - 2));
            } else {
                assert(separates(s, c - 2) && separates(s, from - 2));
            }
        } else if d < end {
            assert(!separates(s, d));
        } else if d > end {
            assert(!separates(s, end));
        }
    }
    if canary_of_pair(s.subrange(from, end)) is None && end < s.len() {
        lemma_canary(s, end + 2);
    }
}

/// The canary that the cookie `pair` holds, if it is the canary's cookie.
fn pair_canary(pair: &str) -> (r: Option<String>)
    ensures
        match r {
            Some(c) => canary_of_pair(pair@) == Some(c@),
            None => canary_of_pair(pair@) is None,
        },
{
    let chars = chars_of(pair);
    let i: usize = find_char(&chars, '=', 0);
    if i == chars.len() {
        return None;
    }
    let name = text_of(&chars, 0, i);
    assert(name@ =~= pair@.take(i as int));
    if !same_text(name.as_str(), "X-OWA-CANARY") {
        return None;
    }
    let value = text_of(&chars, i + 1, chars.len());
    assert(value@ =~= pair@.skip(i + 1));
    Some(trim(value.as_str()))
}

/// The canary among the cookies that the client would send to an address: the value of the cookie
/// `X-OWA-CANARY`, or nothing where there are no cookies, where they cannot be read, or where that
/// one is not among them.
pub fn canary_from_jar(cookies: &Option<Vec<u8>>) -> (r: String)
    ensures
        r@ == canary(bytes_of(*cookies)),
{
    let list = match cookies {
        Some(bytes) => match header_text(bytes) {
            Some(s) => s,
            None => {
                return String::new();
            },
        },
        None => {
            return String::new();
        },
    };
    let chars = chars_of(list.as_str());
    let total: usize = chars.len();
    let mut from: usize = 0;
    loop
        invariant
            from <= total,
            total == chars@.len(),
            chars@ == list@,
            canary_in(list@, from as int) == canary_in(list@, 0),
            canary(bytes_of(*cookies)) == canary_in(list@, 0),
        decreases total - from,
    {
        let mut end: usize = from;
        while end < total && !(total - end >= 2 && chars[end] == ';' && chars[end + 1] == ' ')
            invariant
                from <= end <= total,
                total == chars@.len(),
                chars@ == list@,
                next_separator(list@, from as int) == next_separator(list@, end as int),
            decreases total - end,
        {
            end = end + 1;
        }
        proof {
            lemma_next_separator(list@, from as int);
        }
        let pair = text_of(&chars, from, end);
        match pair_canary(pair.as_str()) {
            Some(c) => {
                return c;
            },
            None => {},
        }
        if end == total {
            return String::new();
        }
        from = end + 2;
    }
}

// ---------------------------------------------------------------------------
// Laws
// ---------------------------------------------------------------------------

/// Whether `text` is what the bytes of a header value say: they are visible ASCII, spaces and tabs,
/// and each is its character.
pub open spec fn reads_as(bytes: Seq<u8>, text: Seq<char>) -> bool {
    &&& text.len() == bytes.len()
    &&& forall|i: int|
        0 <= i < bytes.len() ==> (32 <= #[trigger] bytes[i] <= 126 || bytes[i] == 9) && text[i]
            as int == bytes[i]
}

/// A header value has a text exactly if all its bytes are visible ASCII, spaces or tabs, and the
/// text has a character for each.
pub proof fn law_header_value(bytes: Seq<u8>, text: Seq<char>)
    ensures
        header_value(bytes) == Some(text) <==> reads_as(bytes, text),
        header_value(bytes) is None <==> exists|i: int|
            0 <= i < bytes.len() && !(32 <= #[trigger] bytes[i] <= 126 || bytes[i] == 9),
{
    if forall|i: int| 0 <= i < bytes.len() ==> readable(#[trigger] bytes[i]) {
        let value = header_value(bytes)->0;
        assert(forall|i: int|
            0 <= i < bytes.len() ==> value[i] as int == #[trigger] bytes[i] as int);
        if reads_as(bytes, text) {
            assert forall|i: int| 0 <= i < bytes.len() implies value[i] == text[i] by {
                assert(value[i] as int == bytes[i] as int);
                assert(text[i] as int == bytes[i]);
            }
            assert(value =~= text);
        }
    } else {
        let i = choose|i: int| 0 <= i < bytes.len() && !readable(#[trigger] bytes[i]);
        assert(!(32 <= bytes[i] <= 126 || bytes[i] == 9));
    }
}

/// Without cookies, or with cookies that cannot be read, there is no canary; else it is the one in
/// the list.
pub proof fn law_canary_of_cookies(bytes: Seq<u8>, text: Seq<char>)
    ensures
        canary(None).len() == 0,
        header_value(bytes) is None ==> canary(Some(bytes)).len() == 0,
        reads_as(bytes, text) ==> canary(Some(bytes)) == canary_in(text, 0),
{
    law_header_value(bytes, text);
}

/// Whether a name is split as it should be: at its first backslash, or not at all where it has
/// none.
pub open spec fn is_split(name: Seq<char>, domain: Seq<char>, user: Seq<char>) -> bool {
    ||| name == domain.push('\\') + user && !domain.contains('\\')
    ||| !name.contains('\\') && domain.len() == 0 && user == name
}

/// There is one way to split a name, and it is the one taken.
pub proof fn law_split_is_one(name: Seq<char>, domain: Seq<char>, user: Seq<char>)
    requires
        is_split(name, domain, user),
    ensures
        domain_and_user(name) == (domain, user),
{
    law_split_domain_username(name);
    lemma_next_position(name, '\\', 0);
    if name.contains('\\') {
        let i = text::next_position(name, '\\', 0);
        let n = domain.len() as int;
        assert(name == domain.push('\\') + user);
        assert(name[n] == '\\');
        if i < n {
            assert(domain[i] == name[i]);
            assert(domain.contains('\\'));
        }
        assert(i == n);
        assert(name.take(i) =~= domain);
        assert(name.skip(i + 1) =~= user);
    } else {
        if name == domain.push('\\') + user {
            assert(name[domain.len() as int] == '\\');
        }
        assert(domain =~= seq![]);
    }
}

/// A session is its canary and, where it has one, the header that it repeats.
pub proof fn law_session_seen(session: OwaSession)
    ensures
        session@.canary == session.canary@,
        session.basic_auth_header is None ==> session@.basic is None,
        session.basic_auth_header matches Some(h) ==> session@.basic == Some(h@),
{
}

} // verus!
