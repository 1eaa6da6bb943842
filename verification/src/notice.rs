//! What notifications say.
use vstd::prelude::*;

use crate::moment::{self, clock_text};
use crate::text::{self, chars_of, push_decimal, starts_with_text};
use crate::types::{CalendarItem, NotificationType};

verus! {

// ---------------------------------------------------------------------------
// Links
// ---------------------------------------------------------------------------

/// Whether a word is a web address.
pub open spec fn web_address(word: Seq<char>) -> bool {
    text::stands_at(word, "http://"@, 0) || text::stands_at(word, "https://"@, 0)
}

/// Where the first word at or after `from` starts, or the end of the text.
pub open spec fn word_start(s: Seq<char>, from: int) -> int
    decreases s.len() - from,
{
    if from >= s.len() {
        s.len() as int
    } else if text::white_space(s[from]) {
        word_start(s, from + 1)
    } else {
        from
    }
}

/// Where the word that holds position `from` ends.
pub open spec fn word_end(s: Seq<char>, from: int) -> int
    decreases s.len() - from,
{
    if from >= s.len() {
        s.len() as int
    } else if text::white_space(s[from]) {
        from
    } else {
        word_end(s, from + 1)
    }
}

/// What `word_start` and `word_end` find.
proof fn lemma_word_bounds(s: Seq<char>, from: int)
    requires
        0 <= from <= s.len(),
    ensures
        from <= word_start(s, from) <= s.len(),
        forall|k: int| from <= k < word_start(s, from) ==> text::white_space(s[k]),
        word_start(s, from) < s.len() ==> !text::white_space(s[word_start(s, from)]),
        from <= word_end(s, from) <= s.len(),
        forall|k: int| from <= k < word_end(s, from) ==> !text::white_space(s[k]),
        word_end(s, from) < s.len() ==> text::white_space(s[word_end(s, from)]),
    decreases s.len() - from,
{
    if from < s.len() {
        lemma_word_bounds(s, from + 1);
    }
}

/// The first web address among the words at or after `from`, or nothing.
pub open spec fn first_address(s: Seq<char>, from: int) -> Seq<char>
    decreases s.len() - from,
    when 0 <= from <= s.len()
    via first_address_ends
{
    let a = word_start(s, from);
    let b = word_end(s, a);
    if a >= s.len() {
        seq![]
    } else if web_address(s.subrange(a, b)) {
        s.subrange(a, b)
    } else {
        first_address(s, b)
    }
}

#[via_fn]
proof fn first_address_ends(s: Seq<char>, from: int) {
    lemma_word_bounds(s, from);
    lemma_word_bounds(s, word_start(s, from));
}

/// The first word of `s` that starts with `http://` or `https://`, or nothing. Words are what
/// stands between white space.
pub fn extract_url(s: &str) -> (r: &str)
    ensures
        r@ == first_address(s@, 0),
{
    let chars = chars_of(s);
    let mut i: usize = 0;
    while i < chars.len()
        invariant
            i <= chars@.len(),
            chars@ == s@,
            first_address(s@, 0) == first_address(s@, i as int),
        decreases chars@.len() - i,
    {
        let mut a: usize = i;
        while a < chars.len() && chars[a].is_whitespace()
            invariant
                i <= a <= chars@.len(),
                chars@ == s@,
                word_start(s@, i as int) == word_start(s@, a as int),
            decreases chars@.len() - a,
        {
            a = a + 1;
        }
        if a == chars.len() {
            return s.substring_char(0, 0);
        }
        let mut b: usize = a;
        while b < chars.len() && !chars[b].is_whitespace()
            invariant
                a <= b <= chars@.len(),
                chars@ == s@,
                word_end(s@, a as int) == word_end(s@, b as int),
            decreases chars@.len() - b,
        {
            b = b + 1;
        }
        proof {
            lemma_word_bounds(s@, i as int);
            lemma_word_bounds(s@, a as int);
        }
        let word = s.substring_char(a, b);
        if starts_with_text(word, "http://") || starts_with_text(word, "https://") {
            return word;
        }
        i = b;
    }
    s.substring_char(0, 0)
}

/// Whether the characters `a..b` of `s` are one of its words.
pub open spec fn is_word(s: Seq<char>, a: int, b: int) -> bool {
    &&& 0 <= a < b <= s.len()
    &&& forall|k: int| a <= k < b ==> !text::white_space(#[trigger] s[k])
    &&& a > 0 ==> text::white_space(s[a - 1])
    &&& b < s.len() ==> text::white_space(s[b])
}

/// Whether a word starts with `http://` or `https://`.
pub open spec fn starts_as_link(word: Seq<char>) -> bool {
    ||| word.len() >= 7 && word.take(7) == seq!['h', 't', 't', 'p', ':', '/', '/']
    ||| word.len() >= 8 && word.take(8) == seq!['h', 't', 't', 'p', 's', ':', '/', '/']
}

/// Whether `w` is the first of the text's words that start with `http://` or `https://`, or nothing
/// where there is no such word.
pub open spec fn is_first_link(s: Seq<char>, w: Seq<char>) -> bool {
    ||| w.len() == 0 && forall|a: int, b: int| #[trigger]
        is_word(s, a, b) ==> !starts_as_link(s.subrange(a, b))
    ||| exists|a: int, b: int|
        {
            &&& #[trigger] is_word(s, a, b)
            &&& w == s.subrange(a, b)
            &&& starts_as_link(s.subrange(a, b))
            &&& forall|c: int, d: int| #[trigger]
                is_word(s, c, d) && c < a ==> !starts_as_link(s.subrange(c, d))
        }
}

/// A word is a web address exactly if it starts as one.
proof fn lemma_web_address(word: Seq<char>)
    ensures
        web_address(word) == starts_as_link(word),
{
    reveal_strlit("http://");
    reveal_strlit("https://");
    let a = "http://"@;
    let b = "https://"@;
    assert(a =~= seq!['h', 't', 't', 'p', ':', '/', '/']);
    assert(b =~= seq!['h', 't', 't', 'p', 's', ':', '/', '/']);
    if word.len() >= 7 {
        assert(word.subrange(0, 7) =~= word.take(7));
    }
    if word.len() >= 8 {
        assert(word.subrange(0, 8) =~= word.take(8));
    }
}

/// What is extracted is the first of the text's words that start with `http://` or `https://`, and
/// nothing where there is none.
pub proof fn law_first_link(s: Seq<char>)
    ensures
        is_first_link(s, first_address(s, 0)),
{
    law_extract_url(s);
    let w = first_address(s, 0);
    assert forall|a: int, b: int| #[trigger] is_word(s, a, b) implies web_address(s.subrange(a, b))
        == starts_as_link(s.subrange(a, b)) by {
        lemma_web_address(s.subrange(a, b));
    }
    if w.len() > 0 {
        let (a, b) = choose|a: int, b: int|
            {
                &&& #[trigger] is_word(s, a, b)
                &&& w == s.subrange(a, b)
                &&& web_address(s.subrange(a, b))
                &&& forall|c: int, d: int| #[trigger]
                    is_word(s, c, d) && c < a ==> !web_address(s.subrange(c, d))
            };
        assert(is_word(s, a, b));
    }
}

/// A text has only one first link.
pub proof fn law_first_link_is_one(s: Seq<char>, v: Seq<char>, w: Seq<char>)
    requires
        is_first_link(s, v),
        is_first_link(s, w),
    ensures
        v == w,
{
    if exists|a: int, b: int| #[trigger] is_word(s, a, b) && starts_as_link(s.subrange(a, b)) {
        let (a, b) = choose|a: int, b: int| #[trigger]
            is_word(s, a, b) && v == s.subrange(a, b) && starts_as_link(s.subrange(a, b)) && forall|
                c: int,
                d: int,
            | #[trigger]
                is_word(s, c, d) && c < a ==> !starts_as_link(s.subrange(c, d));
        let (c, d) = choose|c: int, d: int| #[trigger]
            is_word(s, c, d) && w == s.subrange(c, d) && starts_as_link(s.subrange(c, d)) && forall|
                e: int,
                f: int,
            | #[trigger]
                is_word(s, e, f) && e < c ==> !starts_as_link(s.subrange(e, f));
        assert(is_word(s, a, b) && is_word(s, c, d));
        assert(a == c);
        if b < d {
            assert(!text::white_space(s[b]));
        } else if d < b {
            assert(!text::white_space(s[d]));
        }
    }
}

/// What is extracted is a web address and one of the text's words, and the first of its kind;
/// nothing is extracted only where no word is a web address.
pub proof fn law_extract_url(s: Seq<char>)
    ensures
        first_address(s, 0).len() == 0 ==> forall|a: int, b: int| #[trigger]
            is_word(s, a, b) ==> !web_address(s.subrange(a, b)),
        first_address(s, 0).len() > 0 ==> exists|a: int, b: int|
            {
                &&& #[trigger] is_word(s, a, b)
                &&& first_address(s, 0) == s.subrange(a, b)
                &&& web_address(s.subrange(a, b))
                &&& forall|c: int, d: int| #[trigger]
                    is_word(s, c, d) && c < a ==> !web_address(s.subrange(c, d))
            },
{
    lemma_first_address(s, 0);
    let t = first_address(s, 0);
    if t.len() > 0 {
        let (a, b) = choose|a: int, b: int|
            {
                &&& #[trigger] is_word(s, a, b)
                &&& t == s.subrange(a, b)
                &&& web_address(s.subrange(a, b))
                &&& forall|c: int, d: int|
                    0 <= c < a && #[trigger] is_word(s, c, d) ==> !web_address(s.subrange(c, d))
            };
        assert(is_word(s, a, b));
    }
}

/// The law for the words at or after `from`, where a word may start.
proof fn lemma_first_address(s: Seq<char>, from: int)
    requires
        0 <= from <= s.len(),
        from > 0 && from < s.len() ==> text::white_space(s[from]) || text::white_space(s[from - 1]),
    ensures
        first_address(s, from).len() == 0 ==> forall|a: int, b: int|
            from <= a && #[trigger] is_word(s, a, b) ==> !web_address(s.subrange(a, b)),
        first_address(s, from).len() > 0 ==> exists|a: int, b: int|
            {
                &&& #[trigger] is_word(s, a, b)
                &&& first_address(s, from) == s.subrange(a, b)
                &&& web_address(s.subrange(a, b))
                &&& forall|c: int, d: int|
                    from <= c < a && #[trigger] is_word(s, c, d) ==> !web_address(s.subrange(c, d))
            },
    decreases s.len() - from,
{
    let a = word_start(s, from);
    lemma_word_bounds(s, from);
    if a < s.len() {
        let b = word_end(s, a);
        lemma_word_bounds(s, a);
        assert(is_word(s, a, b));
        assert forall|c: int, d: int| from <= c < b && #[trigger] is_word(s, c, d) implies c == a
            && d == b by {
            if c < a {
                assert(text::white_space(s[c]));
            } else if c > a {
                assert(!text::white_space(s[c - 1]));
            }
            if d < b {
                assert(!text::white_space(s[d]));
            } else if d > b {
                assert(text::white_space(s[b]));
            }
        }
        if !web_address(s.subrange(a, b)) {
            lemma_first_address(s, b);
        } else {
            assert(s.subrange(a, b).len() > 0);
        }
    } else {
        assert forall|c: int, d: int| from <= c && #[trigger] is_word(s, c, d) implies !web_address(
            s.subrange(c, d),
        ) by {
            assert(text::white_space(s[c]));
        }
    }
}

// ---------------------------------------------------------------------------
// Notifications
// ---------------------------------------------------------------------------

/// A desktop notification.
#[derive(Debug)]
pub struct Notice {
    pub summary: String,
    pub body: String,
    /// Whether it is to be shown as critical rather than as normal.
    pub critical: bool,
}

/// A link to an address that shows the address.
pub open spec fn link(address: Seq<char>) -> Seq<char> {
    "<a href='"@ + address + "'>"@ + address + "</a>"@
}

/// Appends a link to an address that shows the address.
fn push_link(out: &mut String, address: &str)
    ensures
        final(out)@ == old(out)@ + link(address@),
{
    out.append("<a href='");
    out.append(address);
    out.append("'>");
    out.append(address);
    out.append("</a>");
    assert(out@ =~= old(out)@ + link(address@));
}

/// What an event's notification says on top.
pub open spec fn event_summary(event: CalendarItem, kind: NotificationType) -> Seq<char> {
    match kind {
        NotificationType::FifteenMinutes => "⏰ Через 15 минут: "@ + event.subject@,
        NotificationType::EventStart => "🔔 Началось: "@ + event.subject@,
    }
}

/// What an event's notification says below: when the event starts, by clocks that are `offset`
/// seconds ahead of UTC, and a link to the first web address in the event's place.
pub open spec fn event_body(event: CalendarItem, kind: NotificationType, offset: int) -> Seq<char> {
    let label = match kind {
        NotificationType::FifteenMinutes => "<b>Начало:</b> "@,
        NotificationType::EventStart => "<b>Время:</b> "@,
    };
    label + moment::clock(moment::second_of_day(event.start.secs + offset)) + "\n"@ + link(
        first_address(event.place(), 0),
    )
}

/// An event's notification. Only the one at the event's start is critical.
pub fn event_notice(event: &CalendarItem, kind: NotificationType, offset: i32) -> (r: Notice)
    requires
        event.start.valid(),
        moment::valid_offset(offset),
    ensures
        r.summary@ == event_summary(*event, kind),
        r.body@ == event_body(*event, kind, offset as int),
        r.critical == (kind == NotificationType::EventStart),
{
    let place = event.place_name();
    let address = extract_url(place.as_str());
    let time = clock_text(event.start, offset);
    let mut summary = String::new();
    let mut body = String::new();
    let critical = match kind {
        NotificationType::FifteenMinutes => {
            summary.append("⏰ Через 15 минут: ");
            body.append("<b>Начало:</b> ");
            false
        },
        NotificationType::EventStart => {
            summary.append("🔔 Началось: ");
            body.append("<b>Время:</b> ");
            true
        },
    };
    summary.append(event.subject.as_str());
    body.append(time.as_str());
    body.append("\n");
    push_link(&mut body, address);
    assert(summary@ =~= event_summary(*event, kind));
    assert(body@ =~= event_body(*event, kind, offset as int));
    Notice { summary, body, critical }
}

/// The notification of unread mail: how much there is, and a link to the inbox.
pub fn unread_notice(count: u32, mail_url: &str) -> (r: Notice)
    ensures
        r.summary@ == "📬 У вас "@ + text::decimal(count as nat) + " непрочитанных писем"@,
        r.body@ == link(mail_url@),
        r.body@ == "<a href='"@ + mail_url@ + "'>"@ + mail_url@ + "</a>"@,
        !r.critical,
{
    let mut summary = String::new();
    summary.append("📬 У вас ");
    push_decimal(&mut summary, count as u128);
    summary.append(" непрочитанных писем");
    let mut body = String::new();
    push_link(&mut body, mail_url);
    assert(summary@ =~= "📬 У вас "@ + text::decimal(count as nat) + " непрочитанных писем"@);
    assert(body@ =~= link(mail_url@));
    Notice { summary, body, critical: false }
}

/// The notification that the test button shows.
pub fn sample_notice() -> (r: Notice)
    ensures
        r.summary@ == "🔔 Some event"@,
        r.body@ == "<b>Start:</b> 10:00\n<a href='https://google.com'>Open</a>"@,
        !r.critical,
{
    Notice {
        summary: "🔔 Some event".to_string(),
        body: "<b>Start:</b> 10:00\n<a href='https://google.com'>Open</a>".to_string(),
        critical: false,
    }
}

// ---------------------------------------------------------------------------
// Laws
// ---------------------------------------------------------------------------

/// Either notification of an event holds the whole subject, the local time of the start and, as
/// target and as text of its link, the first word of the place that starts as a web address; where
/// the event has no place, or the place no such word, the link is empty.
pub proof fn law_event_notice(
    event: CalendarItem,
    kind: NotificationType,
    offset: int,
    place: Seq<char>,
    word: Seq<char>,
)
    requires
        event.location matches Some(l) ==> place == l.display_name@,
        event.location is None ==> place.len() == 0,
        is_first_link(place, word),
    ensures
        kind == NotificationType::FifteenMinutes ==> event_summary(event, kind)
            == "⏰ Через 15 минут: "@ + event.subject@,
        kind == NotificationType::EventStart ==> event_summary(event, kind) == "🔔 Началось: "@
            + event.subject@,
        kind == NotificationType::FifteenMinutes ==> event_body(event, kind, offset)
            == "<b>Начало:</b> "@ + moment::clock((event.start.secs + offset) % 86400) + "\n"@
            + "<a href='"@ + word + "'>"@ + word + "</a>"@,
        kind == NotificationType::EventStart ==> event_body(event, kind, offset)
            == "<b>Время:</b> "@ + moment::clock((event.start.secs + offset) % 86400) + "\n"@
            + "<a href='"@ + word + "'>"@ + word + "</a>"@,
{
    assert(event.place() =~= place);
    law_first_link(place);
    law_first_link_is_one(place, word, first_address(place, 0));
}

/// The two notifications of an event differ only in their first words: the time and the link are
/// the same.
pub proof fn law_notices_agree(event: CalendarItem, offset: int)
    ensures
        event_body(event, NotificationType::FifteenMinutes, offset).skip(
            "<b>Начало:</b> "@.len() as int,
        ) == event_body(event, NotificationType::EventStart, offset).skip(
            "<b>Время:</b> "@.len() as int,
        ),
{
    let a = "<b>Начало:</b> "@;
    let b = "<b>Время:</b> "@;
    let rest = moment::clock(moment::second_of_day(event.start.secs + offset)) + "\n"@ + link(
        first_address(event.place(), 0),
    );
    assert(event_body(event, NotificationType::FifteenMinutes, offset) =~= a + rest);
    assert(event_body(event, NotificationType::EventStart, offset) =~= b + rest);
    assert((a + rest).skip(a.len() as int) =~= rest);
    assert((b + rest).skip(b.len() as int) =~= rest);
}

/// Whether a place has a link, and which, does not depend on what stands in the rest of the event:
/// events at one place and time have the same notification but for the subject.
pub proof fn law_notice_of_place(
    a: CalendarItem,
    b: CalendarItem,
    kind: NotificationType,
    offset: int,
)
    requires
        a.location == b.location,
        a.start.secs == b.start.secs,
    ensures
        event_body(a, kind, offset) == event_body(b, kind, offset),
{
}

} // verus!
