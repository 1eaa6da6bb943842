//! Encodings: percent-encoding, base64 and the correlation id that goes with every request.
use base64::Engine;
use vstd::prelude::*;
use vstd::utf8::*;

use crate::text::{self, push_decimal, push_hex};

verus! {

// ---------------------------------------------------------------------------
// Percent-encoding
// ---------------------------------------------------------------------------

/// The bytes that a URL carries as they are.
pub open spec fn unreserved(b: u8) -> bool {
    ||| 0x41 <= b <= 0x5a
    ||| 0x61 <= b <= 0x7a
    ||| 0x30 <= b <= 0x39
    ||| b == 0x2d
    ||| b == 0x5f
    ||| b == 0x2e
    ||| b == 0x7e
}

/// One byte, percent-encoded.
pub open spec fn percent_byte(b: u8) -> Seq<char> {
    if unreserved(b) {
        seq![b as char]
    } else {
        seq!['%', text::hex_digit(b as int / 16), text::hex_digit(b as int % 16)]
    }
}

/// The bytes, percent-encoded one after the other.
pub open spec fn percent_encoded(bytes: Seq<u8>) -> Seq<char>
    decreases bytes.len(),
{
    if bytes.len() == 0 {
        seq![]
    } else {
        percent_encoded(bytes.drop_last()) + percent_byte(bytes.last())
    }
}

/// Appends the upper-case hexadecimal digit for `d`.
fn push_hex_digit(out: &mut String, d: u8)
    requires
        d < 16,
    ensures
        final(out)@ == old(out)@.push(text::hex_digit(d as int)),
{
    if d < 10 {
        out.push((48 + d) as char);
    } else {
        out.push((55 + d) as char);
    }
}

/// Percent-encodes every byte of `s` in UTF-8 but letters, digits, `-`, `_`, `.` and `~`.
pub fn url_encode(s: &str) -> (r: String)
    ensures
        r@ == percent_encoded(encode_utf8(s@)),
{
    let bytes = s.as_bytes();
    let mut out = String::new();
    let mut i: usize = 0;
    while i < bytes.len()
        invariant
            i <= bytes@.len(),
            out@ == percent_encoded(bytes@.take(i as int)),
        decreases bytes@.len() - i,
    {
        let b: u8 = bytes[i];
        let ghost before = out@;
        if (0x41 <= b && b <= 0x5a) || (0x61 <= b && b <= 0x7a) || (0x30 <= b && b <= 0x39) || b
            == 0x2d || b == 0x5f || b == 0x2e || b == 0x7e {
            out.push(b as char);
        } else {
            out.push('%');
            push_hex_digit(&mut out, b / 16);
            push_hex_digit(&mut out, b % 16);
        }
        proof {
            assert(bytes@.take(i + 1).drop_last() =~= bytes@.take(i as int));
            assert(out@ =~= before + percent_byte(b));
        }
        i = i + 1;
    }
    assert(bytes@.take(bytes@.len() as int) =~= bytes@);
    out
}

/// The value of an upper-case hexadecimal digit.
pub open spec fn hex_value(c: char) -> int {
    if '0' <= c <= '9' {
        c as int - 48
    } else {
        c as int - 55
    }
}

/// The bytes that a percent-encoded text stands for.
pub open spec fn percent_decoded(t: Seq<char>) -> Seq<u8>
    decreases t.len(),
{
    if t.len() == 0 {
        seq![]
    } else if t.len() >= 3 && t[t.len() - 3] == '%' {
        percent_decoded(t.take(t.len() - 3)).push(
            (hex_value(t[t.len() - 2]) * 16 + hex_value(t[t.len() - 1])) as u8,
        )
    } else {
        percent_decoded(t.drop_last()).push(t.last() as u8)
    }
}

/// Decoding a percent-encoded text gives the bytes back.
pub proof fn law_url_encode_round_trip(bytes: Seq<u8>)
    ensures
        percent_decoded(percent_encoded(bytes)) == bytes,
    decreases bytes.len(),
{
    if bytes.len() > 0 {
        let front = bytes.drop_last();
        let b = bytes.last();
        let head = percent_encoded(front);
        let t = percent_encoded(bytes);
        law_url_encode_round_trip(front);
        if unreserved(b) {
            lemma_percent_tail(front);
            assert(t.drop_last() =~= head);
            assert(t.last() as u8 == b);
        } else {
            assert(t.take(t.len() - 3) =~= head);
        }
        assert(front.push(b) =~= bytes);
    }
}

/// An encoded text never has a percent sign as its last character or the one before.
proof fn lemma_percent_tail(bytes: Seq<u8>)
    ensures
        ({
            let t = percent_encoded(bytes);
            &&& t.len() >= 1 ==> t[t.len() - 1] != '%'
            &&& t.len() >= 2 ==> t[t.len() - 2] != '%'
        }),
    decreases bytes.len(),
{
    if bytes.len() > 0 {
        lemma_percent_tail(bytes.drop_last());
    }
}

/// A percent-encoded text holds nothing but letters, digits, `-`, `_`, `.`, `~` and `%`.
pub proof fn law_url_encode_alphabet(bytes: Seq<u8>)
    ensures
        forall|i: int|
            0 <= i < percent_encoded(bytes).len() ==> {
                let c = #[trigger] percent_encoded(bytes)[i];
                c == '%' || (c as int <= 0x7e && unreserved(c as u8))
            },
    decreases bytes.len(),
{
    if bytes.len() > 0 {
        let head = percent_encoded(bytes.drop_last());
        let t = percent_encoded(bytes);
        law_url_encode_alphabet(bytes.drop_last());
        assert forall|i: int| 0 <= i < t.len() implies {
            let c = #[trigger] t[i];
            c == '%' || (c as int <= 0x7e && unreserved(c as u8))
        } by {
            if i < head.len() {
                assert(head[i] == t[i]);
            } else if unreserved(bytes.last()) {
                assert(t[i] == bytes.last() as char);
            }
        }
    }
}

/// Texts are encoded byte by byte: letters, digits, `-`, `_`, `.` and `~` stand for themselves, any
/// other byte is a percent sign and two upper-case hexadecimal digits, and the encodings of two
/// texts, one after the other, are the encoding of both.
pub proof fn law_url_encode_bytewise(a: Seq<u8>, b: Seq<u8>, byte: u8)
    ensures
        percent_encoded(a + b) == percent_encoded(a) + percent_encoded(b),
        ({
            let c = byte as char;
            let plain = 'A' <= c <= 'Z' || 'a' <= c <= 'z' || '0' <= c <= '9' || c == '-' || c
                == '_' || c == '.' || c == '~';
            let t = percent_encoded(seq![byte]);
            &&& plain ==> t == seq![c]
            &&& !plain ==> t.len() == 3 && t[0] == '%' && text::all_hex_digits(t.skip(1))
                && text::hex_number_of(t.skip(1)) == byte
        }),
    decreases b.len(),
{
    if b.len() == 0 {
        assert(a + b =~= a);
        assert(percent_encoded(b) =~= seq![]);
    } else {
        assert((a + b).drop_last() =~= a + b.drop_last());
        law_url_encode_bytewise(a, b.drop_last(), byte);
        assert(percent_encoded(a + b) =~= percent_encoded(a) + percent_encoded(b));
    }
    let t = percent_encoded(seq![byte]);
    let front = seq![byte].drop_last();
    assert(front.len() == 0);
    assert(percent_encoded(front) =~= seq![]);
    assert(seq![byte].last() == byte);
    assert(t =~= percent_byte(byte));
    if !unreserved(byte) {
        let d = t.skip(1);
        assert(d[0] == t[1] && d[1] == t[2]);
        assert(d.drop_last().drop_last() =~= seq![]);
        reveal_with_fuel(text::hex_number_of, 3);
    }
}

/// Different texts have different encodings.
pub proof fn law_url_encode_injective(a: Seq<char>, b: Seq<char>)
    requires
        percent_encoded(encode_utf8(a)) == percent_encoded(encode_utf8(b)),
    ensures
        a == b,
{
    law_url_encode_round_trip(encode_utf8(a));
    law_url_encode_round_trip(encode_utf8(b));
    encode_utf8_decode_utf8(a);
    encode_utf8_decode_utf8(b);
}

// ---------------------------------------------------------------------------
// Correlation ids
// ---------------------------------------------------------------------------

/// The id that names a request made `nanos` nanoseconds after the Unix epoch: the nanoseconds in
/// 32 hexadecimal digits, an underscore and the milliseconds in decimal.
pub open spec fn correlation_id(nanos: nat) -> Seq<char> {
    text::last_hex_digits(nanos as int, 32).push('_') + text::decimal(nanos / 1_000_000)
}

/// The correlation id of a request made `nanos` nanoseconds after the Unix epoch.
pub fn generate_correlation_id(nanos: u128) -> (r: String)
    ensures
        r@ == correlation_id(nanos as nat),
{
    let mut out = String::new();
    push_hex(&mut out, nanos, 32);
    out.push('_');
    push_decimal(&mut out, nanos / 1_000_000);
    assert(out@ =~= correlation_id(nanos as nat));
    out
}

/// What is left of `n` without its last `width` hexadecimal digits.
spec fn without_hex_digits(n: int, width: nat) -> int
    decreases width,
{
    if width == 0 {
        n
    } else {
        without_hex_digits(n / 16, (width - 1) as nat)
    }
}

/// Sixteen to the power of `width`.
spec fn power_of_sixteen(width: nat) -> int
    decreases width,
{
    if width == 0 {
        1
    } else {
        16 * power_of_sixteen((width - 1) as nat)
    }
}

/// A number below sixteen to the power of `width` has no more than `width` digits.
proof fn lemma_hex_width(n: int, width: nat)
    requires
        0 <= n < power_of_sixteen(width),
    ensures
        without_hex_digits(n, width) == 0,
    decreases width,
{
    if width > 0 {
        lemma_hex_width(n / 16, (width - 1) as nat);
    }
}

/// A number is known by its digits.
proof fn lemma_hex_digits_injective(a: int, b: int, width: nat)
    requires
        0 <= a,
        0 <= b,
        text::last_hex_digits(a, width) == text::last_hex_digits(b, width),
        without_hex_digits(a, width) == without_hex_digits(b, width),
    ensures
        a == b,
    decreases width,
{
    if width > 0 {
        let x = text::last_hex_digits(a / 16, (width - 1) as nat);
        let y = text::last_hex_digits(b / 16, (width - 1) as nat);
        let p = x.push(text::hex_digit(a % 16));
        let q = y.push(text::hex_digit(b % 16));
        assert(p == q);
        assert(p.last() == q.last());
        assert(p.drop_last() =~= x);
        assert(q.drop_last() =~= y);
        lemma_hex_digits_injective(a / 16, b / 16, (width - 1) as nat);
    }
}

/// Digits are as many as asked for.
proof fn lemma_hex_digits_length(n: int, width: nat)
    ensures
        text::last_hex_digits(n, width).len() == width,
    decreases width,
{
    if width > 0 {
        lemma_hex_digits_length(n / 16, (width - 1) as nat);
    }
}

/// An id is 32 upper-case hexadecimal digits, an underscore and decimal digits; the first give the
/// nanoseconds back and the last the milliseconds.
pub proof fn law_correlation_id(nanos: u128)
    ensures
        ({
            let id = correlation_id(nanos as nat);
            &&& id.len() > 33
            &&& id[32] == '_'
            &&& text::all_hex_digits(id.take(32))
            &&& text::hex_number_of(id.take(32)) == nanos
            &&& text::all_digits(id.skip(33))
            &&& text::number_of(id.skip(33)) == nanos / 1_000_000
            &&& id[33] == '0' ==> id.len() == 34
        }),
{
    let id = correlation_id(nanos as nat);
    let hex = text::last_hex_digits(nanos as int, 32);
    let millis = text::decimal(nanos as nat / 1_000_000);
    lemma_hex_digits_length(nanos as int, 32);
    assert(id.take(32) =~= hex);
    assert(id.skip(33) =~= millis);
    assert(id[33] == millis[0]);
    text::law_decimal(nanos as nat / 1_000_000);
    assert(power_of_sixteen(32) == 0x1_0000_0000_0000_0000_0000_0000_0000_0000) by {
        reveal_with_fuel(power_of_sixteen, 33);
    }
    lemma_hex_read_back(nanos as int, 32);
}

/// Hexadecimal digits give the number back that they were made of, if there are enough of them.
proof fn lemma_hex_read_back(n: int, width: nat)
    requires
        0 <= n < power_of_sixteen(width),
    ensures
        text::all_hex_digits(text::last_hex_digits(n, width)),
        text::hex_number_of(text::last_hex_digits(n, width)) == n,
    decreases width,
{
    if width > 0 {
        let rest = text::last_hex_digits(n / 16, (width - 1) as nat);
        let all = text::last_hex_digits(n, width);
        lemma_hex_read_back(n / 16, (width - 1) as nat);
        assert(all.drop_last() =~= rest);
        assert(all.last() == text::hex_digit(n % 16));
        assert forall|i: int| 0 <= i < all.len() implies '0' <= #[trigger] all[i] <= '9' || 'A'
            <= all[i] <= 'F' by {
            if i < rest.len() {
                assert(all[i] == rest[i]);
            }
        }
    }
}

/// Requests made at different times have different ids.
pub proof fn law_correlation_ids_differ(a: u128, b: u128)
    requires
        correlation_id(a as nat) == correlation_id(b as nat),
    ensures
        a == b,
{
    let x = text::last_hex_digits(a as int, 32);
    let y = text::last_hex_digits(b as int, 32);
    lemma_hex_digits_length(a as int, 32);
    lemma_hex_digits_length(b as int, 32);
    assert(correlation_id(a as nat).take(32) =~= x);
    assert(correlation_id(b as nat).take(32) =~= y);
    assert(power_of_sixteen(32) == 0x1_0000_0000_0000_0000_0000_0000_0000_0000) by {
        reveal_with_fuel(power_of_sixteen, 33);
    }
    lemma_hex_width(a as int, 32);
    lemma_hex_width(b as int, 32);
    lemma_hex_digits_injective(a as int, b as int, 32);
}

// ---------------------------------------------------------------------------
// Base64
// ---------------------------------------------------------------------------

/// The character for a six-bit value in the standard base64 alphabet.
pub open spec fn base64_char(v: int) -> char {
    if v < 26 {
        (65 + v) as char
    } else if v < 52 {
        (71 + v) as char
    } else if v < 62 {
        (v - 4) as char
    } else if v == 62 {
        '+'
    } else {
        '/'
    }
}

/// The byte at `i`, or zero past the end.
pub open spec fn byte_or_zero(bytes: Seq<u8>, i: int) -> int {
    if i < bytes.len() {
        bytes[i] as int
    } else {
        0
    }
}

/// The `i`th group of six bits, counted from the first byte's highest bit.
pub open spec fn sextet(bytes: Seq<u8>, i: int) -> int {
    let g = 3 * (i / 4);
    let a = byte_or_zero(bytes, g);
    let b = byte_or_zero(bytes, g + 1);
    let c = byte_or_zero(bytes, g + 2);
    if i % 4 == 0 {
        a / 4
    } else if i % 4 == 1 {
        (a % 4) * 16 + b / 16
    } else if i % 4 == 2 {
        (b % 16) * 4 + c / 64
    } else {
        c % 64
    }
}

/// The bytes in base64 with the standard alphabet and padding: four characters for every three
/// bytes begun, `=` where no bit of the input is left.
pub open spec fn base64_text(bytes: Seq<u8>) -> Seq<char> {
    Seq::new(
        4 * ((bytes.len() + 2) / 3),
        |i: int|
            if 6 * i < 8 * bytes.len() {
                base64_char(sextet(bytes, i))
            } else {
                '='
            },
    )
}

/// What the decoder says of a text that is not base64.
pub uninterp spec fn base64_complaint(text: Seq<char>) -> Seq<char>;

/// `base64::engine::general_purpose::STANDARD.encode`: the bytes in base64, with padding.
#[verifier::external_body]
pub(crate) fn base64_encode(bytes: &[u8]) -> (r: String)
    ensures
        r@ == base64_text(bytes@),
{
    base64::engine::general_purpose::STANDARD.encode(bytes)
}

/// `base64::engine::general_purpose::STANDARD.decode`: the bytes whose encoding the text is. The
/// engine wants canonical padding and no stray bits, so it takes exactly the texts that it
/// writes; of any other text it says what is wrong.
#[verifier::external_body]
pub(crate) fn base64_decode(text: &str) -> (r: Result<Vec<u8>, String>)
    ensures
        match r {
            Ok(bytes) => text@ == base64_text(bytes@),
            Err(e) => {
                &&& forall|bytes: Seq<u8>| text@ != #[trigger] base64_text(bytes)
                &&& e@ == base64_complaint(text@)
            },
        },
{
    match base64::engine::general_purpose::STANDARD.decode(text) {
        Ok(bytes) => Ok(bytes),
        Err(e) => Err(e.to_string()),
    }
}

/// The bytes whose base64 a text is, if it is any bytes' base64.
pub open spec fn base64_bytes(text: Seq<char>) -> Option<Seq<u8>> {
    if exists|bytes: Seq<u8>| text == #[trigger] base64_text(bytes) {
        Some(choose|bytes: Seq<u8>| text == #[trigger] base64_text(bytes))
    } else {
        None
    }
}

/// A group of six bits is below 64.
proof fn lemma_sextet_range(bytes: Seq<u8>, i: int)
    requires
        0 <= i,
    ensures
        0 <= sextet(bytes, i) < 64,
{
}

/// Different six-bit values have different characters, and none is the padding.
proof fn lemma_base64_char(v: int, w: int)
    requires
        0 <= v < 64,
        0 <= w < 64,
    ensures
        base64_char(v) != '=',
        base64_char(v) == base64_char(w) ==> v == w,
{
}

/// Where two inputs have the same base64, they have the same groups of six bits wherever either
/// has bits.
proof fn lemma_same_sextet(a: Seq<u8>, b: Seq<u8>, i: int)
    requires
        base64_text(a) == base64_text(b),
        0 <= i,
        6 * i < 8 * a.len(),
    ensures
        6 * i < 8 * b.len(),
        sextet(a, i) == sextet(b, i),
{
    lemma_sextet_range(a, i);
    lemma_sextet_range(b, i);
    lemma_base64_char(sextet(a, i), sextet(b, i));
    assert(i < base64_text(a).len());
    assert(base64_text(a).len() == base64_text(b).len());
    assert(base64_text(a)[i] == base64_char(sextet(a, i)));
    if 6 * i < 8 * b.len() {
        assert(base64_text(b)[i] == base64_char(sextet(b, i)));
    } else {
        assert(base64_text(b)[i] == '=');
    }
}

/// Inputs with the same base64 are the same.
pub proof fn law_base64_injective(a: Seq<u8>, b: Seq<u8>)
    requires
        base64_text(a) == base64_text(b),
    ensures
        a == b,
{
    lemma_base64_lengths(a, b);
    lemma_base64_lengths(b, a);
    assert forall|k: int| 0 <= k < a.len() implies a[k] == b[k] by {
        let q = 4 * (k / 3);
        if k % 3 == 0 {
            lemma_same_sextet(a, b, q);
            lemma_same_sextet(a, b, q + 1);
        } else if k % 3 == 1 {
            lemma_same_sextet(a, b, q + 1);
            lemma_same_sextet(a, b, q + 2);
        } else {
            lemma_same_sextet(a, b, q + 2);
            lemma_same_sextet(a, b, q + 3);
        }
    }
    assert(a =~= b);
}

/// Of two inputs with the same base64 neither is longer: the shorter one would have its padding
/// where the longer one has bits.
proof fn lemma_base64_lengths(a: Seq<u8>, b: Seq<u8>)
    requires
        base64_text(a) == base64_text(b),
    ensures
        a.len() <= b.len(),
{
    assert(base64_text(a).len() == 4 * ((a.len() + 2) / 3));
    assert(base64_text(b).len() == 4 * ((b.len() + 2) / 3));
    let n = b.len() as int;
    if n < a.len() {
        assert(n % 3 != 0);
        let i = if n % 3 == 1 {
            4 * (n / 3) + 2
        } else {
            4 * (n / 3) + 3
        };
        lemma_same_sextet(a, b, i);
    }
}

/// Decoding base64 gives the bytes back.
pub proof fn law_base64_round_trip(bytes: Seq<u8>)
    ensures
        base64_bytes(base64_text(bytes)) == Some(bytes),
{
    let t = base64_text(bytes);
    let found = choose|b: Seq<u8>| t == #[trigger] base64_text(b);
    law_base64_injective(found, bytes);
}

/// The bytes whose base64 the text is, or what the decoder says of it.
pub fn decode_base64(text: &str) -> (r: Result<Vec<u8>, String>)
    ensures
        match r {
            Ok(bytes) => base64_bytes(text@) == Some(bytes@),
            Err(e) => base64_bytes(text@) is None && e@ == base64_complaint(text@),
        },
{
    let r = base64_decode(text);
    proof {
        if r is Ok {
            law_base64_round_trip(r->Ok_0@);
        }
    }
    r
}

} // verus!
