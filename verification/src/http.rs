//! Requests and replies.
use vstd::prelude::*;

use crate::text;

verus! {

/// A header.
pub struct Header {
    pub name: String,
    pub value: String,
}

/// A request to be sent.
pub struct HttpRequest {
    pub url: String,
    pub headers: Vec<Header>,
}

/// A name and a value.
pub type Pair = (Seq<char>, Seq<char>);

/// Headers as names and values.
pub open spec fn pairs(headers: Seq<Header>) -> Seq<Pair> {
    headers.map_values(|h: Header| (h.name@, h.value@))
}

/// What a reply to a login request says: its status, the address that it came from and that
/// address's path, and the values of its `WWW-Authenticate` headers.
#[derive(Debug)]
pub struct HttpReply {
    pub status: u16,
    pub url: String,
    pub path: String,
    pub challenges: Vec<Vec<u8>>,
}

impl HttpReply {
    /// Whether the status is one that HTTP knows.
    pub open spec fn valid(&self) -> bool {
        valid_status(self.status)
    }
}

/// The statuses that HTTP knows: three digits.
pub open spec fn valid_status(status: u16) -> bool {
    100 <= status <= 999
}

/// Adds a header.
pub(crate) fn push_header(out: &mut Vec<Header>, name: &str, value: &str)
    ensures
        pairs(final(out)@) == pairs(old(out)@).push((name@, value@)),
{
    out.push(Header { name: name.to_string(), value: value.to_string() });
    assert(pairs(out@) =~= pairs(old(out)@).push((name@, value@)));
}

/// The reason that goes with a status.
pub uninterp spec fn status_reason(status: u16) -> Seq<char>;

/// How a status is written: its number and the reason that goes with it.
pub open spec fn status_line(status: u16) -> Seq<char> {
    if status == 401 {
        "401 Unauthorized"@
    } else if status == 403 {
        "403 Forbidden"@
    } else {
        text::decimal(status as nat) + " "@ + status_reason(status)
    }
}

/// How `reqwest::StatusCode` is displayed: the number and the canonical reason, which depends on
/// the status alone. The reasons that the library itself makes a difference for are written out.
#[verifier::external_body]
pub(crate) fn status_text(status: u16) -> (r: String)
    requires
        valid_status(status),
    ensures
        status == 401 ==> r@ == "401 Unauthorized"@,
        status == 403 ==> r@ == "403 Forbidden"@,
        status != 401 && status != 403 ==> r@ == text::decimal(status as nat) + " "@
            + status_reason(status),
{
    reqwest::StatusCode::from_u16(status).unwrap().to_string()
}

/// Whether the server turned the request down for want of credentials.
pub open spec fn refused(status: u16) -> bool {
    status == 401 || status == 403
}

// ---------------------------------------------------------------------------
// Laws
// ---------------------------------------------------------------------------

/// Every header is seen, in its place, with its whole name and its whole value.
pub proof fn law_pairs(headers: Seq<Header>)
    ensures
        pairs(headers).len() == headers.len(),
        forall|i: int|
            0 <= i < headers.len() ==> #[trigger] pairs(headers)[i] == (
                headers[i].name@,
                headers[i].value@,
            ),
{
}

/// Want of credentials has two statuses. Every number of three digits is a status.
pub proof fn law_statuses(status: u16)
    ensures
        refused(status) <==> status == 401 || status == 403,
        valid_status(status) <==> 100 <= status < 1000,
{
}

} // verus!
