//! HTTP status codes and what they read.

use crate::text;
use vstd::prelude::*;

verus! {

/// The numbers that are HTTP status codes.
pub open spec fn is_status(code: u16) -> bool {
    100 <= code < 1000
}

/// The standard reason phrase of a status code, as
/// `reqwest::StatusCode::canonical_reason` has it.
pub uninterp spec fn reason_of(code: u16) -> Option<Seq<char>>;

/// The standard reason phrase of a status code
/// (`reqwest::StatusCode::canonical_reason`): the one named.
#[verifier::external_body]
fn canonical_reason(code: u16) -> (r: Option<&'static str>)
    requires
        is_status(code),
    ensures
        match r {
            Some(reason) => reason_of(code) == Some(reason@),
            None => reason_of(code) is None,
        },
{
    reqwest::StatusCode::from_u16(code).ok().and_then(|status| status.canonical_reason())
}

/// The reason phrase of a status, or `otherwise` where it has none.
pub open spec fn reason_or(code: u16, otherwise: Seq<char>) -> Seq<char> {
    match reason_of(code) {
        Some(reason) => reason,
        None => otherwise,
    }
}

/// A status with its reason: "404 Not Found".
pub open spec fn status_line(code: u16) -> Seq<char> {
    text::decimal(code as nat) + " "@ + reason_or(code, "<unknown status code>"@)
}

/// The reason phrase of a status, or `otherwise` where it has none.
pub fn reason_text(code: u16, otherwise: &str) -> (r: String)
    requires
        is_status(code),
    ensures
        r@ == reason_or(code, otherwise@),
{
    match canonical_reason(code) {
        Some(reason) => reason.to_owned(),
        None => otherwise.to_owned(),
    }
}

/// A status with its reason.
pub fn status_text(code: u16) -> (r: String)
    requires
        is_status(code),
    ensures
        r@ == status_line(code),
{
    let mut r = text::decimal_text(code as u64);
    r.append(" ");
    r.append(&reason_text(code, "<unknown status code>"));
    r
}

/// The statuses that a request is answered with success by.
pub open spec fn is_success(code: u16) -> bool {
    200 <= code < 300
}

/// The codes that the client takes as success are the twenty hundreds, and
/// a status reads as its number, a space and its reason.
pub proof fn statuses_read_as_number_and_reason(code: u16, reason: Seq<char>)
    ensures
        is_success(code) <==> code as nat / 100 == 2,
        is_status(code) <==> 1 <= code as nat / 100 <= 9,
        reason_of(code) == Some(reason) ==> status_line(code) == text::decimal(code as nat).push(
            ' ',
        ) + reason && reason_or(code, Seq::empty()) == reason,
        reason_of(code) is None ==> reason_or(code, reason) == reason && status_line(code)
            == text::decimal(code as nat).push(' ') + "<unknown status code>"@,
{
    reveal_strlit(" ");
    assert(" "@ =~= seq![' ']);
    if reason_of(code) == Some(reason) {
        assert(status_line(code) =~= text::decimal(code as nat).push(' ') + reason);
    } else if reason_of(code) is None {
        assert(status_line(code) =~= text::decimal(code as nat).push(' ')
            + "<unknown status code>"@);
    }
}

} // verus!
