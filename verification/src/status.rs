//! HTTP status codes.

use vstd::prelude::*;

use crate::text::decimal;

verus! {

/// The codes that HTTP has room for.
pub open spec fn is_status(code: u16) -> bool {
    100 <= code < 1000
}

pub open spec fn is_success(code: u16) -> bool {
    200 <= code < 300
}

/// A server error, a request timeout or too many requests: worth another try.
pub open spec fn is_retryable(code: u16) -> bool {
    500 <= code < 600 || code == 408 || code == 429
}

pub fn is_success_status(code: u16) -> (r: bool)
    ensures
        r == is_success(code),
        r <==> 200 <= code <= 299,
{
    200 <= code && code < 300
}

pub fn is_retryable_status(code: u16) -> (r: bool)
    ensures
        r == is_retryable(code),
        r <==> 500 <= code <= 599 || code == 408 || code == 429,
{
    (500 <= code && code < 600) || code == 408 || code == 429
}

/// What the `Display` of `reqwest::StatusCode` prints for a code.
pub uninterp spec fn status_display(code: u16) -> Seq<char>;

/// The text is the code in decimal, a space, and more.
pub open spec fn shows_code(text: Seq<char>, code: u16) -> bool {
    let shown = decimal(code as nat).push(' ');
    text.len() > shown.len() && text.take(shown.len() as int) == shown
}

/// The `Display` of `reqwest::StatusCode`: the code in decimal, a space, and a
/// reason phrase, whose wording is not stated. `StatusCode::from_u16` takes
/// every code from 100 to 999.
#[verifier::external_body]
pub(crate) fn status_text(code: u16) -> (text: String)
    requires
        is_status(code),
    ensures
        text@ == status_display(code),
        shows_code(text@, code),
{
    reqwest::StatusCode::from_u16(code).unwrap().to_string()
}

/// Which codes are what, by number: 2xx is a success, 5xx and two of the 4xx
/// are worth another try, and no code is both.
pub proof fn lemma_codes_by_number(code: u16)
    ensures
        is_status(code) <==> 100 <= code <= 999,
        is_success(code) <==> 200 <= code <= 299,
        is_retryable(code) <==> 500 <= code <= 599 || code == 408 || code == 429,
        !(is_success(code) && is_retryable(code)),
{
}

} // verus!
