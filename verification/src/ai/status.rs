//! HTTP statuses.
use vstd::prelude::*;

verus! {

/// The status of an HTTP reply, a number of three digits.
#[derive(Clone, Copy, Debug)]
pub struct HttpStatus {
    code: u16,
}

/// How `http::StatusCode` writes a status: the number, and the phrase that goes with it.
pub uninterp spec fn status_text(code: u16) -> Seq<char>;

/// `reqwest::StatusCode::from_u16` and the `Display` form of what it gives, which depend on the
/// number alone. Numbers below 100 and above 999 are no statuses there.
#[verifier::external_body]
fn display_status(code: u16) -> (r: String)
    requires
        100 <= code <= 999,
    ensures
        r@ == status_text(code),
{
    reqwest::StatusCode::from_u16(code).unwrap_or_default().to_string()
}

impl HttpStatus {
    #[verifier::type_invariant]
    spec fn in_range(self) -> bool {
        100 <= self.code <= 999
    }

    /// The number.
    pub closed spec fn spec_code(self) -> u16 {
        self.code
    }

    /// The status with a number; nothing for a number that has not three digits.
    pub fn from_u16(code: u16) -> (r: Option<HttpStatus>)
        ensures
            r is Some <==> 100 <= code <= 999,
            r matches Some(status) ==> status.spec_code() == code,
    {
        if 100 <= code && code <= 999 {
            Some(HttpStatus { code })
        } else {
            None
        }
    }

    /// The number.
    pub fn code(&self) -> (r: u16)
        ensures
            r == self.spec_code(),
    {
        self.code
    }

    /// Whether the request succeeded.
    pub fn is_success(&self) -> (r: bool)
        ensures
            r == (200 <= self.spec_code() <= 299),
    {
        200 <= self.code && self.code <= 299
    }

    /// The number and its phrase.
    pub fn text(&self) -> (r: String)
        ensures
            r@ == status_text(self.spec_code()),
    {
        proof {
            use_type_invariant(self);
        }
        display_status(self.code)
    }
}

} // verus!
