//! The static dictionary of phrases the service answers with, and the
//! numbered internal error codes reported to operators.

use vstd::prelude::*;
use vstd::string::*;

use crate::digits::{dec_chars, write_u8_decimal};

verus! {

/// Every phrase the service sends back, grouped by subject.
pub struct Dictionary<'lf> {
    pub error: Error<'lf>,
}

/// The error phrases.
pub struct Error<'lf> {
    pub in_use: InUse<'lf>,
    pub password: Password<'lf>,
    pub invalid: Invalid<'lf>,
    pub login: &'lf str,
    pub unauthorized: &'lf str,
}

/// Phrases for password-length complaints.
pub struct Password<'lf> {
    pub len_min: &'lf str,
    pub len_max: &'lf str,
}

/// Phrases for fields that are already taken.
pub struct InUse<'lf> {
    pub email: &'lf str,
    pub username: &'lf str,
}

/// Phrases for fields that fail their grammar.
pub struct Invalid<'lf> {
    pub email: &'lf str,
    pub username: &'lf str,
}

/// The one dictionary of the service, fixed at startup and read-only.
pub fn dictionary() -> (d: Dictionary<'static>)
    ensures
        d.error.in_use.email@ == "Email is already in use"@,
        d.error.in_use.username@ == "Username is already in use"@,
        d.error.password.len_min@ == "Password must be atleast {} characters long"@,
        d.error.password.len_max@ == "Password must be less than {} characters long"@,
        d.error.invalid.email@ == "Email is invalid"@,
        d.error.invalid.username@ == "Username is invalid"@,
        d.error.login@ == "Email or password is incorrect."@,
        d.error.unauthorized@ == "Unauthorized."@,
{
    Dictionary {
        error: Error {
            in_use: InUse {
                email: "Email is already in use",
                username: "Username is already in use",
            },
            password: Password {
                len_min: "Password must be atleast {} characters long",
                len_max: "Password must be less than {} characters long",
            },
            invalid: Invalid { email: "Email is invalid", username: "Username is invalid" },
            login: "Email or password is incorrect.",
            unauthorized: "Unauthorized.",
        },
    }
}

/// The operator phrase behind a numbered internal error.
pub open spec fn error_phrase(code: u8) -> Seq<char> {
    if code == 102 {
        "Internal error"@
    } else if code == 103 {
        "Docker -> mongo bridge failed."@
    } else {
        Seq::<char>::empty()
    }
}

/// What [`get_error_code`] renders: the code number and its phrase.
pub open spec fn spec_error_code(code: u8) -> Seq<char> {
    "Errno."@ + dec_chars(code as nat) + " - "@ + error_phrase(code)
}

/// Renders a numbered internal error for an operator: the code and its
/// phrase, or an empty phrase for a number that has none.
pub fn get_error_code(code: u8) -> (r: String)
    ensures
        r@ == spec_error_code(code),
{
    let mut out: String = "Errno.".to_owned();
    write_u8_decimal(&mut out, code);
    out.append(" - ");
    if code == 102 {
        out.append("Internal error");
    } else if code == 103 {
        out.append("Docker -> mongo bridge failed.");
    }
    proof {
        assert(out@ =~= spec_error_code(code));
    }
    out
}

} // verus!
