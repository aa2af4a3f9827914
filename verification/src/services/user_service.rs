//! Who may register and who may log in.

use vstd::prelude::*;
use vstd::utf8::encode_utf8;

use crate::error::{AppError, ErrorView, bad_request};

verus! {

/// Why a registration is refused before anyone is looked up. Lengths are in bytes.
pub open spec fn registration_refusal(username: Seq<char>, password: Seq<char>) -> Option<
    ErrorView,
> {
    if encode_utf8(username).len() < 3 || encode_utf8(username).len() > 64 {
        Some(ErrorView::BadRequest("Username must be 3-64 characters"@))
    } else if encode_utf8(password).len() < 8 {
        Some(ErrorView::BadRequest("Password must be at least 8 characters"@))
    } else {
        None
    }
}

/// The view of a result without a value.
pub open spec fn refusal(r: Result<(), AppError>) -> Option<ErrorView> {
    match r {
        Ok(_) => None,
        Err(e) => Some(e@),
    }
}

/// Whether a name and a password can be registered.
pub fn check_registration(username: &str, raw_password: &str) -> (r: Result<(), AppError>)
    ensures
        refusal(r) == registration_refusal(username@, raw_password@),
{
    let name_len: usize = username.as_bytes().len();
    if name_len < 3 || name_len > 64 {
        return Err(bad_request("Username must be 3-64 characters"));
    }
    let password_len: usize = raw_password.as_bytes().len();
    if password_len < 8 {
        return Err(bad_request("Password must be at least 8 characters"));
    }
    Ok(())
}

/// A name or an address that someone has cannot be registered again.
pub fn check_unclaimed(is_claimed: bool) -> (r: Result<(), AppError>)
    ensures
        refusal(r) == (if is_claimed {
            Some(ErrorView::BadRequest("Username or email already exists"@))
        } else {
            None
        }),
{
    if is_claimed {
        Err(bad_request("Username or email already exists"))
    } else {
        Ok(())
    }
}

/// Whether a password is looked at: there is such a user, and the account is not locked.
/// Both times are counted in the same unit.
pub fn check_account(is_known: bool, locked_until: Option<i64>, now: i64) -> (r: Result<
    (),
    AppError,
>)
    ensures
        refusal(r) == (if !is_known {
            Some(ErrorView::BadRequest("Invalid credentials"@))
        } else if locked_until matches Some(t) && t > now {
            Some(ErrorView::BadRequest("Account is temporarily locked. Try again later."@))
        } else {
            None
        }),
{
    if !is_known {
        return Err(bad_request("Invalid credentials"));
    }
    if let Some(t) = locked_until {
        if t > now {
            return Err(bad_request("Account is temporarily locked. Try again later."));
        }
    }
    Ok(())
}

/// What follows the check of a password.
#[derive(Clone, Copy, Debug, PartialEq, Eq, Structural)]
pub enum LoginWrite {
    /// One more failure; ten of them lock the account for a while.
    CountFailure,
    /// The failures are forgotten.
    ForgetFailures,
}

/// What a login writes after the check of the password.
pub fn login_write(is_valid: bool) -> (r: LoginWrite)
    ensures
        r == (if is_valid {
            LoginWrite::ForgetFailures
        } else {
            LoginWrite::CountFailure
        }),
{
    if is_valid {
        LoginWrite::ForgetFailures
    } else {
        LoginWrite::CountFailure
    }
}

/// What a login answers after that: an unknown user and a wrong password are told alike.
pub fn login_result(written: LoginWrite) -> (r: Result<(), AppError>)
    ensures
        refusal(r) == (match written {
            LoginWrite::ForgetFailures => None,
            LoginWrite::CountFailure => Some(ErrorView::BadRequest("Invalid credentials"@)),
        }),
{
    match written {
        LoginWrite::ForgetFailures => Ok(()),
        LoginWrite::CountFailure => Err(bad_request("Invalid credentials")),
    }
}

} // verus!
