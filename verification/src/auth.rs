//! The authorization gate for privileged day-closure receipts, and the
//! decision rules of the login flow.
//!
//! Credential storage itself is an external collaborator: a lookup
//! answers whether at least one administrative credential matches a
//! supplied password, and the functions here decide from that answer.

use vstd::prelude::*;

verus! {

/// Why a privileged operation was refused.
#[derive(Clone, Copy, PartialEq, Eq, Structural, Debug)]
pub enum AuthError {
    /// Day closure was requested without session privilege and without
    /// a password.
    MissingCredential,
    /// The supplied password matches no administrative credential.
    InvalidCredential,
}

/// The authorization decision. A non-privileged request always passes; a
/// day-closure request passes on session privilege alone, otherwise it
/// needs a supplied password that the credential store confirms as
/// administrative.
pub open spec fn spec_authorize(
    is_day_closure: bool,
    session_privilege: bool,
    password_supplied: bool,
    password_is_admin: bool,
) -> Result<(), AuthError> {
    if !is_day_closure {
        Ok(())
    } else if session_privilege {
        Ok(())
    } else if !password_supplied {
        Err(AuthError::MissingCredential)
    } else if password_is_admin {
        Ok(())
    } else {
        Err(AuthError::InvalidCredential)
    }
}

/// Decides whether a request may proceed. `password_is_admin` is the
/// credential store's answer for the supplied password (ignored when
/// no password is supplied); the check itself is read-only and this
/// decision has no side effects.
pub fn authorize(
    is_day_closure: bool,
    session_privilege: bool,
    password: Option<&String>,
    password_is_admin: bool,
) -> (r: Result<(), AuthError>)
    ensures
        r == spec_authorize(is_day_closure, session_privilege, password is Some, password_is_admin),
{
    if !is_day_closure {
        Ok(())
    } else if session_privilege {
        Ok(())
    } else {
        match password {
            Option::None => Err(AuthError::MissingCredential),
            Option::Some(_) => if password_is_admin {
                Ok(())
            } else {
                Err(AuthError::InvalidCredential)
            },
        }
    }
}

/// Turns the credential store's match count into the password check's
/// answer: the password is administrative iff at least one
/// administrative record carries it.
pub fn admin_count_grants(count: i64) -> (r: bool)
    ensures
        r == (count > 0),
{
    count > 0
}

/// Outcome of a login attempt.
#[derive(Clone, Copy, PartialEq, Eq, Structural, Debug)]
pub enum LoginOutcome {
    /// No credential record carries the given user name.
    UserNotFound,
    /// The record exists but the password does not match.
    WrongPassword,
    /// The password matches; `is_admin` mirrors the record's flag.
    Accepted { is_admin: bool },
}

/// Decides a login attempt from the credential record the store
/// returned (`None` when the user name is unknown): the password must
/// equal the stored one, and the administrative flag holds exactly
/// when the record's flag is `1`.
pub fn evaluate_login(found: Option<(String, i64)>, supplied: &String) -> (r: LoginOutcome)
    ensures
        match found {
            Option::None => r == LoginOutcome::UserNotFound,
            Option::Some(record) => if supplied@ == record.0@ {
                r == (LoginOutcome::Accepted { is_admin: record.1 == 1 })
            } else {
                r == LoginOutcome::WrongPassword
            },
        },
{
    match found {
        Option::None => LoginOutcome::UserNotFound,
        Option::Some((stored, admin_flag)) => {
            if *supplied == stored {
                LoginOutcome::Accepted { is_admin: admin_flag == 1 }
            } else {
                LoginOutcome::WrongPassword
            }
        },
    }
}

} // verus!
