//! Users, login and the claims carried by access tokens.
use vstd::prelude::*;

use crate::error::{AppError, ErrorView};
use crate::text::{chars_of, push_str, starts_with_at, string_from_range};

verus! {

/// Database row for the users table.
#[derive(Debug, Clone)]
pub struct User {
    pub id: i64,
    pub username: String,
    /// The bcrypt hash of the password.
    pub password: String,
}

/// JWT claims.
#[derive(Debug, Clone)]
pub struct Claims {
    pub sub: i64,
    pub username: String,
    pub exp: usize,
    pub iat: usize,
}

#[derive(Debug, Clone)]
pub struct LoginRequest {
    pub username: String,
    pub password: String,
}

#[derive(Debug, Clone)]
pub struct LoginResponse {
    pub token: String,
}

/// How long a token is valid, in seconds.
pub const TOKEN_LIFETIME_SECS: i64 = 86400;

/// The claims of a token issued to `user` at time `now` (seconds since the
/// epoch): issued now, expiring a day later.
pub fn claims_for(user: &User, now: i64) -> (c: Claims)
    requires
        now <= i64::MAX - TOKEN_LIFETIME_SECS,
    ensures
        c.sub == user.id,
        c.username@ == user.username@,
        c.exp == (now + TOKEN_LIFETIME_SECS) as usize,
        c.iat == now as usize,
{
    Claims {
        sub: user.id,
        username: user.username.clone(),
        exp: (now + TOKEN_LIFETIME_SECS) as usize,
        iat: now as usize,
    }
}

/// The token of an `Authorization` header of the form `Bearer <token>`.
pub open spec fn bearer(header: Option<Seq<char>>) -> Option<Seq<char>> {
    match header {
        Some(h) => if h.len() >= 7 && h.take(7) == "Bearer "@ {
            Some(h.skip(7))
        } else {
            None
        },
        None => None,
    }
}

/// The token of the `Authorization` header; `Unauthorized` when there is no
/// header or it does not start with `Bearer `.
pub fn bearer_token(header: Option<&str>) -> (r: Result<String, AppError>)
    ensures
        match r {
            Ok(t) => bearer(
                match header {
                    Some(h) => Some(h@),
                    None => None,
                },
            ) == Some(t@),
            Err(e) => e@ == ErrorView::Unauthorized && bearer(
                match header {
                    Some(h) => Some(h@),
                    None => None,
                },
            ) is None,
        },
{
    let h = match header {
        Some(h) => h,
        None => {
            return Err(AppError::Unauthorized);
        },
    };
    let v = chars_of(h);
    let p = chars_of("Bearer ");
    proof {
        reveal_strlit("Bearer ");
    }
    if v.len() >= 7 && starts_with_at(&v, 0, v.len(), &p) {
        assert(v@.subrange(0, 7) =~= v@.take(7));
        let t = string_from_range(&v, 7, v.len());
        assert(v@.subrange(7, v@.len() as int) =~= v@.skip(7));
        Ok(t)
    } else {
        proof {
            if v.len() >= 7 && v@.take(7) == "Bearer "@ {
                assert(v@.subrange(0, 7) =~= v@.take(7));
            }
        }
        Err(AppError::Unauthorized)
    }
}

/// What `bcrypt::verify` answers for a password and a stored hash: whether
/// they match, or the text of its error.
pub uninterp spec fn bcrypt_outcome(password: Seq<char>, hash: Seq<char>) -> Result<
    bool,
    Seq<char>,
>;

pub open spec fn outcome_view(r: Result<bool, String>) -> Result<bool, Seq<char>> {
    match r {
        Ok(b) => Ok(b),
        Err(m) => Err(m@),
    }
}

/// Checks a password against a bcrypt hash with `bcrypt::verify`.
///
/// Trusted: the outcome (a match, no match, or the error's message) is a
/// function of the password and the hash, named `bcrypt_outcome`; which
/// passwords match which hashes is not stated.
#[verifier::external_body]
fn bcrypt_verify(password: &str, hash: &str) -> (r: Result<bool, String>)
    ensures
        outcome_view(r) == bcrypt_outcome(password@, hash@),
{
    match bcrypt::verify(password, hash) {
        Ok(b) => Ok(b),
        Err(e) => Err(format!("{e}")),
    }
}

/// The answer to a login attempt of a known user, given what the password
/// check gave.
pub open spec fn login_result(check: Result<bool, Seq<char>>) -> Result<(), ErrorView> {
    match check {
        Err(m) => Err(ErrorView::Internal("bcrypt: "@ + m)),
        Ok(false) => Err(ErrorView::Unauthorized),
        Ok(true) => Ok(()),
    }
}

/// Decides a login attempt of `user` from the outcome of the password
/// check: the user when the password matched, `Unauthorized` when it did
/// not, an internal error when the check failed.
pub fn login_outcome(user: User, check: Result<bool, String>) -> (r: Result<User, AppError>)
    ensures
        match r {
            Ok(u) => u == user && login_result(outcome_view(check)) == Ok::<(), ErrorView>(()),
            Err(e) => login_result(outcome_view(check)) == Err::<(), ErrorView>(e@),
        },
{
    match check {
        Err(m) => {
            let mut msg = String::from_str("bcrypt: ");
            push_str(&mut msg, m.as_str());
            Err(AppError::Internal(msg))
        },
        Ok(false) => Err(AppError::Unauthorized),
        Ok(true) => Ok(user),
    }
}

/// Authenticates a login: `row` is the user found under the given name.
/// Unknown users and wrong passwords are `Unauthorized`.
pub fn authenticate(row: Option<User>, password: &str) -> (r: Result<User, AppError>)
    ensures
        match row {
            None => r matches Err(e) && e@ == ErrorView::Unauthorized,
            Some(user) => match r {
                Ok(u) => u == user && login_result(bcrypt_outcome(password@, user.password@))
                    == Ok::<(), ErrorView>(()),
                Err(e) => login_result(bcrypt_outcome(password@, user.password@)) == Err::<
                    (),
                    ErrorView,
                >(e@),
            },
        },
{
    match row {
        None => Err(AppError::Unauthorized),
        Some(user) => {
            let check = bcrypt_verify(password, user.password.as_str());
            login_outcome(user, check)
        },
    }
}

} // verus!
