//! The login: the one endpoint that asks for no token, and the only place
//! where tokens are issued.

use vstd::prelude::*;
use crate::models::user::{User, UserProfile};
use crate::password::{password_digest, verify_password};
use crate::token::{
    claims_of, expiry_of, generate_token, generate_token_at, issued_by_clock, secret_bytes,
    signed_claims, signed_token, TokenError,
};

verus! {

/// The path of the login endpoint, the one path that needs no token.
pub const LOGIN_PATH: &'static str = "/auth/login";

/// The status of a login with a wrong user name or password.
pub const LOGIN_REJECTED: u16 = 401;

/// The status of a login for which no token could be issued.
pub const LOGIN_UNAVAILABLE: u16 = 500;

/// What a client sends to log in.
#[derive(Debug)]
pub struct LoginRequest {
    pub username: String,
    pub password: String,
}

/// What a client gets for a login that succeeded: its token, and the
/// account without the password digest.
#[derive(Debug)]
pub struct LoginResponse {
    pub token: String,
    pub user: UserProfile,
}

/// Why a login failed. An unknown user name and a wrong password are one
/// and the same failure: the client is not told which it was.
#[derive(Debug, Clone, Copy, PartialEq, Eq)]
pub enum LoginFailure {
    /// No such account, or not its password.
    BadCredentials,
    /// The credentials are right, but no token could be issued.
    TokenUnavailable(TokenError),
}

impl LoginFailure {
    /// The status that the client gets.
    pub fn status(&self) -> (code: u16)
        ensures
            code == match self {
                LoginFailure::BadCredentials => LOGIN_REJECTED,
                LoginFailure::TokenUnavailable(_) => LOGIN_UNAVAILABLE,
            },
    {
        match self {
            LoginFailure::BadCredentials => LOGIN_REJECTED,
            LoginFailure::TokenUnavailable(_) => LOGIN_UNAVAILABLE,
        }
    }

    /// The message that the client gets.
    pub open spec fn message_text(self) -> Seq<char> {
        match self {
            LoginFailure::BadCredentials => "用户名或密码错误"@,
            LoginFailure::TokenUnavailable(_) => "服务器内部错误"@,
        }
    }

    /// The message that the client gets.
    pub fn message(&self) -> (text: String)
        ensures
            text@ == self.message_text(),
    {
        let text = match self {
            LoginFailure::BadCredentials => "用户名或密码错误",
            LoginFailure::TokenUnavailable(_) => "服务器内部错误",
        };
        text.to_owned()
    }
}

/// The account exists and `password` is its password.
pub open spec fn credentials_match(account: Option<User>, password: Seq<char>) -> bool {
    match account {
        Some(user) => password_digest(password) == user.password@,
        None => false,
    }
}

/// Checks the credentials of a login against the account that the store
/// holds under the submitted user name, if it holds one.
pub fn check_credentials(account: Option<User>, password: &str) -> (r: Result<User, LoginFailure>)
    ensures
        match r {
            Ok(user) => credentials_match(account, password@) && account == Some(user),
            Err(failure) => !credentials_match(account, password@) && failure
                == LoginFailure::BadCredentials,
        },
{
    match account {
        Some(user) => if verify_password(password, user.password.as_str()) {
            Ok(user)
        } else {
            Err(LoginFailure::BadCredentials)
        },
        None => Err(LoginFailure::BadCredentials),
    }
}

/// Answers a login from what issuing a token for the account gave.
pub fn login_response(user: User, issued: Result<String, TokenError>) -> (r: Result<
    LoginResponse,
    LoginFailure,
>)
    ensures
        match (issued, r) {
            (Ok(token), Ok(response)) => response.token@ == token@ && response.user@
                == user.profile_view(),
            (Err(e), Err(failure)) => failure == LoginFailure::TokenUnavailable(e),
            _ => false,
        },
{
    match issued {
        Ok(token) => Ok(LoginResponse { token, user: user.into_profile() }),
        Err(e) => Err(LoginFailure::TokenUnavailable(e)),
    }
}

/// A login at the time `now`, with the token signed with `secret`.
pub fn login_at(account: Option<User>, password: &str, secret: &[u8], now: u64) -> (r: Result<
    LoginResponse,
    LoginFailure,
>)
    requires
        expiry_of(now) <= u64::MAX,
    ensures
        !credentials_match(account, password@) ==> r == Err::<LoginResponse, LoginFailure>(
            LoginFailure::BadCredentials,
        ),
        credentials_match(account, password@) ==> match r {
            Ok(response) => {
                &&& response.user@ == account->0.profile_view()
                &&& signed_token(account->0.id, claims_of(account->0.id, now).exp, secret@)
                    == Some(response.token@)
                &&& signed_claims(response.token@, secret@) == Some(claims_of(account->0.id, now))
            },
            Err(failure) => {
                &&& failure == LoginFailure::TokenUnavailable(TokenError::Signing)
                &&& signed_token(account->0.id, claims_of(account->0.id, now).exp, secret@) is None
            },
        },
{
    match check_credentials(account, password) {
        Ok(user) => {
            let issued = generate_token_at(user.id, secret, now);
            login_response(user, issued)
        },
        Err(failure) => Err(failure),
    }
}

/// A login: `account` is what the store holds under the submitted user
/// name, `password` the submitted password. With the right password the
/// client gets a token for the account and the account's profile; with a
/// wrong one, or for an account that does not exist, it is turned away.
pub fn login(account: Option<User>, password: &str) -> (r: Result<LoginResponse, LoginFailure>)
    ensures
        !credentials_match(account, password@) ==> r == Err::<LoginResponse, LoginFailure>(
            LoginFailure::BadCredentials,
        ),
        credentials_match(account, password@) ==> match r {
            Ok(response) => response.user@ == account->0.profile_view() && exists|now: u64|
                expiry_of(now) <= u64::MAX && signed_claims(response.token@, secret_bytes())
                    == Some(#[trigger] claims_of(account->0.id, now)),
            Err(failure) => failure is TokenUnavailable,
        },
{
    match check_credentials(account, password) {
        Ok(user) => {
            let issued = generate_token(user.id);
            proof {
                if issued is Ok {
                    let clock = choose|clock: Option<u64>| #[trigger]
                        issued_by_clock(issued, user.id, secret_bytes(), clock);
                    assert(signed_claims(issued->Ok_0@, secret_bytes()) == Some(
                        claims_of(user.id, clock->0),
                    ));
                }
            }
            login_response(user, issued)
        },
        Err(failure) => Err(failure),
    }
}

} // verus!
