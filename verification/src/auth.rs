//! The authentication gate, passed by every request to a protected route.
//!
//! Authentication decides twice, with one look at the account store in
//! between.
//! [`auth_middleware`] reads the request and says what is to happen: let
//! it through, turn it away, or look the account up. For a looked-up
//! account [`account_resolved`] decides by what the store answered, and
//! puts the identity into the request's context. A token that verifies for
//! an account that is gone is turned away like any other.

use vstd::prelude::*;
use vstd::string::StrSliceExecFns;
use crate::context::{ContextView, RequestContext};
use crate::login::LOGIN_PATH;
use crate::text::{chars_of, has_prefix, opt_str, same_text};
use crate::token::{accepted_subject, secret_bytes, signed_claims, verify_token, verify_token_at};

verus! {

/// What the `Authorization` header begins with.
pub const BEARER: &'static str = "Bearer ";

/// The status of every rejection.
pub const UNAUTHORIZED: u16 = 401;

/// Why a request was turned away. Neither the status nor the message tells
/// an expired token from a forged one.
#[derive(Debug, Clone, Copy, PartialEq, Eq)]
pub enum AuthFailure {
    /// The request has no `Authorization` header.
    MissingHeader,
    /// The header does not begin with `Bearer `.
    MalformedScheme,
    /// The token names nobody.
    InvalidToken,
    /// The token names an account that the store does not hold.
    AccountMissing,
}

/// What the request brings to identify itself.
#[derive(Debug)]
pub enum Credentials {
    /// A login, which needs none.
    Exempt,
    /// No `Authorization` header.
    Missing,
    /// A header of another scheme.
    Malformed,
    /// A bearer token.
    Bearer(String),
}

/// Mathematical model of [`Credentials`].
pub enum CredentialsView {
    Exempt,
    Missing,
    Malformed,
    Bearer(Seq<char>),
}

impl View for Credentials {
    type V = CredentialsView;

    open spec fn view(&self) -> CredentialsView {
        match self {
            Credentials::Exempt => CredentialsView::Exempt,
            Credentials::Missing => CredentialsView::Missing,
            Credentials::Malformed => CredentialsView::Malformed,
            Credentials::Bearer(token) => CredentialsView::Bearer(token@),
        }
    }
}

/// What is to happen to the request.
#[derive(Debug, Clone, Copy, PartialEq, Eq)]
pub enum GateStep {
    /// Let it through as it is.
    Exempt,
    /// Turn it away with [`UNAUTHORIZED`].
    Reject(AuthFailure),
    /// Look this account up, then call [`account_resolved`].
    Lookup(i64),
}

/// What a request to `path` with the `Authorization` header `header` brings
/// to identify itself. The login is recognised first, whatever else the
/// request holds.
pub open spec fn credentials_of(path: Seq<char>, header: Option<Seq<char>>) -> CredentialsView {
    if path == LOGIN_PATH@ {
        CredentialsView::Exempt
    } else {
        match header {
            None => CredentialsView::Missing,
            Some(h) => if BEARER@.is_prefix_of(h) {
                CredentialsView::Bearer(h.skip(BEARER@.len() as int))
            } else {
                CredentialsView::Malformed
            },
        }
    }
}

/// What is to happen to a request whose token names `subject`.
pub open spec fn token_step(subject: Option<i64>) -> GateStep {
    match subject {
        Some(user_id) => GateStep::Lookup(user_id),
        None => GateStep::Reject(AuthFailure::InvalidToken),
    }
}

/// What is to happen to a request that brings `credentials`, where
/// `subject` is who its token names, if it brings one.
pub open spec fn gate_step(credentials: CredentialsView, subject: Option<i64>) -> GateStep {
    match credentials {
        CredentialsView::Exempt => GateStep::Exempt,
        CredentialsView::Missing => GateStep::Reject(AuthFailure::MissingHeader),
        CredentialsView::Malformed => GateStep::Reject(AuthFailure::MalformedScheme),
        CredentialsView::Bearer(_) => token_step(subject),
    }
}

/// Who the token among `credentials` names at the time `now`, verified
/// against `secret`.
pub open spec fn named_by(credentials: CredentialsView, secret: Seq<u8>, now: u64) -> Option<i64> {
    match credentials {
        CredentialsView::Bearer(token) => accepted_subject(signed_claims(token, secret), now),
        _ => None,
    }
}

/// The context after the account store has answered for `user_id`: with
/// the identity where it gave a user name, unchanged where it gave none.
pub open spec fn resolved(ctx: ContextView, user_id: i64, account: Option<Seq<char>>) -> ContextView {
    match account {
        Some(username) => ContextView {
            user_id: Some(user_id as int),
            username: Some(username),
            ..ctx
        },
        None => ctx,
    }
}

impl AuthFailure {
    /// The status that the client gets.
    pub fn status(&self) -> (code: u16)
        ensures
            code == UNAUTHORIZED,
    {
        UNAUTHORIZED
    }

    /// The message that the client gets.
    pub open spec fn message_text(self) -> Seq<char> {
        match self {
            AuthFailure::MissingHeader => "未提供认证信息"@,
            AuthFailure::MalformedScheme => "无效的认证头"@,
            AuthFailure::InvalidToken => "无效的认证信息"@,
            AuthFailure::AccountMissing => "用户不存在"@,
        }
    }

    /// The message that the client gets.
    pub fn message(&self) -> (text: String)
        ensures
            text@ == self.message_text(),
    {
        let text = match self {
            AuthFailure::MissingHeader => "未提供认证信息",
            AuthFailure::MalformedScheme => "无效的认证头",
            AuthFailure::InvalidToken => "无效的认证信息",
            AuthFailure::AccountMissing => "用户不存在",
        };
        text.to_owned()
    }
}

/// Reads what a request brings to identify itself.
pub fn read_credentials(path: &str, authorization: Option<&str>) -> (found: Credentials)
    ensures
        found@ == credentials_of(path@, opt_str(authorization)),
{
    if same_text(path, LOGIN_PATH) {
        return Credentials::Exempt;
    }
    match authorization {
        None => Credentials::Missing,
        Some(header) => {
            let h = chars_of(header);
            let scheme = chars_of(BEARER);
            if has_prefix(&h, &scheme) {
                let token = header.substring_char(scheme.len(), h.len());
                assert(token@ =~= header@.skip(BEARER@.len() as int));
                Credentials::Bearer(token.to_owned())
            } else {
                Credentials::Malformed
            }
        },
    }
}

/// Decides what is to happen to a request from what verifying its token
/// gave.
pub fn token_verdict(subject: Option<i64>) -> (step: GateStep)
    ensures
        step == token_step(subject),
{
    match subject {
        Some(user_id) => GateStep::Lookup(user_id),
        None => GateStep::Reject(AuthFailure::InvalidToken),
    }
}

/// What is to happen to a request at the time `now`, with tokens verified
/// against `secret`.
pub fn auth_middleware_at(path: &str, authorization: Option<&str>, secret: &[u8], now: u64) -> (step:
    GateStep)
    ensures
        step == gate_step(
            credentials_of(path@, opt_str(authorization)),
            named_by(credentials_of(path@, opt_str(authorization)), secret@, now),
        ),
{
    match read_credentials(path, authorization) {
        Credentials::Exempt => GateStep::Exempt,
        Credentials::Missing => GateStep::Reject(AuthFailure::MissingHeader),
        Credentials::Malformed => GateStep::Reject(AuthFailure::MalformedScheme),
        Credentials::Bearer(token) => token_verdict(verify_token_at(token.as_str(), secret, now)),
    }
}

/// What is to happen to a request to `path` that came with the
/// `Authorization` header `authorization`. Tokens are
/// verified now, against [`crate::token::JWT_SECRET`]; where the time cannot be told, a
/// token names nobody.
pub fn auth_middleware(path: &str, authorization: Option<&str>) -> (step: GateStep)
    ensures
        step == gate_step(credentials_of(path@, opt_str(authorization)), None) || exists|now: u64|
            step == gate_step(
                credentials_of(path@, opt_str(authorization)),
                #[trigger] named_by(
                    credentials_of(path@, opt_str(authorization)),
                    secret_bytes(),
                    now,
                ),
            ),
{
    match read_credentials(path, authorization) {
        Credentials::Exempt => GateStep::Exempt,
        Credentials::Missing => GateStep::Reject(AuthFailure::MissingHeader),
        Credentials::Malformed => GateStep::Reject(AuthFailure::MalformedScheme),
        Credentials::Bearer(token) => {
            let subject = verify_token(token.as_str());
            let step = token_verdict(subject);
            proof {
                let found = credentials_of(path@, opt_str(authorization));
                if subject is Some {
                    let now = choose|now: u64| #[trigger]
                        accepted_subject(signed_claims(token@, secret_bytes()), now) == subject;
                    assert(step == gate_step(found, named_by(found, secret_bytes(), now)));
                }
            }
            step
        },
    }
}

/// What is to happen once the account store has been asked for
/// the user name of `user_id`: `account` is its answer. Where the account
/// exists the identity goes into the context and the request continues;
/// where it does not, the request is turned away and the context stays as
/// it was.
pub fn account_resolved(ctx: &mut RequestContext, user_id: i64, account: Option<String>) -> (r:
    Result<(), AuthFailure>)
    ensures
        final(ctx)@ == resolved(
            old(ctx)@,
            user_id,
            match account {
                Some(name) => Some(name@),
                None => None,
            },
        ),
        r is Ok <==> account is Some,
        r matches Err(e) ==> e == AuthFailure::AccountMissing,
{
    match account {
        Some(username) => {
            ctx.user_id = Some(user_id);
            ctx.username = Some(username);
            Ok(())
        },
        None => Err(AuthFailure::AccountMissing),
    }
}

} // verus!
