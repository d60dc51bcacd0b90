//! Identity tokens: a user id and an expiry, signed with the server's
//! secret. A token is valid from the moment it is issued until its expiry,
//! one day later; nothing refreshes it and nothing revokes it.
//!
//! Verification fails closed. A token that does not parse, whose signature
//! does not match, or whose expiry lies in the past names nobody, and the
//! caller is not told which of the three it was.

use vstd::prelude::*;
use vstd::string::StringSliceAdditionalSpecFns;

verus! {

/// How long a token stays valid, in seconds.
pub const TOKEN_EXPIRE_IN: u64 = 24 * 60 * 60;

/// The secret that tokens are signed with.
pub const JWT_SECRET: &'static str = "your-secret-key";

/// What a token states: who it was issued to, and the second, counted from
/// the Unix epoch, after which it is no longer valid.
#[derive(Debug, Clone, Copy, PartialEq, Eq)]
pub struct Claims {
    pub sub: i64,
    pub exp: u64,
}

/// Why no token was issued.
#[derive(Debug, Clone, Copy, PartialEq, Eq)]
pub enum TokenError {
    /// The clock shows a time from which no expiry can be counted.
    ClockOutOfRange,
    /// The claims could not be encoded and signed.
    Signing,
}

/// `jsonwebtoken::errors::Error`: why encoding failed. It is handed on
/// and never looked into.
#[verifier::external_type_specification]
#[verifier::external_body]
pub struct ExSigningError(jsonwebtoken::errors::Error);

/// The token that states `sub` and `exp` under `secret`, where one can be
/// made.
pub uninterp spec fn signed_token(sub: i64, exp: u64, secret: Seq<u8>) -> Option<Seq<char>>;

/// The claims that `token` states under `secret`: `None` unless the token
/// has the shape of a signed token, its signature is the one that `secret`
/// gives, and it states a user id and an expiry.
pub uninterp spec fn signed_claims(token: Seq<char>, secret: Seq<u8>) -> Option<Claims>;

/// `jsonwebtoken::encode` with the default header, which asks for
/// HMAC-SHA256, on the claims `sub` and `exp`. The token depends on the
/// claims and the secret alone. Decoding it under the same secret, as
/// [`read_claims`] does, gives the claims back: the decoder recomputes the
/// signature over the same two parts and reads the same numbers.
#[verifier::external_body]
fn sign_claims(claims: &Claims, secret: &[u8]) -> (r: Result<String, jsonwebtoken::errors::Error>)
    ensures
        match r {
            Ok(token) => signed_token(claims.sub, claims.exp, secret@) == Some(token@)
                && signed_claims(token@, secret@) == Some(*claims),
            Err(_) => signed_token(claims.sub, claims.exp, secret@) is None,
        },
{
    let mut body = serde_json::Map::new();
    body.insert("sub".to_owned(), serde_json::Value::from(claims.sub));
    body.insert("exp".to_owned(), serde_json::Value::from(claims.exp));
    let key = jsonwebtoken::EncodingKey::from_secret(secret);
    jsonwebtoken::encode(&jsonwebtoken::Header::default(), &body, &key)
}

/// `jsonwebtoken::decode` for HMAC-SHA256 under `secret`, with the crate's
/// own expiry check switched off: the signature is verified, the claims are
/// read, and the time plays no part, so the result depends on the token and
/// the secret alone. The claims count only where `sub` is an integer that
/// fits `i64` and `exp` one that fits `u64`.
#[verifier::external_body]
fn read_claims(token: &str, secret: &[u8]) -> (claims: Option<Claims>)
    ensures
        claims == signed_claims(token@, secret@),
{
    let mut rules = jsonwebtoken::Validation::new(jsonwebtoken::Algorithm::HS256);
    rules.validate_exp = false;
    rules.required_spec_claims.clear();
    let key = jsonwebtoken::DecodingKey::from_secret(secret);
    let body = jsonwebtoken::decode::<serde_json::Value>(token, &key, &rules).ok()?.claims;
    Some(Claims { sub: body.get("sub")?.as_i64()?, exp: body.get("exp")?.as_u64()? })
}

/// `std::time::SystemTime::now`, in whole seconds since the Unix epoch;
/// `None` where the clock is set to a time before the epoch. Nothing is
/// known of the value.
#[verifier::external_body]
fn unix_time() -> Option<u64> {
    match std::time::SystemTime::now().duration_since(std::time::UNIX_EPOCH) {
        Ok(elapsed) => Some(elapsed.as_secs()),
        Err(_) => None,
    }
}

/// The bytes of [`JWT_SECRET`].
pub open spec fn secret_bytes() -> Seq<u8> {
    JWT_SECRET.spec_bytes()
}

/// The expiry of a token issued at `issued_at`.
pub open spec fn expiry_of(issued_at: u64) -> int {
    issued_at + TOKEN_EXPIRE_IN
}

/// The claims of a token issued to `user_id` at `issued_at`.
pub open spec fn claims_of(user_id: i64, issued_at: u64) -> Claims {
    Claims { sub: user_id, exp: expiry_of(issued_at) as u64 }
}

/// Who a token names at the time `now`, given the claims that reading it
/// gave: the subject, unless there are no claims or the expiry is past.
pub open spec fn accepted_subject(claims: Option<Claims>, now: u64) -> Option<i64> {
    match claims {
        Some(c) => if c.exp < now {
            None
        } else {
            Some(c.sub)
        },
        None => None,
    }
}

/// Decides who a token names at the time `now`, from the claims that
/// reading it gave.
pub fn check_claims(claims: Option<Claims>, now: u64) -> (subject: Option<i64>)
    ensures
        subject == accepted_subject(claims, now),
{
    match claims {
        Some(c) => if c.exp < now {
            None
        } else {
            Some(c.sub)
        },
        None => None,
    }
}

/// Issues a token to `user_id` at the time `now`, signed with `secret`.
pub fn generate_token_at(user_id: i64, secret: &[u8], now: u64) -> (r: Result<String, TokenError>)
    requires
        expiry_of(now) <= u64::MAX,
    ensures
        match r {
            Ok(token) => signed_token(user_id, claims_of(user_id, now).exp, secret@) == Some(
                token@,
            ) && signed_claims(token@, secret@) == Some(claims_of(user_id, now)),
            Err(e) => e == TokenError::Signing && signed_token(
                user_id,
                claims_of(user_id, now).exp,
                secret@,
            ) is None,
        },
{
    let claims = Claims { sub: user_id, exp: now + TOKEN_EXPIRE_IN };
    match sign_claims(&claims, secret) {
        Ok(token) => Ok(token),
        Err(_) => Err(TokenError::Signing),
    }
}

/// Verifies `token` at the time `now` against `secret`.
pub fn verify_token_at(token: &str, secret: &[u8], now: u64) -> (subject: Option<i64>)
    ensures
        subject == accepted_subject(signed_claims(token@, secret@), now),
{
    check_claims(read_claims(token, secret), now)
}

/// What issuing a token to `user_id` under `secret` comes to where the clock
/// shows `clock`, which is `None` where it cannot be read. From a reading
/// that leaves room for the expiry, the outcome is the token that states
/// the user and the expiry counted from that reading, or
/// [`TokenError::Signing`] where there is no such token. From any other
/// clock it is [`TokenError::ClockOutOfRange`].
pub open spec fn issued_by_clock(
    r: Result<String, TokenError>,
    user_id: i64,
    secret: Seq<u8>,
    clock: Option<u64>,
) -> bool {
    match clock {
        Some(now) => if expiry_of(now) <= u64::MAX {
            match r {
                Ok(token) => signed_token(user_id, claims_of(user_id, now).exp, secret) == Some(
                    token@,
                ) && signed_claims(token@, secret) == Some(claims_of(user_id, now)),
                Err(e) => e == TokenError::Signing && signed_token(
                    user_id,
                    claims_of(user_id, now).exp,
                    secret,
                ) is None,
            }
        } else {
            r matches Err(e) && e == TokenError::ClockOutOfRange
        },
        None => r matches Err(e) && e == TokenError::ClockOutOfRange,
    }
}

/// Issues a token to `user_id`, signed with `secret`, by what the clock
/// shows: `clock` is its reading, or `None` where it could not be read.
pub fn generate_token_by_clock(user_id: i64, secret: &[u8], clock: Option<u64>) -> (r: Result<
    String,
    TokenError,
>)
    ensures
        issued_by_clock(r, user_id, secret@, clock),
{
    match clock {
        Some(now) => if now <= u64::MAX - TOKEN_EXPIRE_IN {
            generate_token_at(user_id, secret, now)
        } else {
            Err(TokenError::ClockOutOfRange)
        },
        None => Err(TokenError::ClockOutOfRange),
    }
}

/// Issues a token to `user_id`, valid for [`TOKEN_EXPIRE_IN`] seconds from
/// now and signed with [`JWT_SECRET`]. The outcome is what
/// [`generate_token_by_clock`] makes of the clock, whatever the clock
/// shows.
pub fn generate_token(user_id: i64) -> (r: Result<String, TokenError>)
    ensures
        exists|clock: Option<u64>| #[trigger] issued_by_clock(r, user_id, secret_bytes(), clock),
{
    let clock = unix_time();
    let r = generate_token_by_clock(user_id, JWT_SECRET.as_bytes(), clock);
    assert(issued_by_clock(r, user_id, secret_bytes(), clock));
    r
}

/// Verifies `token` now, against [`JWT_SECRET`]: the user it was issued to,
/// or `None`.
pub fn verify_token(token: &str) -> (subject: Option<i64>)
    ensures
        subject matches Some(id) ==> exists|now: u64| #[trigger]
            accepted_subject(signed_claims(token@, secret_bytes()), now) == Some(id),
        signed_claims(token@, secret_bytes()) is None ==> subject is None,
{
    match unix_time() {
        Some(now) => {
            let subject = verify_token_at(token, JWT_SECRET.as_bytes(), now);
            assert(subject == accepted_subject(signed_claims(token@, secret_bytes()), now));
            subject
        },
        None => None,
    }
}

/// A token verifies for as long as it is valid: verified under the secret
/// it was signed with, no later than its expiry, it names the user it was
/// issued to.
pub proof fn lemma_issued_token_verifies(
    token: Seq<char>,
    secret: Seq<u8>,
    user_id: i64,
    issued_at: u64,
    now: u64,
)
    requires
        expiry_of(issued_at) <= u64::MAX,
        signed_claims(token, secret) == Some(claims_of(user_id, issued_at)),
        now <= expiry_of(issued_at),
    ensures
        accepted_subject(signed_claims(token, secret), now) == Some(user_id),
{
}

/// An expired token names nobody, whatever its signature: where reading the
/// token gave no claims there is no subject, and where it gave claims whose
/// expiry is past there is none either.
pub proof fn lemma_expired_token_rejected(claims: Option<Claims>, now: u64)
    requires
        claims matches Some(c) ==> c.exp < now,
    ensures
        accepted_subject(claims, now) is None,
{
}

} // verus!
