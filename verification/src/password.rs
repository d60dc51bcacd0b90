//! Password digests: the SHA-256 of the password's bytes, in lower-case
//! hexadecimal.

use vstd::prelude::*;
use crate::text::{lower_hex, same_text, to_lower_hex};

verus! {

/// The SHA-256 digest of a message.
pub uninterp spec fn sha256_digest(message: Seq<u8>) -> Seq<u8>;

/// `sha2::Sha256::digest`: the SHA-256 digest of `message`, which depends on
/// the message alone.
#[verifier::external_body]
fn sha256(message: &[u8]) -> (digest: Vec<u8>)
    ensures
        digest@ == sha256_digest(message@),
{
    <sha2::Sha256 as sha2::Digest>::digest(message).to_vec()
}

/// What a password is stored as.
pub open spec fn password_digest(password: Seq<char>) -> Seq<char> {
    lower_hex(sha256_digest(vstd::utf8::encode_utf8(password)))
}

/// The stored form of `password`.
pub fn hash_password(password: &str) -> (hash: String)
    ensures
        hash@ == password_digest(password@),
{
    let digest = sha256(password.as_bytes());
    to_lower_hex(&digest)
}

/// Tells whether `hash` is the stored form of `password`.
pub fn verify_password(password: &str, hash: &str) -> (matches: bool)
    ensures
        matches == (password_digest(password@) == hash@),
{
    let hashed = hash_password(password);
    same_text(hashed.as_str(), hash)
}

} // verus!
