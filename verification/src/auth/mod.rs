//! Authentication: password hashing, accounts' e-mail addresses, sessions
//! and the throttles on expensive authentication work.
pub mod activity;
pub mod legacy;
pub mod protection;
pub mod recovery;
pub mod routes;
pub mod session;

use vstd::prelude::*;

use crate::error::{joined, ApiError};
use crate::text::{count_char, has_char, occurrences, split_char, split_on, trim, trimmed, views};

verus! {

/// Minimum accepted password length, in characters. Long-but-simple beats
/// short-but-gnarly, so the only rule is length.
pub const MIN_PASSWORD_LEN: usize = 10;

/// Longest accepted password, in bytes.
pub const MAX_PASSWORD_BYTES: usize = 1024;

/// Whether Argon2 (default parameters) accepts `password` against a stored
/// PHC string; false where the string does not parse.
pub uninterp spec fn argon2_verifies(password: Seq<u8>, stored: Seq<char>) -> bool;

/// The lowercase mapping of a text, as `str::to_lowercase` performs it.
pub uninterp spec fn lowercase(text: Seq<char>) -> Seq<char>;

/// Hashes a password with `argon2::Argon2::default()` and a salt that
/// `password_hash::SaltString::generate` draws from `rand_core::OsRng`,
/// giving the PHC string, or the error's text. The salt is random, so the
/// string is not named; what holds for every salt, as password-hash's
/// `verify_password` shows (it re-hashes with the salt and parameters the
/// PHC string carries and compares), is that the password verifies against
/// it. Nothing is claimed of the error's text.
#[verifier::external_body]
fn argon2_hash(password: &[u8]) -> (r: Result<String, String>)
    ensures
        match r {
            Ok(h) => argon2_verifies(password@, h@),
            Err(_) => true,
        },
{
    let salt = password_hash::SaltString::generate(&mut rand_core::OsRng);
    match password_hash::PasswordHasher::hash_password(&argon2::Argon2::default(), password, &salt)
    {
        Ok(h) => Ok(h.to_string()),
        Err(e) => Err(e.to_string()),
    }
}

/// Parses `stored` with `password_hash::PasswordHash::new` and checks the
/// password with `argon2::Argon2::default()`'s `verify_password`. Claims that
/// the answer is the one `argon2_verifies` names, false for an unparsable
/// string.
#[verifier::external_body]
fn argon2_check(password: &[u8], stored: &str) -> (r: bool)
    ensures
        r == argon2_verifies(password@, stored@),
{
    match password_hash::PasswordHash::new(stored) {
        Ok(parsed) => password_hash::PasswordVerifier::verify_password(
            &argon2::Argon2::default(),
            password,
            &parsed,
        ).is_ok(),
        Err(_) => false,
    }
}

/// `str::to_lowercase`. Claims that the result is the one `lowercase` names.
#[verifier::external_body]
fn to_lowercase(text: &str) -> (r: String)
    ensures
        r@ == lowercase(text@),
{
    text.to_lowercase()
}

pub open spec fn byte_len(s: Seq<char>) -> nat {
    vstd::utf8::encode_utf8(s).len()
}

/// Hash a new password. Too long a password (over 1024 bytes) and too short
/// a one (under 10 characters) are refused before any hashing.
pub fn hash_password(password: &str) -> (r: Result<String, ApiError>)
    ensures
        byte_len(password@) > MAX_PASSWORD_BYTES ==> (r matches Err(ApiError::BadRequest(m))
            && m@ == "password must be at most 1024 bytes"@),
        byte_len(password@) <= MAX_PASSWORD_BYTES && password@.len() < MIN_PASSWORD_LEN ==> (
        r matches Err(ApiError::BadRequest(m)) && m@ == "password must be at least 10 characters"@),
        byte_len(password@) <= MAX_PASSWORD_BYTES && password@.len() >= MIN_PASSWORD_LEN ==> (
        r is Ok || (r matches Err(ApiError::Internal(m)) && m@.len() >= 25 && m@.subrange(0, 25)
            == "password hashing failed: "@)),
        r matches Ok(h) ==> argon2_verifies(vstd::utf8::encode_utf8(password@), h@),
{
    if password.as_bytes().len() > MAX_PASSWORD_BYTES {
        return Err(ApiError::bad_request("password must be at most 1024 bytes"));
    }
    if password.unicode_len() < MIN_PASSWORD_LEN {
        return Err(ApiError::bad_request("password must be at least 10 characters"));
    }
    match argon2_hash(password.as_bytes()) {
        Ok(h) => Ok(h),
        Err(e) => {
            let m = joined("password hashing failed: ", e.as_str());
            proof {
                reveal_strlit("password hashing failed: ");
                assert(m@.subrange(0, 25) == "password hashing failed: "@);
            }
            Err(ApiError::Internal(m))
        },
    }
}

/// Check a password against a stored PHC string. An over-long password and a
/// malformed stored string both fail, so a corrupt row reads as a wrong
/// password.
pub fn verify_password(password: &str, stored: &str) -> (r: bool)
    ensures
        r == (byte_len(password@) <= MAX_PASSWORD_BYTES && argon2_verifies(
            vstd::utf8::encode_utf8(password@),
            stored@,
        )),
{
    if password.as_bytes().len() > MAX_PASSWORD_BYTES {
        return false;
    }
    argon2_check(password.as_bytes(), stored)
}

/// The minimal syntactic check on a normalized address: 3 to 254 bytes, one
/// `@`, neither first nor last, and a `.` after it.
pub open spec fn email_valid(e: Seq<char>) -> bool {
    &&& 3 <= byte_len(e) <= 254
    &&& occurrences(e, '@') == 1
    &&& !(e.len() > 0 && e[0] == '@')
    &&& !(e.len() > 0 && e.last() == '@')
    &&& split_on(e, '@').len() > 1
    &&& split_on(e, '@')[1].contains('.')
}

/// The address trimmed and lowercased, if it passes the check.
pub fn normalize_email(email: &str) -> (r: Result<String, ApiError>)
    ensures
        match r {
            Ok(e) => e@ == lowercase(trimmed(email@)) && email_valid(e@),
            Err(err) => !email_valid(lowercase(trimmed(email@))) && (err matches ApiError::BadRequest(
                m,
            ) && m@ == "invalid email address"@),
        },
{
    let email = to_lowercase(trim(email));
    let e = email.as_str();
    let len = e.as_bytes().len();
    let n = e.unicode_len();
    let parts = split_char(e, '@');
    let second_has_dot = if parts.len() > 1 {
        assert(views(parts@)[1] == parts@[1]@);
        has_char(parts[1].as_str(), '.')
    } else {
        false
    };
    let valid = len >= 3 && len <= 254 && count_char(e, '@') == 1 && !(n > 0 && e.get_char(0)
        == '@') && !(n > 0 && e.get_char(n - 1) == '@') && second_has_dot;
    if !valid {
        return Err(ApiError::bad_request("invalid email address"));
    }
    Ok(email)
}

} // verus!
