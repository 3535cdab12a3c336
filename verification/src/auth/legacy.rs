//! The earlier token scheme: bcrypt password hashes and signed tokens that
//! carry the account id and an expiry seven days out.
use vstd::prelude::*;

use crate::error::{joined, owned, ApiError};

verus! {

pub const COOKIE_NAME: &'static str = "token";

/// How long a signed token stays valid, in days.
pub const TOKEN_EXPIRY_DAYS: i64 = 7;

/// The claims a token carries: the account id and the expiry, in seconds
/// since the epoch.
pub struct Claims {
    pub sub: String,
    pub exp: usize,
}

/// The authenticated account's id.
pub struct AuthUser(pub String);

/// The secret tokens are signed with.
pub struct JwtSecret(pub String);

/// What `bcrypt::verify` answers for a password and a stored hash: whether
/// they match, or the error's text when the hash cannot be read.
pub uninterp spec fn bcrypt_verdict(password: Seq<char>, hash: Seq<char>) -> Result<bool, Seq<char>>;

/// Hashes a password with `bcrypt::hash` at `bcrypt::DEFAULT_COST`, giving
/// the hash or the error's text. The salt is random, so the hash is not
/// named; what is claimed of it is what the crate's source shows: it is
/// `$2b$12$` followed by the 22 characters of the salt and the 31 of the
/// digest, and `bcrypt::verify` accepts the password against it (it splits
/// the hash, decodes the salt and recomputes the digest with the same cost).
/// The call fails only where the OS randomness does; nothing is claimed of
/// the error's text.
#[verifier::external_body]
fn bcrypt_hash(password: &str) -> (r: Result<String, String>)
    ensures
        match r {
            Ok(h) => bcrypt_verdict(password@, h@) == Ok::<bool, Seq<char>>(true) && h@.len() == 60
                && h@.subrange(0, 7) == "$2b$12$"@,
            Err(_) => true,
        },
{
    match bcrypt::hash(password, bcrypt::DEFAULT_COST) {
        Ok(h) => Ok(h),
        Err(e) => Err(e.to_string()),
    }
}

/// `bcrypt::verify`, with the error given as its text. Claims that the answer
/// is the one `bcrypt_verdict` names.
#[verifier::external_body]
fn bcrypt_check(password: &str, hash: &str) -> (r: Result<bool, String>)
    ensures
        match (r, bcrypt_verdict(password@, hash@)) {
            (Ok(b), Ok(v)) => b == v,
            (Err(e), Err(x)) => e@ == x,
            _ => false,
        },
{
    match bcrypt::verify(password, hash) {
        Ok(b) => Ok(b),
        Err(e) => Err(e.to_string()),
    }
}

/// The clock, as `chrono::Utc::now().timestamp()`: seconds since the epoch.
/// Nothing is claimed: it reads the clock.
#[verifier::external_body]
fn clock_secs() -> (r: i64) {
    chrono::Utc::now().timestamp()
}

/// Hash a password for storage: a bcrypt hash at cost 12 that the password
/// verifies against.
pub fn hash_password(password: &str) -> (r: Result<String, ApiError>)
    ensures
        match r {
            Ok(h) => bcrypt_verdict(password@, h@) == Ok::<bool, Seq<char>>(true) && h@.len() == 60
                && h@.subrange(0, 7) == "$2b$12$"@,
            Err(e) => e matches ApiError::Internal(m) && m@.len() >= 25 && m@.subrange(0, 25)
                == "Failed to hash password: "@,
        },
{
    match bcrypt_hash(password) {
        Ok(h) => Ok(h),
        Err(e) => {
            let m = joined("Failed to hash password: ", e.as_str());
            proof {
                reveal_strlit("Failed to hash password: ");
                assert(m@.subrange(0, 25) == "Failed to hash password: "@);
            }
            Err(ApiError::Internal(m))
        },
    }
}

/// Check a password against a stored hash; an unreadable hash is a server
/// error.
pub fn verify_password(password: &str, hash: &str) -> (r: Result<bool, ApiError>)
    ensures
        match bcrypt_verdict(password@, hash@) {
            Ok(v) => r == Ok::<bool, ApiError>(v),
            Err(e) => r matches Err(ApiError::Internal(m)) && m@ == "Failed to verify password: "@ + e,
        },
{
    match bcrypt_check(password, hash) {
        Ok(b) => Ok(b),
        Err(e) => Err(ApiError::Internal(joined("Failed to verify password: ", e.as_str()))),
    }
}

/// What `jsonwebtoken::encode` makes, with `Header::default()` (HS256) and
/// `EncodingKey::from_secret(secret)`, of the claims `{"exp": exp, "sub": sub}`.
pub uninterp spec fn jwt_text(sub: Seq<char>, exp: u64, secret: Seq<u8>) -> Seq<char>;

/// What `jsonwebtoken::decode` reads from a token under
/// `DecodingKey::from_secret(secret)` before it looks at the clock: where the
/// header names HS256, the signature verifies under the secret and the
/// payload is a JSON object, that object's `sub` (when it is a string) and
/// `exp` (when it is a whole number within `u64`); `None` otherwise.
pub uninterp spec fn jwt_claims(token: Seq<char>, secret: Seq<u8>) -> Option<(Option<Seq<char>>, Option<u64>)>;

/// Signs the claims `sub` and `exp` with `jsonwebtoken::encode`, the default
/// header (HS256) and `EncodingKey::from_secret(secret)`, giving the token or
/// the error's text. Claims that the token is the one `jwt_text` names, and,
/// as the crate's source shows (the same key verifies what it signed), that
/// decoding it under the same secret reads back those claims.
#[verifier::external_body]
fn jwt_encode(sub: &str, exp: u64, secret: &[u8]) -> (r: Result<String, String>)
    ensures
        match r {
            Ok(t) => t@ == jwt_text(sub@, exp, secret@) && jwt_claims(t@, secret@) == Some::<
                (Option<Seq<char>>, Option<u64>),
            >((Some(sub@), Some(exp))),
            Err(_) => true,
        },
{
    let mut claims = serde_json::Map::new();
    claims.insert("sub".to_string(), serde_json::Value::from(sub));
    claims.insert("exp".to_string(), serde_json::Value::from(exp));
    let key = jsonwebtoken::EncodingKey::from_secret(secret);
    jsonwebtoken::encode(&jsonwebtoken::Header::default(), &claims, &key).map_err(|e| e.to_string())
}

/// Decodes a token with `jsonwebtoken::decode` under
/// `DecodingKey::from_secret(secret)` and `Validation::default()`, giving its
/// `sub` and `exp` claims, or `None` where decoding fails. Whether it fails
/// also depends on the clock (an expired token is refused), so only this is
/// claimed: what it gives is what `jwt_claims` names for the token.
#[verifier::external_body]
fn jwt_decode(token: &str, secret: &[u8]) -> (r: Option<(Option<String>, Option<u64>)>)
    ensures
        match r {
            Some((s, e)) => jwt_claims(token@, secret@) == Some::<(Option<Seq<char>>, Option<u64>)>(
                (crate::triggers::text_of(s), e),
            ),
            None => true,
        },
{
    let key = jsonwebtoken::DecodingKey::from_secret(secret);
    let validation = jsonwebtoken::Validation::default();
    let data = jsonwebtoken::decode::<serde_json::Map<String, serde_json::Value>>(token, &key, &validation).ok()?;
    let sub = data.claims.get("sub").and_then(|v| v.as_str()).map(|v| v.to_string());
    Some((sub, data.claims.get("exp").and_then(|v| v.as_u64())))
}

/// A signed token carrying these claims. It reads back, under the same
/// secret, as the same account and expiry.
pub fn token_for(claims: &Claims, secret: &str) -> (r: Result<String, ApiError>)
    ensures
        match r {
            Ok(t) => t@ == jwt_text(claims.sub@, claims.exp as u64, vstd::utf8::encode_utf8(secret@))
                && jwt_claims(t@, vstd::utf8::encode_utf8(secret@)) == Some::<
                (Option<Seq<char>>, Option<u64>),
            >((Some(claims.sub@), Some(claims.exp as u64))),
            Err(e) => e matches ApiError::Internal(m) && m@.len() >= 22 && m@.subrange(0, 22)
                == "Failed to create token"@,
        },
{
    let key = secret.as_bytes();
    match jwt_encode(claims.sub.as_str(), claims.exp as u64, key) {
        Ok(t) => Ok(t),
        Err(e) => {
            let m = joined("Failed to create token: ", e.as_str());
            proof {
                reveal_strlit("Failed to create token: ");
                reveal_strlit("Failed to create token");
                assert(m@.subrange(0, 22) == "Failed to create token"@);
            }
            Err(ApiError::Internal(m))
        },
    }
}

/// What a token for `user` made at `now` is, under `secret`: signed claims
/// of `user` and the expiry seven days on, or why there is none.
pub open spec fn token_outcome(user: Seq<char>, secret: Seq<char>, now: i64, r: Result<String, ApiError>) -> bool {
    let key = vstd::utf8::encode_utf8(secret);
    match expiry_at(now) {
        None => r matches Err(ApiError::Internal(m)) && m@ == "valid timestamp"@,
        Some(t) => {
            let exp = (t as usize) as u64;
            match r {
                Ok(tok) => tok@ == jwt_text(user, exp, key) && jwt_claims(tok@, key) == Some::<
                    (Option<Seq<char>>, Option<u64>),
                >((Some(user), Some(exp))),
                Err(e) => e matches ApiError::Internal(m) && m@.len() >= 22 && m@.subrange(0, 22)
                    == "Failed to create token"@,
            }
        },
    }
}

/// A token for `user_id` made at `now_secs`: it expires seven days later.
pub fn create_token_at(user_id: &str, secret: &str, now_secs: i64) -> (r: Result<String, ApiError>)
    ensures
        token_outcome(user_id@, secret@, now_secs, r),
{
    let claims = new_claims_at(user_id, now_secs)?;
    token_for(&claims, secret)
}

/// A token for `user_id` that expires seven days from now: what
/// [`create_token_at`] makes at the moment the clock reads.
pub fn create_token(user_id: &str, secret: &str) -> (r: Result<String, ApiError>)
    ensures
        exists|now: i64| token_outcome(user_id@, secret@, now, r),
{
    let now = clock_secs();
    create_token_at(user_id, secret, now)
}

/// The claims of a token signed with `secret`, where it reads back as a
/// string account and an expiry within `usize` and has not expired; any
/// failure is `Unauthorized`.
pub fn verify_token(token: &str, secret: &str) -> (r: Result<Claims, ApiError>)
    ensures
        match r {
            Ok(c) => jwt_claims(token@, vstd::utf8::encode_utf8(secret@)) == Some::<
                (Option<Seq<char>>, Option<u64>),
            >((Some(c.sub@), Some(c.exp as u64))),
            Err(e) => e == ApiError::Unauthorized,
        },
{
    match jwt_decode(token, secret.as_bytes()) {
        Some((Some(sub), Some(exp))) => {
            if exp <= usize::MAX as u64 {
                Ok(Claims { sub, exp: exp as usize })
            } else {
                Err(ApiError::Unauthorized)
            }
        },
        _ => Err(ApiError::Unauthorized),
    }
}

/// The claims of a token for `user_id` expiring at `expiry` (seconds since
/// the epoch).
pub fn claims_for(user_id: &str, expiry: i64) -> (c: Claims)
    ensures
        c.sub@ == user_id@,
        c.exp == expiry as usize,
{
    Claims { sub: owned(user_id), exp: expiry as usize }
}

/// The last second chrono can represent: the end of the year 262142.
pub const LATEST_SECS: i64 = 8_210_266_876_799;

/// When a token made at `now` expires: seven days on, unless that is past
/// the last moment chrono can represent.
pub open spec fn expiry_at(now: i64) -> Option<i64> {
    if now + TOKEN_EXPIRY_DAYS * 86400 <= LATEST_SECS {
        Some((now + TOKEN_EXPIRY_DAYS * 86400) as i64)
    } else {
        None
    }
}

/// The expiry of a token made at `now_secs`, as [`expiry_at`] says.
pub fn expiry_after(now_secs: i64) -> (r: Option<i64>)
    ensures
        r == expiry_at(now_secs),
{
    if now_secs <= LATEST_SECS - TOKEN_EXPIRY_DAYS * 86400 {
        Some(now_secs + TOKEN_EXPIRY_DAYS * 86400)
    } else {
        None
    }
}

/// What the claims of a new token for `user` made at `now` are: the user and
/// the expiry seven days on, or why there is none.
pub open spec fn claims_outcome(user: Seq<char>, now: i64, r: Result<Claims, ApiError>) -> bool {
    match expiry_at(now) {
        Some(t) => r matches Ok(c) && c.sub@ == user && c.exp == t as usize,
        None => r matches Err(ApiError::Internal(m)) && m@ == "valid timestamp"@,
    }
}

/// The claims of a new token for `user_id` made at `now_secs`.
pub fn new_claims_at(user_id: &str, now_secs: i64) -> (r: Result<Claims, ApiError>)
    ensures
        claims_outcome(user_id@, now_secs, r),
{
    match expiry_after(now_secs) {
        Some(t) => Ok(claims_for(user_id, t)),
        None => Err(ApiError::internal("valid timestamp")),
    }
}

/// The claims of a new token for `user_id`, expiring seven days from now:
/// what [`new_claims_at`] gives at the moment the clock reads.
pub fn new_claims(user_id: &str) -> (r: Result<Claims, ApiError>)
    ensures
        exists|now: i64| claims_outcome(user_id@, now, r),
{
    let now = clock_secs();
    new_claims_at(user_id, now)
}

} // verus!
