//! Session tokens, session cookies, and reading a token off a request.
use vstd::prelude::*;

use crate::error::{joined, owned};
use crate::text::{split_char, strip_prefix, trim, trimmed, views};

verus! {

pub const COOKIE_NAME: &'static str = "finplan_session";

/// How long a freshly issued session stays valid, in days.
pub const SESSION_TTL_DAYS: i64 = 30;

/// The SHA-256 digest of a byte string.
pub uninterp spec fn sha256_digest(bytes: Seq<u8>) -> Seq<u8>;

/// The unpadded URL-safe base64 text of a byte string.
pub uninterp spec fn base64url_text(bytes: Seq<u8>) -> Seq<char>;

/// `sha2::Sha256::digest`. Claims that the digest is the one
/// `sha256_digest` names for the input, and that it is 32 bytes long (the
/// digest's output size).
#[verifier::external_body]
fn sha256(bytes: &[u8]) -> (r: Vec<u8>)
    ensures
        r@ == sha256_digest(bytes@),
        r@.len() == 32,
{
    <sha2::Sha256 as sha2::Digest>::digest(bytes).to_vec()
}

/// `base64ct::Base64UrlUnpadded::encode_string`. Claims that the text is the
/// one `base64url_text` names for the input and that it holds
/// `ceil(4n / 3)` characters, as the crate's `encoded_len` computes for the
/// unpadded alphabet. The crate panics when `4n` overflows, which the
/// `requires` leaves out.
#[verifier::external_body]
fn base64url(bytes: &[u8]) -> (r: String)
    requires
        bytes@.len() * 4 <= usize::MAX,
    ensures
        r@ == base64url_text(bytes@),
        r@.len() == (bytes@.len() * 4 + 2) / 3,
{
    <base64ct::Base64UrlUnpadded as base64ct::Encoding>::encode_string(bytes)
}

/// `n` bytes from `rand`'s thread-local generator (`fill_bytes`). Only the
/// length is claimed: the bytes are random.
#[verifier::external_body]
fn random_bytes(n: usize) -> (r: Vec<u8>)
    ensures
        r@.len() == n,
{
    let mut bytes = vec![0u8; n];
    rand::RngCore::fill_bytes(&mut rand::rng(), &mut bytes);
    bytes
}

/// How many random bytes a session token carries.
pub const TOKEN_BYTES: usize = 32;

/// What is stored for a token: the base64 text of its SHA-256 digest.
pub open spec fn token_digest(token: Seq<char>) -> Seq<char> {
    base64url_text(sha256_digest(vstd::utf8::encode_utf8(token)))
}

/// The stored form of a session token (its plaintext is never stored).
pub fn hash_token(token: &str) -> (r: String)
    ensures
        r@ == token_digest(token@),
{
    let digest = sha256(token.as_bytes());
    base64url(digest.as_slice())
}

/// A freshly minted session: the plaintext token goes to the client once,
/// only its digest is persisted.
pub struct NewSession {
    pub token: String,
    pub token_hash: String,
}

pub fn generate_token() -> (s: NewSession)
    ensures
        exists|b: Seq<u8>| b.len() == 32 && s.token@ == base64url_text(b),
        s.token@.len() == 43,
        s.token_hash@ == token_digest(s.token@),
{
    let bytes = random_bytes(TOKEN_BYTES);
    let token = base64url(bytes.as_slice());
    let token_hash = hash_token(token.as_str());
    NewSession { token, token_hash }
}

pub open spec fn cookie_suffix(secure: bool) -> Seq<char> {
    if secure {
        "; Secure"@
    } else {
        Seq::empty()
    }
}

/// The `Set-Cookie` value that hands a session to a browser for 30 days.
pub open spec fn session_cookie(token: Seq<char>, secure: bool) -> Seq<char> {
    "finplan_session="@ + token + "; Path=/; HttpOnly; SameSite=Lax; Max-Age=2592000"@
        + cookie_suffix(secure)
}

/// The `Set-Cookie` value that removes the session cookie.
pub open spec fn cleared_cookie(secure: bool) -> Seq<char> {
    "finplan_session=; Path=/; HttpOnly; SameSite=Lax; Max-Age=0"@ + cookie_suffix(secure)
}

pub fn build_cookie(token: &str, secure: bool) -> (r: String)
    ensures
        r@ == session_cookie(token@, secure),
{
    let mut cookie = joined("finplan_session=", token);
    cookie.append("; Path=/; HttpOnly; SameSite=Lax; Max-Age=2592000");
    if secure {
        cookie.append("; Secure");
    }
    cookie
}

pub fn clear_cookie(secure: bool) -> (r: String)
    ensures
        r@ == cleared_cookie(secure),
{
    let mut cookie = owned("finplan_session=; Path=/; HttpOnly; SameSite=Lax; Max-Age=0");
    if secure {
        cookie.append("; Secure");
    }
    cookie
}

/// The session token a cookie header carries: the value of the first
/// `finplan_session=` pair (pairs split on `;`, trimmed) that is not empty.
pub open spec fn cookie_token(pairs: Seq<Seq<char>>) -> Option<Seq<char>>
    decreases pairs.len(),
{
    if pairs.len() == 0 {
        None
    } else {
        let p = trimmed(pairs[0]);
        let name = "finplan_session="@;
        if name.len() < p.len() && p.subrange(0, name.len() as int) == name {
            Some(p.subrange(name.len() as int, p.len() as int))
        } else {
            cookie_token(pairs.drop_first())
        }
    }
}

/// The token an `Authorization: Bearer` header carries, trimmed, if any.
pub open spec fn bearer_token(header: Seq<char>) -> Option<Seq<char>> {
    let prefix = "Bearer "@;
    if prefix.len() <= header.len() && header.subrange(0, prefix.len() as int) == prefix {
        let t = trimmed(header.subrange(prefix.len() as int, header.len() as int));
        if t.len() > 0 {
            Some(t)
        } else {
            None
        }
    } else {
        None
    }
}

pub open spec fn presented_token(cookie: Option<Seq<char>>, authorization: Option<Seq<char>>) -> Option<
    Seq<char>,
> {
    let from_cookie = match cookie {
        Some(c) => cookie_token(crate::text::split_on(c, ';')),
        None => None,
    };
    if from_cookie is Some {
        from_cookie
    } else {
        match authorization {
            Some(a) => bearer_token(a),
            None => None,
        }
    }
}

pub open spec fn opt_text(o: Option<&str>) -> Option<Seq<char>> {
    match o {
        Some(s) => Some(s@),
        None => None,
    }
}

/// The session token a request presents: from the session cookie, else from
/// an `Authorization: Bearer` header for non-browser clients. The headers are
/// passed as their text, where they are readable as text.
pub fn extract_token(cookie: Option<&str>, authorization: Option<&str>) -> (r: Option<String>)
    ensures
        match r {
            Some(t) => presented_token(opt_text(cookie), opt_text(authorization)) == Some(t@),
            None => presented_token(opt_text(cookie), opt_text(authorization)) is None,
        },
{
    if let Some(cookies) = cookie {
        let pairs = split_char(cookies, ';');
        assert(views(pairs@).subrange(0, pairs@.len() as int) == views(pairs@));
        let mut i: usize = 0;
        while i < pairs.len()
            invariant
                i <= pairs@.len(),
                opt_text(cookie) == Some(cookies@),
                views(pairs@) == crate::text::split_on(cookies@, ';'),
                cookie_token(views(pairs@)) == cookie_token(views(pairs@).subrange(i as int, pairs@.len() as int)),
            decreases pairs@.len() - i,
        {
            let ghost rest = views(pairs@).subrange(i as int, pairs@.len() as int);
            assert(rest[0] == pairs@[i as int]@);
            assert(rest.drop_first() == views(pairs@).subrange(i + 1, pairs@.len() as int));
            let pair = trim(pairs[i].as_str());
            if let Some(value) = strip_prefix(pair, "finplan_session=") {
                if value.unicode_len() > 0 {
                    assert(cookie_token(rest) == Some(value@));
                    assert(presented_token(opt_text(cookie), opt_text(authorization)) == Some(value@));
                    return Some(owned(value));
                }
            }
            i = i + 1;
        }
        assert(views(pairs@).subrange(pairs@.len() as int, pairs@.len() as int) == Seq::<Seq<char>>::empty());
    }
    match authorization {
        Some(a) => match strip_prefix(a, "Bearer ") {
            Some(rest) => {
                let t = trim(rest);
                if t.unicode_len() > 0 {
                    Some(owned(t))
                } else {
                    None
                }
            },
            None => None,
        },
        None => None,
    }
}

/// The caller's `User-Agent`, clipped to 300 characters; none when empty.
pub fn user_agent_of(header: Option<&str>) -> (r: Option<String>)
    ensures
        match header {
            Some(h) => if h@.len() == 0 {
                r is None
            } else {
                r matches Some(u) && u@ == h@.subrange(
                    0,
                    if h@.len() < 300 {
                        h@.len() as int
                    } else {
                        300
                    },
                )
            },
            None => r is None,
        },
{
    match header {
        Some(h) => {
            let n = h.unicode_len();
            if n == 0 {
                return None;
            }
            let end = if n < 300 {
                n
            } else {
                300
            };
            Some(owned(h.substring_char(0, end)))
        },
        None => None,
    }
}

/// The authenticated caller.
pub struct CurrentUser {
    pub id: String,
    pub email: String,
    /// The opaque id of the session the request arrived on.
    pub session_id: String,
}

} // verus!
