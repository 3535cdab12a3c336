//! Account routes: the request bodies, the responses, and the checks each
//! request passes before anything is stored.
use vstd::prelude::*;

use crate::error::{joined, owned, ApiError};
use crate::text::{decimal, format_u64, same_text, split_char, strip_prefix, trim, trimmed,
    views};

verus! {

pub struct Credentials {
    pub email: String,
    pub password: String,
}

pub struct RegisterCredentials {
    pub email: String,
    pub password: String,
    pub password_confirmation: String,
    pub display_name: Option<String>,
}

#[derive(Debug, Clone, Copy, PartialEq, Eq, Structural)]
pub enum ThemeMode {
    Light,
    Dark,
    System,
}

#[derive(Debug, Clone, Copy, PartialEq, Eq, Structural)]
pub enum Accent {
    Blue,
    Green,
    Purple,
}

pub struct UserResponse {
    pub id: String,
    pub email: String,
    pub email_verified_at: Option<String>,
    pub display_name: Option<String>,
    pub birth_date: Option<String>,
    pub default_iterations: i64,
    pub default_duration_years: i64,
    pub auto_run: bool,
    pub theme_mode: ThemeMode,
    pub accent: Accent,
    pub created_at: String,
}

pub struct UpdateUserProfile {
    pub display_name: Option<String>,
    pub birth_date: Option<String>,
}

pub struct UpdatePreferences {
    pub default_iterations: i64,
    pub default_duration_years: i64,
    pub auto_run: bool,
    pub theme_mode: ThemeMode,
    pub accent: Accent,
}

pub struct PasswordChange {
    pub current_password: String,
    pub new_password: String,
    pub new_password_confirmation: String,
}

pub struct SessionInfo {
    pub id: String,
    pub user_agent: Option<String>,
    pub created_at: String,
    pub last_seen: String,
    pub expires_at: String,
    pub current: bool,
}

pub struct DeleteAccount {
    pub password: String,
}

/// A well-formed Argon2id hash of no password anyone holds: a login for an
/// unknown address is checked against it, so both cases take as long.
pub const DUMMY_HASH: &'static str = "$argon2id$v=19$m=19456,t=2,p=1$c2FsdHNhbHRzYWx0c2E$mS/UPHZKGZ4V0EBS2JXsYQ9EIzM7YkqPBpZTMBiFY6Q";

/// A new password and its confirmation must agree.
pub fn check_confirmation(password: &str, confirmation: &str) -> (r: Result<(), ApiError>)
    ensures
        r is Ok <==> password@ == confirmation@,
        r is Err ==> (r matches Err(ApiError::BadRequest(m)) && m@ == "passwords do not match"@),
{
    if same_text(password, confirmation) {
        Ok(())
    } else {
        Err(ApiError::bad_request("passwords do not match"))
    }
}

/// A login succeeds only for a known address with the right password; both
/// failures read alike.
pub fn check_login(account_found: bool, password_ok: bool) -> (r: Result<(), ApiError>)
    ensures
        r is Ok <==> (account_found && password_ok),
        r is Err ==> (r matches Err(ApiError::Forbidden(m)) && m@ == "invalid email or password"@),
{
    if account_found && password_ok {
        Ok(())
    } else {
        Err(ApiError::Forbidden(owned("invalid email or password")))
    }
}

/// A password change needs the current password.
pub fn check_current_password(ok: bool) -> (r: Result<(), ApiError>)
    ensures
        r is Ok <==> ok,
        r is Err ==> (r matches Err(ApiError::Forbidden(m)) && m@
            == "current password is incorrect"@),
{
    if ok {
        Ok(())
    } else {
        Err(ApiError::Forbidden(owned("current password is incorrect")))
    }
}

/// Deleting the account needs its password.
pub fn check_account_password(ok: bool) -> (r: Result<(), ApiError>)
    ensures
        r is Ok <==> ok,
        r is Err ==> (r matches Err(ApiError::Forbidden(m)) && m@ == "password is incorrect"@),
{
    if ok {
        Ok(())
    } else {
        Err(ApiError::Forbidden(owned("password is incorrect")))
    }
}

/// Revoking a session of one's own that is not there is a miss.
pub fn check_revoked(deleted: u64) -> (r: Result<(), ApiError>)
    ensures
        r is Ok <==> deleted > 0,
        r is Err ==> r == Err::<(), ApiError>(ApiError::NotFound("session")),
{
    if deleted == 0 {
        Err(ApiError::NotFound("session"))
    } else {
        Ok(())
    }
}

pub open spec fn iterations_message(max: usize) -> Seq<char> {
    "default iterations must be between 1 and "@ + decimal(max as nat)
}

/// Preferences: default iterations between 1 and the server's cap, default
/// duration between 1 and 120 years.
pub fn check_preferences(p: &UpdatePreferences, max_iterations: usize) -> (r: Result<(), ApiError>)
    ensures
        r is Ok <==> (1 <= p.default_iterations <= max_iterations && 1
            <= p.default_duration_years <= 120),
        !(1 <= p.default_iterations <= max_iterations) ==> (r matches Err(ApiError::BadRequest(m))
            && m@ == iterations_message(max_iterations)),
        (1 <= p.default_iterations <= max_iterations) && !(1 <= p.default_duration_years <= 120)
            ==> (r matches Err(ApiError::BadRequest(m)) && m@
            == "default duration must be between 1 and 120 years"@),
{
    if p.default_iterations < 1 || (p.default_iterations as u64) > (max_iterations as u64) {
        let max = format_u64(max_iterations as u64);
        return Err(ApiError::BadRequest(joined("default iterations must be between 1 and ", max.as_str())));
    }
    if p.default_duration_years < 1 || p.default_duration_years > 120 {
        return Err(ApiError::bad_request("default duration must be between 1 and 120 years"));
    }
    Ok(())
}

/// A value trimmed, and none when nothing is left.
pub fn blank_to_none(value: Option<String>) -> (r: Option<String>)
    ensures
        match value {
            Some(v) => if trimmed(v@).len() == 0 {
                r is None
            } else {
                r matches Some(t) && t@ == trimmed(v@)
            },
            None => r is None,
        },
{
    match value {
        Some(v) => {
            let t = trim(v.as_str());
            if t.unicode_len() == 0 {
                None
            } else {
                Some(owned(t))
            }
        },
        None => None,
    }
}

/// A civil date as `jiff` reads it: its canonical text and its parts.
pub struct CivilDate {
    pub text: String,
    pub year: i16,
    pub month: i8,
    pub day: i8,
}

/// What `jiff::civil::Date` makes of a text: its canonical form, year,
/// month and day, or the parser's error message.
pub uninterp spec fn date_parse(text: Seq<char>) -> Result<(Seq<char>, int, int, int), Seq<char>>;

pub open spec fn date_text(text: Seq<char>) -> Result<Seq<char>, Seq<char>> {
    match date_parse(text) {
        Ok((t, _, _, _)) => Ok(t),
        Err(e) => Err(e),
    }
}

/// Parses a text as a `jiff::civil::Date` and reads it back: its `Display`
/// text and its `year`, `month` and `day`; or gives the error's text.
/// Claims that the result is the one `date_parse` names.
#[verifier::external_body]
pub(crate) fn parse_civil_date(text: &str) -> (r: Result<CivilDate, String>)
    ensures
        match (r, date_parse(text@)) {
            (Ok(d), Ok((t, y, m, dd))) => d.text@ == t && d.year == y && d.month == m && d.day == dd,
            (Err(e), Err(x)) => e@ == x,
            _ => false,
        },
{
    match text.parse::<jiff::civil::Date>() {
        Ok(d) => Ok(CivilDate { text: d.to_string(), year: d.year(), month: d.month(), day: d.day() }),
        Err(e) => Err(e.to_string()),
    }
}

/// A date field in its canonical form, or why it is not one: the message
/// names the field and quotes the text.
pub fn date_field(text: &str, label: &str) -> (r: Result<String, ApiError>)
    ensures
        match date_text(text@) {
            Ok(d) => r matches Ok(s) && s@ == d,
            Err(e) => r matches Err(ApiError::BadRequest(m)) && m@ == "invalid "@ + label@ + " '"@
                + text@ + "': "@ + e,
        },
{
    match parse_civil_date(text) {
        Ok(d) => Ok(d.text),
        Err(e) => {
            let mut m = joined("invalid ", label);
            m.append(" '");
            m.append(text);
            m.append("': ");
            m.append(e.as_str());
            Err(ApiError::BadRequest(m))
        },
    }
}

/// A birth date in its canonical form, or why it is not one.
pub fn validate_date(text: &str) -> (r: Result<String, ApiError>)
    ensures
        match date_text(text@) {
            Ok(d) => r matches Ok(s) && s@ == d,
            Err(e) => r matches Err(ApiError::BadRequest(m)) && m@ == "invalid birth_date '"@
                + text@ + "': "@ + e,
        },
{
    proof {
        reveal_strlit("invalid ");
        reveal_strlit("birth_date");
        reveal_strlit(" '");
        reveal_strlit("invalid birth_date '");
        assert("invalid "@ + "birth_date"@ + " '"@ == "invalid birth_date '"@);
    }
    date_field(text, "birth_date")
}

/// The profile as stored: blank fields cleared, a birth date in canonical
/// form.
pub fn normalize_profile(body: UpdateUserProfile) -> (r: Result<(Option<String>, Option<String>), ApiError>)
    ensures
        ({
            let date = match body.birth_date {
                Some(v) => if trimmed(v@).len() == 0 {
                    None
                } else {
                    Some(trimmed(v@))
                },
                None => None,
            };
            match r {
                Ok((name, birth)) => {
                    &&& match body.display_name {
                        Some(v) => if trimmed(v@).len() == 0 {
                            name is None
                        } else {
                            name matches Some(t) && t@ == trimmed(v@)
                        },
                        None => name is None,
                    }
                    &&& match date {
                        Some(d) => date_text(d) is Ok && (birth matches Some(b) && b@
                            == date_text(d)->Ok_0),
                        None => birth is None,
                    }
                },
                Err(e) => date is Some && date_text(date->0) is Err && (e matches ApiError::BadRequest(
                    m,
                ) && m@ == "invalid birth_date '"@ + date->0 + "': "@ + date_text(date->0)->Err_0),
            }
        }),
{
    let display_name = blank_to_none(body.display_name);
    let birth_date = match blank_to_none(body.birth_date) {
        Some(date) => Some(validate_date(date.as_str())?),
        None => None,
    };
    Ok((display_name, birth_date))
}

/// Every session token the cookie header carries under the session cookie's
/// name, so logging out revokes each of them.
pub open spec fn cookie_tokens(pairs: Seq<Seq<char>>) -> Seq<Seq<char>>
    decreases pairs.len(),
{
    if pairs.len() == 0 {
        Seq::empty()
    } else {
        let before = cookie_tokens(pairs.drop_last());
        let p = trimmed(pairs.last());
        let name = "finplan_session="@;
        if name.len() < p.len() && p.subrange(0, name.len() as int) == name {
            before.push(p.subrange(name.len() as int, p.len() as int))
        } else {
            before
        }
    }
}

pub fn logout_tokens(cookie: &str) -> (r: Vec<String>)
    ensures
        views(r@) == cookie_tokens(crate::text::split_on(cookie@, ';')),
{
    let pairs = split_char(cookie, ';');
    let mut out: Vec<String> = Vec::new();
    let mut i: usize = 0;
    while i < pairs.len()
        invariant
            i <= pairs@.len(),
            views(out@) == cookie_tokens(views(pairs@).subrange(0, i as int)),
        decreases pairs@.len() - i,
    {
        assert(views(pairs@).subrange(0, i + 1).drop_last() == views(pairs@).subrange(0, i as int));
        assert(views(pairs@).subrange(0, i + 1).last() == pairs@[i as int]@);
        let pair = trim(pairs[i].as_str());
        if let Some(value) = strip_prefix(pair, "finplan_session=") {
            if value.unicode_len() > 0 {
                let ghost before = out@;
                out.push(owned(value));
                assert(views(out@) == views(before).push(value@));
            }
        }
        i = i + 1;
    }
    assert(views(pairs@).subrange(0, pairs@.len() as int) == views(pairs@));
    out
}

} // verus!
