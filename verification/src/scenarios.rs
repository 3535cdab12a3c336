//! Plans: what creating, updating and duplicating one checks.
use vstd::prelude::*;

use crate::auth::routes::{date_field, date_text};
use crate::error::{owned, ApiError};
use crate::text::{trim, trimmed};

verus! {

pub struct CreateScenario {
    pub name: String,
    pub description: Option<String>,
    pub start_date: String,
    pub birth_date: Option<String>,
    pub duration_years: i64,
    pub inflation_profile_id: Option<i64>,
    pub tax_config_id: Option<i64>,
}

pub struct UpdateScenario {
    pub name: Option<String>,
    pub description: Option<String>,
    pub start_date: Option<String>,
    pub birth_date: Option<String>,
    pub duration_years: Option<i64>,
    pub inflation_profile_id: Option<i64>,
    pub tax_config_id: Option<i64>,
    pub collect_ledger: Option<bool>,
}

pub struct DuplicateRequest {
    pub name: String,
}

/// What compiling a plan reports.
pub struct CompileReport {
    pub ok: bool,
    pub accounts: usize,
    pub assets: usize,
    pub events: usize,
    pub return_profiles: usize,
    pub duration_years: usize,
}

/// A plan runs thirty years unless it says otherwise.
pub fn default_duration() -> (r: i64)
    ensures
        r == 30,
{
    30
}

/// What a new plan's dates and name are stored as.
pub struct NewScenarioFields {
    pub name: String,
    pub start_date: String,
    pub birth_date: Option<String>,
}

pub open spec fn name_error() -> Seq<char> {
    "scenario name cannot be empty"@
}

/// A new plan's start date and birth date in canonical form and its name
/// trimmed; the dates are checked first, then the name.
pub fn check_new_scenario(body: &CreateScenario) -> (r: Result<NewScenarioFields, ApiError>)
    ensures
        match r {
            Ok(f) => date_text(body.start_date@) is Ok && f.start_date@ == date_text(body.start_date@)->Ok_0
                && match body.birth_date {
                    Some(b) => date_text(b@) is Ok && (f.birth_date matches Some(x) && x@ == date_text(b@)->Ok_0),
                    None => f.birth_date is None,
                } && trimmed(body.name@).len() > 0 && f.name@ == trimmed(body.name@),
            Err(e) => if date_text(body.start_date@) is Err {
                e matches ApiError::BadRequest(m) && m@ == "invalid start_date '"@ + body.start_date@
                    + "': "@ + date_text(body.start_date@)->Err_0
            } else if body.birth_date is Some && date_text(body.birth_date->0@) is Err {
                e matches ApiError::BadRequest(m) && m@ == "invalid birth_date '"@ + body.birth_date->0@
                    + "': "@ + date_text(body.birth_date->0@)->Err_0
            } else {
                trimmed(body.name@).len() == 0 && (e matches ApiError::BadRequest(m) && m@ == name_error())
            },
        },
{
    proof {
        reveal_strlit("invalid ");
        reveal_strlit("start_date");
        reveal_strlit("birth_date");
        reveal_strlit(" '");
        reveal_strlit("invalid start_date '");
        reveal_strlit("invalid birth_date '");
        assert("invalid "@ + "start_date"@ + " '"@ == "invalid start_date '"@);
        assert("invalid "@ + "birth_date"@ + " '"@ == "invalid birth_date '"@);
    }
    let start_date = date_field(body.start_date.as_str(), "start_date")?;
    let birth_date = match &body.birth_date {
        Some(b) => Some(date_field(b.as_str(), "birth_date")?),
        None => None,
    };
    let name = trim(body.name.as_str());
    if name.unicode_len() == 0 {
        return Err(ApiError::bad_request("scenario name cannot be empty"));
    }
    Ok(NewScenarioFields { name: owned(name), start_date, birth_date })
}

/// An update may leave the name alone but not blank it.
pub fn check_update_name(name: Option<&str>) -> (r: Result<(), ApiError>)
    ensures
        r is Ok <==> !(name matches Some(n) && trimmed(n@).len() == 0),
        r is Err ==> (r matches Err(ApiError::BadRequest(m)) && m@ == name_error()),
{
    if let Some(n) = name {
        if trim(n).unicode_len() == 0 {
            return Err(ApiError::bad_request("scenario name cannot be empty"));
        }
    }
    Ok(())
}

/// An assumption a plan names must be one of the caller's own.
pub fn check_assumption_owned(found: bool) -> (r: Result<(), ApiError>)
    ensures
        r is Ok <==> found,
        r is Err ==> (r matches Err(ApiError::BadRequest(m)) && m@
            == "assumption must belong to your account"@),
{
    if found {
        Ok(())
    } else {
        Err(ApiError::bad_request("assumption must belong to your account"))
    }
}

/// A write that touched no row of the caller's is a miss.
pub fn check_affected(affected: u64, what: &'static str) -> (r: Result<(), ApiError>)
    ensures
        r is Ok <==> affected > 0,
        r is Err ==> r == Err::<(), ApiError>(ApiError::NotFound(what)),
{
    if affected == 0 {
        Err(ApiError::NotFound(what))
    } else {
        Ok(())
    }
}

} // verus!
