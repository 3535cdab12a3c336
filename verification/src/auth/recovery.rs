//! Password reset and address verification tokens: the decisions around
//! issuing and consuming them.
use vstd::prelude::*;

use crate::error::{owned, ApiError};

verus! {

/// How long an issued token stays valid, in seconds.
pub const TOKEN_TTL_SECONDS: i64 = 1800;

/// Where recovery mail goes: the local sink (never on a hosted deployment),
/// else the configured mail service; with neither, issuing is refused.
pub fn mail_route<'a>(hosted: bool, local_sink: Option<&'a str>, mail_available: bool) -> (r: Result<
    Option<&'a str>,
    ApiError,
>)
    ensures
        ({
            let sink = if hosted {
                None
            } else {
                local_sink
            };
            &&& r is Ok <==> (sink is Some || mail_available)
            &&& r matches Ok(s) ==> s == sink
            &&& r is Err ==> (r matches Err(ApiError::Conflict(m)) && m@
                == "Email delivery is not configured. Contact the service operator."@)
        }),
{
    let sink = if hosted {
        None
    } else {
        local_sink
    };
    if sink.is_none() && !mail_available {
        return Err(
            ApiError::Conflict(owned("Email delivery is not configured. Contact the service operator.")),
        );
    }
    Ok(sink)
}

/// A token is good once: it must have matched an unexpired row, and the
/// account it was issued for must still have the address it was sent to.
pub fn check_token(matched: bool, updated_rows: u64) -> (r: Result<(), ApiError>)
    ensures
        r is Ok <==> (matched && updated_rows == 1),
        r is Err ==> (r matches Err(ApiError::BadRequest(m)) && m@ == "invalid or expired token"@),
{
    if !matched || updated_rows != 1 {
        return Err(ApiError::bad_request("invalid or expired token"));
    }
    Ok(())
}

/// A reset needs the new password's hash.
pub fn reset_hash(hash: Option<&str>) -> (r: Result<&str, ApiError>)
    ensures
        match hash {
            Some(h) => r == Ok::<&str, ApiError>(h),
            None => r matches Err(ApiError::BadRequest(m)) && m@ == "password is required"@,
        },
{
    match hash {
        Some(h) => Ok(h),
        None => Err(ApiError::bad_request("password is required")),
    }
}

} // verus!
