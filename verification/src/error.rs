//! The API's error type, its HTTP status and code, and the message a client
//! is shown.
use vstd::prelude::*;

verus! {

/// What a failed database statement reported, as far as the API cares: a
/// foreign-key violation, a UNIQUE violation, or anything else, each with the
/// driver's own description.
#[derive(Debug)]
pub enum DbFailure {
    ForeignKeyViolation(String),
    UniqueViolation(String),
    Other(String),
}

impl DbFailure {
    pub open spec fn detail(&self) -> Seq<char> {
        match self {
            DbFailure::ForeignKeyViolation(s) => s@,
            DbFailure::UniqueViolation(s) => s@,
            DbFailure::Other(s) => s@,
        }
    }
}

#[derive(Debug)]
pub enum ApiError {
    BadRequest(String),
    Unauthorized,
    Forbidden(String),
    NotFound(&'static str),
    Conflict(String),
    /// The stored scenario cannot be lowered into a simulation.
    Unprocessable(String),
    Database(DbFailure),
    Internal(String),
}

/// A foreign-key violation means the caller named a row that does not exist,
/// which is the request's fault, not the server's.
pub open spec fn dangling(e: ApiError) -> bool {
    e matches ApiError::Database(DbFailure::ForeignKeyViolation(_))
}

pub open spec fn status_of(e: ApiError) -> u16 {
    if dangling(e) {
        400
    } else {
        match e {
            ApiError::BadRequest(_) => 400,
            ApiError::Unauthorized => 401,
            ApiError::Forbidden(_) => 403,
            ApiError::NotFound(_) => 404,
            ApiError::Conflict(_) => 409,
            ApiError::Unprocessable(_) => 422,
            ApiError::Database(_) => 500,
            ApiError::Internal(_) => 500,
        }
    }
}

pub open spec fn code_of(e: ApiError) -> Seq<char> {
    if dangling(e) {
        "bad_request"@
    } else {
        match e {
            ApiError::BadRequest(_) => "bad_request"@,
            ApiError::Unauthorized => "unauthorized"@,
            ApiError::Forbidden(_) => "forbidden"@,
            ApiError::NotFound(_) => "not_found"@,
            ApiError::Conflict(_) => "conflict"@,
            ApiError::Unprocessable(_) => "unprocessable"@,
            ApiError::Database(_) => "internal"@,
            ApiError::Internal(_) => "internal"@,
        }
    }
}

/// The error's own description, as a log line would show it.
pub open spec fn describe(e: ApiError) -> Seq<char> {
    match e {
        ApiError::BadRequest(m) => m@,
        ApiError::Unauthorized => "authentication required"@,
        ApiError::Forbidden(m) => m@,
        ApiError::NotFound(what) => what@ + " not found"@,
        ApiError::Conflict(m) => m@,
        ApiError::Unprocessable(m) => m@,
        ApiError::Database(d) => "database error: "@ + d.detail(),
        ApiError::Internal(m) => "internal error: "@ + m@,
    }
}

/// What the client is told: database and internal failures may carry
/// implementation detail, so they read as a generic message.
pub open spec fn client_text(e: ApiError) -> Seq<char> {
    if dangling(e) {
        "a referenced account, asset or event does not exist"@
    } else {
        match e {
            ApiError::Database(_) => "internal server error"@,
            ApiError::Internal(_) => "internal server error"@,
            _ => describe(e),
        }
    }
}

/// The JSON body of an error response.
pub struct ErrorBody {
    pub error: ErrorDetail,
}

pub struct ErrorDetail {
    pub code: &'static str,
    pub message: String,
}

/// A fresh string holding `s`.
pub fn owned(s: &str) -> (r: String)
    ensures
        r@ == s@,
{
    String::from_str(s)
}

/// A fresh string holding `a` followed by `b`.
pub fn joined(a: &str, b: &str) -> (r: String)
    ensures
        r@ == a@ + b@,
{
    let mut r = String::from_str(a);
    r.append(b);
    r
}

impl ApiError {
    pub fn bad_request(msg: &str) -> (e: ApiError)
        ensures
            e matches ApiError::BadRequest(m) && m@ == msg@,
    {
        ApiError::BadRequest(owned(msg))
    }

    pub fn unprocessable(msg: &str) -> (e: ApiError)
        ensures
            e matches ApiError::Unprocessable(m) && m@ == msg@,
    {
        ApiError::Unprocessable(owned(msg))
    }

    pub fn internal(msg: &str) -> (e: ApiError)
        ensures
            e matches ApiError::Internal(m) && m@ == msg@,
    {
        ApiError::Internal(owned(msg))
    }

    pub fn is_dangling_reference(&self) -> (r: bool)
        ensures
            r == dangling(*self),
    {
        match self {
            ApiError::Database(DbFailure::ForeignKeyViolation(_)) => true,
            _ => false,
        }
    }

    /// The HTTP status the error is answered with.
    pub fn status(&self) -> (r: u16)
        ensures
            r == status_of(*self),
    {
        if self.is_dangling_reference() {
            return 400;
        }
        match self {
            ApiError::BadRequest(_) => 400,
            ApiError::Unauthorized => 401,
            ApiError::Forbidden(_) => 403,
            ApiError::NotFound(_) => 404,
            ApiError::Conflict(_) => 409,
            ApiError::Unprocessable(_) => 422,
            ApiError::Database(_) => 500,
            ApiError::Internal(_) => 500,
        }
    }

    /// The machine-readable code of the error body.
    pub fn code(&self) -> (r: &'static str)
        ensures
            r@ == code_of(*self),
    {
        if self.is_dangling_reference() {
            return "bad_request";
        }
        match self {
            ApiError::BadRequest(_) => "bad_request",
            ApiError::Unauthorized => "unauthorized",
            ApiError::Forbidden(_) => "forbidden",
            ApiError::NotFound(_) => "not_found",
            ApiError::Conflict(_) => "conflict",
            ApiError::Unprocessable(_) => "unprocessable",
            ApiError::Database(_) => "internal",
            ApiError::Internal(_) => "internal",
        }
    }

    /// The error's own description (what `Display` would print).
    pub fn describe(&self) -> (r: String)
        ensures
            r@ == describe(*self),
    {
        match self {
            ApiError::BadRequest(m) => m.clone(),
            ApiError::Unauthorized => owned("authentication required"),
            ApiError::Forbidden(m) => m.clone(),
            ApiError::NotFound(what) => joined(what, " not found"),
            ApiError::Conflict(m) => m.clone(),
            ApiError::Unprocessable(m) => m.clone(),
            ApiError::Database(d) => {
                let detail = match d {
                    DbFailure::ForeignKeyViolation(s) => s,
                    DbFailure::UniqueViolation(s) => s,
                    DbFailure::Other(s) => s,
                };
                joined("database error: ", detail.as_str())
            },
            ApiError::Internal(m) => joined("internal error: ", m.as_str()),
        }
    }

    /// The body a client receives for this error.
    pub fn body(&self) -> (b: ErrorBody)
        ensures
            b.error.code@ == code_of(*self),
            b.error.message@ == client_text(*self),
    {
        let code = self.code();
        if self.is_dangling_reference() {
            return ErrorBody {
                error: ErrorDetail {
                    code,
                    message: owned("a referenced account, asset or event does not exist"),
                },
            };
        }
        let message = match self {
            ApiError::Database(_) => owned("internal server error"),
            ApiError::Internal(_) => owned("internal server error"),
            _ => self.describe(),
        };
        ErrorBody { error: ErrorDetail { code, message } }
    }
}

/// A UNIQUE-constraint violation becomes a conflict with the caller's message;
/// any other failure stays a database error.
pub fn on_unique_violation(err: DbFailure, msg: &str) -> (e: ApiError)
    ensures
        (err matches DbFailure::UniqueViolation(_)) ==> (e matches ApiError::Conflict(m) && m@
            == msg@),
        !(err matches DbFailure::UniqueViolation(_)) ==> e == ApiError::Database(err),
{
    match err {
        DbFailure::UniqueViolation(_) => ApiError::Conflict(owned(msg)),
        other => ApiError::Database(other),
    }
}

} // verus!
