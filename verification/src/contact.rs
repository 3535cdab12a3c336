//! Private contact messages from signed-in users.
use vstd::prelude::*;

use crate::error::{owned, ApiError};
use crate::text::{trim, trimmed};

verus! {

pub const MAX_MESSAGE_CHARS: usize = 2_000;

pub const MAX_MESSAGES_PER_HOUR: i64 = 5;

pub const RETRY_AFTER_SECONDS: u64 = 3600;

#[derive(Debug, Clone, Copy, PartialEq, Eq, Structural)]
pub enum ContactTopic {
    Question,
    Feedback,
    BugReport,
}

impl ContactTopic {
    pub fn as_str(self) -> (r: &'static str)
        ensures
            r@ == (match self {
                ContactTopic::Question => "question"@,
                ContactTopic::Feedback => "feedback"@,
                ContactTopic::BugReport => "bug_report"@,
            }),
    {
        match self {
            ContactTopic::Question => "question",
            ContactTopic::Feedback => "feedback",
            ContactTopic::BugReport => "bug_report",
        }
    }
}

pub struct CreateContactMessage {
    pub topic: ContactTopic,
    pub message: String,
}

#[derive(Debug, Clone, Copy, PartialEq, Eq, Structural)]
pub enum ContactMessageStatus {
    New,
    Reviewed,
    Closed,
}

pub struct ContactMessageReceipt {
    pub id: i64,
    pub topic: ContactTopic,
    pub status: ContactMessageStatus,
    pub created_at: String,
}

/// The message as stored: trimmed, not empty, at most 2 000 characters.
pub fn prepare_message(message: &str) -> (r: Result<&str, ApiError>)
    ensures
        trimmed(message@).len() == 0 ==> (r matches Err(ApiError::BadRequest(m)) && m@
            == "message cannot be empty"@),
        trimmed(message@).len() > MAX_MESSAGE_CHARS ==> (r matches Err(ApiError::BadRequest(m))
            && m@ == "message cannot exceed 2000 characters"@),
        0 < trimmed(message@).len() <= MAX_MESSAGE_CHARS ==> (r matches Ok(t) && t@ == trimmed(
            message@,
        )),
{
    let t = trim(message);
    let n = t.unicode_len();
    if n == 0 {
        return Err(ApiError::bad_request("message cannot be empty"));
    }
    if n > MAX_MESSAGE_CHARS {
        return Err(ApiError::bad_request("message cannot exceed 2000 characters"));
    }
    Ok(t)
}

/// A refusal to take more messages, with how long to wait.
pub struct RateLimited {
    pub message: String,
    pub retry_after_seconds: u64,
}

/// At most five messages an hour per account; `recent` is how many the
/// account sent in the last hour.
pub fn check_contact_rate(recent: i64) -> (r: Result<(), RateLimited>)
    ensures
        r is Ok <==> recent < MAX_MESSAGES_PER_HOUR,
        r matches Err(l) ==> l.message@ == "Too many messages. Try again in an hour."@
            && l.retry_after_seconds == RETRY_AFTER_SECONDS,
{
    if recent >= MAX_MESSAGES_PER_HOUR {
        return Err(
            RateLimited {
                message: owned("Too many messages. Try again in an hour."),
                retry_after_seconds: RETRY_AFTER_SECONDS,
            },
        );
    }
    Ok(())
}

} // verus!
