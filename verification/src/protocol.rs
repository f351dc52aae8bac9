//! The local request protocol: what agents may send and what they get back.

use vstd::prelude::*;

use crate::text::{
    blank, contains_line_break, has_line_break, is_blank, owned, same_text, utf8_len,
    utf8_len_exceeds,
};

verus! {

/// The largest request body the local service reads.
pub const MAX_REQUEST_BYTES: usize = 64 * 1024;

/// A request to the local service.
#[derive(Debug)]
pub enum Request {
    Health,
    Notify(Notification),
}

/// A progress report for one task. Mail routing is not part of it.
#[derive(Debug)]
pub struct Notification {
    pub task_id: String,
    pub status: Status,
    pub summary: String,
    pub details: Option<String>,
    pub progress: Option<u8>,
}

/// Where a task stands.
#[derive(Clone, Copy, Debug, PartialEq, Eq)]
pub enum Status {
    Started,
    Progress,
    Completed,
    Failed,
}

/// The service's answer to a request.
#[derive(Debug)]
pub struct Response {
    pub ok: bool,
    pub message: String,
}

/// The wire name of a status.
pub open spec fn status_name(status: Status) -> Seq<char> {
    match status {
        Status::Started => "started"@,
        Status::Progress => "progress"@,
        Status::Completed => "completed"@,
        Status::Failed => "failed"@,
    }
}

/// The status whose wire name is `value`, if any.
pub open spec fn status_named(value: Seq<char>) -> Option<Status> {
    if value == "started"@ {
        Some(Status::Started)
    } else if value == "progress"@ {
        Some(Status::Progress)
    } else if value == "completed"@ {
        Some(Status::Completed)
    } else if value == "failed"@ {
        Some(Status::Failed)
    } else {
        None
    }
}

/// The message for a text that names no status.
pub open spec fn unknown_status_message() -> Seq<char> {
    "status must be started, progress, completed, or failed"@
}

/// The most bytes a task id may take.
pub open spec fn max_task_id_bytes() -> nat {
    128
}

/// The most bytes a summary may take.
pub open spec fn max_summary_bytes() -> nat {
    512
}

/// The most bytes the details may take.
pub open spec fn max_details_bytes() -> nat {
    32 * 1024
}

/// The first rule that notification fields break, as the message the
/// service answers with; `None` when they keep them all.
pub open spec fn fields_problem(
    task_id: Seq<char>,
    summary: Seq<char>,
    details: Option<Seq<char>>,
    progress: Option<u8>,
) -> Option<Seq<char>> {
    if is_blank(task_id) || utf8_len(task_id) > max_task_id_bytes() {
        Some("task_id must contain 1 to 128 bytes"@)
    } else if has_line_break(task_id) {
        Some("task_id must not contain a newline"@)
    } else if is_blank(summary) || utf8_len(summary) > max_summary_bytes() {
        Some("summary must contain 1 to 512 bytes"@)
    } else if has_line_break(summary) {
        Some("summary must not contain a newline"@)
    } else if details is Some && utf8_len(details->0) > max_details_bytes() {
        Some("details must not exceed 32768 bytes"@)
    } else if progress is Some && progress->0 > 100 {
        Some("progress must be from 0 to 100"@)
    } else {
        None
    }
}

/// The optional text's characters.
pub open spec fn opt_view(s: Option<String>) -> Option<Seq<char>> {
    match s {
        Some(t) => Some(t@),
        None => None,
    }
}

/// The first rule a notification breaks, as the message the service
/// answers with; `None` when it keeps them all.
pub open spec fn notification_problem(n: Notification) -> Option<Seq<char>> {
    fields_problem(n.task_id@, n.summary@, opt_view(n.details), n.progress)
}

/// A notification that keeps every rule of the protocol.
pub open spec fn notification_is_valid(n: Notification) -> bool {
    notification_problem(n) is None
}

impl Notification {
    /// Checks the size and line rules of a notification, and answers with
    /// the message of the first rule it breaks.
    pub fn validate(&self) -> (r: Result<(), String>)
        ensures
            r is Ok <==> notification_is_valid(*self),
            r matches Err(m) ==> Some(m@) == notification_problem(*self),
    {
        if blank(self.task_id.as_str()) || utf8_len_exceeds(self.task_id.as_str(), 128) {
            return Err(owned("task_id must contain 1 to 128 bytes"));
        }
        if contains_line_break(self.task_id.as_str()) {
            return Err(owned("task_id must not contain a newline"));
        }
        if blank(self.summary.as_str()) || utf8_len_exceeds(self.summary.as_str(), 512) {
            return Err(owned("summary must contain 1 to 512 bytes"));
        }
        if contains_line_break(self.summary.as_str()) {
            return Err(owned("summary must not contain a newline"));
        }
        match &self.details {
            Some(details) => {
                if utf8_len_exceeds(details.as_str(), 32 * 1024) {
                    return Err(owned("details must not exceed 32768 bytes"));
                }
            },
            None => {},
        }
        match self.progress {
            Some(value) => {
                if value > 100 {
                    return Err(owned("progress must be from 0 to 100"));
                }
            },
            None => {},
        }
        Ok(())
    }
}

impl Status {
    /// The wire name of the status.
    pub fn as_str(self) -> (s: &'static str)
        ensures
            s@ == status_name(self),
    {
        match self {
            Status::Started => "started",
            Status::Progress => "progress",
            Status::Completed => "completed",
            Status::Failed => "failed",
        }
    }

    /// The status with the wire name `value`.
    pub fn parse(value: &str) -> (r: Result<Status, String>)
        ensures
            r matches Ok(s) ==> status_named(value@) == Some(s),
            r matches Err(m) ==> status_named(value@) is None && m@ == unknown_status_message(),
    {
        if same_text(value, "started") {
            Ok(Status::Started)
        } else if same_text(value, "progress") {
            Ok(Status::Progress)
        } else if same_text(value, "completed") {
            Ok(Status::Completed)
        } else if same_text(value, "failed") {
            Ok(Status::Failed)
        } else {
            Err(owned("status must be started, progress, completed, or failed"))
        }
    }
}

impl std::str::FromStr for Status {
    type Err = String;

    fn from_str(value: &str) -> (r: Result<Self, Self::Err>)
        ensures
            r matches Ok(s) ==> status_named(value@) == Some(s),
            r matches Err(m) ==> status_named(value@) is None && m@ == unknown_status_message(),
    {
        Status::parse(value)
    }
}

impl Response {
    /// A successful answer carrying `message`.
    pub fn ok(message: &str) -> (r: Response)
        ensures
            r.ok,
            r.message@ == message@,
    {
        Response { ok: true, message: owned(message) }
    }

    /// A refusal carrying `message`.
    pub fn error(message: &str) -> (r: Response)
        ensures
            !r.ok,
            r.message@ == message@,
    {
        Response { ok: false, message: owned(message) }
    }
}

proof fn lemma_utf8_len_at_least_len(s: Seq<char>)
    ensures
        utf8_len(s) >= s.len(),
    decreases s.len(),
{
    if s.len() > 0 {
        lemma_utf8_len_at_least_len(s.drop_last());
    }
}

proof fn lemma_not_blank_is_nonempty(s: Seq<char>)
    requires
        !is_blank(s),
    ensures
        utf8_len(s) >= 1,
{
    lemma_utf8_len_at_least_len(s);
}

/// A valid notification is bounded: a task id of 1 to 128 bytes and a
/// summary of 1 to 512 bytes, neither with a line break; details of at most
/// 32768 bytes; progress at most 100.
pub proof fn valid_notifications_are_bounded(n: Notification)
    requires
        notification_is_valid(n),
    ensures
        1 <= utf8_len(n.task_id@) <= 128,
        !has_line_break(n.task_id@),
        1 <= utf8_len(n.summary@) <= 512,
        !has_line_break(n.summary@),
        n.details matches Some(d) ==> utf8_len(d@) <= 32768,
        n.progress matches Some(p) ==> p <= 100,
{
    lemma_not_blank_is_nonempty(n.task_id@);
    lemma_not_blank_is_nonempty(n.summary@);
}

} // verus!
