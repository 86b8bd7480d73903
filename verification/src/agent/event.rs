use vstd::prelude::*;

verus! {

/// How a tool call ended.
#[derive(Debug, Clone, Copy, PartialEq, Eq, Structural)]
pub enum ToolResultStatus {
    Success,
    Error,
}

/// One item of an event. Tool-call arguments are held as the JSON text that
/// serde_json prints for them.
pub enum ContentItem {
    Message { role: String, content: String },
    ToolCall { tool_call_id: String, name: String, arguments: String },
    ToolResult { tool_call_id: String, name: String, status: ToolResultStatus, content: String },
}

/// Something that happened during an execution.
pub struct Event {
    pub id: String,
    pub execution_id: String,
    pub timestamp: i64,
    pub author: String,
    pub content: Vec<ContentItem>,
}

/// A fresh random identifier: `uuid::Uuid::new_v4()` printed with its
/// `Display` impl (hyphenated lower-case hex, 36 characters). Only the length
/// is claimed; the value is random. The crate panics when the system gives no
/// random bytes, which no precondition can rule out.
#[verifier::external_body]
pub(crate) fn new_uuid() -> (r: String)
    ensures
        r@.len() == 36,
{
    uuid::Uuid::new_v4().to_string()
}

/// The current time in milliseconds since the Unix epoch:
/// `chrono::DateTime::<chrono::Utc>::from(std::time::SystemTime::now())`
/// then `timestamp_millis`. Nothing is claimed of the value, which depends on
/// the clock. Unlike `Utc::now`, the conversion takes clock readings before
/// 1970 as negative times; it fails only for a reading beyond chrono's range
/// of about 262,000 years around year 0.
#[verifier::external_body]
pub(crate) fn now_millis() -> (t: i64) {
    chrono::DateTime::<chrono::Utc>::from(std::time::SystemTime::now()).timestamp_millis()
}

impl Event {
    /// A new event with a fresh id and the current time.
    pub fn new(execution_id: String, author: String, content: Vec<ContentItem>) -> (e: Event)
        ensures
            e.execution_id == execution_id,
            e.author == author,
            e.content == content,
            e.id@.len() == 36,
    {
        Event { id: new_uuid(), execution_id, timestamp: now_millis(), author, content }
    }
}

} // verus!
