//! The lines a bridge prints on its output: ordinary lines that go to its log
//! file, and the JSON activity reports that drive the tray animation.
use vstd::prelude::*;
use serde_json::Value;
use crate::text::{has_prefix, starts_with};
use crate::tray::{heartbeat_stamp, is_active_at};

verus! {

/// `serde_json::Value`, carried through opaquely.
#[verifier::external_type_specification]
#[verifier::external_body]
pub struct ExJsonValue(Value);

/// The JSON value that `serde_json::from_str::<Value>` reads from `text`, or
/// `None` where `text` is not one JSON document.
pub uninterp spec fn json_document(text: Seq<char>) -> Option<Value>;

/// The member `key` of the JSON object `value` (`None` when `value` is not an
/// object or has no such member), as `Value::get` finds it.
pub uninterp spec fn json_member(value: Value, key: Seq<char>) -> Option<Value>;

/// The integer that `Value::as_i64` reads from `value`, if any.
pub uninterp spec fn json_integer(value: Value) -> Option<i64>;

/// Reads one JSON document.
///
/// Trusted: wraps `serde_json::from_str::<Value>`; the result is a function of
/// the text alone, named `json_document`. A parse error becomes `None`.
#[verifier::external_body]
fn parse_json(text: &str) -> (r: Option<Value>)
    ensures
        r == json_document(text@),
{
    serde_json::from_str::<Value>(text).ok()
}

/// Looks up a member of a JSON object.
///
/// Trusted: wraps `Value::get` with a string key, whose documentation says it
/// returns `None` when the value is not an object or the key is missing; the
/// member found is named `json_member`.
#[verifier::external_body]
fn json_get<'a>(value: &'a Value, key: &str) -> (r: Option<&'a Value>)
    ensures
        match r {
            Some(m) => json_member(*value, key@) == Some(*m),
            None => json_member(*value, key@) is None,
        },
{
    value.get(key)
}

/// Reads a JSON integer that fits in `i64`.
///
/// Trusted: wraps `Value::as_i64` ("if the Value is an integer, represent it
/// as i64 if possible; returns None otherwise"); the result is named
/// `json_integer`.
#[verifier::external_body]
fn json_as_i64(value: &Value) -> (r: Option<i64>)
    ensures
        r == json_integer(*value),
{
    value.as_i64()
}

/// The start of every activity report a bridge prints.
pub open spec fn activity_prefix() -> Seq<char> {
    "{\"type\":\"tool_activity"@
}

/// What becomes of one line of a bridge's output.
#[derive(PartialEq, Eq, Structural, Clone, Copy, Debug)]
pub enum PipeLine {
    /// An empty line: dropped.
    Skip,
    /// An activity report: read for the tray, not logged.
    Activity,
    /// Any other line: written to the log file.
    Record,
}

/// The kind of an output line.
pub open spec fn pipe_line_kind(line: Seq<char>) -> PipeLine {
    if line.len() == 0 {
        PipeLine::Skip
    } else if has_prefix(line, activity_prefix()) {
        PipeLine::Activity
    } else {
        PipeLine::Record
    }
}

/// Sorts one line of a bridge's output.
pub fn classify_pipe_line(line: &str) -> (k: PipeLine)
    ensures
        k == pipe_line_kind(line@),
{
    if line.is_empty() {
        PipeLine::Skip
    } else if starts_with(line, "{\"type\":\"tool_activity") {
        PipeLine::Activity
    } else {
        PipeLine::Record
    }
}

/// The number of running tools an activity report gives, from the integer
/// read from its `active` member (cut to 32 bits as the tray keeps it).
pub fn activity_level_from(active: Option<i64>) -> (r: Option<i32>)
    ensures
        r == match active {
            Some(n) => Some(n as i32),
            None => None::<i32>,
        },
{
    match active {
        Some(n) => Some(n as i32),
        None => None,
    }
}

/// The number of running tools that the JSON report `line` gives.
pub open spec fn activity_level_of(line: Seq<char>) -> Option<i32> {
    match json_document(line) {
        Some(v) => match json_member(v, "active"@) {
            Some(a) => match json_integer(a) {
                Some(n) => Some(n as i32),
                None => None,
            },
            None => None,
        },
        None => None,
    }
}

/// Reads the `active` count of an activity report: `None` when the line is
/// not JSON, has no `active` member, or that member is not an integer.
pub fn activity_level(line: &str) -> (r: Option<i32>)
    ensures
        r == activity_level_of(line@),
{
    match parse_json(line) {
        Some(v) => match json_get(&v, "active") {
            Some(a) => activity_level_from(json_as_i64(a)),
            None => None,
        },
        None => None,
    }
}


/// A report that parses as JSON with an integer `active` member `n` gives
/// exactly `n` when it fits in 32 bits, in particular a positive level for
/// every positive count. A report that is not JSON, has no `active` member or a non-integer
/// one gives no level. A positive level stamps the heartbeat with the current
/// time (`now`, as `activity_stamp` records it), which keeps the tray active
/// at that moment.
pub proof fn lemma_activity_level_reads_count(line: Seq<char>, now: u64)
    ensures
        match json_document(line) {
            Some(v) => match json_member(v, "active"@) {
                Some(a) => match json_integer(a) {
                    Some(n) => {
                        &&& i32::MIN <= n <= i32::MAX ==> activity_level_of(line) == Some(n as i32)
                            && (activity_level_of(line)->0 as int) == n as int
                        &&& 0 < n <= i32::MAX ==> activity_level_of(line)->0 > 0
                    },
                    None => activity_level_of(line) is None,
                },
                None => activity_level_of(line) is None,
            },
            None => activity_level_of(line) is None,
        },
        match activity_level_of(line) {
            Some(level) => level > 0 && now > 0 ==> is_active_at(heartbeat_stamp(level, now), now),
            None => true,
        },
{
}

} // verus!
