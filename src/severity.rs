//! How a terminal front end classifies a log line for colouring.

use vstd::prelude::*;
use crate::text::{occurs_in, text_contains};

verus! {

/// The kind of a log line, judged from the words it holds.
#[derive(Clone, Copy, Debug, PartialEq, Eq, Structural)]
pub enum MessageType {
    Normal,
    Debug,
    Warning,
    Error,
}

/// The kind of line `t`: the first of debug, warning and error whose marker
/// words occur in it; a line with none of them is normal.
pub open spec fn message_type_of(t: Seq<char>) -> MessageType {
    if occurs_in("DEBUG"@, t) || occurs_in("debug"@, t) {
        MessageType::Debug
    } else if occurs_in("WARNING"@, t) || occurs_in("WARN"@, t) || occurs_in("warning"@, t) {
        MessageType::Warning
    } else if occurs_in("ERROR"@, t) || occurs_in("ERR"@, t) || occurs_in("error"@, t)
        || occurs_in("Error"@, t) {
        MessageType::Error
    } else {
        MessageType::Normal
    }
}

/// Classifies one line.
pub fn get_message_type(msg: &String) -> (r: MessageType)
    ensures
        r == message_type_of(msg@),
{
    let t = msg.as_str();
    if text_contains(t, "DEBUG") || text_contains(t, "debug") {
        return MessageType::Debug;
    }
    if text_contains(t, "WARNING") || text_contains(t, "WARN") || text_contains(t, "warning") {
        return MessageType::Warning;
    }
    if text_contains(t, "ERROR") || text_contains(t, "ERR") || text_contains(t, "error")
        || text_contains(t, "Error") {
        return MessageType::Error;
    }
    MessageType::Normal
}

} // verus!
