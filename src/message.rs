//! What a watch session hands to its owner.

use vstd::prelude::*;
use crate::text::strings_view;

verus! {

/// One item of a session's output stream.
#[derive(Debug, PartialEq, Eq)]
pub enum Message {
    /// Lines appended to the file being followed, in file order.
    NewLines(Vec<String>),
    /// The session switched to this file: what was gathered before is stale.
    NewFile(String),
}

/// A message as the contracts see it.
pub enum MessageView {
    NewLines(Seq<Seq<char>>),
    NewFile(Seq<char>),
}

impl View for Message {
    type V = MessageView;

    open spec fn view(&self) -> MessageView {
        match self {
            Message::NewLines(v) => MessageView::NewLines(strings_view(v@)),
            Message::NewFile(p) => MessageView::NewFile(p@),
        }
    }
}

} // verus!
