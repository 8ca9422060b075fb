//! Chat messages as the transcript archive delivers them.

use vstd::prelude::*;
use crate::decimal::{decimal_i64, parse_i64};

verus! {

/// One message of a chat transcript.
#[derive(Debug, Clone, PartialEq, Eq)]
pub struct ChatMessage {
    /// The name under which the sender appears in chat.
    pub display_name: String,
    /// The message body.
    pub text: String,
    /// The send time as the archive tags it: epoch milliseconds in decimal.
    pub sent_at_tag: String,
}

/// The mathematical content of a [`ChatMessage`].
pub struct MessageView {
    pub display_name: Seq<char>,
    pub text: Seq<char>,
    pub sent_at_tag: Seq<char>,
}

impl View for ChatMessage {
    type V = MessageView;

    open spec fn view(&self) -> MessageView {
        MessageView {
            display_name: self.display_name@,
            text: self.text@,
            sent_at_tag: self.sent_at_tag@,
        }
    }
}

impl MessageView {
    /// The send time in epoch milliseconds, where the tag denotes one.
    pub open spec fn sent_at(self) -> Option<i64> {
        decimal_i64(self.sent_at_tag)
    }
}

impl ChatMessage {
    /// A message with the given sender, body and send-time tag.
    pub fn new(display_name: String, text: String, sent_at_tag: String) -> (m: ChatMessage)
        ensures
            m@.display_name == display_name@,
            m@.text == text@,
            m@.sent_at_tag == sent_at_tag@,
    {
        ChatMessage { display_name, text, sent_at_tag }
    }

    /// The send time in epoch milliseconds, read from the tag on demand.
    /// `None` where the tag is not a decimal integer in the range of `i64`.
    pub fn sent_at_epoch_millis(&self) -> (r: Option<i64>)
        ensures
            r == self@.sent_at(),
    {
        parse_i64(self.sent_at_tag.as_str())
    }
}

} // verus!
