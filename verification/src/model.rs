//! Contacts, conversations and messages, free of how a database lays them out.

use vstd::prelude::*;
use vstd::string::*;

verus! {

/// A person or a group.
#[derive(Debug, Clone)]
pub struct Contact {
    pub id: i64,
    /// The account name; that of a group ends in `@chatroom`.
    pub username: String,
    pub nickname: Option<String>,
    pub remark: Option<String>,
    pub alias: Option<String>,
    pub is_chatroom: bool,
}

/// A text that is there and not empty.
pub open spec fn is_given(text: Option<String>) -> bool {
    text is Some && text->0@.len() > 0
}

impl Contact {
    /// The remark, else the nickname, else the account name; empty texts are passed over.
    pub open spec fn shown_name(self) -> Seq<char> {
        if is_given(self.remark) {
            self.remark->0@
        } else if is_given(self.nickname) {
            self.nickname->0@
        } else {
            self.username@
        }
    }

    /// The contact has a remark or a nickname.
    pub fn has_name(&self) -> (r: bool)
        ensures
            r == (is_given(self.remark) || is_given(self.nickname)),
    {
        let by_remark = match &self.remark {
            Some(remark) => !remark.as_str().is_empty(),
            None => false,
        };
        by_remark || match &self.nickname {
            Some(nickname) => !nickname.as_str().is_empty(),
            None => false,
        }
    }

    /// The name to show for a contact.
    pub fn display_name(&self) -> (name: &str)
        ensures
            name@ == self.shown_name(),
    {
        if let Some(remark) = &self.remark {
            if !remark.as_str().is_empty() {
                return remark.as_str();
            }
        }
        if let Some(nickname) = &self.nickname {
            if !nickname.as_str().is_empty() {
                return nickname.as_str();
            }
        }
        self.username.as_str()
    }
}

/// A conversation and where its messages are kept.
#[derive(Debug, Clone)]
pub struct Conversation {
    pub username: String,
    /// The databases that hold a part of the conversation.
    pub db_stems: Vec<String>,
    /// The table of the conversation, the same in every database.
    pub table_name: String,
    pub msg_count: Option<i64>,
}

/// One stored message, without its text.
#[derive(Debug, Clone)]
pub struct Message {
    pub local_id: i64,
    /// The packed type code.
    pub msg_type: i64,
    /// Unix seconds.
    pub create_time: i64,
    pub sender_id: i64,
    /// Length of the text in characters.
    pub content_len: i64,
}

/// What the order of messages is analysed by.
#[derive(Debug, Clone, Copy, PartialEq, Eq, Structural)]
pub struct MessageFact {
    /// Unix seconds.
    pub create_time: i64,
    pub sender_id: i64,
    /// The type code without its subtype.
    pub base_type: i64,
}

/// A text message.
#[derive(Debug, Clone)]
pub struct TextMessage {
    /// Unix seconds.
    pub create_time: i64,
    pub sender_id: i64,
    /// The decoded text, where it could be decoded.
    pub text: Option<String>,
}

/// The sender is known to be oneself.
pub open spec fn from_self(self_id: Option<i64>, sender: i64) -> bool {
    self_id == Some(sender)
}

/// Whether a message is one's own; without an own id none is.
pub fn is_self(self_id: Option<i64>, sender: i64) -> (r: bool)
    ensures
        r == from_self(self_id, sender),
{
    match self_id {
        Some(me) => me == sender,
        None => false,
    }
}

}
