//! Sessions: the bookkeeping of a conversation.

use vstd::prelude::*;
use vstd::string::*;

use crate::error::Result;
use crate::node::{fresh_id, now, Timestamp};
use crate::pathway::{parse_text, Pathway};

verus! {

/// Who said a message.
#[derive(Debug, Clone, Copy, PartialEq, Eq, Structural)]
pub enum MessageRole {
    User,
    Assistant,
    System,
}

/// A message of a conversation.
#[derive(Debug, Clone)]
pub struct Message {
    pub role: MessageRole,
    pub content: String,
    pub timestamp: Timestamp,
    pub contexts_used: Vec<String>,
}

/// A conversation session.
#[derive(Debug, Clone)]
pub struct Session {
    id: String,
    user: String,
    created_at: Timestamp,
    messages: Vec<Message>,
}

/// `Uuid`'s `to_string`: the hyphenated form of an identifier. Nothing
/// is claimed of it.
#[verifier::external_body]
fn id_text(id: &uuid::Uuid) -> (r: String) {
    id.to_string()
}

impl Session {
    /// The identifier of the session.
    pub closed spec fn id_spec(&self) -> Seq<char> {
        self.id@
    }

    /// The messages of the session, oldest first.
    pub closed spec fn messages_spec(&self) -> Seq<Message> {
        self.messages@
    }

    /// A session without messages, under `id` where it is given, else
    /// under a fresh identifier.
    pub fn new(id: Option<&str>) -> (r: Result<Session>)
        ensures
            r is Ok,
            r->Ok_0.messages_spec().len() == 0,
            id.is_some() ==> r->Ok_0.id_spec() == id.unwrap()@,
    {
        let id = match id {
            Some(given) => String::from_str(given),
            None => id_text(&fresh_id()),
        };
        Ok(
            Session {
                id,
                user: String::from_str("default"),
                created_at: now(),
                messages: Vec::new(),
            },
        )
    }

    /// The identifier of the session.
    pub fn id(&self) -> (r: &str)
        ensures
            r@ == self.id_spec(),
    {
        self.id.as_str()
    }

    /// Appends a message, stamped with the current time.
    pub fn add_message(&mut self, role: MessageRole, content: String)
        ensures
            final(self).id_spec() == old(self).id_spec(),
            final(self).messages_spec().len() == old(self).messages_spec().len() + 1,
            final(self).messages_spec().drop_last() == old(self).messages_spec(),
            final(self).messages_spec().last().role == role,
            final(self).messages_spec().last().content == content,
            final(self).messages_spec().last().contexts_used@.len() == 0,
    {
        let ghost before = self.messages@;
        self.messages.push(Message { role, content, timestamp: now(), contexts_used: Vec::new() });
        assert(self.messages@.drop_last() == before);
    }

    /// The messages of the session, oldest first.
    pub fn messages(&self) -> (r: &[Message])
        ensures
            r@ == self.messages_spec(),
    {
        self.messages.as_slice()
    }

    /// Closes the session under its pathway `a3s://session/` followed by
    /// its identifier; fails where that is no pathway.
    pub fn commit(&mut self) -> (r: Result<()>)
        ensures
            r is Ok <==> parse_text("a3s://session/"@ + old(self).id_spec()) is Ok,
            r is Err ==> r->Err_0 is InvalidPathway,
            *final(self) == *old(self),
    {
        let text = String::from_str("a3s://session/").concat(self.id.as_str());
        match Pathway::parse(text.as_str()) {
            Ok(_) => Ok(()),
            Err(e) => Err(e),
        }
    }
}

} // verus!
