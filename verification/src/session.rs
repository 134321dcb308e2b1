//! The session data model: chat messages, sessions, and their mathematical
//! views.

use vstd::prelude::*;

verus! {

/// One chat turn as stored in a session: the user's text or the assistant's
/// reply. No other role is ever persisted.
pub enum ChatMessage {
    User(String),
    Assistant(String),
}

/// Mathematical image of a `ChatMessage`.
pub ghost enum MessageView {
    User(Seq<char>),
    Assistant(Seq<char>),
}

impl View for ChatMessage {
    type V = MessageView;

    open spec fn view(&self) -> MessageView {
        match self {
            ChatMessage::User(s) => MessageView::User(s@),
            ChatMessage::Assistant(s) => MessageView::Assistant(s@),
        }
    }
}

impl Clone for ChatMessage {
    fn clone(&self) -> (r: Self)
        ensures
            r@ == self@,
    {
        match self {
            ChatMessage::User(s) => ChatMessage::User(s.clone()),
            ChatMessage::Assistant(s) => ChatMessage::Assistant(s.clone()),
        }
    }
}

/// A chat session: an opaque 128-bit identifier, two timestamps in
/// milliseconds since the Unix epoch, and the full ordered message history.
/// `created_at` is stamped once when the session is first created and never
/// changes afterwards; `last_active` moves on every mutation.
pub struct Session {
    pub id: u128,
    pub created_at: i64,
    pub last_active: i64,
    pub messages: Vec<ChatMessage>,
}

/// Mathematical image of a `Session`.
pub ghost struct SessionView {
    pub id: u128,
    pub created_at: i64,
    pub last_active: i64,
    pub messages: Seq<MessageView>,
}

impl View for Session {
    type V = SessionView;

    open spec fn view(&self) -> SessionView {
        SessionView {
            id: self.id,
            created_at: self.created_at,
            last_active: self.last_active,
            messages: self.messages@.map_values(|m: ChatMessage| m@),
        }
    }
}

/// The view of a freshly created session: both timestamps stamped to `now`,
/// no messages yet.
pub open spec fn new_session_view(id: u128, now: i64) -> SessionView {
    SessionView { id, created_at: now, last_active: now, messages: Seq::empty() }
}

impl Session {
    /// Builds the empty session that a successful create operation stores
    /// and returns.
    pub fn new_empty(id: u128, now: i64) -> (r: Session)
        ensures
            r@ == new_session_view(id, now),
    {
        let r = Session { id, created_at: now, last_active: now, messages: Vec::new() };
        assert(r@.messages =~= new_session_view(id, now).messages);
        r
    }
}

impl Clone for Session {
    fn clone(&self) -> (r: Self)
        ensures
            r@ == self@,
    {
        let mut messages: Vec<ChatMessage> = Vec::new();
        let mut i: usize = 0;
        while i < self.messages.len()
            invariant
                i <= self.messages.len(),
                messages@.len() == i,
                forall|k: int| 0 <= k < i ==> messages@[k]@ == self.messages@[k]@,
            decreases self.messages.len() - i,
        {
            messages.push(self.messages[i].clone());
            i = i + 1;
        }
        let r = Session {
            id: self.id,
            created_at: self.created_at,
            last_active: self.last_active,
            messages,
        };
        assert(r@.messages =~= self@.messages);
        r
    }
}

} // verus!
