//! The conversation handed to a chat provider: the stored message history
//! turned into API messages, with a system prompt in front and empty
//! assistant placeholders left out.

use vstd::prelude::*;
use crate::session::{ChatMessage, MessageView};

verus! {

/// A message role for conversation context.
#[derive(Debug, Clone, Copy, PartialEq, Eq, Structural)]
pub enum MessageRole {
    User,
    Assistant,
    System,
}

/// A message in a conversation, as a chat API takes it.
#[derive(Debug)]
pub struct Message {
    pub role: MessageRole,
    pub content: String,
}

/// Mathematical image of a `Message`.
pub ghost struct ApiMessageView {
    pub role: MessageRole,
    pub content: Seq<char>,
}

impl View for Message {
    type V = ApiMessageView;

    open spec fn view(&self) -> ApiMessageView {
        ApiMessageView { role: self.role, content: self.content@ }
    }
}

impl Clone for Message {
    fn clone(&self) -> (r: Self)
        ensures
            r@ == self@,
    {
        Message { role: self.role, content: self.content.clone() }
    }
}

/// The API messages one stored turn contributes: a user turn as a user
/// message, an assistant turn as an assistant message unless its text is
/// empty, in which case nothing.
pub open spec fn spec_turn(m: MessageView) -> Seq<ApiMessageView> {
    match m {
        MessageView::User(s) => seq![ApiMessageView { role: MessageRole::User, content: s }],
        MessageView::Assistant(s) => if s.len() > 0 {
            seq![ApiMessageView { role: MessageRole::Assistant, content: s }]
        } else {
            Seq::empty()
        },
    }
}

/// The API messages a whole stored history contributes, in order.
pub open spec fn spec_turns(ms: Seq<MessageView>) -> Seq<ApiMessageView>
    decreases ms.len(),
{
    if ms.len() == 0 {
        Seq::empty()
    } else {
        spec_turn(ms[0]) + spec_turns(ms.drop_first())
    }
}

/// The whole conversation: the system prompt, then the history's turns.
pub open spec fn spec_history(ms: Seq<MessageView>) -> Seq<ApiMessageView> {
    seq![
        ApiMessageView { role: MessageRole::System, content: "You are a helpful assistant."@ },
    ] + spec_turns(ms)
}

/// Turning a history into API messages distributes over concatenation.
proof fn lemma_turns_append(a: Seq<MessageView>, b: Seq<MessageView>)
    ensures
        spec_turns(a + b) == spec_turns(a) + spec_turns(b),
    decreases a.len(),
{
    if a.len() == 0 {
        assert(a + b =~= b);
        assert(spec_turns(a) + spec_turns(b) =~= spec_turns(b));
    } else {
        assert((a + b).drop_first() =~= a.drop_first() + b);
        lemma_turns_append(a.drop_first(), b);
        assert((a + b)[0] == a[0]);
        assert(spec_turn(a[0]) + (spec_turns(a.drop_first()) + spec_turns(b)) =~= (spec_turn(a[0])
            + spec_turns(a.drop_first())) + spec_turns(b));
    }
}

/// Converts a stored message history to the conversation handed to a chat
/// API: a system prompt first, then every user turn and every nonempty
/// assistant turn, in order.
pub fn get_conversation_history(messages: &Vec<ChatMessage>) -> (r: Vec<Message>)
    ensures
        r@.map_values(|m: Message| m@) == spec_history(
            messages@.map_values(|m: ChatMessage| m@),
        ),
{
    let ghost views = messages@.map_values(|m: ChatMessage| m@);
    let mut out: Vec<Message> = Vec::new();
    out.push(
        Message { role: MessageRole::System, content: "You are a helpful assistant.".to_owned() },
    );
    let mut i: usize = 0;
    while i < messages.len()
        invariant
            i <= messages@.len(),
            views == messages@.map_values(|m: ChatMessage| m@),
            out@.map_values(|m: Message| m@) == spec_history(views.take(i as int)),
        decreases messages@.len() - i,
    {
        let ghost before = out@.map_values(|m: Message| m@);
        proof {
            lemma_turns_append(views.take(i as int), seq![views[i as int]]);
            assert(views.take(i + 1) =~= views.take(i as int) + seq![views[i as int]]);
            assert(seq![views[i as int]].drop_first() =~= Seq::<MessageView>::empty());
            assert(spec_turns(seq![views[i as int]]) == spec_turn(views[i as int]) + spec_turns(
                Seq::<MessageView>::empty(),
            ));
            assert(spec_turn(views[i as int]) + Seq::<ApiMessageView>::empty() =~= spec_turn(
                views[i as int],
            ));
        }
        assert(views[i as int] == messages@[i as int]@);
        match &messages[i] {
            ChatMessage::User(text) => {
                out.push(Message { role: MessageRole::User, content: text.clone() });
                assert(out@.map_values(|m: Message| m@) =~= before + spec_turn(views[i as int]));
            }
            ChatMessage::Assistant(text) => {
                if text.as_str().unicode_len() > 0 {
                    out.push(Message { role: MessageRole::Assistant, content: text.clone() });
                    assert(out@.map_values(|m: Message| m@) =~= before + spec_turn(
                        views[i as int],
                    ));
                } else {
                    assert(out@.map_values(|m: Message| m@) =~= before + spec_turn(
                        views[i as int],
                    ));
                }
            }
        }
        proof {
            assert(spec_history(views.take(i + 1)) =~= spec_history(views.take(i as int))
                + spec_turn(views[i as int]));
        }
        i = i + 1;
    }
    assert(views.take(views.len() as int) =~= views);
    out
}

} // verus!
