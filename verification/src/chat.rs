//! The AI responder: the chat history it keeps for a group, what it sends
//! to the chat-completion service, and when it answers at all.

use vstd::prelude::*;

use crate::text::decimal;

verus! {

/// One message of a chat history.
#[derive(Clone, Debug, PartialEq, Eq)]
#[allow(inconsistent_fields)]
pub enum ChatMessage {
    /// The system prompt.
    System { content: String },
    /// A group member's message, with the member's name.
    User { name: String, content: String },
    /// The model's answer, or its refusal.
    Assistant { content: Option<String>, refusal: Option<String> },
}

/// What a chat message holds, as plain values.
#[allow(inconsistent_fields)]
pub enum ChatMessageView {
    System { content: Seq<char> },
    User { name: Seq<char>, content: Seq<char> },
    Assistant { content: Option<Seq<char>>, refusal: Option<Seq<char>> },
}

/// The plain value of an optional text.
pub open spec fn opt_view(t: Option<String>) -> Option<Seq<char>> {
    match t {
        Some(s) => Some(s@),
        None => None,
    }
}

impl View for ChatMessage {
    type V = ChatMessageView;

    open spec fn view(&self) -> ChatMessageView {
        match self {
            ChatMessage::System { content } => ChatMessageView::System { content: content@ },
            ChatMessage::User { name, content } => ChatMessageView::User { name: name@, content: content@ },
            ChatMessage::Assistant { content, refusal } => ChatMessageView::Assistant {
                content: opt_view(*content),
                refusal: opt_view(*refusal),
            },
        }
    }
}

/// What a history holds, message by message.
pub open spec fn history_view(h: Seq<ChatMessage>) -> Seq<ChatMessageView> {
    h.map_values(|m: ChatMessage| m@)
}

fn copy_opt(t: &Option<String>) -> (r: Option<String>)
    ensures
        opt_view(r) == opt_view(*t),
{
    match t {
        Some(s) => Some(s.clone()),
        None => None,
    }
}

impl ChatMessage {
    /// A copy of this message.
    pub fn duplicate(&self) -> (r: ChatMessage)
        ensures
            r@ == self@,
    {
        match self {
            ChatMessage::System { content } => ChatMessage::System { content: content.clone() },
            ChatMessage::User { name, content } => ChatMessage::User { name: name.clone(), content: content.clone() },
            ChatMessage::Assistant { content, refusal } => ChatMessage::Assistant {
                content: copy_opt(content),
                refusal: copy_opt(refusal),
            },
        }
    }
}

/// A chat with the completion service: where it is, which model, how long an
/// answer may be, the system prompt, and the history so far.
#[derive(Clone, Debug)]
pub struct ChatCore {
    pub api_base: String,
    pub api_key: String,
    pub model: String,
    pub max_token: u32,
    pub prompt: String,
    pub messages: Vec<ChatMessage>,
}

/// A request to the completion service: the model, the longest answer in
/// tokens, and the messages.
pub struct ChatRequest {
    pub model: String,
    pub max_tokens: u32,
    pub messages: Vec<ChatMessage>,
}

impl ChatCore {
    /// A chat with the given service settings and prompt, and no history.
    pub fn new(api_base: &str, api_key: &str, model: &str, max_token: u32, prompt: &str) -> (cc: ChatCore)
        ensures
            cc.api_base@ == api_base@,
            cc.api_key@ == api_key@,
            cc.model@ == model@,
            cc.max_token == max_token,
            cc.prompt@ == prompt@,
            cc.messages@.len() == 0,
    {
        let mut cc = ChatCore {
            api_base: api_base.to_string(),
            api_key: api_key.to_string(),
            model: model.to_string(),
            max_token,
            prompt: prompt.to_string(),
            messages: Vec::new(),
        };
        cc.clear_memory();
        cc
    }

    /// Forgets the history.
    pub fn clear_memory(&mut self)
        ensures
            final(self).messages@.len() == 0,
            final(self).model == old(self).model,
            final(self).prompt == old(self).prompt,
            final(self).max_token == old(self).max_token,
            final(self).api_base == old(self).api_base,
            final(self).api_key == old(self).api_key,
    {
        self.messages.clear();
    }

    /// Adds a member's message to the history without answering it.
    pub fn add_user_text(&mut self, text: &str, name: &str)
        ensures
            history_view(final(self).messages@) == history_view(old(self).messages@).push(
                ChatMessageView::User { name: name@, content: text@ },
            ),
            final(self).model == old(self).model,
            final(self).prompt == old(self).prompt,
            final(self).max_token == old(self).max_token,
            final(self).api_base == old(self).api_base,
            final(self).api_key == old(self).api_key,
    {
        self.messages.push(ChatMessage::User { name: name.to_string(), content: text.to_string() });
        proof {
            assert(history_view(self.messages@) =~= history_view(old(self).messages@).push(
                ChatMessageView::User { name: name@, content: text@ },
            ));
        }
    }

    /// The messages sent to the service to answer a member's message: the
    /// system prompt, the history, then the member's message.
    pub fn chat_request(&self, text: &str, name: &str) -> (r: Vec<ChatMessage>)
        ensures
            history_view(r@) == seq![ChatMessageView::System { content: self.prompt@ }] + history_view(
                self.messages@,
            ) + seq![ChatMessageView::User { name: name@, content: text@ }],
    {
        let mut r: Vec<ChatMessage> = Vec::new();
        r.push(ChatMessage::System { content: self.prompt.clone() });
        for i in 0..self.messages.len()
            invariant
                r@.len() == i + 1,
                r@[0]@ == (ChatMessageView::System { content: self.prompt@ }),
                forall|j: int| 0 <= j < i ==> (#[trigger] r@[j + 1])@ == self.messages@[j]@,
        {
            r.push(self.messages[i].duplicate());
        }
        r.push(ChatMessage::User { name: name.to_string(), content: text.to_string() });
        proof {
            let expected = seq![ChatMessageView::System { content: self.prompt@ }] + history_view(self.messages@)
                + seq![ChatMessageView::User { name: name@, content: text@ }];
            assert forall|k: int| 0 <= k < r@.len() implies history_view(r@)[k] == expected[k] by {
                if 0 < k < r@.len() - 1 {
                    assert(r@[(k - 1) + 1]@ == self.messages@[k - 1]@);
                }
            }
            assert(history_view(r@) =~= expected);
        }
        r
    }

    /// The request sent to answer a member's message: this chat's model and
    /// answer length, and the messages of `chat_request`. (The sampling
    /// temperature is a float and is added by the caller.)
    pub fn request(&self, text: &str, name: &str) -> (q: ChatRequest)
        ensures
            q.model@ == self.model@,
            q.max_tokens == self.max_token,
            history_view(q.messages@) == seq![ChatMessageView::System { content: self.prompt@ }] + history_view(
                self.messages@,
            ) + seq![ChatMessageView::User { name: name@, content: text@ }],
    {
        ChatRequest { model: self.model.clone(), max_tokens: self.max_token, messages: self.chat_request(text, name) }
    }

    /// Takes the service's answer to a member's message: the history becomes
    /// the request that was sent (system prompt, history, the member's
    /// message) followed by the answer; the answer's text is what the bot
    /// says, empty when the service gave none.
    pub fn chat(&mut self, text: &str, name: &str, content: Option<String>, refusal: Option<String>) -> (r: String)
        ensures
            history_view(final(self).messages@) == seq![ChatMessageView::System { content: old(self).prompt@ }]
                + history_view(old(self).messages@) + seq![
                ChatMessageView::User { name: name@, content: text@ },
                ChatMessageView::Assistant { content: opt_view(content), refusal: opt_view(refusal) },
            ],
            r@ == (match content {
                Some(c) => c@,
                None => Seq::<char>::empty(),
            }),
            final(self).model == old(self).model,
            final(self).prompt == old(self).prompt,
            final(self).max_token == old(self).max_token,
            final(self).api_base == old(self).api_base,
            final(self).api_key == old(self).api_key,
    {
        let mut temp = self.chat_request(text, name);
        let answer = match &content {
            Some(c) => c.clone(),
            None => String::new(),
        };
        let ghost before = temp@;
        let ghost reply = ChatMessageView::Assistant { content: opt_view(content), refusal: opt_view(refusal) };
        temp.push(ChatMessage::Assistant { content, refusal });
        proof {
            assert(history_view(temp@) =~= history_view(before).push(reply));
            assert(history_view(temp@) =~= seq![ChatMessageView::System { content: self.prompt@ }]
                + history_view(self.messages@) + seq![
                ChatMessageView::User { name: name@, content: text@ },
                ChatMessageView::Assistant { content: opt_view(content), refusal: opt_view(refusal) },
            ]);
        }
        self.messages = temp;
        answer
    }
}

/// The responder in one group: its chat, how many history messages it
/// keeps, how many times in a row it may stay quiet, and how many times in
/// a row it has.
pub struct GroupChat {
    pub cc: ChatCore,
    pub memory: usize,
    pub max_try: Option<u32>,
    pub count: usize,
}

impl GroupChat {
    /// A group's responder that has not stayed quiet yet.
    pub fn new(cc: ChatCore, memory: usize, max_try: Option<u32>) -> (g: GroupChat)
        ensures
            g.cc == cc,
            g.memory == memory,
            g.max_try == max_try,
            g.count == 0,
    {
        GroupChat { cc, memory, max_try, count: 0 }
    }

    /// Whether a message may go unanswered (which chance then decides): not
    /// when the message mentions the bot, and never when the group allows no
    /// quiet turn at all.
    pub fn may_stay_quiet(&self, mentioned: bool) -> (r: bool)
        ensures
            r == (!mentioned && self.max_try != Some(0u32)),
    {
        !mentioned && !matches!(self.max_try, Some(0))
    }

    /// Lets a message go unanswered: it joins the history, and the quiet
    /// turns in a row grow by one.
    pub fn stay_quiet(&mut self, text: &str, name: &str)
        requires
            old(self).count < usize::MAX,
        ensures
            final(self).count == old(self).count + 1,
            final(self).memory == old(self).memory,
            final(self).max_try == old(self).max_try,
            history_view(final(self).cc.messages@) == history_view(old(self).cc.messages@).push(
                ChatMessageView::User { name: name@, content: text@ },
            ),
            final(self).cc.prompt == old(self).cc.prompt,
            final(self).cc.model == old(self).cc.model,
            final(self).cc.max_token == old(self).cc.max_token,
    {
        self.cc.add_user_text(text, name);
        self.count = self.count + 1;
    }

    /// Gets ready to answer: the quiet turns start again from 0, and when the
    /// history is longer than the group keeps, its oldest message goes.
    pub fn prepare_reply(&mut self)
        ensures
            final(self).count == 0,
            final(self).memory == old(self).memory,
            final(self).max_try == old(self).max_try,
            final(self).cc.prompt == old(self).cc.prompt,
            final(self).cc.model == old(self).cc.model,
            final(self).cc.max_token == old(self).cc.max_token,
            history_view(final(self).cc.messages@) == (if old(self).cc.messages@.len() > old(self).memory {
                history_view(old(self).cc.messages@).drop_first()
            } else {
                history_view(old(self).cc.messages@)
            }),
    {
        self.count = 0;
        if self.cc.messages.len() > self.memory {
            self.cc.messages.remove(0);
            proof {
                assert(history_view(self.cc.messages@) =~= history_view(old(self).cc.messages@).drop_first());
            }
        }
    }
}

/// One segment of an incoming message, as the chat server describes it: its
/// type, and the `qq` it names if any.
pub struct MentionSegment {
    pub kind: String,
    pub qq: Option<String>,
}

/// The message mentions the account `self_id`: one of its segments is an
/// `at` whose `qq` is that account's number.
pub open spec fn mentions(segments: Seq<MentionSegment>, self_id: i64) -> bool {
    exists|i: int|
        0 <= i < segments.len() && (#[trigger] segments[i]).kind@ == "at"@ && segments[i].qq is Some
            && segments[i].qq->0@ == decimal(self_id as int)
}

/// Whether a message mentions the bot's own account.
pub fn mentions_self(segments: &Vec<MentionSegment>, self_id: i64) -> (r: bool)
    ensures
        r == mentions(segments@, self_id),
{
    let at = String::from_str("at");
    let me = crate::text::decimal_text(self_id);
    for i in 0..segments.len()
        invariant
            at@ == "at"@,
            me@ == decimal(self_id as int),
            forall|j: int| 0 <= j < i ==> !((#[trigger] segments@[j]).kind@ == "at"@ && segments@[j].qq is Some
                && segments@[j].qq->0@ == decimal(self_id as int)),
    {
        let seg = &segments[i];
        if seg.kind == at {
            if let Some(q) = &seg.qq {
                if *q == me {
                    return true;
                }
            }
        }
    }
    false
}

} // verus!
