//! Messages of a conversation with the model, and the key and the value of
//! the cache of its replies.

use crate::text::{append, chars_of, joined, lemma_joined_push, string_of};
use vstd::prelude::*;

verus! {

/// Who speaks in a message.
#[derive(Clone, Copy, Debug, PartialEq, Eq, Structural)]
pub enum Role {
    /// The instructions that frame the conversation.
    System,
    /// The one who asks.
    User,
    /// The model, here in the examples of a prompt.
    Assistant,
}

/// One block of a message's content.
#[derive(Clone, Debug, PartialEq, Eq)]
pub enum ContentBlock {
    /// A block of text.
    Text { text: String },
    /// An image; it takes no part in the text of a message.
    Image { source: String, media_type: String, data: String },
}

/// What a `ContentBlock` holds.
pub enum ContentBlockView {
    Text { text: Seq<char> },
    Image { source: Seq<char>, media_type: Seq<char>, data: Seq<char> },
}

impl View for ContentBlock {
    type V = ContentBlockView;

    open spec fn view(&self) -> ContentBlockView {
        match self {
            ContentBlock::Text { text } => ContentBlockView::Text { text: text@ },
            ContentBlock::Image { source, media_type, data } => ContentBlockView::Image {
                source: source@,
                media_type: media_type@,
                data: data@,
            },
        }
    }
}

impl DeepView for ContentBlock {
    type V = ContentBlockView;

    open spec fn deep_view(&self) -> ContentBlockView {
        self@
    }
}

/// One message of a conversation.
#[derive(Clone, Debug, PartialEq, Eq)]
pub struct Message {
    pub role: Role,
    pub content: Vec<ContentBlock>,
}

/// What a `Message` holds.
pub struct MessageView {
    pub role: Role,
    pub content: Seq<ContentBlockView>,
}

impl View for Message {
    type V = MessageView;

    open spec fn view(&self) -> MessageView {
        MessageView { role: self.role, content: self.content.deep_view() }
    }
}

impl DeepView for Message {
    type V = MessageView;

    open spec fn deep_view(&self) -> MessageView {
        self@
    }
}

/// The name of a role.
pub open spec fn role_name(role: Role) -> Seq<char> {
    match role {
        Role::System => "system"@,
        Role::User => "user"@,
        Role::Assistant => "assistant"@,
    }
}

/// The message of one block of text.
pub open spec fn text_message(role: Role, text: Seq<char>) -> MessageView {
    MessageView { role, content: seq![ContentBlockView::Text { text }] }
}

/// The texts of the blocks of text, in order.
pub open spec fn block_texts(content: Seq<ContentBlockView>) -> Seq<Seq<char>>
    decreases content.len(),
{
    if content.len() == 0 {
        Seq::empty()
    } else {
        let earlier = block_texts(content.drop_last());
        match content.last() {
            ContentBlockView::Text { text } => earlier.push(text),
            ContentBlockView::Image { .. } => earlier,
        }
    }
}

/// The text of a content: its blocks of text, a space between each two.
pub open spec fn content_text(content: Seq<ContentBlockView>) -> Seq<char> {
    joined(block_texts(content), seq![' '])
}

/// The name of `role`.
pub fn role_to_str(role: &Role) -> (name: &'static str)
    ensures
        name@ == role_name(*role),
{
    match role {
        Role::System => "system",
        Role::User => "user",
        Role::Assistant => "assistant",
    }
}

fn message(role: Role, s: &str) -> (m: Message)
    ensures
        m@ == text_message(role, s@),
{
    let mut content: Vec<ContentBlock> = Vec::new();
    content.push(ContentBlock::Text { text: s.to_owned() });
    let m = Message { role, content };
    assert(m@.content =~= seq![ContentBlockView::Text { text: s@ }]);
    m
}

/// The system message that says `s`.
pub fn system(s: &str) -> (m: Message)
    ensures
        m@ == text_message(Role::System, s@),
{
    message(Role::System, s)
}

/// The user's message that says `s`.
pub fn user(s: &str) -> (m: Message)
    ensures
        m@ == text_message(Role::User, s@),
{
    message(Role::User, s)
}

/// The assistant's message that says `s`.
pub fn assistant(s: &str) -> (m: Message)
    ensures
        m@ == text_message(Role::Assistant, s@),
{
    message(Role::Assistant, s)
}

/// The text of a content.
pub fn text_of(content: &Vec<ContentBlock>) -> (text: String)
    ensures
        text@ == content_text(content.deep_view()),
{
    let ghost all = content.deep_view();
    let mut out: Vec<char> = Vec::new();
    let mut first = true;
    let mut space: Vec<char> = Vec::new();
    space.push(' ');
    assert(space@ =~= seq![' ']);
    let mut i: usize = 0;
    while i < content.len()
        invariant
            i <= content.len(),
            all == content.deep_view(),
            space@ == seq![' '],
            first == (block_texts(all.take(i as int)).len() == 0),
            out@ == joined(block_texts(all.take(i as int)), space@),
        decreases content.len() - i,
    {
        proof {
            assert(all.take(i + 1).drop_last() =~= all.take(i as int));
            assert(all.take(i + 1).last() == content@[i as int]@);
        }
        match &content[i] {
            ContentBlock::Text { text } => {
                proof {
                    lemma_joined_push(block_texts(all.take(i as int)), space@, text@);
                }
                if !first {
                    append(&mut out, &space);
                }
                append(&mut out, &chars_of(text.as_str()));
                first = false;
            },
            ContentBlock::Image { .. } => {},
        }
        i += 1;
    }
    assert(all.take(i as int) =~= all);
    string_of(&out)
}

/// The key under which a reply is cached: the messages of the request as
/// pairs of a role's name and a text, and the stop token, if any.
#[derive(Clone, Debug, PartialEq, Eq)]
pub struct CacheKey {
    pub messages: Vec<(String, String)>,
    pub stop: Option<String>,
}

/// What a `CacheKey` holds.
pub struct CacheKeyView {
    pub messages: Seq<(Seq<char>, Seq<char>)>,
    pub stop: Option<Seq<char>>,
}

impl View for CacheKey {
    type V = CacheKeyView;

    open spec fn view(&self) -> CacheKeyView {
        CacheKeyView { messages: self.messages.deep_view(), stop: self.stop.deep_view() }
    }
}

/// The pair that stands for a message in a key.
pub open spec fn key_entry(m: MessageView) -> (Seq<char>, Seq<char>) {
    (role_name(m.role), content_text(m.content))
}

/// The key of a request.
pub open spec fn key_of(messages: Seq<MessageView>, stop: Option<Seq<char>>) -> CacheKeyView {
    CacheKeyView { messages: messages.map_values(|m: MessageView| key_entry(m)), stop }
}

impl CacheKey {
    /// The key of the request made of `messages` and `stop`.
    pub fn new(messages: &Vec<Message>, stop: Option<&str>) -> (key: CacheKey)
        ensures
            key@ == key_of(messages.deep_view(), stop.deep_view()),
    {
        let ghost all = messages.deep_view();
        let ghost wanted = all.map_values(|m: MessageView| key_entry(m));
        let mut pairs: Vec<(String, String)> = Vec::new();
        let mut i: usize = 0;
        while i < messages.len()
            invariant
                i <= messages.len(),
                all == messages.deep_view(),
                wanted == all.map_values(|m: MessageView| key_entry(m)),
                pairs.deep_view() == wanted.take(i as int),
            decreases messages.len() - i,
        {
            let ghost before = pairs.deep_view();
            let m = &messages[i];
            let pair = (role_to_str(&m.role).to_owned(), text_of(&m.content));
            proof {
                assert(all[i as int] == m@);
                assert(wanted[i as int] == key_entry(m@));
            }
            pairs.push(pair);
            proof {
                assert(pairs.deep_view() =~= before.push(key_entry(m@)));
                assert(wanted.take(i + 1) =~= wanted.take(i as int).push(wanted[i as int]));
            }
            i += 1;
        }
        assert(wanted.take(i as int) =~= wanted);
        let stop = match stop {
            Some(s) => Some(s.to_owned()),
            None => None,
        };
        CacheKey { messages: pairs, stop }
    }

    /// A copy of the key.
    pub fn copy(&self) -> (key: CacheKey)
        ensures
            key@ == self@,
    {
        let mut pairs: Vec<(String, String)> = Vec::new();
        let mut i: usize = 0;
        while i < self.messages.len()
            invariant
                i <= self.messages.len(),
                pairs.deep_view() == self.messages.deep_view().take(i as int),
            decreases self.messages.len() - i,
        {
            let ghost before = pairs.deep_view();
            let pair = (self.messages[i].0.clone(), self.messages[i].1.clone());
            pairs.push(pair);
            proof {
                assert(pairs.deep_view() =~= before.push(self.messages@[i as int].deep_view()));
                assert(self.messages.deep_view().take(i + 1) =~= self.messages.deep_view().take(
                    i as int,
                ).push(self.messages@[i as int].deep_view()));
            }
            i += 1;
        }
        assert(self.messages.deep_view().take(i as int) =~= self.messages.deep_view());
        let stop = match &self.stop {
            Some(s) => Some(s.clone()),
            None => None,
        };
        CacheKey { messages: pairs, stop }
    }

    /// Whether two keys are equal: their messages pair by pair, and their stop tokens.
    pub fn same_as(&self, other: &CacheKey) -> (r: bool)
        ensures
            r == (self@ == other@),
    {
        let stops = match (&self.stop, &other.stop) {
            (Some(a), Some(b)) => *a == *b,
            (None, None) => true,
            _ => false,
        };
        if !stops || self.messages.len() != other.messages.len() {
            assert(self@.messages.len() == self.messages.len());
            assert(other@.messages.len() == other.messages.len());
            return false;
        }
        let mut i: usize = 0;
        while i < self.messages.len()
            invariant
                i <= self.messages.len(),
                self.messages.len() == other.messages.len(),
                self.messages.deep_view().take(i as int) == other.messages.deep_view().take(
                    i as int,
                ),
            decreases self.messages.len() - i,
        {
            let a = &self.messages[i];
            let b = &other.messages[i];
            if !(a.0 == b.0 && a.1 == b.1) {
                assert(self@.messages[i as int] == a.deep_view());
                assert(other@.messages[i as int] == b.deep_view());
                return false;
            }
            proof {
                assert(self.messages.deep_view().take(i + 1) =~= self.messages.deep_view().take(
                    i as int,
                ).push(a.deep_view()));
                assert(other.messages.deep_view().take(i + 1) =~= other.messages.deep_view().take(
                    i as int,
                ).push(b.deep_view()));
            }
            i += 1;
        }
        assert(self.messages.deep_view().take(i as int) =~= self.messages.deep_view());
        assert(other.messages.deep_view().take(i as int) =~= other.messages.deep_view());
        true
    }
}

/// A cached reply: its text, why the model stopped, the tokens of the reply
/// and of the request, and the time the reply took, in milliseconds.
#[derive(Clone, Debug, PartialEq, Eq)]
pub struct CacheVal {
    pub content: String,
    pub reason: Option<String>,
    pub response_tokens: usize,
    pub request_tokens: usize,
    pub elapsed: u64,
}

/// What a `CacheVal` holds.
pub struct CacheValView {
    pub content: Seq<char>,
    pub reason: Option<Seq<char>>,
    pub response_tokens: usize,
    pub request_tokens: usize,
    pub elapsed: u64,
}

impl View for CacheVal {
    type V = CacheValView;

    open spec fn view(&self) -> CacheValView {
        CacheValView {
            content: self.content@,
            reason: self.reason.deep_view(),
            response_tokens: self.response_tokens,
            request_tokens: self.request_tokens,
            elapsed: self.elapsed,
        }
    }
}

impl CacheVal {
    /// The value made of its five parts.
    pub fn new(
        content: String,
        reason: Option<String>,
        response_tokens: usize,
        request_tokens: usize,
        elapsed: u64,
    ) -> (val: CacheVal)
        ensures
            val@ == (CacheValView {
                content: content@,
                reason: reason.deep_view(),
                response_tokens,
                request_tokens,
                elapsed,
            }),
    {
        CacheVal { content, reason, response_tokens, request_tokens, elapsed }
    }

    /// The time the reply took, in milliseconds.
    pub fn elapsed(&self) -> (ms: u64)
        ensures
            ms == self.elapsed,
    {
        self.elapsed
    }

    /// A copy of the value.
    pub fn copy(&self) -> (val: CacheVal)
        ensures
            val@ == self@,
    {
        let reason = match &self.reason {
            Some(r) => Some(r.clone()),
            None => None,
        };
        CacheVal {
            content: self.content.clone(),
            reason,
            response_tokens: self.response_tokens,
            request_tokens: self.request_tokens,
            elapsed: self.elapsed,
        }
    }
}

/// The tokens that an estimator counts in one message: in the name of its
/// role and in its text.
#[derive(Clone, Copy, Debug, PartialEq, Eq, Structural)]
pub struct MessageTokens {
    pub role: usize,
    pub content: usize,
}

/// The tokens of a conversation: for each message four, those of its role and
/// those of its text; and three for the reply to begin.
pub open spec fn token_total(counts: Seq<MessageTokens>) -> nat
    decreases counts.len(),
{
    if counts.len() == 0 {
        3
    } else {
        token_total(counts.drop_last()) + 4 + counts.last().role as nat
            + counts.last().content as nat
    }
}

/// The tokens of a conversation, where the number fits the machine's word.
pub fn num_tokens(counts: &Vec<MessageTokens>) -> (total: Option<usize>)
    ensures
        total matches Some(n) ==> n == token_total(counts@),
        total is None ==> token_total(counts@) > usize::MAX,
{
    let mut sum: usize = 3;
    let mut i: usize = 0;
    while i < counts.len()
        invariant
            i <= counts.len(),
            sum == token_total(counts@.take(i as int)),
        decreases counts.len() - i,
    {
        proof {
            assert(counts@.take(i + 1).drop_last() =~= counts@.take(i as int));
            assert(counts@.take(i + 1).last() == counts@[i as int]);
            lemma_token_total_grows(counts@, i + 1);
        }
        let c = counts[i];
        let next = match sum.checked_add(4) {
            Some(a) => match a.checked_add(c.role) {
                Some(b) => b.checked_add(c.content),
                None => None,
            },
            None => None,
        };
        match next {
            Some(n) => {
                sum = n;
            },
            None => {
                return None;
            },
        }
        i += 1;
    }
    assert(counts@.take(i as int) =~= counts@);
    Some(sum)
}

/// The tokens of the first messages are no more than those of all.
pub proof fn lemma_token_total_grows(counts: Seq<MessageTokens>, k: int)
    requires
        0 <= k <= counts.len(),
    ensures
        token_total(counts.take(k)) <= token_total(counts),
    decreases counts.len() - k,
{
    if k < counts.len() {
        lemma_token_total_grows(counts, k + 1);
        assert(counts.take(k + 1).drop_last() =~= counts.take(k));
    } else {
        assert(counts.take(k) =~= counts);
    }
}

} // verus!
