//! The client of the model: what each operation asks and how it reads the
//! reply, and the course of one request through the cache, the transport and
//! the retries. The client itself neither waits nor sends: it says what is to
//! be done next and is told what came of it.

use crate::llm_client::message::{
    content_text, key_of, text_of, CacheKey, CacheVal, CacheValView, ContentBlock,
    ContentBlockView, Message, MessageView, Role,
};
use crate::llm_client::prompt::{
    compare_conversation, compare_messages, fix_conversation, fix_messages, function_conversation,
    function_name_conversation, function_name_messages, function_text, signature_conversation,
    signature_messages, translation_messages, type_conversation, type_name_conversation,
    type_name_messages, type_text, variable_conversation, variable_name_conversation,
    variable_name_messages, variable_text,
};
use crate::llm_client::reply::{
    acceptable, choice_in, code_in, code_of, constant_name_in, extract_choice,
    extract_constant_name, extract_function, extract_name, extract_signatures, first_of,
    first_signatures, function_in, is_acceptable_repair, name_in, names_something, signatures_in,
    slice_texts, Comparison,
};
use crate::text::{chars_of, is_lower, is_upper, join_strings, joined, newline, string_of, texts};
use vstd::prelude::*;

verus! {

/// What an operation of the client comes to before anything is sent: its
/// result, where the model need not be asked, or the conversation to send.
#[derive(Clone, Debug, PartialEq, Eq)]
pub enum Step<T> {
    Done(T),
    Ask(Vec<Message>),
}

/// The client's settings and its three counters.
#[derive(Clone, Debug, PartialEq, Eq)]
pub struct AnthroClient {
    /// The model to ask.
    pub model: Option<String>,
    /// How often a request is sent at most before it is given up.
    pub max_attempts: usize,
    /// The bound on the tokens of one reply.
    pub max_tokens: usize,
    /// The tokens that two candidates may have together to be compared.
    pub token_budget: usize,
    /// An advisory count of the requests that may be under way.
    pub possible_requests: usize,
    /// What the requests have cost so far.
    pub counters: Counters,
}

/// What the requests of a client have cost so far. The counters only grow,
/// and only the client moves them.
#[derive(Clone, Debug, PartialEq, Eq)]
pub struct Counters {
    request_tokens: usize,
    response_tokens: usize,
    response_time: u64,
}

/// A request that waits for the cache to be consulted.
#[derive(Clone, Debug, PartialEq, Eq)]
pub struct Lookup {
    pub key: CacheKey,
    pub stop: Option<String>,
    pub messages: Vec<Message>,
}

/// A request that the cache did not hold: what is sent next, the stop token
/// that belongs to its key, and how often sending has failed.
#[derive(Clone, Debug, PartialEq, Eq)]
pub struct Attempt {
    pub key: CacheKey,
    pub stop: Option<String>,
    pub messages: Vec<Message>,
    pub failures: usize,
}

/// What goes to the transport: the instructions of the system as one text,
/// and the turns of the user and the assistant.
#[derive(Clone, Debug, PartialEq, Eq)]
pub struct Transmission {
    pub model: String,
    pub system: String,
    pub messages: Vec<Message>,
    pub max_tokens: usize,
}

/// What comes back from the transport.
#[derive(Clone, Debug, PartialEq, Eq)]
pub struct Response {
    pub content: Vec<ContentBlock>,
    pub input_tokens: usize,
    pub output_tokens: usize,
}

/// The end of a request: the text of the reply, and what is to be written to the cache.
#[derive(Clone, Debug, PartialEq, Eq)]
pub struct Completion {
    pub content: String,
    pub store: Option<(CacheKey, CacheVal)>,
}

/// How a request goes on.
#[derive(Clone, Debug, PartialEq, Eq)]
pub enum Progress {
    /// The request is to be sent.
    Send(Attempt),
    /// The request has ended.
    Done(Completion),
}

/// The sum of two counts, capped at the largest count.
pub open spec fn capped_sum(a: usize, b: usize) -> usize {
    if a + b > usize::MAX {
        usize::MAX
    } else {
        (a + b) as usize
    }
}

/// The sum of two times, capped at the largest time.
pub open spec fn capped_time(a: u64, b: u64) -> u64 {
    if a + b > u64::MAX {
        u64::MAX
    } else {
        (a + b) as u64
    }
}

/// The texts of the messages of the system, in order.
pub open spec fn instructions(messages: Seq<MessageView>) -> Seq<Seq<char>>
    decreases messages.len(),
{
    if messages.len() == 0 {
        Seq::empty()
    } else if messages.last().role is System {
        instructions(messages.drop_last()).push(content_text(messages.last().content))
    } else {
        instructions(messages.drop_last())
    }
}

/// The messages of the user and the assistant, in order.
pub open spec fn turns(messages: Seq<MessageView>) -> Seq<MessageView>
    decreases messages.len(),
{
    if messages.len() == 0 {
        Seq::empty()
    } else if messages.last().role is System {
        turns(messages.drop_last())
    } else {
        turns(messages.drop_last()).push(messages.last())
    }
}

/// The messages of a request that has failed once more: the first block of
/// the first message, where it is text, ends with one more space.
pub open spec fn perturbed(messages: Seq<MessageView>) -> Seq<MessageView> {
    if messages.len() > 0 && messages[0].content.len() > 0 {
        match messages[0].content[0] {
            ContentBlockView::Text { text } => messages.update(
                0,
                MessageView {
                    role: messages[0].role,
                    content: messages[0].content.update(
                        0,
                        ContentBlockView::Text { text: text.push(' ') },
                    ),
                },
            ),
            ContentBlockView::Image { .. } => messages,
        }
    } else {
        messages
    }
}

/// The reason that is recorded with every reply.
pub open spec fn recorded_reason() -> Seq<char> {
    "No stop reason"@
}

/// The cached value of a reply.
pub open spec fn value_of(response_content: Seq<ContentBlockView>, input_tokens: usize, output_tokens: usize, elapsed: u64) -> CacheValView {
    CacheValView {
        content: content_text(response_content),
        reason: Some(recorded_reason()),
        response_tokens: output_tokens,
        request_tokens: input_tokens,
        elapsed,
    }
}

/// A name is in the style of types: it begins with an uppercase letter, has
/// no underscore and has a lowercase letter.
pub open spec fn is_type_style(name: Seq<char>) -> bool {
    &&& name.len() > 0
    &&& is_upper(name[0])
    &&& !name.contains('_')
    &&& exists|i: int| 0 <= i < name.len() && is_lower(#[trigger] name[i])
}

/// A name is in the style of constants: it has no lowercase letter.
pub open spec fn is_constant_style(name: Seq<char>) -> bool {
    forall|i: int| 0 <= i < name.len() ==> !is_lower(#[trigger] name[i])
}

/// A name is in the style of functions: it has no uppercase letter.
pub open spec fn is_function_style(name: Seq<char>) -> bool {
    forall|i: int| 0 <= i < name.len() ==> !is_upper(#[trigger] name[i])
}

/// The name of a type that needs no asking: the name itself, where it is
/// in the style of types.
pub open spec fn settled_type_name(name: Seq<char>) -> Option<Seq<char>> {
    if is_type_style(name) {
        Some(name)
    } else {
        None
    }
}

/// The name of a global variable that needs no asking: the name itself,
/// where it is in the style of constants.
pub open spec fn settled_variable_name(name: Seq<char>) -> Option<Seq<char>> {
    if is_constant_style(name) {
        Some(name)
    } else {
        None
    }
}

/// The name of a function that needs no asking: the name itself, where it
/// is in the style of functions.
pub open spec fn settled_function_name(name: Seq<char>) -> Option<Seq<char>> {
    if is_function_style(name) {
        Some(name)
    } else {
        None
    }
}

/// The prefixes by which a block is taken for the definition of a type.
pub open spec fn type_prefixes() -> Seq<Seq<char>> {
    seq!["type "@, "struct "@, "union "@, "enum "@]
}

/// The prefixes by which a block is taken for the declaration of a global variable.
pub open spec fn variable_prefixes() -> Seq<Seq<char>> {
    seq!["const "@, "static "@]
}

/// The prefixes by which a block is taken for a repair.
pub open spec fn repair_prefixes() -> Seq<Seq<char>> {
    seq!["type "@, "struct "@, "union "@, "enum "@, "const "@, "static "@, "fn "@]
}

/// The repair that a reply gives for `snippet`: its code for the prefixes of
/// a repair, where that is acceptable.
pub open spec fn repair_in(snippet: Seq<char>, reply: Seq<char>) -> Option<Seq<char>> {
    match code_in(reply, repair_prefixes()) {
        Some(code) => if is_acceptable_repair(snippet, code) {
            Some(code)
        } else {
            None
        },
        None => None,
    }
}

fn has_lowercase(name: &Vec<char>) -> (r: bool)
    ensures
        r == !is_constant_style(name@),
{
    let mut i: usize = 0;
    while i < name.len()
        invariant
            i <= name.len(),
            forall|j: int| 0 <= j < i ==> !is_lower(#[trigger] name@[j]),
        decreases name.len() - i,
    {
        if name[i].is_lowercase() {
            return true;
        }
        i += 1;
    }
    false
}

fn has_uppercase(name: &Vec<char>) -> (r: bool)
    ensures
        r == !is_function_style(name@),
{
    let mut i: usize = 0;
    while i < name.len()
        invariant
            i <= name.len(),
            forall|j: int| 0 <= j < i ==> !is_upper(#[trigger] name@[j]),
        decreases name.len() - i,
    {
        if name[i].is_uppercase() {
            return true;
        }
        i += 1;
    }
    false
}

fn has_underscore(name: &Vec<char>) -> (r: bool)
    ensures
        r == name@.contains('_'),
{
    let mut i: usize = 0;
    while i < name.len()
        invariant
            i <= name.len(),
            forall|j: int| 0 <= j < i ==> name@[j] != '_',
        decreases name.len() - i,
    {
        if name[i] == '_' {
            return true;
        }
        i += 1;
    }
    false
}

fn prefixes_of(first: &[&str], second: &[&str]) -> (r: Vec<Vec<char>>)
    ensures
        texts(r@) == slice_texts(first@)
            + slice_texts(second@),
{
    let ghost a = slice_texts(first@);
    let ghost b = slice_texts(second@);
    let mut r: Vec<Vec<char>> = Vec::new();
    let mut i: usize = 0;
    while i < first.len()
        invariant
            i <= first.len(),
            a == slice_texts(first@),
            texts(r@) == a.take(i as int),
        decreases first.len() - i,
    {
        let ghost before = texts(r@);
        r.push(chars_of(first[i]));
        assert(texts(r@) =~= before.push(first@[i as int]@));
        assert(a.take(i + 1) =~= a.take(i as int).push(a[i as int]));
        i += 1;
    }
    assert(a.take(i as int) =~= a);
    let mut k: usize = 0;
    while k < second.len()
        invariant
            k <= second.len(),
            b == slice_texts(second@),
            texts(r@) == a + b.take(k as int),
        decreases second.len() - k,
    {
        let ghost before = texts(r@);
        r.push(chars_of(second[k]));
        assert(texts(r@) =~= before.push(second@[k as int]@));
        assert(a + b.take(k + 1) =~= (a + b.take(k as int)).push(b[k as int]));
        k += 1;
    }
    assert(b.take(k as int) =~= b);
    r
}

impl Counters {
    /// The tokens of all requests so far.
    pub closed spec fn requested(&self) -> usize {
        self.request_tokens
    }

    /// The tokens of all replies so far.
    pub closed spec fn responded(&self) -> usize {
        self.response_tokens
    }

    /// The time spent waiting for replies so far, in milliseconds.
    pub closed spec fn waited(&self) -> u64 {
        self.response_time
    }

    pub(crate) fn new() -> (counters: Counters)
        ensures
            counters.requested() == 0,
            counters.responded() == 0,
            counters.waited() == 0,
    {
        Counters { request_tokens: 0, response_tokens: 0, response_time: 0 }
    }

    pub(crate) fn add(&mut self, val: &CacheVal)
        ensures
            final(self).requested() == capped_sum(old(self).requested(), val.request_tokens),
            final(self).responded() == capped_sum(old(self).responded(), val.response_tokens),
            final(self).waited() == capped_time(old(self).waited(), val.elapsed),
    {
        self.request_tokens = self.request_tokens.saturating_add(val.request_tokens);
        self.response_tokens = self.response_tokens.saturating_add(val.response_tokens);
        self.response_time = self.response_time.saturating_add(val.elapsed);
    }

    /// The tokens of all requests so far.
    pub fn request_tokens(&self) -> (n: usize)
        ensures
            n == self.requested(),
    {
        self.request_tokens
    }

    /// The tokens of all replies so far.
    pub fn response_tokens(&self) -> (n: usize)
        ensures
            n == self.responded(),
    {
        self.response_tokens
    }

    /// The time spent waiting for replies so far, in milliseconds.
    pub fn response_time(&self) -> (ms: u64)
        ensures
            ms == self.waited(),
    {
        self.response_time
    }
}

impl AnthroClient {
    /// A client for `model` with the usual settings: ten attempts, 4096
    /// tokens for a reply, 3820 tokens for a comparison, and counters at zero.
    pub fn new(model: Option<String>) -> (client: AnthroClient)
        ensures
            client.model == model,
            client.max_attempts == 10,
            client.max_tokens == 4096,
            client.token_budget == 3820,
            client.possible_requests == 30,
            client.counters.requested() == 0,
            client.counters.responded() == 0,
            client.counters.waited() == 0,
    {
        AnthroClient {
            model,
            max_attempts: 10,
            max_tokens: 4096,
            token_budget: 3820,
            possible_requests: 30,
            counters: Counters::new(),
        }
    }

    /// The tokens of all requests so far.
    pub fn request_tokens(&self) -> (n: usize)
        ensures
            n == self.counters.requested(),
    {
        self.counters.request_tokens()
    }

    /// The tokens of all replies so far.
    pub fn response_tokens(&self) -> (n: usize)
        ensures
            n == self.counters.responded(),
    {
        self.counters.response_tokens()
    }

    /// The time spent waiting for replies so far, in milliseconds.
    pub fn response_time(&self) -> (ms: u64)
        ensures
            ms == self.counters.waited(),
    {
        self.counters.response_time()
    }

    // -----------------------------------------------------------------------
    // The operations: what is asked
    // -----------------------------------------------------------------------

    /// The name of a type: `name` itself where it is in the style of types,
    /// else the conversation that asks for it.
    pub fn rename_type(name: &str) -> (step: Step<String>)
        requires
            name@.len() > 0,
        ensures
            match step {
                Step::Done(s) => settled_type_name(name@) == Some(s@),
                Step::Ask(msgs) => settled_type_name(name@) is None && msgs.deep_view()
                    == type_name_messages(name@),
            },
    {
        let text = chars_of(name);
        if text[0].is_uppercase() && !has_underscore(&text) && has_lowercase(&text) {
            Step::Done(name.to_owned())
        } else {
            Step::Ask(type_name_conversation(name))
        }
    }

    /// The name of a global variable: `name` itself where it is in the style
    /// of constants, else the conversation that asks for it.
    pub fn rename_variable(name: &str) -> (step: Step<String>)
        ensures
            match step {
                Step::Done(s) => settled_variable_name(name@) == Some(s@),
                Step::Ask(msgs) => settled_variable_name(name@) is None && msgs.deep_view()
                    == variable_name_messages(name@),
            },
    {
        if !has_lowercase(&chars_of(name)) {
            Step::Done(name.to_owned())
        } else {
            Step::Ask(variable_name_conversation(name))
        }
    }

    /// The name of a function: `name` itself where it is in the style of
    /// functions, else the conversation that asks for it.
    pub fn rename_function(name: &str) -> (step: Step<String>)
        ensures
            match step {
                Step::Done(s) => settled_function_name(name@) == Some(s@),
                Step::Ask(msgs) => settled_function_name(name@) is None && msgs.deep_view()
                    == function_name_messages(name@),
            },
    {
        if !has_uppercase(&chars_of(name)) {
            Step::Done(name.to_owned())
        } else {
            Step::Ask(function_name_conversation(name))
        }
    }

    /// The conversation that asks for the translation of a type's definition.
    pub fn translate_type(code: &str, sort: &str, deps: &[String]) -> (msgs: Vec<Message>)
        ensures
            msgs.deep_view() == translation_messages(type_text(code@, sort@, deps.deep_view())),
    {
        type_conversation(code, sort, deps)
    }

    /// The conversation that asks for the translation of a global variable's declaration.
    pub fn translate_variable(code: &str, deps: &[String]) -> (msgs: Vec<Message>)
        ensures
            msgs.deep_view() == translation_messages(variable_text(code@, deps.deep_view())),
    {
        variable_conversation(code, deps)
    }

    /// The conversation that asks for `n` candidate signatures of a function.
    pub fn translate_signature(code: &str, new_name: &str, deps: &[String], n: usize) -> (msgs:
        Vec<Message>)
        requires
            1 <= n <= 9,
        ensures
            msgs.deep_view() == signature_messages(code@, new_name@, deps.deep_view(), n as nat),
    {
        signature_conversation(code, new_name, deps, n)
    }

    /// The conversation that asks for the translation of a function, which
    /// is to start with `signature` where one is given.
    pub fn translate_function(code: &str, signature: Option<&str>, deps: &[String]) -> (msgs:
        Vec<Message>)
        ensures
            msgs.deep_view() == translation_messages(
                function_text(code@, signature.deep_view(), deps.deep_view()),
            ),
    {
        function_conversation(code, signature, deps)
    }

    /// The conversation that asks for a repair of `code`, which the compiler
    /// refused with `error`.
    pub fn fix(code: &str, error: &str) -> (msgs: Vec<Message>)
        ensures
            msgs.deep_view() == fix_messages(code@, error@),
    {
        fix_conversation(code, error)
    }

    /// The choice between two candidates of `tokens1` and `tokens2` tokens:
    /// none where together they are over the budget, else the conversation
    /// that asks for it.
    pub fn compare(&self, code1: &str, code2: &str, tokens1: usize, tokens2: usize) -> (step:
        Step<Comparison>)
        ensures
            match step {
                Step::Done(c) => tokens1 + tokens2 > self.token_budget && c == Comparison::Equal,
                Step::Ask(msgs) => tokens1 + tokens2 <= self.token_budget && msgs.deep_view()
                    == compare_messages(code1@, code2@),
            },
    {
        if tokens1 > self.token_budget || tokens2 > self.token_budget - tokens1 {
            Step::Done(Comparison::Equal)
        } else {
            Step::Ask(compare_conversation(code1, code2))
        }
    }

    // -----------------------------------------------------------------------
    // The operations: what the reply says
    // -----------------------------------------------------------------------

    /// The name of a type that a reply gives.
    pub fn rename_type_reply(reply: String) -> (name: String)
        requires
            names_something(reply@),
        ensures
            name@ == name_in(reply@),
    {
        extract_name(reply)
    }

    /// The name of a global variable that a reply gives.
    pub fn rename_variable_reply(reply: String) -> (name: String)
        requires
            names_something(reply@),
        ensures
            name@ == constant_name_in(reply@),
    {
        extract_constant_name(reply)
    }

    /// The name of a function that a reply gives.
    pub fn rename_function_reply(reply: String) -> (name: String)
        requires
            names_something(reply@),
        ensures
            name@ == name_in(reply@),
    {
        extract_name(reply)
    }

    /// The definition of a type that a reply gives.
    pub fn translate_type_reply(reply: &str) -> (code: Option<String>)
        ensures
            code.deep_view() == code_in(reply@, type_prefixes()),
    {
        let prefixes = prefixes_of(&["type ", "struct ", "union ", "enum "], &[]);
        assert(texts(prefixes@) =~= type_prefixes());
        match code_of(&chars_of(reply), &prefixes) {
            Some(code) => Some(string_of(&code)),
            None => None,
        }
    }

    /// The declaration of a global variable that a reply gives.
    pub fn translate_variable_reply(reply: &str) -> (code: Option<String>)
        ensures
            code.deep_view() == code_in(reply@, variable_prefixes()),
    {
        let prefixes = prefixes_of(&["const ", "static "], &[]);
        assert(texts(prefixes@) =~= variable_prefixes());
        match code_of(&chars_of(reply), &prefixes) {
            Some(code) => Some(string_of(&code)),
            None => None,
        }
    }

    /// The candidate signatures that a reply gives where `n` were asked
    /// for: those that it holds, and no more than `n` of them.
    pub fn translate_signature_reply(reply: &str, n: usize) -> (sigs: Vec<String>)
        ensures
            sigs.deep_view() == first_of(signatures_in(reply@), n as nat),
    {
        first_signatures(&extract_signatures(reply), n)
    }

    /// The function that a reply gives.
    pub fn translate_function_reply(reply: &str) -> (code: Option<String>)
        ensures
            code.deep_view() == function_in(reply@),
    {
        extract_function(reply)
    }

    /// The repair of `code` that a reply gives.
    pub fn fix_reply(code: &str, reply: &str) -> (repaired: Option<String>)
        ensures
            repaired.deep_view() == repair_in(code@, reply@),
    {
        let prefixes = prefixes_of(
            &["type ", "struct ", "union ", "enum "],
            &["const ", "static ", "fn "],
        );
        assert(texts(prefixes@) =~= repair_prefixes());
        match code_of(&chars_of(reply), &prefixes) {
            Some(found) => if acceptable(&chars_of(code), &found) {
                Some(string_of(&found))
            } else {
                None
            },
            None => None,
        }
    }

    /// The choice that a reply states.
    pub fn compare_reply(reply: &str) -> (choice: Comparison)
        ensures
            choice == choice_in(reply@),
    {
        extract_choice(reply)
    }

    // -----------------------------------------------------------------------
    // The course of a request
    // -----------------------------------------------------------------------

    /// Begins a request: the cache is to be asked for its key.
    pub fn send_request(msgs: Vec<Message>, stop: Option<&str>) -> (lookup: Lookup)
        ensures
            lookup.key@ == key_of(msgs.deep_view(), stop.deep_view()),
            lookup.stop.deep_view() == stop.deep_view(),
            lookup.messages == msgs,
    {
        let key = CacheKey::new(&msgs, stop);
        let stop = match stop {
            Some(token) => Some(token.to_owned()),
            None => None,
        };
        Lookup { key, stop, messages: msgs }
    }

    fn account(&mut self, val: &CacheVal)
        ensures
            final(self).counters.requested() == capped_sum(
                old(self).counters.requested(),
                val.request_tokens,
            ),
            final(self).counters.responded() == capped_sum(
                old(self).counters.responded(),
                val.response_tokens,
            ),
            final(self).counters.waited() == capped_time(
                old(self).counters.waited(),
                val.elapsed,
            ),
            final(self).model == old(self).model,
            final(self).max_attempts == old(self).max_attempts,
            final(self).max_tokens == old(self).max_tokens,
            final(self).token_budget == old(self).token_budget,
            final(self).possible_requests == old(self).possible_requests,
    {
        self.counters.add(val);
    }

    /// Takes the cache's answer. A cached reply ends the request and is
    /// counted; without one the request is to be sent.
    pub fn on_cache(&mut self, lookup: Lookup, found: Option<CacheVal>) -> (next: Progress)
        ensures
            final(self).model == old(self).model,
            final(self).max_attempts == old(self).max_attempts,
            final(self).max_tokens == old(self).max_tokens,
            final(self).token_budget == old(self).token_budget,
            final(self).possible_requests == old(self).possible_requests,
            match found {
                Some(val) => {
                    &&& next matches Progress::Done(done)
                    &&& done.content@ == val.content@
                    &&& done.store is None
                    &&& final(self).counters.requested() == capped_sum(
                        old(self).counters.requested(),
                        val.request_tokens,
                    )
                    &&& final(self).counters.responded() == capped_sum(
                        old(self).counters.responded(),
                        val.response_tokens,
                    )
                    &&& final(self).counters.waited() == capped_time(
                        old(self).counters.waited(),
                        val.elapsed,
                    )
                },
                None => {
                    &&& next matches Progress::Send(attempt)
                    &&& attempt.key == lookup.key
                    &&& attempt.stop == lookup.stop
                    &&& attempt.messages == lookup.messages
                    &&& attempt.failures == 0
                    &&& final(self).counters.requested() == old(self).counters.requested()
                    &&& final(self).counters.responded() == old(self).counters.responded()
                    &&& final(self).counters.waited() == old(self).counters.waited()
                },
            },
    {
        match found {
            Some(val) => {
                self.account(&val);
                Progress::Done(Completion { content: val.content, store: None })
            },
            None => Progress::Send(
                Attempt {
                    key: lookup.key,
                    stop: lookup.stop,
                    messages: lookup.messages,
                    failures: 0,
                },
            ),
        }
    }

    /// What goes to the transport for an attempt: the messages as they now
    /// stand, for the client's model and with its bound on the reply. The
    /// texts of the system's messages go as one text, a line each; the
    /// other messages go as the turns.
    pub fn request_of(&self, attempt: &Attempt) -> (request: Transmission)
        requires
            self.model is Some,
        ensures
            request.model@ == self.model->0@,
            request.system@ == joined(instructions(attempt.messages.deep_view()), newline()),
            request.messages.deep_view() == turns(attempt.messages.deep_view()),
            request.max_tokens == self.max_tokens,
    {
        let model = match &self.model {
            Some(m) => m.clone(),
            None => String::new(),
        };
        let ghost all = attempt.messages.deep_view();
        let mut system: Vec<String> = Vec::new();
        let mut messages: Vec<Message> = Vec::new();
        let mut i: usize = 0;
        while i < attempt.messages.len()
            invariant
                i <= attempt.messages.len(),
                all == attempt.messages.deep_view(),
                system.deep_view() == instructions(all.take(i as int)),
                messages.deep_view() == turns(all.take(i as int)),
            decreases attempt.messages.len() - i,
        {
            let message = &attempt.messages[i];
            assert(all.take(i + 1).drop_last() =~= all.take(i as int));
            assert(all.take(i + 1).last() == message@);
            match message.role {
                Role::System => {
                    let ghost before = system.deep_view();
                    let text = text_of(&message.content);
                    system.push(text);
                    assert(system.deep_view() =~= before.push(content_text(message@.content)));
                },
                _ => {
                    let ghost before = messages.deep_view();
                    messages.push(copy_message(message));
                    assert(messages.deep_view() =~= before.push(message@));
                },
            }
            i += 1;
        }
        assert(all.take(i as int) =~= all);
        let system = string_of(&join_strings(&system));
        Transmission { model, system, messages, max_tokens: self.max_tokens }
    }

    /// Takes what came of sending an attempt, and the time it took. A reply
    /// ends the request: it is counted and is to be cached under the key of
    /// the messages as they were sent. A failure leads to the next attempt,
    /// with the messages perturbed and under the key of the perturbed
    /// messages, or, after the last attempt, to an empty result.
    pub fn on_response(&mut self, attempt: Attempt, outcome: Option<Response>, elapsed: u64) -> (next:
        Progress)
        ensures
            final(self).model == old(self).model,
            final(self).max_attempts == old(self).max_attempts,
            final(self).max_tokens == old(self).max_tokens,
            final(self).token_budget == old(self).token_budget,
            final(self).possible_requests == capped_sum(old(self).possible_requests, 1),
            match outcome {
                Some(response) => {
                    let val = value_of(
                        response.content.deep_view(),
                        response.input_tokens,
                        response.output_tokens,
                        elapsed,
                    );
                    &&& next matches Progress::Done(done)
                    &&& done.content@ == val.content
                    &&& done.store matches Some(entry)
                    &&& entry.0@ == key_of(
                        attempt.messages.deep_view(),
                        attempt.stop.deep_view(),
                    )
                    &&& entry.1@ == val
                    &&& final(self).counters.requested() == capped_sum(
                        old(self).counters.requested(),
                        response.input_tokens,
                    )
                    &&& final(self).counters.responded() == capped_sum(
                        old(self).counters.responded(),
                        response.output_tokens,
                    )
                    &&& final(self).counters.waited() == capped_time(
                        old(self).counters.waited(),
                        elapsed,
                    )
                },
                None => {
                    &&& final(self).counters.requested() == old(self).counters.requested()
                    &&& final(self).counters.responded() == old(self).counters.responded()
                    &&& final(self).counters.waited() == old(self).counters.waited()
                    &&& if attempt.failures + 1 >= old(self).max_attempts {
                        &&& next matches Progress::Done(done)
                        &&& done.content@.len() == 0
                        &&& done.store is None
                    } else {
                        &&& next matches Progress::Send(again)
                        &&& again.key@ == key_of(
                            perturbed(attempt.messages.deep_view()),
                            attempt.stop.deep_view(),
                        )
                        &&& again.stop == attempt.stop
                        &&& again.messages.deep_view() == perturbed(attempt.messages.deep_view())
                        &&& again.failures == attempt.failures + 1
                    }
                },
            },
    {
        self.possible_requests = self.possible_requests.saturating_add(1);
        match outcome {
            Some(response) => {
                let content = text_of(&response.content);
                let val = CacheVal::new(
                    content.clone(),
                    Some("No stop reason".to_owned()),
                    response.output_tokens,
                    response.input_tokens,
                    elapsed,
                );
                self.account(&val);
                let key = CacheKey::new(&attempt.messages, stop_of(&attempt.stop));
                Progress::Done(Completion { content, store: Some((key, val)) })
            },
            None => {
                if attempt.failures >= self.max_attempts || attempt.failures + 1
                    >= self.max_attempts {
                    Progress::Done(Completion { content: String::new(), store: None })
                } else {
                    let messages = perturb(attempt.messages);
                    let key = CacheKey::new(&messages, stop_of(&attempt.stop));
                    Progress::Send(
                        Attempt {
                            key,
                            stop: attempt.stop,
                            messages,
                            failures: attempt.failures + 1,
                        },
                    )
                }
            },
        }
    }
}

fn stop_of(stop: &Option<String>) -> (r: Option<&str>)
    ensures
        r.deep_view() == stop.deep_view(),
{
    match stop {
        Some(token) => Some(token.as_str()),
        None => None,
    }
}

fn copy_block(block: &ContentBlock) -> (r: ContentBlock)
    ensures
        r@ == block@,
{
    match block {
        ContentBlock::Text { text } => ContentBlock::Text { text: text.clone() },
        ContentBlock::Image { source, media_type, data } => ContentBlock::Image {
            source: source.clone(),
            media_type: media_type.clone(),
            data: data.clone(),
        },
    }
}

fn copy_message(m: &Message) -> (r: Message)
    ensures
        r@ == m@,
{
    let mut content: Vec<ContentBlock> = Vec::new();
    let mut i: usize = 0;
    while i < m.content.len()
        invariant
            i <= m.content.len(),
            content.deep_view() == m.content.deep_view().take(i as int),
        decreases m.content.len() - i,
    {
        let ghost before = content.deep_view();
        content.push(copy_block(&m.content[i]));
        assert(content.deep_view() =~= before.push(m.content@[i as int]@));
        assert(m.content.deep_view().take(i + 1) =~= m.content.deep_view().take(i as int).push(
            m.content@[i as int]@,
        ));
        i += 1;
    }
    assert(m.content.deep_view().take(i as int) =~= m.content.deep_view());
    Message { role: m.role, content }
}

/// The messages with one more space at the end of the first block of the
/// first message, where that block is text.
pub fn perturb(msgs: Vec<Message>) -> (r: Vec<Message>)
    ensures
        r.deep_view() == perturbed(msgs.deep_view()),
{
    let ghost before = msgs.deep_view();
    let mut msgs = msgs;
    if msgs.len() == 0 {
        return msgs;
    }
    let first = msgs.remove(0);
    let ghost rest = msgs.deep_view();
    assert(first@ == before[0]);
    assert(rest =~= before.remove(0));
    let Message { role, content } = first;
    let mut content = content;
    let ghost blocks = content.deep_view();
    assert(before[0] == MessageView { role, content: blocks });
    if content.len() > 0 {
        let block = content.remove(0);
        let ghost others = content.deep_view();
        assert(others =~= blocks.remove(0));
        assert(block@ == blocks[0]);
        let changed = match block {
            ContentBlock::Text { text } => {
                let mut text = text;
                text.push(' ');
                ContentBlock::Text { text }
            },
            other => other,
        };
        assert(match blocks[0] {
            ContentBlockView::Text { text } => changed@ == ContentBlockView::Text {
                text: text.push(' '),
            },
            ContentBlockView::Image { .. } => changed@ == blocks[0],
        });
        content.insert(0, changed);
        assert(content.deep_view() =~= blocks.update(0, changed@));
        assert(blocks[0] is Image ==> content.deep_view() =~= blocks);
    } else {
        assert(content.deep_view() =~= blocks);
    }
    let m = Message { role, content };
    msgs.insert(0, m);
    assert(msgs.deep_view() =~= before.update(0, m@));
    assert(m@ == before[0] ==> before.update(0, m@) =~= before);
    assert(msgs.deep_view() == perturbed(before));
    msgs
}

} // verus!
