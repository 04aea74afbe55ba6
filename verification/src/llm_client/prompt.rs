//! The prompts of the client: the text of each request, word for word. A
//! cached reply is found again only under the very same text.

use crate::llm_client::message::{assistant, system, text_message, user, Message, MessageView, Role};
use crate::text::{append, chars_of, join_lines, joined, newline, string_of};
use vstd::prelude::*;

verus! {

/// The instructions of a conversation about Rust.
pub const HELPFUL: &'static str = "You are a helpful assistant.";

/// The instructions of a conversation about a name.
pub const CONCISE: &'static str = "You are a helpful assistant. Answer as concisely as possible.";

/// The instructions of a conversation about a translation.
pub const TRANSLATOR: &'static str = "You are a helpful assistant that translates C to Rust.";

/// The request for a name, up to the name.
pub const CONVERT_OPEN: &'static str = "Convert `";

/// The request for a name, between the name and the style.
pub const CONVERT_MIDDLE: &'static str = "` to `";

/// The request for a name, behind the style.
pub const CONVERT_CLOSE: &'static str = "`.";

/// The mark around a name in an answer.
pub const TICK: &'static str = "`";

/// The style of the names of types.
pub const CAMEL_CASE: &'static str = "CamelCase";

/// The style of the names of global variables.
pub const SCREAMING_SNAKE_CASE: &'static str = "SCREAMING_SNAKE_CASE";

/// The style of the names of functions.
pub const SNAKE_CASE: &'static str = "snake_case";

/// The words about dependencies, up to their number.
pub const DEPS_OPEN: &'static str = "The following definition";

/// The words about one dependency.
pub const DEPS_ONE: &'static str = " has";

/// The words about several dependencies.
pub const DEPS_MANY: &'static str = "s have";

/// The words about dependencies, what has been done with them.
pub const DEPS_DONE: &'static str = " been translated";

/// The words about dependencies, up to the dependencies.
pub const DEPS_MIDDLE: &'static str = " from C to Rust already:\n```\n";

/// The end of a block of code in a request.
pub const DEPS_CLOSE: &'static str = "\n```\n";

/// The request for a type, up to its kind.
pub const TYPE_OPEN: &'static str = "Translate the following C ";

/// The request for a type, between its kind and its definition.
pub const TYPE_MIDDLE: &'static str =
    " definition to Rust using Rust idioms without any explanation:\n```\n";

/// The end of a request for a type or a variable.
pub const AVOID_UNSAFE: &'static str = "\n```\nTry to avoid unsafe code.";

/// The request for a global variable, up to its declaration.
pub const VARIABLE_OPEN: &'static str =
    "Translate the following C global variable declaration to a Rust global variable declaration without any explanation:\n```\n";

/// The request for signatures, up to the function.
pub const SIGNATURE_OPEN: &'static str = "Consider the following C function:\n```\n";

/// The request for signatures, between the function and their number.
pub const SIGNATURE_ASK: &'static str =
    "\n```\nIf this function was written in Rust with Rust idioms, what would be its signature?\nFirst, explain the function. Then, give ";

/// The request for signatures, behind their number.
pub const SIGNATURE_KIND: &'static str = " Rust-idiomatic candidate signature";

/// The ending of more than one.
pub const PLURAL: &'static str = "s";

/// The request for signatures, the format of the answer.
pub const SIGNATURE_FORMAT: &'static str =
    ".\nDo not add additional parameters to the signatures.\nThe answer format is:\n\nExplanation:\n[explanation]\nSignatures:\n";

/// The place of one signature in the format of the answer.
pub const PLACEHOLDER: &'static str = ". `signature`\n";

/// The shape of a signature, up to the name.
pub const SIGNATURE_SHAPE_OPEN: &'static str = "\nEach signature must look like `fn ";

/// The shape of a signature, between the two forms.
pub const SIGNATURE_SHAPE_MIDDLE: &'static str = "(...);` or `fn ";

/// The shape of a signature, behind the name.
pub const SIGNATURE_SHAPE_CLOSE: &'static str = "(...) -> ...;`.";

/// The function of the first worked example.
pub const HELLO_CODE: &'static str =
    "int hello() {\n    if (NAME == NULL) {\n        return 1;\n    }\n    printf(\"Hello %s!\\n\", NAME);\n    return 0;\n}";

/// The name of the function of the first worked example.
pub const HELLO_NAME: &'static str = "hello";

/// What the function of the first worked example depends on.
pub const HELLO_DEPENDENCY: &'static str = "const NAME: &str;";

/// The answer of the first worked example.
pub const HELLO_ANSWER: &'static str =
    "Explanation:\nThe function checks if the global constant `NAME` is `NULL` and returns `1` if it is. Otherwise, it prints a greeting message and returns `0`.\nSignatures:\n1. `fn hello() -> i32;`\n2. `fn hello() -> Option<()>;`\n3. `fn hello() -> Result<(), ()>;`";

/// The function of the second worked example.
pub const DIVIDE_CODE: &'static str =
    "int divide(int n, int d, int *q, int *r) {\n    if (d == 0) {\n        return DIV_BY_ZERO;\n    }\n    *q = n / d;\n    *r = n % d;\n    return 0;\n}";

/// The name of the function of the second worked example.
pub const DIVIDE_NAME: &'static str = "divide";

/// What the function of the second worked example depends on.
pub const DIVIDE_DEPENDENCY: &'static str = "const DIV_BY_ZERO: i32;";

/// The answer of the second worked example.
pub const DIVIDE_ANSWER: &'static str =
    "Explanation:\nThe function takes in two integers and two pointers to integers. It checks if the second integer is zero, and if so, returns an error code. Otherwise, it calculates the quotient and remainder of the division of the first integer by the second integer and stores them in the memory locations pointed to by the two pointers. Finally, it returns zero to indicate success.\nSignatures:\n1. `fn divide(n: i32, d: i32, q: &mut i32, r: &mut i32) -> i32;`\n2. `fn divide(n: i32, d: i32) -> Option<(i32, i32)>;`\n3. `fn divide(n: i32, d: i32) -> Result<(i32, i32), ()>;`";

/// The request for a function, up to the function.
pub const FUNCTION_OPEN: &'static str =
    "Translate the following C function to Rust using Rust idioms without any explanation:\n```\n";

/// The demand for a signature, up to the signature.
pub const START_WITH: &'static str = "Your answer must start with:\n```\n";

/// The demand for a signature, behind the signature.
pub const START_WITH_CLOSE: &'static str = " {\n```\n";

/// The end of a request for a function.
pub const FUNCTION_CLOSE: &'static str =
    "Try to avoid unsafe code. Do not add `use` statements. Use full paths instead.";

/// The request for a repair, up to the code.
pub const FIX_OPEN: &'static str = "The following Rust code has a compilation error:\n```\n";

/// The request for a repair, between the code and the complaint.
pub const FIX_MIDDLE: &'static str = "\n```\nThe error message is:\n```\n";

/// The request for a repair, what is to be done.
pub const FIX_INSTRUCTION: &'static str =
    "Explain the error first and then write the code of the fixed function.";

/// The end of a line.
pub const LINE_FEED: &'static str = "\n";

/// The request for a choice, up to the first function.
pub const COMPARE_OPEN: &'static str =
    "Consider two following Rust functions:\nImplementation 1\n```\n";

/// The request for a choice, between the two functions.
pub const COMPARE_MIDDLE: &'static str = "\n```\nImplementation 2\n```\n";

/// The request for a choice, behind the second function.
pub const COMPARE_CLOSE: &'static str =
    "\n```\nWhich one is more Rust-idiomatic? Compare them and choose one.\nYour answer format is:\n\nComparison:\n[comparison]\nChoice: Implementation [n]";

/// The first function of the worked example of a choice.
pub const COMPARE_FIRST: &'static str =
    "fn div(n: u32, d: u32) -> i32 {\n    if d == 0 {\n        return -1;\n    }\n    (n / d) as i32\n}";

/// The second function of the worked example of a choice.
pub const COMPARE_SECOND: &'static str =
    "fn div(n: u32, d: u32) -> Option<u32> {\n    if d == 0 {\n        return None;\n    }\n    Some(n / d)\n}";

/// The answer of the worked example of a choice.
pub const COMPARE_ANSWER: &'static str =
    "Comparison:\nBoth handle the case where the denominator is zero, but they do it differently. Implementation 1 returns -1, which is not a valid result for the division operation, while implementation 2 returns an Option type, which is a more idiomatic way of handling errors in Rust. Additionally, implementation 2 returns an unsigned integer instead of a signed integer, which is more appropriate for the result of a division operation.\nChoice: Implementation 2";

fn put(out: &mut Vec<char>, s: &str)
    ensures
        final(out)@ == old(out)@ + s@,
{
    append(out, &chars_of(s));
}

// ---------------------------------------------------------------------------
// Numbers
// ---------------------------------------------------------------------------

/// The character of a decimal digit.
pub open spec fn digit(d: int) -> char {
    if d == 0 {
        '0'
    } else if d == 1 {
        '1'
    } else if d == 2 {
        '2'
    } else if d == 3 {
        '3'
    } else if d == 4 {
        '4'
    } else if d == 5 {
        '5'
    } else if d == 6 {
        '6'
    } else if d == 7 {
        '7'
    } else if d == 8 {
        '8'
    } else {
        '9'
    }
}

/// A number in decimal digits.
pub open spec fn decimal(n: nat) -> Seq<char>
    decreases n,
{
    if n < 10 {
        seq![digit(n as int)]
    } else {
        decimal(n / 10).push(digit((n % 10) as int))
    }
}

fn digit_of(d: usize) -> (c: char)
    requires
        d < 10,
    ensures
        c == digit(d as int),
{
    if d == 0 {
        '0'
    } else if d == 1 {
        '1'
    } else if d == 2 {
        '2'
    } else if d == 3 {
        '3'
    } else if d == 4 {
        '4'
    } else if d == 5 {
        '5'
    } else if d == 6 {
        '6'
    } else if d == 7 {
        '7'
    } else if d == 8 {
        '8'
    } else {
        '9'
    }
}

fn decimal_of(n: usize) -> (v: Vec<char>)
    ensures
        v@ == decimal(n as nat),
    decreases n,
{
    if n < 10 {
        let mut v: Vec<char> = Vec::new();
        v.push(digit_of(n));
        assert(v@ =~= seq![digit(n as int)]);
        v
    } else {
        let mut v = decimal_of(n / 10);
        v.push(digit_of(n % 10));
        v
    }
}

// ---------------------------------------------------------------------------
// Dependencies
// ---------------------------------------------------------------------------

/// The words that introduce what has been translated before, or nothing
/// where nothing has been.
pub open spec fn deps_text(deps: Seq<Seq<char>>) -> Seq<char> {
    if deps.len() == 0 {
        Seq::empty()
    } else {
        DEPS_OPEN@ + (if deps.len() == 1 {
            DEPS_ONE@
        } else {
            DEPS_MANY@
        }) + DEPS_DONE@ + DEPS_MIDDLE@ + joined(deps, newline()) + DEPS_CLOSE@
    }
}

/// The words that introduce what has been translated before.
pub fn make_deps(deps: &[String]) -> (text: String)
    ensures
        text@ == deps_text(deps.deep_view()),
{
    if deps.len() == 0 {
        String::new()
    } else {
        let mut out = chars_of(DEPS_OPEN);
        if deps.len() == 1 {
            put(&mut out, DEPS_ONE);
        } else {
            put(&mut out, DEPS_MANY);
        }
        put(&mut out, DEPS_DONE);
        put(&mut out, DEPS_MIDDLE);
        append(&mut out, &join_lines(deps));
        put(&mut out, DEPS_CLOSE);
        string_of(&out)
    }
}

// ---------------------------------------------------------------------------
// Signatures
// ---------------------------------------------------------------------------

/// The numbered lines that show where each signature goes.
pub open spec fn placeholders(n: nat) -> Seq<char>
    decreases n,
{
    if n == 0 {
        Seq::empty()
    } else {
        placeholders((n - 1) as nat) + decimal(n) + PLACEHOLDER@
    }
}

/// The request for `n` candidate signatures of a function.
pub open spec fn signature_text(
    code: Seq<char>,
    new_name: Seq<char>,
    deps: Seq<Seq<char>>,
    n: nat,
) -> Seq<char> {
    deps_text(deps) + SIGNATURE_OPEN@ + code + SIGNATURE_ASK@ + decimal(n) + SIGNATURE_KIND@ + (if n
        == 1 {
        Seq::empty()
    } else {
        PLURAL@
    }) + SIGNATURE_FORMAT@ + placeholders(n) + SIGNATURE_SHAPE_OPEN@ + new_name
        + SIGNATURE_SHAPE_MIDDLE@ + new_name + SIGNATURE_SHAPE_CLOSE@
}

fn placeholders_of(n: usize) -> (r: Vec<char>)
    ensures
        r@ == placeholders(n as nat),
{
    let mut r: Vec<char> = Vec::new();
    let mut i: usize = 0;
    while i < n
        invariant
            i <= n,
            r@ == placeholders(i as nat),
        decreases n - i,
    {
        i += 1;
        append(&mut r, &decimal_of(i));
        put(&mut r, PLACEHOLDER);
    }
    r
}

/// The request for `n` candidate signatures of a function.
pub fn signature_prompt(code: &str, new_name: &str, deps: &[String], n: usize) -> (text: String)
    ensures
        text@ == signature_text(code@, new_name@, deps.deep_view(), n as nat),
{
    let mut out = chars_of(make_deps(deps).as_str());
    put(&mut out, SIGNATURE_OPEN);
    put(&mut out, code);
    put(&mut out, SIGNATURE_ASK);
    append(&mut out, &decimal_of(n));
    put(&mut out, SIGNATURE_KIND);
    if n == 1 {
        assert(out@ + Seq::<char>::empty() =~= out@);
    } else {
        put(&mut out, PLURAL);
    }
    put(&mut out, SIGNATURE_FORMAT);
    append(&mut out, &placeholders_of(n));
    put(&mut out, SIGNATURE_SHAPE_OPEN);
    put(&mut out, new_name);
    put(&mut out, SIGNATURE_SHAPE_MIDDLE);
    put(&mut out, new_name);
    put(&mut out, SIGNATURE_SHAPE_CLOSE);
    string_of(&out)
}

/// The conversation that asks for candidate signatures: two worked examples, then the request.
pub open spec fn signature_messages(
    code: Seq<char>,
    new_name: Seq<char>,
    deps: Seq<Seq<char>>,
    n: nat,
) -> Seq<MessageView> {
    seq![
        text_message(Role::System, HELPFUL@),
        text_message(
            Role::User,
            signature_text(HELLO_CODE@, HELLO_NAME@, seq![HELLO_DEPENDENCY@], 3),
        ),
        text_message(Role::Assistant, HELLO_ANSWER@),
        text_message(
            Role::User,
            signature_text(DIVIDE_CODE@, DIVIDE_NAME@, seq![DIVIDE_DEPENDENCY@], 3),
        ),
        text_message(Role::Assistant, DIVIDE_ANSWER@),
        text_message(Role::User, signature_text(code, new_name, deps, n)),
    ]
}

fn one_dependency(dep: &str) -> (deps: Vec<String>)
    ensures
        deps.deep_view() == seq![dep@],
{
    let mut deps: Vec<String> = Vec::new();
    deps.push(dep.to_owned());
    assert(deps.deep_view() =~= seq![dep@]);
    deps
}

/// The conversation that asks for `n` candidate signatures.
pub fn signature_conversation(code: &str, new_name: &str, deps: &[String], n: usize) -> (msgs: Vec<
    Message,
>)
    ensures
        msgs.deep_view() == signature_messages(code@, new_name@, deps.deep_view(), n as nat),
{
    let hello = one_dependency(HELLO_DEPENDENCY);
    let divide = one_dependency(DIVIDE_DEPENDENCY);
    let hello_deps = hello.as_slice();
    let divide_deps = divide.as_slice();
    assert(hello_deps.deep_view() =~= hello.deep_view());
    assert(divide_deps.deep_view() =~= divide.deep_view());
    let mut msgs: Vec<Message> = Vec::new();
    msgs.push(system(HELPFUL));
    msgs.push(user(signature_prompt(HELLO_CODE, HELLO_NAME, hello_deps, 3).as_str()));
    msgs.push(assistant(HELLO_ANSWER));
    msgs.push(user(signature_prompt(DIVIDE_CODE, DIVIDE_NAME, divide_deps, 3).as_str()));
    msgs.push(assistant(DIVIDE_ANSWER));
    msgs.push(user(signature_prompt(code, new_name, deps, n).as_str()));
    assert(msgs.deep_view() =~= signature_messages(code@, new_name@, deps.deep_view(), n as nat));
    msgs
}

// ---------------------------------------------------------------------------
// Names
// ---------------------------------------------------------------------------

/// The request to write `name` in the style `style`.
pub open spec fn conversion_text(name: Seq<char>, style: Seq<char>) -> Seq<char> {
    CONVERT_OPEN@ + name + CONVERT_MIDDLE@ + style + CONVERT_CLOSE@
}

/// The answer that gives `name` between ticks.
pub open spec fn answer_text(name: Seq<char>) -> Seq<char> {
    TICK@ + name + TICK@
}

/// The conversation that asks for `name` in the style `style`: four worked
/// examples, given as names and their answers, then the request.
pub open spec fn renaming_messages(
    style: Seq<char>,
    names: Seq<Seq<char>>,
    answers: Seq<Seq<char>>,
    name: Seq<char>,
) -> Seq<MessageView> {
    seq![
        text_message(Role::System, CONCISE@),
        text_message(Role::User, conversion_text(names[0], style)),
        text_message(Role::Assistant, answer_text(answers[0])),
        text_message(Role::User, conversion_text(names[1], style)),
        text_message(Role::Assistant, answer_text(answers[1])),
        text_message(Role::User, conversion_text(names[2], style)),
        text_message(Role::Assistant, answer_text(answers[2])),
        text_message(Role::User, conversion_text(names[3], style)),
        text_message(Role::Assistant, answer_text(answers[3])),
        text_message(Role::User, conversion_text(name, style)),
    ]
}

/// The names of the worked examples of every renaming.
pub open spec fn example_names(first: Seq<char>, second: Seq<char>) -> Seq<Seq<char>> {
    seq![first, second, "foo_bar"@, "barBaz"@]
}

/// The conversation that asks for the name of a type.
pub open spec fn type_name_messages(name: Seq<char>) -> Seq<MessageView> {
    renaming_messages(
        CAMEL_CASE@,
        example_names("foo"@, "Bar"@),
        seq!["Foo"@, "Bar"@, "FooBar"@, "BarBaz"@],
        name,
    )
}

/// The conversation that asks for the name of a global variable.
pub open spec fn variable_name_messages(name: Seq<char>) -> Seq<MessageView> {
    renaming_messages(
        SCREAMING_SNAKE_CASE@,
        example_names("Foo"@, "BAR"@),
        seq!["FOO"@, "BAR"@, "FOO_BAR"@, "BAR_BAZ"@],
        name,
    )
}

/// The conversation that asks for the name of a function.
pub open spec fn function_name_messages(name: Seq<char>) -> Seq<MessageView> {
    renaming_messages(
        SNAKE_CASE@,
        example_names("Foo"@, "BAR"@),
        seq!["foo"@, "bar"@, "foo_bar"@, "bar_baz"@],
        name,
    )
}

fn conversion(name: &str, style: &str) -> (m: Message)
    ensures
        m@ == text_message(Role::User, conversion_text(name@, style@)),
{
    let mut out = chars_of(CONVERT_OPEN);
    put(&mut out, name);
    put(&mut out, CONVERT_MIDDLE);
    put(&mut out, style);
    put(&mut out, CONVERT_CLOSE);
    user(string_of(&out).as_str())
}

fn answer(name: &str) -> (m: Message)
    ensures
        m@ == text_message(Role::Assistant, answer_text(name@)),
{
    let mut out = chars_of(TICK);
    put(&mut out, name);
    put(&mut out, TICK);
    assistant(string_of(&out).as_str())
}

fn renaming(
    style: &str,
    first: (&str, &str),
    second: (&str, &str),
    third: (&str, &str),
    fourth: (&str, &str),
    name: &str,
) -> (msgs: Vec<Message>)
    ensures
        msgs.deep_view() == renaming_messages(
            style@,
            seq![first.0@, second.0@, third.0@, fourth.0@],
            seq![first.1@, second.1@, third.1@, fourth.1@],
            name@,
        ),
{
    let mut msgs: Vec<Message> = Vec::new();
    msgs.push(system(CONCISE));
    msgs.push(conversion(first.0, style));
    msgs.push(answer(first.1));
    msgs.push(conversion(second.0, style));
    msgs.push(answer(second.1));
    msgs.push(conversion(third.0, style));
    msgs.push(answer(third.1));
    msgs.push(conversion(fourth.0, style));
    msgs.push(answer(fourth.1));
    msgs.push(conversion(name, style));
    assert(msgs.deep_view() =~= renaming_messages(
        style@,
        seq![first.0@, second.0@, third.0@, fourth.0@],
        seq![first.1@, second.1@, third.1@, fourth.1@],
        name@,
    ));
    msgs
}

/// The conversation that asks for the name of a type.
pub fn type_name_conversation(name: &str) -> (msgs: Vec<Message>)
    ensures
        msgs.deep_view() == type_name_messages(name@),
{
    renaming(
        CAMEL_CASE,
        ("foo", "Foo"),
        ("Bar", "Bar"),
        ("foo_bar", "FooBar"),
        ("barBaz", "BarBaz"),
        name,
    )
}

/// The conversation that asks for the name of a global variable.
pub fn variable_name_conversation(name: &str) -> (msgs: Vec<Message>)
    ensures
        msgs.deep_view() == variable_name_messages(name@),
{
    renaming(
        SCREAMING_SNAKE_CASE,
        ("Foo", "FOO"),
        ("BAR", "BAR"),
        ("foo_bar", "FOO_BAR"),
        ("barBaz", "BAR_BAZ"),
        name,
    )
}

/// The conversation that asks for the name of a function.
pub fn function_name_conversation(name: &str) -> (msgs: Vec<Message>)
    ensures
        msgs.deep_view() == function_name_messages(name@),
{
    renaming(
        SNAKE_CASE,
        ("Foo", "foo"),
        ("BAR", "bar"),
        ("foo_bar", "foo_bar"),
        ("barBaz", "bar_baz"),
        name,
    )
}

// ---------------------------------------------------------------------------
// Translations
// ---------------------------------------------------------------------------

/// The request to translate the definition of a type of the kind `sort`.
pub open spec fn type_text(code: Seq<char>, sort: Seq<char>, deps: Seq<Seq<char>>) -> Seq<char> {
    deps_text(deps) + TYPE_OPEN@ + sort + TYPE_MIDDLE@ + code + AVOID_UNSAFE@
}

/// The request to translate the declaration of a global variable.
pub open spec fn variable_text(code: Seq<char>, deps: Seq<Seq<char>>) -> Seq<char> {
    deps_text(deps) + VARIABLE_OPEN@ + code + AVOID_UNSAFE@
}

/// The demand that the answer start with a signature, or nothing where none is given.
pub open spec fn start_text(signature: Option<Seq<char>>) -> Seq<char> {
    match signature {
        Some(sig) => START_WITH@ + sig + START_WITH_CLOSE@,
        None => Seq::empty(),
    }
}

/// The request to translate a function.
pub open spec fn function_text(
    code: Seq<char>,
    signature: Option<Seq<char>>,
    deps: Seq<Seq<char>>,
) -> Seq<char> {
    deps_text(deps) + FUNCTION_OPEN@ + code + DEPS_CLOSE@ + start_text(signature)
        + FUNCTION_CLOSE@
}

/// The request to repair code that the compiler refused.
pub open spec fn fix_text(code: Seq<char>, error: Seq<char>) -> Seq<char> {
    FIX_OPEN@ + code + FIX_MIDDLE@ + error + DEPS_CLOSE@ + FIX_INSTRUCTION@ + LINE_FEED@
}

/// The request to choose between two functions.
pub open spec fn compare_text(first: Seq<char>, second: Seq<char>) -> Seq<char> {
    COMPARE_OPEN@ + first + COMPARE_MIDDLE@ + second + COMPARE_CLOSE@
}

/// A conversation of the translator's instructions and one request.
pub open spec fn translation_messages(request: Seq<char>) -> Seq<MessageView> {
    seq![text_message(Role::System, TRANSLATOR@), text_message(Role::User, request)]
}

/// The conversation that asks for a repair.
pub open spec fn fix_messages(code: Seq<char>, error: Seq<char>) -> Seq<MessageView> {
    seq![text_message(Role::System, HELPFUL@), text_message(Role::User, fix_text(code, error))]
}

/// The conversation that asks for a choice: one worked example, then the request.
pub open spec fn compare_messages(first: Seq<char>, second: Seq<char>) -> Seq<MessageView> {
    seq![
        text_message(Role::System, HELPFUL@),
        text_message(Role::User, compare_text(COMPARE_FIRST@, COMPARE_SECOND@)),
        text_message(Role::Assistant, COMPARE_ANSWER@),
        text_message(Role::User, compare_text(first, second)),
    ]
}

fn translation(request: &Vec<char>) -> (msgs: Vec<Message>)
    ensures
        msgs.deep_view() == translation_messages(request@),
{
    let mut msgs: Vec<Message> = Vec::new();
    msgs.push(system(TRANSLATOR));
    msgs.push(user(string_of(request).as_str()));
    assert(msgs.deep_view() =~= translation_messages(request@));
    msgs
}

/// The conversation that asks for the translation of a type's definition.
pub fn type_conversation(code: &str, sort: &str, deps: &[String]) -> (msgs: Vec<Message>)
    ensures
        msgs.deep_view() == translation_messages(type_text(code@, sort@, deps.deep_view())),
{
    let mut out = chars_of(make_deps(deps).as_str());
    put(&mut out, TYPE_OPEN);
    put(&mut out, sort);
    put(&mut out, TYPE_MIDDLE);
    put(&mut out, code);
    put(&mut out, AVOID_UNSAFE);
    translation(&out)
}

/// The conversation that asks for the translation of a global variable's declaration.
pub fn variable_conversation(code: &str, deps: &[String]) -> (msgs: Vec<Message>)
    ensures
        msgs.deep_view() == translation_messages(variable_text(code@, deps.deep_view())),
{
    let mut out = chars_of(make_deps(deps).as_str());
    put(&mut out, VARIABLE_OPEN);
    put(&mut out, code);
    put(&mut out, AVOID_UNSAFE);
    translation(&out)
}

/// The conversation that asks for the translation of a function.
pub fn function_conversation(code: &str, signature: Option<&str>, deps: &[String]) -> (msgs: Vec<
    Message,
>)
    ensures
        msgs.deep_view() == translation_messages(
            function_text(code@, signature.deep_view(), deps.deep_view()),
        ),
{
    let mut out = chars_of(make_deps(deps).as_str());
    put(&mut out, FUNCTION_OPEN);
    put(&mut out, code);
    put(&mut out, DEPS_CLOSE);
    let mut start: Vec<char> = Vec::new();
    match signature {
        Some(sig) => {
            start = chars_of(START_WITH);
            put(&mut start, sig);
            put(&mut start, START_WITH_CLOSE);
        },
        None => {},
    }
    append(&mut out, &start);
    put(&mut out, FUNCTION_CLOSE);
    translation(&out)
}

/// The conversation that asks for a repair of `code`, which the compiler
/// refused with `error`.
pub fn fix_conversation(code: &str, error: &str) -> (msgs: Vec<Message>)
    ensures
        msgs.deep_view() == fix_messages(code@, error@),
{
    let mut out = chars_of(FIX_OPEN);
    put(&mut out, code);
    put(&mut out, FIX_MIDDLE);
    put(&mut out, error);
    put(&mut out, DEPS_CLOSE);
    put(&mut out, FIX_INSTRUCTION);
    put(&mut out, LINE_FEED);
    let mut msgs: Vec<Message> = Vec::new();
    msgs.push(system(HELPFUL));
    msgs.push(user(string_of(&out).as_str()));
    assert(msgs.deep_view() =~= fix_messages(code@, error@));
    msgs
}

fn comparison(first: &str, second: &str) -> (m: Message)
    ensures
        m@ == text_message(Role::User, compare_text(first@, second@)),
{
    let mut out = chars_of(COMPARE_OPEN);
    put(&mut out, first);
    put(&mut out, COMPARE_MIDDLE);
    put(&mut out, second);
    put(&mut out, COMPARE_CLOSE);
    user(string_of(&out).as_str())
}

/// The conversation that asks which of two functions is the more idiomatic.
pub fn compare_conversation(first: &str, second: &str) -> (msgs: Vec<Message>)
    ensures
        msgs.deep_view() == compare_messages(first@, second@),
{
    let mut msgs: Vec<Message> = Vec::new();
    msgs.push(system(HELPFUL));
    msgs.push(comparison(COMPARE_FIRST, COMPARE_SECOND));
    msgs.push(assistant(COMPARE_ANSWER));
    msgs.push(comparison(first, second));
    assert(msgs.deep_view() =~= compare_messages(first@, second@));
    msgs
}

} // verus!
