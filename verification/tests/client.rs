use c_translator::llm_client::anthropic::{
    AnthroClient, Attempt, Completion, Lookup, Progress, Response, Step,
};
use c_translator::llm_client::cache::Cache;
use c_translator::llm_client::message::{
    assistant, system, user, CacheKey, CacheVal, ContentBlock, Message, Role,
};
use c_translator::llm_client::reply::Comparison;

fn text_block(s: &str) -> ContentBlock {
    ContentBlock::Text { text: s.to_string() }
}

fn texts(msgs: &Vec<Message>) -> Vec<(Role, String)> {
    msgs.iter()
        .map(|m| match &m.content[0] {
            ContentBlock::Text { text } => (m.role, text.clone()),
            _ => panic!("no text"),
        })
        .collect()
}

fn asked<T: std::fmt::Debug>(step: Step<T>) -> Vec<Message> {
    match step {
        Step::Ask(msgs) => msgs,
        Step::Done(done) => panic!("nothing asked: {:?}", done),
    }
}

fn reply(text: &str, input: usize, output: usize) -> Response {
    Response { content: vec![text_block(text)], input_tokens: input, output_tokens: output }
}

fn sent(progress: Progress) -> Attempt {
    match progress {
        Progress::Send(attempt) => attempt,
        Progress::Done(done) => panic!("done: {:?}", done),
    }
}

fn done(progress: Progress) -> Completion {
    match progress {
        Progress::Done(done) => done,
        Progress::Send(attempt) => panic!("to send: {:?}", attempt),
    }
}

/// One request through a cache and a transport that answers from `outcomes`.
fn request(
    client: &mut AnthroClient,
    cache: &mut Cache,
    calls: &mut usize,
    outcomes: &mut Vec<Option<Response>>,
    msgs: Vec<Message>,
) -> String {
    let lookup = AnthroClient::send_request(msgs, None);
    let found = cache.get(&lookup.key);
    let mut progress = client.on_cache(lookup, found);
    loop {
        match progress {
            Progress::Done(done) => {
                if let Some((key, val)) = done.store {
                    cache.insert(key, val);
                }
                return done.content;
            }
            Progress::Send(attempt) => {
                assert!(client.model.is_some());
                assert!(!attempt.messages.is_empty());
                let _ = client.request_of(&attempt);
                *calls += 1;
                let outcome = outcomes.remove(0);
                progress = client.on_response(attempt, outcome, 250);
            }
        }
    }
}

#[test]
fn a_new_client_has_the_usual_settings() {
    let client = AnthroClient::new(Some("model".to_string()));
    assert_eq!(client.model, Some("model".to_string()));
    assert_eq!(client.max_attempts, 10);
    assert_eq!(client.max_tokens, 4096);
    assert_eq!(client.token_budget, 3820);
    assert_eq!(client.possible_requests, 30);
    assert_eq!(client.request_tokens(), 0);
    assert_eq!(client.response_tokens(), 0);
    assert_eq!(client.response_time(), 0);
}

#[test]
fn a_type_name_in_camel_case_is_kept() {
    assert_eq!(AnthroClient::rename_type("Foo"), Step::Done("Foo".to_string()));
    assert_eq!(AnthroClient::rename_type("FooBar2"), Step::Done("FooBar2".to_string()));
}

#[test]
fn another_type_name_is_asked_for() {
    for name in ["foo", "Foo_Bar", "FOO", "fooBar", "_Foo"] {
        let msgs = asked(AnthroClient::rename_type(name));
        assert_eq!(msgs.len(), 10);
        assert_eq!(
            texts(&msgs)[9],
            (Role::User, format!("Convert `{}` to `CamelCase`.", name))
        );
    }
    let msgs = texts(&asked(AnthroClient::rename_type("foo")));
    assert_eq!(
        msgs[0],
        (Role::System, "You are a helpful assistant. Answer as concisely as possible.".to_string())
    );
    assert_eq!(msgs[1], (Role::User, "Convert `foo` to `CamelCase`.".to_string()));
    assert_eq!(msgs[2], (Role::Assistant, "`Foo`".to_string()));
    assert_eq!(msgs[3], (Role::User, "Convert `Bar` to `CamelCase`.".to_string()));
    assert_eq!(msgs[4], (Role::Assistant, "`Bar`".to_string()));
    assert_eq!(msgs[5], (Role::User, "Convert `foo_bar` to `CamelCase`.".to_string()));
    assert_eq!(msgs[6], (Role::Assistant, "`FooBar`".to_string()));
    assert_eq!(msgs[7], (Role::User, "Convert `barBaz` to `CamelCase`.".to_string()));
    assert_eq!(msgs[8], (Role::Assistant, "`BarBaz`".to_string()));
}

#[test]
fn a_variable_name_without_lowercase_is_kept() {
    assert_eq!(AnthroClient::rename_variable("NAME"), Step::Done("NAME".to_string()));
    assert_eq!(AnthroClient::rename_variable("DIV_BY_0"), Step::Done("DIV_BY_0".to_string()));
    assert_eq!(AnthroClient::rename_variable(""), Step::Done("".to_string()));
    let msgs = texts(&asked(AnthroClient::rename_variable("divByZero")));
    assert_eq!(msgs.len(), 10);
    assert_eq!(msgs[1], (Role::User, "Convert `Foo` to `SCREAMING_SNAKE_CASE`.".to_string()));
    assert_eq!(msgs[2], (Role::Assistant, "`FOO`".to_string()));
    assert_eq!(msgs[8], (Role::Assistant, "`BAR_BAZ`".to_string()));
    assert_eq!(msgs[9], (Role::User, "Convert `divByZero` to `SCREAMING_SNAKE_CASE`.".to_string()));
}

#[test]
fn a_function_name_without_uppercase_is_kept() {
    assert_eq!(AnthroClient::rename_function("hello"), Step::Done("hello".to_string()));
    assert_eq!(AnthroClient::rename_function("foo_bar_2"), Step::Done("foo_bar_2".to_string()));
    let msgs = texts(&asked(AnthroClient::rename_function("fooBar")));
    assert_eq!(msgs.len(), 10);
    assert_eq!(msgs[3], (Role::User, "Convert `BAR` to `snake_case`.".to_string()));
    assert_eq!(msgs[4], (Role::Assistant, "`bar`".to_string()));
    assert_eq!(msgs[9], (Role::User, "Convert `fooBar` to `snake_case`.".to_string()));
}

#[test]
fn renaming_a_renamed_name_changes_nothing() {
    for name in ["hello", "foo_bar", "x1"] {
        let once = match AnthroClient::rename_function(name) {
            Step::Done(n) => n,
            Step::Ask(_) => panic!("asked"),
        };
        assert_eq!(AnthroClient::rename_function(&once), Step::Done(once.clone()));
        assert_eq!(once, name);
    }
    let once = match AnthroClient::rename_variable("FOO_BAR") {
        Step::Done(n) => n,
        Step::Ask(_) => panic!("asked"),
    };
    assert_eq!(AnthroClient::rename_variable(&once), Step::Done(once));
    let once = match AnthroClient::rename_type("FooBar") {
        Step::Done(n) => n,
        Step::Ask(_) => panic!("asked"),
    };
    assert_eq!(AnthroClient::rename_type(&once), Step::Done(once));
}

#[test]
fn names_are_read_from_replies() {
    assert_eq!(AnthroClient::rename_type_reply("`FooBar`".to_string()), "FooBar");
    assert_eq!(AnthroClient::rename_function_reply("It is `foo_bar`.".to_string()), "foo_bar");
    assert_eq!(AnthroClient::rename_variable_reply("`FOO BAR`".to_string()), "FOO_BAR");
}

#[test]
fn a_type_is_asked_for_with_its_kind() {
    let msgs = texts(&AnthroClient::translate_type("struct p { int x; };", "struct", &[]));
    assert_eq!(
        msgs,
        vec![
            (Role::System, "You are a helpful assistant that translates C to Rust.".to_string()),
            (
                Role::User,
                "Translate the following C struct definition to Rust using Rust idioms without any explanation:\n```\nstruct p { int x; };\n```\nTry to avoid unsafe code.".to_string()
            ),
        ]
    );
    assert_eq!(
        AnthroClient::translate_type_reply("```rust\nstruct P {\n    x: i32,\n}\n```"),
        Some("struct P {\n    x: i32,\n}".to_string())
    );
    assert_eq!(AnthroClient::translate_type_reply("```rust\nfn p() {}\n```"), None);
    assert_eq!(
        AnthroClient::translate_type_reply("struct P;"),
        Some("struct P;".to_string())
    );
    assert_eq!(AnthroClient::translate_type_reply("The type is struct P;"), None);
}

#[test]
fn a_variable_is_asked_for_with_what_it_depends_on() {
    let deps = vec!["struct P;".to_string()];
    let msgs = texts(&AnthroClient::translate_variable("struct p origin;", &deps));
    assert_eq!(
        msgs[1].1,
        format!(
            "The following definition has been {} from C to Rust already:\n```\nstruct P;\n```\nTranslate the following C global variable declaration to a Rust global variable declaration without any explanation:\n```\nstruct p origin;\n```\nTry to avoid unsafe code.",
            "translated"
        )
    );
    assert_eq!(
        AnthroClient::translate_variable_reply("```\nconst NAME: &str = \"x\";\n```"),
        Some("const NAME: &str = \"x\";".to_string())
    );
    assert_eq!(
        AnthroClient::translate_variable_reply("```\nstatic mut COUNT: i32 = 0;\n```"),
        Some("static mut COUNT: i32 = 0;".to_string())
    );
    assert_eq!(AnthroClient::translate_variable_reply("```\nlet x = 1;\n```"), None);
    assert_eq!(
        AnthroClient::translate_variable_reply("const NAME: &str = \"x\";"),
        Some("const NAME: &str = \"x\";".to_string())
    );
}

#[test]
fn signatures_are_asked_for_after_two_examples() {
    let msgs = texts(&AnthroClient::translate_signature("int f();", "f", &[], 2));
    assert_eq!(msgs.len(), 6);
    assert_eq!(msgs[0], (Role::System, "You are a helpful assistant.".to_string()));
    assert_eq!(msgs[1].0, Role::User);
    assert!(msgs[1].1.starts_with("The following definition has been"));
    assert!(msgs[1].1.contains("```\nconst NAME: &str;\n```\nConsider the following C function:\n```\nint hello() {\n    if (NAME == NULL) {\n        return 1;\n    }\n    printf(\"Hello %s!\\n\", NAME);\n    return 0;\n}\n```\n"));
    assert!(msgs[1].1.contains("give 3 Rust-idiomatic candidate signatures.\n"));
    assert!(msgs[1].1.ends_with("Each signature must look like `fn hello(...);` or `fn hello(...) -> ...;`."));
    assert_eq!(
        msgs[2],
        (
            Role::Assistant,
            "Explanation:\nThe function checks if the global constant `NAME` is `NULL` and returns `1` if it is. Otherwise, it prints a greeting message and returns `0`.\nSignatures:\n1. `fn hello() -> i32;`\n2. `fn hello() -> Option<()>;`\n3. `fn hello() -> Result<(), ()>;`".to_string()
        )
    );
    assert!(msgs[3].1.contains("int divide(int n, int d, int *q, int *r) {\n    if (d == 0) {\n        return DIV_BY_ZERO;\n    }\n    *q = n / d;\n    *r = n % d;\n    return 0;\n}"));
    assert!(msgs[4].1.ends_with("3. `fn divide(n: i32, d: i32) -> Result<(i32, i32), ()>;`"));
    assert_eq!(
        msgs[5],
        (
            Role::User,
            "Consider the following C function:\n```\nint f();\n```\nIf this function was written in Rust with Rust idioms, what would be its signature?\nFirst, explain the function. Then, give 2 Rust-idiomatic candidate signatures.\nDo not add additional parameters to the signatures.\nThe answer format is:\n\nExplanation:\n[explanation]\nSignatures:\n1. `signature`\n2. `signature`\n\nEach signature must look like `fn f(...);` or `fn f(...) -> ...;`.".to_string()
        )
    );
    assert_eq!(
        AnthroClient::translate_signature_reply("Signatures:\n1. `fn f() -> i32;`", 2),
        vec!["fn f() -> i32"]
    );
}

#[test]
fn no_more_signatures_are_taken_than_were_asked_for() {
    let reply = "Signatures:\n1. `fn f() -> i32;`\n2. `fn f() -> u8;`\n3. `fn f();`";
    assert_eq!(
        AnthroClient::translate_signature_reply(reply, 3),
        vec!["fn f() -> i32", "fn f() -> u8", "fn f()"]
    );
    assert_eq!(
        AnthroClient::translate_signature_reply(reply, 9),
        vec!["fn f() -> i32", "fn f() -> u8", "fn f()"]
    );
    assert_eq!(
        AnthroClient::translate_signature_reply(reply, 2),
        vec!["fn f() -> i32", "fn f() -> u8"]
    );
    assert_eq!(AnthroClient::translate_signature_reply(reply, 1), vec!["fn f() -> i32"]);
    assert_eq!(AnthroClient::translate_signature_reply(reply, 0), Vec::<String>::new());
}

#[test]
fn a_function_is_asked_for_with_its_signature() {
    let deps = vec!["const A: i32 = 1;".to_string(), "fn g() {}".to_string()];
    let msgs = texts(&AnthroClient::translate_function("int f() { return g(); }", Some("fn f() -> i32"), &deps));
    assert_eq!(
        msgs,
        vec![
            (Role::System, "You are a helpful assistant that translates C to Rust.".to_string()),
            (
                Role::User,
                format!(
                    "The following definitions have been {} from C to Rust already:\n```\nconst A: i32 = 1;\nfn g() {{}}\n```\nTranslate the following C function to Rust using Rust idioms without any explanation:\n```\nint f() {{ return g(); }}\n```\nYour answer must start with:\n```\nfn f() -> i32 {{\n```\nTry to avoid unsafe code. Do not add `use` statements. Use full paths instead.",
                    "translated"
                )
            ),
        ]
    );
    let plain = texts(&AnthroClient::translate_function("int f();", None, &[]));
    assert_eq!(
        plain[1].1,
        "Translate the following C function to Rust using Rust idioms without any explanation:\n```\nint f();\n```\nTry to avoid unsafe code. Do not add `use` statements. Use full paths instead."
    );
    assert_eq!(
        AnthroClient::translate_function_reply("```rust\nfn f() -> i32 {\n    g()\n}\n```"),
        Some("fn f() -> i32 {\n    g()\n}\n".to_string())
    );
}

#[test]
fn a_repair_is_asked_for_with_code_and_complaint() {
    let msgs = texts(&AnthroClient::fix("let x: u8 = 300;", "literal out of range"));
    assert_eq!(
        msgs,
        vec![
            (Role::System, "You are a helpful assistant.".to_string()),
            (
                Role::User,
                "The following Rust code has a compilation error:\n```\nlet x: u8 = 300;\n```\nThe error message is:\n```\nliteral out of range\n```\nExplain the error first and then write the code of the fixed function.\n".to_string()
            ),
        ]
    );
}

#[test]
fn a_repair_is_read_and_weighed() {
    assert_eq!(
        AnthroClient::fix_reply("fn a() { 1u8 + 300 }", "Too large.\n```rust\nfn a() { 1u8 + 30 }\n```"),
        Some("fn a() { 1u8 + 30 }".to_string())
    );
    assert_eq!(
        AnthroClient::fix_reply("let x = 1;", "```rust\nfn a() { 1u8 + 30 }\n```"),
        None
    );
    assert_eq!(
        AnthroClient::fix_reply("fn a() {}", "```rust\nuse std::fmt;\nfn a() {}\n```"),
        None
    );
    assert_eq!(AnthroClient::fix_reply("fn a() {}", "no code"), None);
    assert_eq!(
        AnthroClient::fix_reply("fn a() { 1u8 + 300 }", "fn a() { 1u8 + 30 }"),
        Some("fn a() { 1u8 + 30 }".to_string())
    );
    assert_eq!(
        AnthroClient::fix_reply("const A: u8 = 300;", "```\nconst A: u16 = 300;\n```"),
        Some("const A: u16 = 300;".to_string())
    );
}

#[test]
fn candidates_over_the_budget_are_not_compared() {
    let client = AnthroClient::new(None);
    assert_eq!(client.compare("fn a() {}", "fn b() {}", 3820, 1), Step::Done(Comparison::Equal));
    assert_eq!(client.compare("fn a() {}", "fn b() {}", 0, 3821), Step::Done(Comparison::Equal));
    assert_eq!(
        client.compare("fn a() {}", "fn b() {}", usize::MAX, usize::MAX),
        Step::Done(Comparison::Equal)
    );
    let msgs = texts(&asked(client.compare("fn a() {}", "fn b() {}", 3819, 1)));
    assert_eq!(msgs.len(), 4);
    assert_eq!(msgs[0], (Role::System, "You are a helpful assistant.".to_string()));
    assert!(msgs[1].1.starts_with("Consider two following Rust functions:\nImplementation 1\n```\nfn div(n: u32, d: u32) -> i32 {\n    if d == 0 {\n        return -1;\n    }\n    (n / d) as i32\n}\n```\nImplementation 2\n```\nfn div(n: u32, d: u32) -> Option<u32> {"));
    assert!(msgs[2].1.starts_with("Comparison:\nBoth handle the case"));
    assert!(msgs[2].1.ends_with("\nChoice: Implementation 2"));
    assert_eq!(
        msgs[3],
        (
            Role::User,
            "Consider two following Rust functions:\nImplementation 1\n```\nfn a() {}\n```\nImplementation 2\n```\nfn b() {}\n```\nWhich one is more Rust-idiomatic? Compare them and choose one.\nYour answer format is:\n\nComparison:\n[comparison]\nChoice: Implementation [n]".to_string()
        )
    );
    assert_eq!(AnthroClient::compare_reply("Choice: Implementation 1"), Comparison::Greater);
}

#[test]
fn a_cached_reply_ends_the_request_and_is_counted() {
    let mut client = AnthroClient::new(Some("model".to_string()));
    let lookup = AnthroClient::send_request(vec![user("hello")], None);
    let val = CacheVal::new("hi".to_string(), None, 2, 5, 120);
    let end = done(client.on_cache(lookup, Some(val)));
    assert_eq!(end, Completion { content: "hi".to_string(), store: None });
    assert_eq!(client.request_tokens(), 5);
    assert_eq!(client.response_tokens(), 2);
    assert_eq!(client.response_time(), 120);
    assert_eq!(client.possible_requests, 30);
}

#[test]
fn a_missing_reply_is_asked_for() {
    let mut client = AnthroClient::new(Some("model".to_string()));
    let msgs = vec![user("hello")];
    let lookup = AnthroClient::send_request(msgs.clone(), Some("stop"));
    assert_eq!(lookup.key, CacheKey::new(&msgs, Some("stop")));
    let attempt = sent(client.on_cache(lookup, None));
    assert_eq!(attempt.failures, 0);
    assert_eq!(attempt.messages, msgs);
    let request = client.request_of(&attempt);
    assert_eq!(request.model, "model");
    assert_eq!(request.max_tokens, 4096);
    assert_eq!(request.system, "");
    assert_eq!(request.messages, msgs);
    let end = done(client.on_response(attempt, Some(reply("hi", 5, 2)), 250));
    assert_eq!(end.content, "hi");
    let (key, val) = end.store.unwrap();
    assert_eq!(key, CacheKey::new(&msgs, Some("stop")));
    assert_eq!(
        val,
        CacheVal {
            content: "hi".to_string(),
            reason: Some("No stop reason".to_string()),
            response_tokens: 2,
            request_tokens: 5,
            elapsed: 250,
        }
    );
    assert_eq!(client.request_tokens(), 5);
    assert_eq!(client.response_tokens(), 2);
    assert_eq!(client.response_time(), 250);
    assert_eq!(client.possible_requests, 31);
}

#[test]
fn a_failed_request_is_perturbed_and_sent_again() {
    let mut client = AnthroClient::new(Some("model".to_string()));
    let msgs = AnthroClient::translate_function("int f();", None, &[]);
    let first_key = CacheKey::new(&msgs, None);
    let lookup = AnthroClient::send_request(msgs.clone(), None);
    let first = sent(client.on_cache(lookup, None));
    assert_eq!(first.key, first_key);
    let second = sent(client.on_response(first, None, 10));
    assert_eq!(second.failures, 1);
    assert_eq!(second.stop, None);
    assert_eq!(second.key, CacheKey::new(&second.messages, None));
    assert_ne!(second.key, first_key);
    assert_eq!(texts(&second.messages)[0].1, format!("{} ", texts(&msgs)[0].1));
    assert_eq!(second.messages[1], msgs[1]);
    let third = sent(client.on_response(second, None, 10));
    assert_eq!(third.failures, 2);
    assert_eq!(texts(&third.messages)[0].1, format!("{}  ", texts(&msgs)[0].1));
    assert_eq!(third.messages[1], msgs[1]);
    let third_key = CacheKey::new(&third.messages, None);
    assert_eq!(third.key, third_key);
    assert_ne!(third_key, first_key);
    assert!(!third_key.same_as(&first_key));
    let request = client.request_of(&third);
    assert_eq!(request.system, texts(&third.messages)[0].1);
    assert_eq!(request.messages, third.messages[1..].to_vec());
    assert!(request.messages.iter().all(|m| m.role != Role::System));
    let end = done(client.on_response(third, Some(reply("fn f() {}", 40, 4)), 10));
    assert_eq!(end.content, "fn f() {}");
    assert_eq!(end.store.unwrap().0, third_key);
    assert_eq!(client.request_tokens(), 40);
    assert_eq!(client.response_tokens(), 4);
    assert_eq!(client.response_time(), 10);
    assert_eq!(client.possible_requests, 33);
}

#[test]
fn the_stop_token_stays_in_the_key_of_a_request_sent_again() {
    let mut client = AnthroClient::new(Some("model".to_string()));
    let msgs = vec![user("hello")];
    let lookup = AnthroClient::send_request(msgs.clone(), Some("stop"));
    assert_eq!(lookup.stop, Some("stop".to_string()));
    let first = sent(client.on_cache(lookup, None));
    assert_eq!(first.stop, Some("stop".to_string()));
    let second = sent(client.on_response(first, None, 1));
    assert_eq!(second.messages, vec![user("hello ")]);
    assert_eq!(second.stop, Some("stop".to_string()));
    assert_eq!(second.key, CacheKey::new(&[user("hello ")].to_vec(), Some("stop")));
    assert_ne!(second.key, CacheKey::new(&[user("hello ")].to_vec(), None));
    let end = done(client.on_response(second, Some(reply("hi", 1, 1)), 1));
    assert_eq!(end.store.unwrap().0, CacheKey::new(&[user("hello ")].to_vec(), Some("stop")));
}

#[test]
fn a_request_without_messages_is_sent_again_as_it_is() {
    let mut client = AnthroClient::new(Some("model".to_string()));
    let lookup = AnthroClient::send_request(vec![], None);
    let first = sent(client.on_cache(lookup, None));
    let second = sent(client.on_response(first, None, 1));
    assert_eq!(second.messages, vec![]);
    assert_eq!(second.failures, 1);
    assert_eq!(second.key, CacheKey::new(&vec![], None));
    let end = done(client.on_response(second, Some(reply("hi", 1, 1)), 1));
    assert_eq!(end.content, "hi");
}

#[test]
fn the_instructions_of_the_system_are_sent_apart() {
    let client = AnthroClient::new(Some("model".to_string()));
    let msgs = vec![system("be brief"), user("a"), system("be kind"), assistant("b"), user("c")];
    let attempt = Attempt {
        key: CacheKey::new(&msgs, None),
        stop: None,
        messages: msgs,
        failures: 0,
    };
    let request = client.request_of(&attempt);
    assert_eq!(request.system, "be brief\nbe kind");
    assert_eq!(request.messages, vec![user("a"), assistant("b"), user("c")]);
}

#[test]
fn only_a_first_block_of_text_is_perturbed() {
    let mut client = AnthroClient::new(Some("model".to_string()));
    let image = ContentBlock::Image {
        source: "s".to_string(),
        media_type: "m".to_string(),
        data: "d".to_string(),
    };
    let msgs = vec![Message { role: Role::User, content: vec![image, text_block("a")] }, user("b")];
    let lookup = AnthroClient::send_request(msgs.clone(), None);
    let first = sent(client.on_cache(lookup, None));
    let second = sent(client.on_response(first, None, 1));
    assert_eq!(second.messages, msgs);
    let empty = vec![Message { role: Role::User, content: vec![] }];
    let lookup = AnthroClient::send_request(empty.clone(), None);
    let first = sent(client.on_cache(lookup, None));
    let second = sent(client.on_response(first, None, 1));
    assert_eq!(second.messages, empty);
}

#[test]
fn after_the_last_attempt_the_result_is_empty() {
    let mut client = AnthroClient::new(Some("model".to_string()));
    let mut cache = Cache::new();
    let mut calls = 0;
    let mut outcomes: Vec<Option<Response>> = (0..10).map(|_| None).collect();
    let content = request(&mut client, &mut cache, &mut calls, &mut outcomes, vec![user("hello")]);
    assert_eq!(content, "");
    assert_eq!(calls, 10);
    assert_eq!(client.request_tokens(), 0);
    assert_eq!(client.response_tokens(), 0);
    assert_eq!(client.response_time(), 0);
    assert_eq!(client.possible_requests, 40);
    assert_eq!(cache.get(&CacheKey::new(&vec![user("hello")], None)), None);
}

#[test]
fn the_tenth_attempt_may_still_succeed() {
    let mut client = AnthroClient::new(Some("model".to_string()));
    let mut cache = Cache::new();
    let mut calls = 0;
    let mut outcomes: Vec<Option<Response>> = (0..9).map(|_| None).collect();
    outcomes.push(Some(reply("late", 1, 1)));
    let content = request(&mut client, &mut cache, &mut calls, &mut outcomes, vec![user("hello")]);
    assert_eq!(content, "late");
    assert_eq!(calls, 10);
}

#[test]
fn two_equal_requests_make_one_call() {
    let mut client = AnthroClient::new(Some("model".to_string()));
    let mut cache = Cache::new();
    let mut calls = 0;
    let mut outcomes = vec![Some(reply("```rust\nfn f() {}\n```", 100, 20))];
    let msgs = AnthroClient::translate_function("void f() {}", Some("fn f()"), &[]);
    let first = request(&mut client, &mut cache, &mut calls, &mut outcomes, msgs.clone());
    assert_eq!(calls, 1);
    assert_eq!(client.request_tokens(), 100);
    assert_eq!(client.response_tokens(), 20);
    assert_eq!(client.response_time(), 250);
    let second = request(&mut client, &mut cache, &mut calls, &mut outcomes, msgs);
    assert_eq!(calls, 1);
    assert_eq!(first, second);
    assert_eq!(first, "```rust\nfn f() {}\n```");
    assert_eq!(client.request_tokens(), 200);
    assert_eq!(client.response_tokens(), 40);
    assert_eq!(client.response_time(), 500);
    assert_eq!(
        AnthroClient::translate_function_reply(&first),
        AnthroClient::translate_function_reply(&second)
    );
}

#[test]
fn the_counters_stop_at_their_largest_value() {
    let mut client = AnthroClient::new(Some("model".to_string()));
    client.possible_requests = usize::MAX;
    let lookup = AnthroClient::send_request(vec![user("hello")], None);
    let attempt = sent(client.on_cache(lookup, None));
    let _ = client.on_response(attempt, Some(reply("hi", usize::MAX - 1, 2)), u64::MAX - 1);
    assert_eq!(client.request_tokens(), usize::MAX - 1);
    assert_eq!(client.response_time(), u64::MAX - 1);
    let lookup = AnthroClient::send_request(vec![user("hello")], None);
    let val = CacheVal::new("hi".to_string(), None, 2, 5, 250);
    let _ = client.on_cache(lookup, Some(val));
    assert_eq!(client.request_tokens(), usize::MAX);
    assert_eq!(client.response_tokens(), 4);
    assert_eq!(client.response_time(), u64::MAX);
    assert_eq!(client.possible_requests, usize::MAX);
}

#[test]
fn the_cache_gives_what_was_written_last() {
    let mut cache = Cache::new();
    let key = CacheKey::new(&vec![user("a")], None);
    let other = CacheKey::new(&vec![user("b")], None);
    assert_eq!(cache.get(&key), None);
    cache.insert(key.copy(), CacheVal::new("one".to_string(), None, 1, 1, 1));
    cache.insert(other.copy(), CacheVal::new("two".to_string(), None, 2, 2, 2));
    assert_eq!(cache.get(&key).unwrap().content, "one");
    cache.insert(key.copy(), CacheVal::new("three".to_string(), None, 3, 3, 3));
    assert_eq!(cache.get(&key).unwrap().content, "three");
    assert_eq!(cache.get(&other).unwrap().content, "two");
    assert_eq!(cache.get(&CacheKey::new(&vec![user("a")], Some("x"))), None);
}

#[test]
fn in_ascii_the_capitals_and_the_small_letters_are_the_usual_ones() {
    for n in 0..0x80u8 {
        let c = n as char;
        let name = c.to_string();
        assert_eq!(
            matches!(AnthroClient::rename_function(&name), Step::Done(_)),
            !c.is_ascii_uppercase(),
            "{:?}",
            c
        );
        assert_eq!(
            matches!(AnthroClient::rename_variable(&name), Step::Done(_)),
            !c.is_ascii_lowercase(),
            "{:?}",
            c
        );
    }
    assert!(matches!(AnthroClient::rename_function("\u{c9}t\u{e9}"), Step::Ask(_)));
    assert!(matches!(AnthroClient::rename_variable("\u{c9}T\u{e9}"), Step::Ask(_)));
    assert_eq!(AnthroClient::rename_function("main"), Step::Done("main".to_string()));
    assert_eq!(AnthroClient::rename_variable("NAME_2"), Step::Done("NAME_2".to_string()));
    assert_eq!(AnthroClient::rename_type("Point2"), Step::Done("Point2".to_string()));
}
