use c_translator::llm_client::message::{
    assistant, num_tokens, role_to_str, system, text_of, user, CacheKey, CacheVal, ContentBlock,
    Message, MessageTokens, Role,
};
use c_translator::llm_client::prompt::{make_deps, signature_prompt};

fn expected_deps(deps: &[String]) -> String {
    if deps.is_empty() {
        "".to_string()
    } else {
        format!(
            "The following definition{} been {} from C to Rust already:\n```\n{}\n```\n",
            if deps.len() == 1 { " has" } else { "s have" },
            "translated",
            deps.join("\n")
        )
    }
}

fn expected_signature_prompt(code: &str, new_name: &str, deps: &[String], n: usize) -> String {
    let sigs: String = (1..=n).map(|i| format!("{}. `signature`\n", i)).collect();
    format!(
        "{}Consider the following C function:\n```\n{}\n```\nIf this function was written in Rust with Rust idioms, what would be its signature?\nFirst, explain the function. Then, give {} Rust-idiomatic candidate signature{}.\nDo not add additional parameters to the signatures.\nThe answer format is:\n\nExplanation:\n[explanation]\nSignatures:\n{}\nEach signature must look like `fn {}(...);` or `fn {}(...) -> ...;`.",
        expected_deps(deps),
        code,
        n,
        if n == 1 { "" } else { "s" },
        sigs,
        new_name,
        new_name
    )
}

fn text_block(s: &str) -> ContentBlock {
    ContentBlock::Text { text: s.to_string() }
}

#[test]
fn roles_have_their_names() {
    assert_eq!(role_to_str(&Role::System), "system");
    assert_eq!(role_to_str(&Role::User), "user");
    assert_eq!(role_to_str(&Role::Assistant), "assistant");
}

#[test]
fn messages_keep_their_roles_apart() {
    assert_eq!(system("a"), Message { role: Role::System, content: vec![text_block("a")] });
    assert_eq!(user("b"), Message { role: Role::User, content: vec![text_block("b")] });
    assert_eq!(assistant(""), Message { role: Role::Assistant, content: vec![text_block("")] });
}

#[test]
fn the_text_of_a_content_joins_its_text_blocks() {
    let image = ContentBlock::Image {
        source: "base64".to_string(),
        media_type: "image/png".to_string(),
        data: "AAAA".to_string(),
    };
    assert_eq!(text_of(&vec![]), "");
    assert_eq!(text_of(&vec![image.clone()]), "");
    assert_eq!(text_of(&vec![text_block("a")]), "a");
    assert_eq!(text_of(&vec![text_block("a"), image.clone(), text_block("b"), text_block("")]), "a b ");
    assert_eq!(text_of(&vec![image, text_block("x")]), "x");
}

#[test]
fn no_dependencies_make_no_words() {
    assert_eq!(make_deps(&[]), "");
}

#[test]
fn one_dependency_is_introduced_in_the_singular() {
    let deps = vec!["const NAME: &str;".to_string()];
    assert_eq!(
        make_deps(&deps),
        format!(
            "The following definition has been {} from C to Rust already:\n```\nconst NAME: &str;\n```\n",
            "translated"
        )
    );
    assert_eq!(make_deps(&deps), expected_deps(&deps));
}

#[test]
fn several_dependencies_are_introduced_in_the_plural() {
    let deps = vec!["fn a();".to_string(), "fn b();".to_string(), "".to_string()];
    assert_eq!(
        make_deps(&deps),
        format!(
            "The following definitions have been {} from C to Rust already:\n```\nfn a();\nfn b();\n\n```\n",
            "translated"
        )
    );
}

#[test]
fn the_signature_prompt_asks_for_one_signature() {
    let prompt = signature_prompt("int f() { return 0; }", "f", &[], 1);
    assert_eq!(
        prompt,
        "Consider the following C function:\n```\nint f() { return 0; }\n```\nIf this function was written in Rust with Rust idioms, what would be its signature?\nFirst, explain the function. Then, give 1 Rust-idiomatic candidate signature.\nDo not add additional parameters to the signatures.\nThe answer format is:\n\nExplanation:\n[explanation]\nSignatures:\n1. `signature`\n\nEach signature must look like `fn f(...);` or `fn f(...) -> ...;`."
    );
}

#[test]
fn the_signature_prompt_numbers_its_placeholders() {
    let deps = vec!["const DIV_BY_ZERO: i32;".to_string()];
    for n in [0, 1, 2, 3, 9, 10, 12, 101] {
        assert_eq!(
            signature_prompt("int divide(int n, int d);", "divide", &deps, n),
            expected_signature_prompt("int divide(int n, int d);", "divide", &deps, n),
            "for {} signatures",
            n
        );
    }
}

#[test]
fn a_key_holds_role_names_and_texts() {
    let msgs = vec![system("be brief"), user("hello"), assistant("hi")];
    let key = CacheKey::new(&msgs, None);
    assert_eq!(
        key.messages,
        vec![
            ("system".to_string(), "be brief".to_string()),
            ("user".to_string(), "hello".to_string()),
            ("assistant".to_string(), "hi".to_string()),
        ]
    );
    assert_eq!(key.stop, None);
    let stopped = CacheKey::new(&msgs, Some("\n"));
    assert_eq!(stopped.stop, Some("\n".to_string()));
    assert_eq!(stopped.messages, key.messages);
}

#[test]
fn keys_are_equal_pair_by_pair() {
    let a = CacheKey::new(&vec![user("hello")], None);
    let b = CacheKey::new(&vec![user("hello")], None);
    let c = CacheKey::new(&vec![user("hello ")], None);
    let d = CacheKey::new(&vec![assistant("hello")], None);
    let e = CacheKey::new(&vec![user("hello")], Some("x"));
    let f = CacheKey::new(&vec![user("hello"), user("")], None);
    assert!(a.same_as(&b));
    assert!(a.same_as(&a.copy()));
    assert!(!a.same_as(&c));
    assert!(!a.same_as(&d));
    assert!(!a.same_as(&e));
    assert!(!a.same_as(&f));
    assert!(!f.same_as(&a));
}

#[test]
fn a_key_joins_the_text_blocks_of_a_message() {
    let m = Message {
        role: Role::User,
        content: vec![
            text_block("a"),
            ContentBlock::Image {
                source: "s".to_string(),
                media_type: "m".to_string(),
                data: "d".to_string(),
            },
            text_block("b"),
        ],
    };
    let key = CacheKey::new(&vec![m], None);
    assert_eq!(key.messages, vec![("user".to_string(), "a b".to_string())]);
}

#[test]
fn a_cached_value_keeps_its_parts() {
    let val = CacheVal::new("text".to_string(), Some("stop".to_string()), 7, 11, 1500);
    assert_eq!(val.content, "text");
    assert_eq!(val.reason, Some("stop".to_string()));
    assert_eq!(val.response_tokens, 7);
    assert_eq!(val.request_tokens, 11);
    assert_eq!(val.elapsed(), 1500);
    assert_eq!(val.copy(), val);
}

#[test]
fn tokens_are_counted_per_message() {
    assert_eq!(num_tokens(&vec![]), Some(3));
    assert_eq!(num_tokens(&vec![MessageTokens { role: 1, content: 2 }]), Some(10));
    assert_eq!(
        num_tokens(&vec![
            MessageTokens { role: 1, content: 2 },
            MessageTokens { role: 3, content: 4 }
        ]),
        Some(21)
    );
}

#[test]
fn tokens_beyond_the_machine_word_are_not_counted() {
    assert_eq!(num_tokens(&vec![MessageTokens { role: usize::MAX, content: 0 }]), None);
    assert_eq!(num_tokens(&vec![MessageTokens { role: 0, content: usize::MAX - 7 }]), Some(usize::MAX));
    assert_eq!(num_tokens(&vec![MessageTokens { role: 0, content: usize::MAX - 6 }]), None);
}
