use c_translator::llm_client::reply::{
    accepts_repair, can_extract_name, extract_choice, extract_code, extract_constant_name,
    extract_function, extract_name, extract_signatures, Comparison,
};

#[test]
fn a_name_stands_between_the_first_two_ticks() {
    assert_eq!(extract_name("`Foo`".to_string()), "Foo");
    assert_eq!(extract_name("The name is `foo_bar`.".to_string()), "foo_bar");
    assert_eq!(extract_name("`a` and `b`".to_string()), "a");
    assert_eq!(extract_name("``".to_string()), "");
}

#[test]
fn a_reply_without_ticks_is_the_name() {
    assert_eq!(extract_name("plain".to_string()), "plain");
    assert_eq!(extract_name("".to_string()), "");
}

#[test]
fn a_single_tick_names_nothing() {
    assert!(!can_extract_name("only ` one"));
    assert!(can_extract_name("none"));
    assert!(can_extract_name("`two`"));
    assert!(can_extract_name("`three` `"));
}

#[test]
fn a_constant_name_has_no_spaces() {
    assert_eq!(extract_constant_name("`FOO BAR`".to_string()), "FOO_BAR");
    assert_eq!(extract_constant_name("`BAR_BAZ`".to_string()), "BAR_BAZ");
    assert_eq!(extract_constant_name("A B C".to_string()), "A_B_C");
}

#[test]
fn code_is_the_longest_wanted_block() {
    let reply = "First:\n```\nfn a() {}\n```\nSecond:\n```rust\nfn longer() { 1 }\n```\nDone.";
    assert_eq!(extract_code(reply, &["fn "]), Some("fn longer() { 1 }".to_string()));
}

#[test]
fn of_equally_long_blocks_the_last_is_taken() {
    let reply = "```\nfn a() {}\n```\n```\nfn b() {}\n```\n";
    assert_eq!(extract_code(reply, &["fn "]), Some("fn b() {}".to_string()));
}

#[test]
fn a_block_without_a_wanted_line_is_left_out() {
    let reply = "```\nlet x = 1; // a long line that is no function at all\n```\n```\nfn a() {}\n```";
    assert_eq!(extract_code(reply, &["fn "]), Some("fn a() {}".to_string()));
    assert_eq!(extract_code(reply, &["struct "]), None);
    let indented = "```\n    fn a() {}\n```";
    assert_eq!(extract_code(indented, &["fn "]), None);
}

#[test]
fn a_wanted_line_may_stand_anywhere_in_the_block() {
    let reply = "```rust\n#[derive(Debug)]\nstruct A;\n```";
    assert_eq!(
        extract_code(reply, &["type ", "struct ", "union ", "enum "]),
        Some("#[derive(Debug)]\nstruct A;".to_string())
    );
}

#[test]
fn a_reply_without_a_closed_block_holds_no_code() {
    assert_eq!(extract_code("```\nfn a() {}", &["fn "]), None);
    assert_eq!(extract_code("```c\nfn a() {}\n```", &["fn "]), None);
    assert_eq!(extract_code("", &["fn "]), None);
    assert_eq!(extract_code("Here: fn a() {}", &["fn "]), None);
    assert_eq!(extract_code(" fn a() {}", &["fn "]), None);
    assert_eq!(extract_code("fn a() {}", &[]), None);
}

#[test]
fn a_reply_without_a_block_that_begins_like_code_is_taken_whole() {
    assert_eq!(extract_code("fn a() {}", &["fn "]), Some("fn a() {}".to_string()));
    assert_eq!(
        extract_code("static A: u8 = 1;\nDone.", &["const ", "static "]),
        Some("static A: u8 = 1;\nDone.".to_string())
    );
    assert_eq!(extract_code("fn a() {}\n```", &["fn "]), Some("fn a() {}\n```".to_string()));
    assert_eq!(extract_code("fn a() {}", &["struct "]), None);
}

#[test]
fn a_reply_with_a_block_is_never_taken_whole() {
    assert_eq!(extract_code("fn a() {}\n```\nlet x = 1;\n```", &["fn "]), None);
    assert_eq!(
        extract_code("fn a() {}\n```\nfn b() {}\n```", &["fn "]),
        Some("fn b() {}".to_string())
    );
}

#[test]
fn block_length_counts_bytes() {
    let reply = "```\nfn a() { \"\u{e9}\u{e9}\" }\n```\n```\nfn b() { \"eeee\" }\n```\n```\nfn c() { \"eee\" }\n```";
    assert_eq!(extract_code(reply, &["fn "]), Some("fn b() { \"eeee\" }".to_string()));
}

#[test]
fn code_extraction_is_idempotent_on_its_fenced_output() {
    let replies = [
        "First:\n```\nfn a() {}\n```\nSecond:\n```rust\nfn longer() { 1 }\n```\nDone.",
        "```\n```rust\nfn x\n```",
        "```rust\nfn a() {\n    b();\n}\n```\ntrailing",
        "```\nfn a()\n`\n```",
        "fn raw() {}",
        "fn raw() {\n    1\n}\n",
    ];
    for reply in replies {
        let code = extract_code(reply, &["fn "]).unwrap();
        let fenced = format!("```\n{}\n```", code);
        assert_eq!(extract_code(&fenced, &["fn "]), Some(code));
    }
}

#[test]
fn signatures_come_from_the_numbered_list() {
    let reply = "Explanation:\nIt says hello.\nSignatures:\n1. `fn hello() -> i32;`\n2. `unsafe fn hello() -> Option<()>;`\n3. ` fn hello() -> Result<(), ()> ; `";
    assert_eq!(
        extract_signatures(reply),
        vec!["fn hello() -> i32", "fn hello() -> Option<()>", "fn hello() -> Result<(), ()>"]
    );
}

#[test]
fn numbered_lines_need_a_digit_a_stop_and_two_ticks() {
    let reply = "0. `fn zero();`\n10. `fn ten();`\n2) `fn paren();`\n3. `fn open();\n 4. `fn indented();`\n5. `fn five();`\r\n6. `let six`";
    assert_eq!(extract_signatures(reply), vec!["fn five()", "let six"]);
}

#[test]
fn without_a_numbered_list_quoted_signatures_are_taken() {
    let reply = "Use `fn a();` or `let x` or `unsafe fn b() -> u8;` but not `fn c(";
    assert_eq!(extract_signatures(reply), vec!["fn a()", "fn b() -> u8"]);
    assert_eq!(extract_signatures("nothing here"), Vec::<String>::new());
    assert_eq!(extract_signatures("`fnord`"), Vec::<String>::new());
}

#[test]
fn a_function_is_made_safe_line_by_line() {
    let reply = "Here:\n```rust\nunsafe fn f() {\n    unsafe fn g() {}\n}\n```";
    assert_eq!(
        extract_function(reply),
        Some("fn f() {\n    unsafe fn g() {}\n}\n".to_string())
    );
}

#[test]
fn a_bare_function_is_taken_as_it_is() {
    assert_eq!(extract_function("fn f() {}"), Some("fn f() {}\n".to_string()));
    assert_eq!(extract_function("unsafe fn f() {}\n"), Some("fn f() {}\n\n".to_string()));
    assert_eq!(extract_function("Sorry, I cannot."), None);
    assert_eq!(extract_function("```\nlet x;\n```"), None);
}

#[test]
fn a_choice_is_the_first_one_or_two_behind_the_marker() {
    assert_eq!(extract_choice("Comparison:\n...\nChoice: Implementation 2"), Comparison::Less);
    assert_eq!(extract_choice("Choice: Implementation 1"), Comparison::Greater);
    assert_eq!(extract_choice("Choice: Implementation [n] 7 then 2, not 1"), Comparison::Less);
    assert_eq!(extract_choice("1 2 Choice: Implementation three"), Comparison::Equal);
    assert_eq!(extract_choice("Implementation 1"), Comparison::Equal);
    assert_eq!(extract_choice(""), Comparison::Equal);
}

#[test]
fn a_repair_must_keep_the_kind_of_the_snippet() {
    assert!(accepts_repair("fn a() {}", "fn a() { 1 }"));
    assert!(accepts_repair("let x = 1;", "let x = 2;"));
    assert!(!accepts_repair("let x = 1;", "fn a() {}"));
    assert!(!accepts_repair("fn a() {}", "let x = 1;"));
}

#[test]
fn a_repair_must_not_import_or_declare_dependencies() {
    assert!(!accepts_repair("let x = 1;", "use std::fmt;\nlet x = 1;"));
    assert!(accepts_repair("let x = 1;", "let x = 1; use std::fmt;"));
    assert!(!accepts_repair("let x = 1;", "let x = 1;\nextern crate foo;"));
    assert!(accepts_repair("let x = 1;", "let x = 1;\nextern  crate foo;"));
    assert!(!accepts_repair("let x = 1;", "[dependencies]\nfoo = \"1\""));
}
