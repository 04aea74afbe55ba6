use c_translator::llm_client::reply::Comparison;
use c_translator::translation::comments::add_comments;
use c_translator::translation::report::{diff_report, render_changes, Change};
use std::collections::BTreeMap;
use c_translator::translation::program::{
    rewrite, Declaration, Edit, FunctionDefinition, Identifier, Program, Span,
};
use c_translator::translation::state::{
    Action, Event, ParsedSignature, Stage, TranslatedFunction, TranslationError,
    TypeCheckingResult,
};
use c_translator::translation::{
    apply_suggestions, check_request, fix_function_compiler, Fixpoint, Translator,
};

fn span(start: usize, end: usize) -> Span {
    Span { start, end }
}

fn id(name: &str, start: usize) -> Identifier {
    Identifier { name: name.to_string(), span: span(start, start + name.chars().count()) }
}

/// A function whose name stands at `at`, with its uses and its calls found by their names.
fn function(name: &str, code: &str, uses: &[&str], locals: &[&str], calls: &[&str]) -> FunctionDefinition {
    let at = code.find(name).unwrap();
    let mut identifiers = vec![];
    for u in uses {
        for (i, _) in code.match_indices(u) {
            identifiers.push(id(u, i));
        }
    }
    let mut callees = vec![];
    for c in calls {
        for (i, _) in code.match_indices(&format!("{}(", c)) {
            if i != at {
                callees.push(id(c, i));
            }
        }
    }
    FunctionDefinition {
        name: name.to_string(),
        name_span: span(at, at + name.len()),
        code: code.to_string(),
        identifiers,
        locals: locals.iter().map(|s| s.to_string()).collect(),
        callees,
    }
}

fn declaration(name: &str, code: &str) -> Declaration {
    Declaration { names: vec![name.to_string()], code: code.to_string() }
}

fn clean() -> Event {
    Event::Checked { result: TypeCheckingResult { errors: vec![], suggestions: vec![], add_use: vec![] } }
}

fn parsed(key: &str, text: &str) -> ParsedSignature {
    ParsedSignature { key: key.to_string(), text: text.to_string() }
}

fn checked_code(action: &Action) -> String {
    match action {
        Action::TypeCheck { code } => code.clone(),
        other => panic!("no check: {:?}", other),
    }
}

fn candidate(translated: &str, uses: &[&str], prefix: &str) -> TranslatedFunction {
    TranslatedFunction {
        original: "f".to_string(),
        name: "f".to_string(),
        preamble: String::new(),
        prefix: prefix.to_string(),
        signature_key: "()".to_string(),
        signature: "fn f() {}".to_string(),
        translated: translated.to_string(),
        uses: uses.iter().map(|s| s.to_string()).collect(),
        errors: vec![],
    }
}

const MAIN_C: &str = "int main(void){return 0;}";
const MAIN_RS: &str = "fn main() -> i32 {\n    0\n}\n";
const DEAD: &str = "#[allow(dead_code)]\n";

/// Takes a translator that waits for the name of a function up to the check of one candidate.
fn up_to_check(t: &mut Translator, new_name: &str, signature: &str, body: &str) -> Action {
    let action = t.resume(Event::Renamed { name: new_name.to_string() });
    assert!(matches!(action, Action::TranslateSignature { .. }));
    let action = t.resume(Event::Signatures { signatures: vec![signature.to_string()] });
    assert_eq!(action, Action::ParseSignatures { signatures: vec![signature.to_string()] });
    let action = t.resume(Event::SignaturesParsed {
        parsed: vec![parsed(signature, &format!("{} {{}}", signature))],
    });
    assert!(matches!(action, Action::TranslateFunction { .. }));
    t.resume(Event::FunctionTranslated { body: Some(body.to_string()) })
}

#[test]
fn spans_are_replaced_from_left_to_right() {
    let edits = vec![
        Edit { span: span(19, 23), text: "NAME_2".to_string() },
        Edit { span: span(4, 9), text: "hi".to_string() },
    ];
    assert_eq!(rewrite("int hello(){return NAME?0:1;}", &edits), "int hi(){return NAME_2?0:1;}");
    assert_eq!(rewrite("abc", &vec![]), "abc");
    assert_eq!(rewrite("", &edits), "");
}

#[test]
fn edits_that_do_not_fit_are_left_out() {
    let edits = vec![
        Edit { span: span(0, 2), text: "X".to_string() },
        Edit { span: span(1, 3), text: "overlaps".to_string() },
        Edit { span: span(0, 1), text: "second at the same place".to_string() },
        Edit { span: span(3, 3), text: "empty".to_string() },
        Edit { span: span(4, 9), text: "beyond".to_string() },
        Edit { span: span(5, 4), text: "backwards".to_string() },
        Edit { span: span(5, 6), text: "Z".to_string() },
    ];
    assert_eq!(rewrite("abcdef", &edits), "XcdeZ");
}

#[test]
fn spans_count_characters() {
    let edits = vec![Edit { span: span(2, 3), text: "x".to_string() }];
    assert_eq!(rewrite("\u{e9}\u{e9}a\u{e9}", &edits), "\u{e9}\u{e9}x\u{e9}");
}

#[test]
fn empty_program() {
    let program = Program { variables: vec![], functions: vec![function("main", MAIN_C, &[], &[], &[])] };
    let mut t = Translator::new(program).unwrap();
    assert_eq!(t.translate_variables(), Action::Finished);
    assert_eq!(t.translate_functions(), Action::Rename { name: "main".to_string() });
    assert_eq!(
        t.resume(Event::Renamed { name: "main".to_string() }),
        Action::TranslateSignature {
            code: MAIN_C.to_string(),
            new_name: "main".to_string(),
            deps: vec![],
            count: 3,
        }
    );
    assert_eq!(
        t.resume(Event::Signatures { signatures: vec!["fn main() -> i32".to_string()] }),
        Action::ParseSignatures { signatures: vec!["fn main() -> i32".to_string()] }
    );
    assert_eq!(
        t.resume(Event::SignaturesParsed { parsed: vec![parsed("() -> i32", "fn main() -> i32 {}")] }),
        Action::TranslateFunction {
            code: MAIN_C.to_string(),
            signature: "fn main() -> i32".to_string(),
            deps: vec![],
        }
    );
    let check = format!("\n{}{}", DEAD, MAIN_RS);
    assert_eq!(
        t.resume(Event::FunctionTranslated { body: Some(MAIN_RS.to_string()) }),
        Action::TypeCheck { code: check.clone() }
    );
    assert_eq!(t.resume(clean()), Action::Finished);
    assert_eq!(t.stage, Stage::Idle);
    assert_eq!(t.translated_functions.len(), 1);
    let f = &t.translated_functions[0];
    assert_eq!(f.original, "main");
    assert_eq!(f.name, "main");
    assert_eq!(f.signature, "fn main() -> i32 {}");
    assert!(f.signature.contains("-> i32"));
    assert_eq!(f.translated, MAIN_RS);
    assert!(f.errors.is_empty());
    assert_eq!(t.whole_code(), format!("\n\n{}\n", MAIN_RS));
    assert!(!t.whole_code().contains("fn main() {}"));
    assert_eq!(t.whole_code().matches("fn ").count(), 1);
}

#[test]
fn global_constant_and_user() {
    let hello_c = "int hello(){return NAME?0:1;}";
    let name_rs = "const NAME: &str = \"x\";";
    let hello_rs = "fn hello() -> i32 {\n    if NAME.is_empty() { 1 } else { 0 }\n}\n";
    let program = Program {
        variables: vec![declaration("NAME", "const char* NAME=\"x\";")],
        functions: vec![function("hello", hello_c, &["NAME"], &[], &[])],
    };
    let mut t = Translator::new(program).unwrap();
    assert_eq!(
        t.translate_variables(),
        Action::TranslateVariable { code: "const char* NAME=\"x\";".to_string() }
    );
    assert_eq!(
        t.resume(Event::VariableTranslated { text: Some(name_rs.to_string()) }),
        Action::ParseVariable { text: name_rs.to_string() }
    );
    assert_eq!(
        t.resume(Event::VariableParsed { declared: vec![("NAME".to_string(), "&str".to_string())] }),
        Action::Finished
    );
    assert_eq!(t.translated_variables.len(), 1);
    assert_eq!(t.translated_variables[0].name, "NAME");
    assert_eq!(t.translated_variables[0].new_name, "NAME");
    assert_eq!(t.translated_variables[0].ty, "&str");
    assert_eq!(t.translated_variables[0].text, name_rs);

    assert_eq!(t.translate_functions(), Action::Rename { name: "hello".to_string() });
    assert_eq!(
        t.resume(Event::Renamed { name: "hello".to_string() }),
        Action::TranslateSignature {
            code: hello_c.to_string(),
            new_name: "hello".to_string(),
            deps: vec![name_rs.to_string()],
            count: 3,
        }
    );
    let _ = t.resume(Event::Signatures { signatures: vec!["fn hello() -> i32".to_string()] });
    assert_eq!(
        t.resume(Event::SignaturesParsed { parsed: vec![parsed("() -> i32", "fn hello() -> i32 {}")] }),
        Action::TranslateFunction {
            code: hello_c.to_string(),
            signature: "fn hello() -> i32".to_string(),
            deps: vec![name_rs.to_string()],
        }
    );
    let prefix = "#[deny(unused)] const NAME: &str = unsafe { std::mem::transmute([0u8; std::mem::size_of::<&str>()]) }\n#[allow(dead_code)]\n";
    let check = format!("\nfn main() {{}}\n{}{}", prefix, hello_rs);
    assert_eq!(
        t.resume(Event::FunctionTranslated { body: Some(hello_rs.to_string()) }),
        Action::TypeCheck { code: check.clone() }
    );
    assert_eq!(t.resume(clean()), Action::Finished);
    let f = &t.translated_functions[0];
    assert_eq!(f.name, "hello");
    assert!(f.translated.contains("NAME"));
    assert_eq!(f.errors.len(), 0);
    assert_eq!(f.preamble, "fn main() {}\n");
    assert_eq!(f.prefix, prefix);
    assert_eq!(t.whole_code(), format!("\n{}\n{}\nfn main() {{}}", name_rs, hello_rs));
}

#[test]
fn new_names_are_put_into_the_c_function() {
    let count_c = "int count(){int local=limit;return helper(limit)+count()+local;}";
    let program = Program {
        variables: vec![declaration("limit", "int limit=3;"), declaration("local", "int local=1;")],
        functions: vec![
            function("count", count_c, &["limit", "local"], &["local"], &["helper", "count"]),
            function("helper", "int helper(int x){return x;}", &[], &[], &[]),
        ],
    };
    let mut t = Translator::new(program).unwrap();
    assert_eq!(t.function_post_order, vec![1, 0]);
    let _ = t.translate_variables();
    let _ = t.resume(Event::VariableTranslated { text: Some("const LIMIT: i32 = 3;".to_string()) });
    let _ = t.resume(Event::VariableParsed { declared: vec![("LIMIT".to_string(), "i32".to_string())] });
    let _ = t.resume(Event::VariableTranslated { text: Some("const LOCAL: i32 = 1;".to_string()) });
    let done = t.resume(Event::VariableParsed { declared: vec![("LOCAL".to_string(), "i32".to_string())] });
    assert_eq!(done, Action::Finished);

    assert_eq!(t.translate_functions(), Action::Rename { name: "helper".to_string() });
    let helper_rs = "fn help(x: i32) -> i32 {\n    x\n}\n";
    let check = up_to_check(&mut t, "help", "fn help(x: i32) -> i32", helper_rs);
    assert_eq!(checked_code(&check), format!("\nfn main() {{}}\n{}{}", DEAD, helper_rs));
    assert_eq!(t.resume(clean()), Action::Rename { name: "count".to_string() });
    assert_eq!(
        t.resume(Event::Renamed { name: "count_all".to_string() }),
        Action::TranslateSignature {
            code: "int count_all(){int local=LIMIT;return help(LIMIT)+count_all()+local;}".to_string(),
            new_name: "count_all".to_string(),
            deps: vec![
                "const LIMIT: i32 = 3;".to_string(),
                "fn help(x: i32) -> i32 {}".to_string()
            ],
            count: 3,
        }
    );
    let _ = t.resume(Event::Signatures { signatures: vec!["fn count_all() -> i32".to_string()] });
    let _ = t.resume(Event::SignaturesParsed {
        parsed: vec![parsed("() -> i32", "fn count_all() -> i32 {}")],
    });
    let body = "fn count_all() -> i32 {\n    0\n}\n";
    let check = t.resume(Event::FunctionTranslated { body: Some(body.to_string()) });
    assert_eq!(
        checked_code(&check),
        format!(
            "\nfn main() {{}}\n#[deny(unused)] const LIMIT: i32 = unsafe {{ std::mem::transmute([0u8; std::mem::size_of::<i32>()]) }}\n#[deny(dead_code)] #[allow(unused_variables)] fn help(x: i32) -> i32  {{ todo!() }}\n\n{}{}",
            DEAD, body
        )
    );
}

#[test]
fn signature_variants() {
    let divide_c = "int divide(int n,int d,int*q,int*r){*q=n/d;*r=n%d;return 0;}";
    let program = Program { variables: vec![], functions: vec![function("divide", divide_c, &[], &[], &[])] };
    let mut t = Translator::new(program).unwrap();
    let _ = t.translate_functions();
    let _ = t.resume(Event::Renamed { name: "divide".to_string() });
    let signatures = vec![
        "fn divide(n: i32, d: i32, q: *mut i32, r: *mut i32) -> i32".to_string(),
        "fn divide(n: i32, d: i32) -> Option<(i32, i32)>".to_string(),
        "fn divide(a: i32, b: i32) -> Option<(i32, i32)>".to_string(),
    ];
    let _ = t.resume(Event::Signatures { signatures });
    let raw = "fn divide(n: i32, d: i32, q: *mut i32, r: *mut i32) -> i32 {}";
    let option = "fn divide(n: i32, d: i32) -> Option<(i32, i32)> {}";
    let action = t.resume(Event::SignaturesParsed {
        parsed: vec![
            parsed("(i32, i32, *mut i32, *mut i32) -> i32", raw),
            parsed("(i32, i32) -> Option<(i32, i32)>", option),
            parsed("(i32, i32) -> Option<(i32, i32)>", "fn divide(a: i32, b: i32) -> Option<(i32, i32)> {}"),
        ],
    });
    assert_eq!(
        action,
        Action::TranslateFunction {
            code: divide_c.to_string(),
            signature: raw.strip_suffix(" {}").unwrap().to_string(),
            deps: vec![],
        }
    );
    match &t.stage {
        Stage::Body { job } => assert_eq!(job.signatures.len(), 2),
        other => panic!("{:?}", other),
    }
    let raw_body = "fn divide(n: i32, d: i32, q: *mut i32, r: *mut i32) -> i32 {\n    0\n}\n";
    let option_body = "fn divide(n: i32, d: i32) -> Option<(i32, i32)> {\n    Some((n / d, n % d))\n}\n";
    let check = t.resume(Event::FunctionTranslated { body: Some(raw_body.to_string()) });
    assert_eq!(
        t.resume(clean()),
        Action::TranslateFunction {
            code: divide_c.to_string(),
            signature: option.strip_suffix(" {}").unwrap().to_string(),
            deps: vec![],
        }
    );
    let check = t.resume(Event::FunctionTranslated { body: Some(option_body.to_string()) });
    assert_eq!(
        t.resume(clean()),
        Action::Compare { first: raw_body.to_string(), second: option_body.to_string() }
    );
    assert_eq!(t.resume(Event::Compared { preference: Comparison::Less }), Action::Finished);
    let f = &t.translated_functions[0];
    assert_eq!(f.signature, option);
    assert_eq!(f.signature_key, "(i32, i32) -> Option<(i32, i32)>");
    assert_eq!(f.translated, option_body);
    assert!(f.translated.starts_with(f.signature.strip_suffix("{}").unwrap()));
}

#[test]
fn an_equal_choice_keeps_the_first_candidate() {
    for (preference, winner) in [
        (Comparison::Equal, "fn f() {\n    1\n}\n"),
        (Comparison::Greater, "fn f() {\n    1\n}\n"),
        (Comparison::Less, "fn f() -> u8 {\n    2\n}\n"),
    ] {
        let program =
            Program { variables: vec![], functions: vec![function("f", "void f(){}", &[], &[], &[])] };
        let mut t = Translator::new(program).unwrap();
        let _ = t.translate_functions();
        let _ = t.resume(Event::Renamed { name: "f".to_string() });
        let _ = t.resume(Event::Signatures { signatures: vec!["a".to_string(), "b".to_string()] });
        let _ = t.resume(Event::SignaturesParsed {
            parsed: vec![parsed("()", "fn f() {}"), parsed("() -> u8", "fn f() -> u8 {}")],
        });
        let check = t.resume(Event::FunctionTranslated { body: Some("fn f() {\n    1\n}\n".to_string()) });
        let _ = t.resume(clean());
        let check =
            t.resume(Event::FunctionTranslated { body: Some("fn f() -> u8 {\n    2\n}\n".to_string()) });
        let action = t.resume(clean());
        assert!(matches!(action, Action::Compare { .. }));
        assert_eq!(t.resume(Event::Compared { preference }), Action::Finished);
        assert_eq!(t.translated_functions[0].translated, winner);
    }
}

#[test]
fn only_the_candidates_of_the_fewest_complaints_are_compared() {
    let program = Program { variables: vec![], functions: vec![function("f", "void f(){}", &[], &[], &[])] };
    let mut t = Translator::new(program).unwrap();
    let _ = t.translate_functions();
    let _ = t.resume(Event::Renamed { name: "f".to_string() });
    let _ = t.resume(Event::Signatures {
        signatures: vec!["a".to_string(), "b".to_string(), "c".to_string()],
    });
    let _ = t.resume(Event::SignaturesParsed {
        parsed: vec![
            parsed("1", "fn f() {}"),
            parsed("2", "fn f() -> u8 {}"),
            parsed("3", "fn f() -> u16 {}"),
        ],
    });
    // The first candidate keeps a complaint that no repair is given for.
    let check = t.resume(Event::FunctionTranslated { body: Some("fn f() { bad }".to_string()) });
    let code = checked_code(&check);
    let action = t.resume(Event::Checked {
        result: TypeCheckingResult {
            errors: vec![("cannot find value".to_string(), "bad".to_string())],
            suggestions: vec![],
            add_use: vec![],
        },
    });
    assert_eq!(action, Action::Fix { code: "bad".to_string(), message: "cannot find value".to_string() });
    assert!(matches!(t.resume(Event::Fixed { repaired: None }), Action::TranslateFunction { .. }));
    let check = t.resume(Event::FunctionTranslated { body: Some("fn f() -> u8 { 2 }".to_string()) });
    let _ = t.resume(clean());
    let check = t.resume(Event::FunctionTranslated { body: Some("fn f() -> u16 { 3 }".to_string()) });
    assert_eq!(
        t.resume(clean()),
        Action::Compare { first: "fn f() -> u8 { 2 }".to_string(), second: "fn f() -> u16 { 3 }".to_string() }
    );
    assert_eq!(t.resume(Event::Compared { preference: Comparison::Greater }), Action::Finished);
    assert_eq!(t.translated_functions[0].translated, "fn f() -> u8 { 2 }");
}

#[test]
fn repair_progress() {
    let program = Program { variables: vec![], functions: vec![function("main", MAIN_C, &[], &[], &[])] };
    let mut t = Translator::new(program).unwrap();
    let _ = t.translate_functions();
    let body = "fn main() {\n    let m: HashMap<u8, u8> = HashMap::new();\n}\n";
    let mut checks = 0;
    let first = up_to_check(&mut t, "main", "fn main()", body);
    checks += 1;
    assert_eq!(checked_code(&first), format!("\n{}{}", DEAD, body));
    let second = t.resume(Event::Checked {
        result: TypeCheckingResult {
            errors: vec![("cannot find type `HashMap`".to_string(), "HashMap<u8, u8>".to_string())],
            suggestions: vec![],
            add_use: vec!["use std::collections::HashMap;".to_string()],
        },
    });
    checks += 1;
    assert_eq!(
        checked_code(&second),
        format!("use std::collections::HashMap;\n{}{}", DEAD, body)
    );
    let end = t.resume(clean());
    assert_eq!(end, Action::Finished);
    assert_eq!(checks, 2);
    assert_eq!(t.translated_functions[0].uses, vec!["use std::collections::HashMap;".to_string()]);
    assert_eq!(t.translated_functions[0].translated, body);
    assert_eq!(t.use_list, vec!["use std::collections::HashMap;".to_string()]);
    assert_eq!(
        t.whole_code(),
        format!("use std::collections::HashMap;\n\n{}\n", body)
    );
}

#[test]
fn the_compiler_takes_imports_before_anything_else() {
    let f = candidate("fn f() {}", &["use a;"], "P\n");
    assert_eq!(check_request(&f), "use a;\nP\nfn f() {}");
    let result = TypeCheckingResult {
        errors: vec![("e".to_string(), "c".to_string())],
        suggestions: vec![Edit { span: span(9, 18), text: "fn g() {}".to_string() }],
        add_use: vec!["use b;".to_string(), "use a;".to_string()],
    };
    assert_eq!(
        fix_function_compiler(f.clone(), result),
        Some(Fixpoint::Again(candidate("fn f() {}", &["use a;", "use b;", "use a;"], "P\n")))
    );
}

#[test]
fn the_compiler_leaves_what_stands_behind_the_prefix() {
    let f = candidate("fn f() { 1 }", &["use a;", "use b;"], "P\n");
    assert_eq!(check_request(&f), "use a;\nuse b;\nP\nfn f() { 1 }");
    let result = TypeCheckingResult {
        errors: vec![("e".to_string(), "c".to_string())],
        suggestions: vec![Edit { span: span(25, 26), text: "1u8".to_string() }],
        add_use: vec![],
    };
    let mut expected = candidate("fn f() { 1u8 }", &["use a;", "use b;"], "P\n");
    expected.errors = vec![("e".to_string(), "c".to_string())];
    assert_eq!(fix_function_compiler(f.clone(), result), Some(Fixpoint::Settled(expected)));
    let none = TypeCheckingResult { errors: vec![], suggestions: vec![], add_use: vec![] };
    assert_eq!(fix_function_compiler(f.clone(), none), Some(Fixpoint::Settled(f.clone())));
}

#[test]
fn a_suggestion_may_not_take_the_prefix_away() {
    let f = candidate("fn f() { 1 }", &["use a;", "use b;"], "P\n");
    let short = TypeCheckingResult {
        errors: vec![],
        suggestions: vec![Edit { span: span(0, 28), text: "use a;".to_string() }],
        add_use: vec![],
    };
    assert_eq!(fix_function_compiler(f.clone(), short), None);
    let exact = TypeCheckingResult {
        errors: vec![],
        suggestions: vec![Edit { span: span(16, 28), text: "".to_string() }],
        add_use: vec![],
    };
    assert_eq!(
        fix_function_compiler(f.clone(), exact),
        Some(Fixpoint::Settled(candidate("", &["use a;", "use b;"], "P\n")))
    );
    let with_imports = TypeCheckingResult {
        errors: vec![],
        suggestions: vec![Edit { span: span(0, 28), text: "".to_string() }],
        add_use: vec!["use c;".to_string()],
    };
    assert_eq!(fix_function_compiler(f, with_imports), None);
}

#[test]
fn suggestions_are_made_where_they_fit() {
    let result = TypeCheckingResult {
        errors: vec![("left".to_string(), "over".to_string())],
        suggestions: vec![
            Edit { span: span(17, 19), text: "u16".to_string() },
            Edit { span: span(4, 5), text: "_a".to_string() },
            Edit { span: span(18, 19), text: "overlaps".to_string() },
        ],
        add_use: vec!["use x;".to_string()],
    };
    let (code, after) = apply_suggestions("let a: u8 = 1 as u8;", result.clone());
    assert_eq!(code, "let _a: u8 = 1 as u16;");
    assert_eq!(after, result);
}

#[test]
fn a_repair_that_helps_starts_the_repairs_anew() {
    let program = Program { variables: vec![], functions: vec![function("main", MAIN_C, &[], &[], &[])] };
    let mut t = Translator::new(program).unwrap();
    let _ = t.translate_functions();
    let body = "fn main() {\n    let a: u8 = 300;\n    let b: u8 = 400;\n}\n";
    let check = up_to_check(&mut t, "main", "fn main()", body);
    let errors = vec![
        ("literal out of range".to_string(), "    let a: u8 = 300;".to_string()),
        ("literal out of range".to_string(), "    let b: u8 = 400;".to_string()),
    ];
    let action = t.resume(Event::Checked {
        result: TypeCheckingResult { errors: errors.clone(), suggestions: vec![], add_use: vec![] },
    });
    assert_eq!(
        action,
        Action::Fix { code: "    let a: u8 = 300;".to_string(), message: "literal out of range".to_string() }
    );
    // A repair that is no repair: the next complaint is in turn.
    let action = t.resume(Event::Fixed { repaired: Some("use std::u8;\nlet a = 1;".to_string()) });
    assert_eq!(
        action,
        Action::Fix { code: "    let b: u8 = 400;".to_string(), message: "literal out of range".to_string() }
    );
    // A repair is trimmed, indented as the code it repairs, and checked.
    let check = t.resume(Event::Fixed { repaired: Some("\nlet b: u16 = 400;\n".to_string()) });
    let repaired = "fn main() {\n    let a: u8 = 300;\n    let b: u16 = 400;\n}\n";
    assert_eq!(checked_code(&check), format!("\n{}{}", DEAD, repaired));
    // One complaint is left: fewer than two, so the repairs begin anew with the first.
    let action = t.resume(Event::Checked {
        result: TypeCheckingResult {
            errors: vec![errors[0].clone()],
            suggestions: vec![],
            add_use: vec![],
        },
    });
    assert_eq!(
        action,
        Action::Fix { code: "    let a: u8 = 300;".to_string(), message: "literal out of range".to_string() }
    );
    // A repair that does not help is dropped.
    let check = t.resume(Event::Fixed { repaired: Some("let a: u8 = 301;".to_string()) });
    assert!(checked_code(&check).contains("let a: u8 = 301;"));
    let action = t.resume(Event::Checked {
        result: TypeCheckingResult {
            errors: vec![("literal out of range".to_string(), "    let a: u8 = 301;".to_string())],
            suggestions: vec![],
            add_use: vec![],
        },
    });
    assert_eq!(action, Action::Finished);
    let f = &t.translated_functions[0];
    assert_eq!(f.translated, repaired);
    assert_eq!(f.errors, vec![errors[0].clone()]);
}

#[test]
fn a_body_that_does_not_start_with_its_signature_is_dropped() {
    let program = Program { variables: vec![], functions: vec![function("f", "void f(){}", &[], &[], &[])] };
    let mut t = Translator::new(program).unwrap();
    let _ = t.translate_functions();
    let action = up_to_check(&mut t, "f", "fn f()", "pub fn f() {}");
    assert_eq!(
        action,
        Action::Abort { error: TranslationError::NoCandidates, entity: "f".to_string() }
    );
    assert_eq!(t.stage, Stage::Failed { error: TranslationError::NoCandidates });
    assert!(t.translated_functions.is_empty());
}

#[test]
fn without_a_translation_no_candidate_is_left() {
    let program = Program { variables: vec![], functions: vec![function("f", "void f(){}", &[], &[], &[])] };
    let mut t = Translator::new(program).unwrap();
    let _ = t.translate_functions();
    let _ = t.resume(Event::Renamed { name: "f".to_string() });
    let _ = t.resume(Event::Signatures { signatures: vec!["fn f()".to_string()] });
    let _ = t.resume(Event::SignaturesParsed { parsed: vec![parsed("()", "fn f() {}")] });
    assert_eq!(
        t.resume(Event::FunctionTranslated { body: None }),
        Action::Abort { error: TranslationError::NoCandidates, entity: "f".to_string() }
    );
    // No signatures at all: no candidates either.
    let program = Program { variables: vec![], functions: vec![function("g", "void g(){}", &[], &[], &[])] };
    let mut t = Translator::new(program).unwrap();
    let _ = t.translate_functions();
    let _ = t.resume(Event::Renamed { name: "g".to_string() });
    let _ = t.resume(Event::Signatures { signatures: vec![] });
    assert_eq!(
        t.resume(Event::SignaturesParsed { parsed: vec![] }),
        Action::Abort { error: TranslationError::NoCandidates, entity: "g".to_string() }
    );
}

#[test]
fn signatures_must_be_read_one_for_one() {
    let program = Program { variables: vec![], functions: vec![function("f", "void f(){}", &[], &[], &[])] };
    let mut t = Translator::new(program).unwrap();
    let _ = t.translate_functions();
    let _ = t.resume(Event::Renamed { name: "f".to_string() });
    let _ = t.resume(Event::Signatures { signatures: vec!["fn f()".to_string(), "fn f() -> u8".to_string()] });
    assert_eq!(
        t.resume(Event::SignaturesParsed { parsed: vec![parsed("()", "fn f() {}")] }),
        Action::Abort { error: TranslationError::ParseFailure, entity: "f".to_string() }
    );
    let program = Program { variables: vec![], functions: vec![function("f", "void f(){}", &[], &[], &[])] };
    let mut t = Translator::new(program).unwrap();
    let _ = t.translate_functions();
    let _ = t.resume(Event::Renamed { name: "f".to_string() });
    let _ = t.resume(Event::Signatures { signatures: vec!["fn f()".to_string()] });
    assert_eq!(
        t.resume(Event::SignaturesParsed { parsed: vec![parsed("()", "fn f();")] }),
        Action::Abort { error: TranslationError::ParseFailure, entity: "f".to_string() }
    );
}

#[test]
fn a_program_without_functions_is_its_globals_and_a_stub() {
    let program = Program {
        variables: vec![declaration("a", "int a=1;"), declaration("b", "int b=2;")],
        functions: vec![],
    };
    let mut t = Translator::new(program).unwrap();
    assert_eq!(t.whole_code(), "\n\n\nfn main() {}");
    let _ = t.translate_variables();
    let _ = t.resume(Event::VariableTranslated { text: Some("const A: i32 = 1;".to_string()) });
    let _ = t.resume(Event::VariableParsed { declared: vec![("A".to_string(), "i32".to_string())] });
    let _ = t.resume(Event::VariableTranslated { text: Some("const B: i32 = 2;".to_string()) });
    let _ = t.resume(Event::VariableParsed { declared: vec![("B".to_string(), "i32".to_string())] });
    assert_eq!(t.translate_functions(), Action::Finished);
    assert_eq!(t.whole_code(), "\nconst A: i32 = 1;\nconst B: i32 = 2;\n\nfn main() {}");
}

#[test]
fn a_declaration_must_declare_one_variable() {
    let program = Program {
        variables: vec![Declaration {
            names: vec!["a".to_string(), "b".to_string()],
            code: "int a, b;".to_string(),
        }],
        functions: vec![],
    };
    let mut t = Translator::new(program).unwrap();
    assert_eq!(
        t.translate_variables(),
        Action::Abort { error: TranslationError::UnsupportedDeclaration, entity: "int a, b;".to_string() }
    );
    let program = Program { variables: vec![declaration("a", "int a;")], functions: vec![] };
    let mut t = Translator::new(program).unwrap();
    let _ = t.translate_variables();
    let _ = t.resume(Event::VariableTranslated { text: Some("static A: i32 = 0;".to_string()) });
    assert_eq!(
        t.resume(Event::VariableParsed { declared: vec![] }),
        Action::Abort { error: TranslationError::ParseFailure, entity: "int a;".to_string() }
    );
    let program = Program { variables: vec![declaration("a", "int a;")], functions: vec![] };
    let mut t = Translator::new(program).unwrap();
    let _ = t.translate_variables();
    assert_eq!(
        t.resume(Event::VariableTranslated { text: None }),
        Action::Abort { error: TranslationError::ParseFailure, entity: "int a;".to_string() }
    );
}

#[test]
fn reserved_functions_are_left_out() {
    let program = Program {
        variables: vec![],
        functions: vec![
            function("__builtin", "void __builtin(){}", &[], &[], &[]),
            function("f", "void f(){__builtin();printf();}", &[], &[], &["__builtin", "printf"]),
        ],
    };
    let t = Translator::new(program).unwrap();
    assert_eq!(t.program.functions.len(), 1);
    assert_eq!(t.program.functions[0].name, "f");
    assert!(t.program.functions[0].callees.is_empty());
    assert_eq!(t.function_post_order, vec![0]);
}

#[test]
fn functions_that_call_each_other_in_a_circle_are_refused() {
    let program = Program {
        variables: vec![],
        functions: vec![
            function("even", "int even(int n){return odd(n);}", &[], &[], &["odd"]),
            function("odd", "int odd(int n){return even(n);}", &[], &[], &["even"]),
        ],
    };
    assert_eq!(Translator::new(program).err(), Some(TranslationError::MutualRecursion));
    let program = Program {
        variables: vec![],
        functions: vec![function("fact", "int fact(int n){return fact(n);}", &[], &[], &["fact"])],
    };
    assert!(Translator::new(program).is_ok());
}

#[test]
fn a_function_without_a_translated_global_cannot_start() {
    let program = Program {
        variables: vec![declaration("NAME", "const char* NAME=\"x\";")],
        functions: vec![function("hello", "int hello(){return NAME?0:1;}", &["NAME"], &[], &[])],
    };
    let mut t = Translator::new(program).unwrap();
    assert_eq!(
        t.translate_functions(),
        Action::Abort { error: TranslationError::MissingDependency, entity: "hello".to_string() }
    );
}

#[test]
fn a_report_that_is_not_awaited_is_turned_away() {
    let program = Program { variables: vec![], functions: vec![function("main", MAIN_C, &[], &[], &[])] };
    let mut t = Translator::new(program).unwrap();
    let unexpected = Action::Abort { error: TranslationError::UnexpectedEvent, entity: "".to_string() };
    assert_eq!(t.resume(Event::Renamed { name: "x".to_string() }), unexpected);
    assert_eq!(t.stage, Stage::Idle);
    let _ = t.translate_functions();
    let before = t.clone();
    assert_eq!(t.resume(Event::Fixed { repaired: None }), unexpected);
    assert_eq!(t, before);
    assert_eq!(t.translate_variables(), unexpected);
    assert_eq!(t.translate_functions(), unexpected);
    assert_eq!(t, before);
    assert!(matches!(
        t.resume(Event::Renamed { name: "main".to_string() }),
        Action::TranslateSignature { .. }
    ));
}

#[test]
fn a_check_that_lost_its_prefix_is_a_failure() {
    let program = Program { variables: vec![], functions: vec![function("main", MAIN_C, &[], &[], &[])] };
    let mut t = Translator::new(program).unwrap();
    let _ = t.translate_functions();
    let check = up_to_check(&mut t, "main", "fn main()", "fn main() {}");
    let all = checked_code(&check).chars().count();
    let lost = Event::Checked {
        result: TypeCheckingResult {
            errors: vec![],
            suggestions: vec![Edit { span: span(0, all), text: "fn".to_string() }],
            add_use: vec![],
        },
    };
    assert_eq!(
        t.resume(lost),
        Action::Abort { error: TranslationError::BrokenCheck, entity: "main".to_string() }
    );
}

#[test]
fn imports_are_merged_without_repetition() {
    let program = Program {
        variables: vec![],
        functions: vec![
            function("a", "void a(){}", &[], &[], &[]),
            function("b", "void b(){a();}", &[], &[], &["a"]),
        ],
    };
    let mut t = Translator::new(program).unwrap();
    let _ = t.translate_functions();
    let check = up_to_check(&mut t, "a", "fn a()", "fn a() {}");
    let again = t.resume(Event::Checked {
        result: TypeCheckingResult {
            errors: vec![],
            suggestions: vec![],
            add_use: vec!["use x;".to_string(), "use y;".to_string(), "use x;".to_string()],
        },
    });
    assert_eq!(
        checked_code(&again),
        format!("use x;\nuse y;\nuse x;\nfn main() {{}}\n{}fn a() {{}}", DEAD)
    );
    assert_eq!(t.resume(clean()), Action::Rename { name: "b".to_string() });
    assert_eq!(t.use_list, vec!["use x;".to_string(), "use y;".to_string()]);
    let check = up_to_check(&mut t, "b", "fn b()", "fn b() { a() }");
    assert_eq!(
        checked_code(&check),
        format!(
            "\n#[allow(unused_imports)] use x;\n#[allow(unused_imports)] use y;\nfn main() {{}}\n#[deny(dead_code)] #[allow(unused_variables)] fn a()  {{ todo!() }}\n\n{}fn b() {{ a() }}",
            DEAD
        )
    );
    let again = t.resume(Event::Checked {
        result: TypeCheckingResult {
            errors: vec![],
            suggestions: vec![],
            add_use: vec!["use y;".to_string(), "use z;".to_string()],
        },
    });
    assert_eq!(t.resume(clean()), Action::Finished);
    assert_eq!(t.use_list, vec!["use x;".to_string(), "use y;".to_string(), "use z;".to_string()]);
    assert_eq!(t.translated_functions[0].uses, vec!["use x;", "use y;", "use x;"]);
    assert_eq!(t.translated_functions[1].uses, vec!["use y;", "use z;"]);
    assert_eq!(
        t.whole_code(),
        "use x;\nuse y;\nuse z;\n\nfn a() {}\nfn b() { a() }\nfn main() {}"
    );
}

#[test]
fn callees_are_given_in_the_order_of_the_dictionary() {
    let program = Program {
        variables: vec![],
        functions: vec![
            function("top", "void top(){zeta();alpha();zeta();mid();}", &[], &[], &["zeta", "alpha", "mid"]),
            function("zeta", "void zeta(){}", &[], &[], &[]),
            function("mid", "void mid(){}", &[], &[], &[]),
            function("alpha", "void alpha(){}", &[], &[], &[]),
        ],
    };
    let mut t = Translator::new(program).unwrap();
    assert_eq!(t.function_post_order, vec![1, 2, 3, 0]);
    let mut action = t.translate_functions();
    for name in ["zeta", "mid", "alpha"] {
        assert_eq!(action, Action::Rename { name: name.to_string() });
        let sig = format!("fn {}()", name);
        let body = format!("fn {}() {{}}", name);
        let check = up_to_check(&mut t, name, &sig, &body);
        action = t.resume(clean());
    }
    assert_eq!(action, Action::Rename { name: "top".to_string() });
    match t.resume(Event::Renamed { name: "top".to_string() }) {
        Action::TranslateSignature { deps, .. } => {
            assert_eq!(deps, vec!["fn alpha() {}", "fn mid() {}", "fn zeta() {}"]);
        }
        other => panic!("{:?}", other),
    }
}

#[test]
fn a_function_after_main_needs_no_stub() {
    let program = Program {
        variables: vec![],
        functions: vec![
            function("main", MAIN_C, &[], &[], &[]),
            function("later", "void later(){}", &[], &[], &[]),
        ],
    };
    let mut t = Translator::new(program).unwrap();
    let _ = t.translate_functions();
    let check = up_to_check(&mut t, "main", "fn main() -> i32", MAIN_RS);
    assert_eq!(t.resume(clean()), Action::Rename { name: "later".to_string() });
    let check = up_to_check(&mut t, "later", "fn later()", "fn later() {}");
    assert_eq!(checked_code(&check), format!("\n{}fn later() {{}}", DEAD));
}

#[test]
fn a_report_tells_of_every_line() {
    let before = "fn f() {\n    let a: u8 = 300;\n}\n";
    let after = "fn f() {\n    let a: u16 = 300;\n}\n";
    assert_eq!(
        diff_report(before, after),
        Some(vec![
            " fn f() {".to_string(),
            "-    let a: u8 = 300;".to_string(),
            "+    let a: u16 = 300;".to_string(),
            " }".to_string(),
            " ".to_string(),
        ])
    );
    assert_eq!(diff_report(before, before), Some(vec![]));
    assert_eq!(diff_report("", "a"), Some(vec!["+a".to_string()]));
    assert_eq!(diff_report("a\n", ""), Some(vec!["-a".to_string(), "-".to_string()]));
}

#[test]
fn changes_are_marked_by_their_kind() {
    let changes = vec![
        Change::Left("gone".to_string()),
        Change::Both("same".to_string(), "other".to_string()),
        Change::Right("new".to_string()),
        Change::Left("".to_string()),
    ];
    assert_eq!(render_changes(&changes), vec!["-gone", " same", "+new", "-"]);
    assert_eq!(render_changes(&vec![]), Vec::<String>::new());
}

#[test]
fn comments_stand_above_their_lines() {
    let code = "fn f() {\n    g();\n\th();\n}";
    let mut comments: BTreeMap<usize, Vec<String>> = BTreeMap::new();
    comments.insert(1, vec!["calls g".to_string(), "twice".to_string()]);
    comments.insert(2, vec![]);
    comments.insert(3, vec!["the end".to_string()]);
    comments.insert(7, vec!["beyond".to_string()]);
    assert_eq!(
        add_comments(code, &comments),
        "fn f() {\n    // calls g\n    // twice\n    g();\n\th();\n// the end\n}\n"
    );
    assert_eq!(add_comments(code, &BTreeMap::new()), format!("{}\n", code));
    assert_eq!(add_comments("", &BTreeMap::new()), "\n");
    let mut first: BTreeMap<usize, Vec<String>> = BTreeMap::new();
    first.insert(0, vec!["x".to_string()]);
    assert_eq!(add_comments("  a\n", &first), "  // x\n  a\n\n");
}

#[test]
fn the_number_of_signatures_can_be_chosen() {
    let program = Program { variables: vec![], functions: vec![function("main", MAIN_C, &[], &[], &[])] };
    let mut t = Translator::new(program).unwrap().with_signature_count(5);
    assert_eq!(t.signature_count, 5);
    let _ = t.translate_functions();
    match t.resume(Event::Renamed { name: "main".to_string() }) {
        Action::TranslateSignature { count, .. } => assert_eq!(count, 5),
        other => panic!("{:?}", other),
    }
}

#[test]
fn the_compilers_suggestions_are_taken_up() {
    let program = Program { variables: vec![], functions: vec![function("main", MAIN_C, &[], &[], &[])] };
    let mut t = Translator::new(program).unwrap();
    let _ = t.translate_functions();
    let body = "fn main() {\n    let mut a = 1;\n}\n";
    let check = up_to_check(&mut t, "main", "fn main()", body);
    let code = checked_code(&check);
    let at = code.find("mut ").unwrap();
    let end = t.resume(Event::Checked {
        result: TypeCheckingResult {
            errors: vec![],
            suggestions: vec![Edit { span: span(at, at + 4), text: "".to_string() }],
            add_use: vec![],
        },
    });
    assert_eq!(end, Action::Finished);
    assert_eq!(t.translated_functions[0].translated, "fn main() {\n    let a = 1;\n}\n");
}

#[test]
fn signatures_beyond_the_count_asked_for_are_left_aside() {
    let program = Program { variables: vec![], functions: vec![function("main", MAIN_C, &[], &[], &[])] };
    let mut t = Translator::new(program).unwrap().with_signature_count(2);
    let _ = t.translate_functions();
    let _ = t.resume(Event::Renamed { name: "main".to_string() });
    let given = vec!["fn main()".to_string(), "fn main() -> i32".to_string(), "fn main() -> u8".to_string()];
    assert_eq!(
        t.resume(Event::Signatures { signatures: given.clone() }),
        Action::ParseSignatures { signatures: given[..2].to_vec() }
    );
    match &t.stage {
        Stage::Keys { count, .. } => assert_eq!(*count, 2),
        other => panic!("{:?}", other),
    }
    // Three parsed signatures are not what was asked for.
    let mut three = t.clone();
    assert_eq!(
        three.resume(Event::SignaturesParsed {
            parsed: vec![
                parsed("1", "fn main() {}"),
                parsed("2", "fn main() -> i32 {}"),
                parsed("3", "fn main() -> u8 {}"),
            ],
        }),
        Action::Abort { error: TranslationError::ParseFailure, entity: "main".to_string() }
    );
    assert!(matches!(
        t.resume(Event::SignaturesParsed {
            parsed: vec![parsed("1", "fn main() {}"), parsed("2", "fn main() -> i32 {}")],
        }),
        Action::TranslateFunction { .. }
    ));
}

#[test]
fn a_candidate_that_the_compiler_parts_from_its_signature_is_dropped() {
    let program = Program { variables: vec![], functions: vec![function("main", MAIN_C, &[], &[], &[])] };
    let mut t = Translator::new(program).unwrap();
    let _ = t.translate_functions();
    let check = up_to_check(&mut t, "main", "fn main()", "fn main() {}");
    let at = checked_code(&check).find("fn main").unwrap();
    let end = t.resume(Event::Checked {
        result: TypeCheckingResult {
            errors: vec![],
            suggestions: vec![Edit { span: span(at, at + 2), text: "pub fn".to_string() }],
            add_use: vec![],
        },
    });
    assert_eq!(
        end,
        Action::Abort { error: TranslationError::NoCandidates, entity: "main".to_string() }
    );
    assert!(t.translated_functions.is_empty());
}

#[test]
fn a_repair_that_parts_the_candidate_from_its_signature_is_dropped() {
    let program = Program { variables: vec![], functions: vec![function("main", MAIN_C, &[], &[], &[])] };
    let mut t = Translator::new(program).unwrap();
    let _ = t.translate_functions();
    let body = "fn main() {\n    let a: u8 = 300;\n}\n";
    let _ = up_to_check(&mut t, "main", "fn main()", body);
    let errors = vec![("literal out of range".to_string(), "    let a: u8 = 300;".to_string())];
    let action = t.resume(Event::Checked {
        result: TypeCheckingResult { errors: errors.clone(), suggestions: vec![], add_use: vec![] },
    });
    assert!(matches!(action, Action::Fix { .. }));
    let check = t.resume(Event::Fixed { repaired: Some("let a: u16 = 300;".to_string()) });
    let code = checked_code(&check);
    assert!(code.ends_with("fn main() {\n    let a: u16 = 300;\n}\n"));
    let at = code.find("fn main").unwrap();
    // No complaint is left, but the function no longer begins with its signature.
    let end = t.resume(Event::Checked {
        result: TypeCheckingResult {
            errors: vec![],
            suggestions: vec![Edit { span: span(at, at + 2), text: "pub fn".to_string() }],
            add_use: vec![],
        },
    });
    assert_eq!(end, Action::Finished);
    let chosen = &t.translated_functions[0];
    assert_eq!(chosen.translated, body);
    assert_eq!(chosen.errors, errors);
    assert!(chosen.translated.starts_with(chosen.signature.strip_suffix("{}").unwrap()));
}

#[test]
fn a_function_without_dependencies_is_checked_behind_the_leave_alone() {
    let program = Program {
        variables: vec![],
        functions: vec![
            function("first", "void first(){}", &[], &[], &[]),
            function("lone", "void lone(){}", &[], &[], &[]),
        ],
    };
    let mut t = Translator::new(program).unwrap();
    assert_eq!(t.translate_functions(), Action::Rename { name: "first".to_string() });
    let _ = up_to_check(&mut t, "first", "fn first()", "fn first() {}");
    let again = t.resume(Event::Checked {
        result: TypeCheckingResult {
            errors: vec![],
            suggestions: vec![],
            add_use: vec!["use x;".to_string()],
        },
    });
    assert_eq!(
        checked_code(&again),
        "use x;\nfn main() {}\n#[allow(dead_code)]\nfn first() {}"
    );
    assert_eq!(t.resume(clean()), Action::Rename { name: "lone".to_string() });
    assert_eq!(t.use_list, vec!["use x;".to_string()]);
    let check = up_to_check(&mut t, "lone", "fn lone()", "fn lone() {}");
    assert_eq!(
        checked_code(&check),
        "\n#[allow(unused_imports)] use x;\nfn main() {}\n#[allow(dead_code)]\nfn lone() {}"
    );
    match &t.stage {
        Stage::Check { current, .. } => {
            assert_eq!(current.prefix, "#[allow(dead_code)]\n");
            assert_eq!(current.preamble, "#[allow(unused_imports)] use x;\nfn main() {}\n");
        }
        other => panic!("{:?}", other),
    }
    assert_eq!(t.translated_functions[0].prefix, "#[allow(dead_code)]\n");
    assert_eq!(t.translated_functions[0].preamble, "fn main() {}\n");
}
