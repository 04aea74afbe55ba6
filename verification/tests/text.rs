use c_translator::text::{
    chars_of, contains, ends_with, find, indentation, join, lines, replace, split, starts_with,
    string_of, strip_prefix, strip_suffix, trim,
};

fn chars(s: &str) -> Vec<char> {
    s.chars().collect()
}

fn text(v: &Vec<char>) -> String {
    v.iter().collect()
}

fn texts(v: &Vec<Vec<char>>) -> Vec<String> {
    v.iter().map(text).collect()
}

#[test]
fn chars_and_strings_round_trip() {
    assert_eq!(chars_of("ab"), vec!['a', 'b']);
    assert_eq!(string_of(&chars_of("h\u{e9}llo \u{1f600}")), "h\u{e9}llo \u{1f600}");
    assert_eq!(string_of(&Vec::new()), "");
}

#[test]
fn find_gives_the_first_match_from_an_index() {
    let s = chars("abcabc");
    assert_eq!(find(&s, &chars("bc"), 0), Some(1));
    assert_eq!(find(&s, &chars("bc"), 1), Some(1));
    assert_eq!(find(&s, &chars("bc"), 2), Some(4));
    assert_eq!(find(&s, &chars("bc"), 5), None);
    assert_eq!(find(&s, &chars("x"), 0), None);
    assert_eq!(find(&s, &chars("abcabcd"), 0), None);
    assert_eq!(find(&s, &chars(""), 0), Some(0));
    assert_eq!(find(&s, &chars(""), 6), Some(6));
    assert_eq!(find(&s, &chars(""), 7), None);
}

#[test]
fn find_agrees_with_std() {
    for (s, p) in [("hello world", "o"), ("hello", "hello"), ("", ""), ("aab", "ab"), ("abc", "d")] {
        let expected = s.find(p);
        assert_eq!(find(&chars(s), &chars(p), 0), expected);
        assert_eq!(contains(&chars(s), &chars(p)), s.contains(p));
    }
}

#[test]
fn prefixes_and_suffixes() {
    assert!(starts_with(&chars("fn main"), &chars("fn ")));
    assert!(!starts_with(&chars("f"), &chars("fn ")));
    assert!(starts_with(&chars("x"), &chars("")));
    assert!(ends_with(&chars("fn a() {}"), &chars("{}")));
    assert!(!ends_with(&chars("}"), &chars("{}")));
    assert_eq!(text(&strip_prefix(&chars("unsafe fn a"), &chars("unsafe "))), "fn a");
    assert_eq!(text(&strip_prefix(&chars("fn a"), &chars("unsafe "))), "fn a");
    assert_eq!(text(&strip_suffix(&chars("fn a();"), &chars(";"))), "fn a()");
    assert_eq!(text(&strip_suffix(&chars("fn a()"), &chars(";"))), "fn a()");
}

#[test]
fn split_gives_every_piece() {
    let nl = chars("\n");
    assert_eq!(texts(&split(&chars("a\nb\n"), &nl)), vec!["a", "b", ""]);
    assert_eq!(texts(&split(&chars(""), &nl)), vec![""]);
    assert_eq!(texts(&split(&chars("abc"), &nl)), vec!["abc"]);
    assert_eq!(texts(&split(&chars("a--b----c"), &chars("--"))), vec!["a", "b", "", "c"]);
}

#[test]
fn split_agrees_with_std() {
    for s in ["", "\n", "a\n\nb", "\na", "a\n", "no line feed"] {
        let expected: Vec<String> = s.split('\n').map(|p| p.to_string()).collect();
        assert_eq!(texts(&split(&chars(s), &chars("\n"))), expected);
    }
}

#[test]
fn lines_agree_with_std() {
    for s in [
        "", "a", "a\nb", "a\n", "a\r\n", "a\r", "\n", "\r\n", "a\n\nb", "\r\n\r\n", "a\r\r\n", "a\rb\n",
        "x\n\r", "one\r\ntwo\r\nthree",
    ] {
        let expected: Vec<String> = s.lines().map(|p| p.to_string()).collect();
        assert_eq!(texts(&lines(&chars(s))), expected, "lines of {:?}", s);
    }
}

#[test]
fn join_agrees_with_std() {
    let parts = vec![chars("a"), chars(""), chars("bc")];
    assert_eq!(text(&join(&parts, &chars(", "))), "a, , bc");
    assert_eq!(text(&join(&Vec::new(), &chars(", "))), "");
    assert_eq!(text(&join(&vec![chars("only")], &chars(", "))), "only");
}

#[test]
fn replace_agrees_with_std() {
    for (s, from, to) in [
        ("abcabc", "bc", "x"),
        ("aaa", "aa", "b"),
        ("abc", "", "-"),
        ("", "", "x"),
        ("abc", "abc", ""),
        ("abc", "d", "x"),
        ("a b c", " ", "_"),
        ("    let x = 1;", "let x = 1;", "let x = 2;"),
    ] {
        assert_eq!(
            text(&replace(&chars(s), &chars(from), &chars(to))),
            s.replace(from, to),
            "replace {:?} in {:?}",
            from,
            s
        );
    }
}

#[test]
fn trim_agrees_with_std() {
    for s in ["  a b \t\n", "", "   ", "\u{a0}x\u{2003}", "x", " x", "x ", "\n\nfn a() {}\n"] {
        assert_eq!(text(&trim(&chars(s))), s.trim(), "trim of {:?}", s);
    }
}

#[test]
fn indentation_is_the_leading_white_space() {
    assert_eq!(text(&indentation(&chars("    let x;"))), "    ");
    assert_eq!(text(&indentation(&chars("\t x"))), "\t ");
    assert_eq!(text(&indentation(&chars("x  "))), "");
    assert_eq!(text(&indentation(&chars("   "))), "   ");
}

#[test]
fn white_space_is_what_the_standard_library_takes_for_it() {
    for n in 0..=0x10ffffu32 {
        if let Some(c) = char::from_u32(n) {
            let text = vec!['a', c];
            assert_eq!(trim(&text).len() == 1, c.is_whitespace(), "{:x}", n);
        }
    }
    let spaces = "\t\n\u{b}\u{c}\r \u{85}\u{a0}\u{1680}\u{2000}\u{200a}\u{2028}\u{2029}\u{202f}\u{205f}\u{3000}";
    assert_eq!(trim(&format!("{}a{}", spaces, spaces).chars().collect()), vec!['a']);
    assert_eq!(trim(&"\u{200b}a\u{180e}".chars().collect()), vec!['\u{200b}', 'a', '\u{180e}']);
}
