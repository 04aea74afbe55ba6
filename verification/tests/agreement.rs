use c_translator::llm_client::reply::{
    can_extract_name, extract_choice, extract_code, extract_function, extract_name,
    extract_signatures, Comparison,
};
use c_translator::text::{chars_of, find, lines, replace, split, string_of, trim};

/// A small generator of numbers, the same on every run.
struct Numbers(u64);

impl Numbers {
    fn next(&mut self, bound: usize) -> usize {
        self.0 = self.0.wrapping_mul(6364136223846793005).wrapping_add(1442695040888963407);
        ((self.0 >> 33) as usize) % bound
    }
}

const WORDS: [&str; 24] = [
    "```rust\n", "```\n", "\n```", "`", "\n", "fn ", "unsafe ", "unsafe fn ", ";", "1. ", "2.",
    "x", " ", "\u{e9}", "struct ", "\r", "Choice: Implementation ", "1", "2", "3", "``", "\t",
    "f() {}", "0.",
];

fn text_from(numbers: &mut Numbers, words: &[&str], most: usize) -> String {
    let count = numbers.next(most + 1);
    let mut text = String::new();
    for _ in 0..count {
        text.push_str(words[numbers.next(words.len())]);
    }
    text
}

fn expected_code(mut result: &str, prefixes: &[&str]) -> Option<String> {
    let pat1 = "```rust\n";
    let pat2 = "```\n";
    let pat3 = "\n```";
    let mut results: Vec<&str> = vec![];
    let whole = result;
    loop {
        let i1 = result.find(pat1).map(|i| i + pat1.len());
        let i2 = result.find(pat2).map(|i| i + pat2.len());
        let i = match (i1, i2) {
            (Some(i1), Some(i2)) => std::cmp::min(i1, i2),
            (i1, i2) => match i1.or(i2) {
                Some(i) => i,
                None => break,
            },
        };
        result = &result[i..];
        let i = match result.find(pat3) {
            Some(i) => i,
            None => break,
        };
        results.push(&result[..i]);
        result = &result[i + pat3.len()..];
    }
    if results.is_empty() {
        return if prefixes.iter().any(|prefix| whole.starts_with(prefix)) {
            Some(whole.to_string())
        } else {
            None
        };
    }
    results.retain(|s| s.lines().any(|line| prefixes.iter().any(|prefix| line.starts_with(prefix))));
    results.into_iter().max_by_key(|s| s.len()).map(|s| s.to_string())
}

fn expected_signatures(result: &str) -> Vec<String> {
    let sigs: Vec<_> = result
        .lines()
        .filter_map(|s| {
            let mut chars = s.chars();
            let c1 = chars.next()?;
            if !('1'..='9').contains(&c1) {
                return None;
            }
            let c2 = chars.next()?;
            if c2 != '.' {
                return None;
            }
            let i = s.find('`')?;
            let s = &s[i + 1..];
            let i = s.find('`')?;
            let s = s[..i].trim();
            let s = s.strip_prefix("unsafe ").unwrap_or(s).trim();
            let s = s.strip_suffix(';').unwrap_or(s).trim();
            Some(s.to_string())
        })
        .collect();
    if !sigs.is_empty() {
        return sigs;
    }
    let mut sigs = vec![];
    let mut s = result;
    while let Some(i) = s.find('`') {
        s = &s[i + 1..];
        let i = match s.find('`') {
            Some(i) => i,
            None => break,
        };
        let sig = &s[..i].trim();
        let sig = sig.strip_prefix("unsafe ").unwrap_or(sig).trim();
        let sig = sig.strip_suffix(';').unwrap_or(sig).trim();
        if sig.starts_with("fn ") {
            sigs.push(sig.to_string());
        }
        s = &s[i + 1..];
    }
    sigs
}

fn expected_function(result: &str) -> Option<String> {
    let result = expected_code(result, &["fn ", "unsafe fn "]).or_else(|| {
        if result.starts_with("fn ") | result.starts_with("unsafe fn ") {
            Some(result.to_string())
        } else {
            None
        }
    })?;
    let mut r = String::new();
    for line in result.split('\n') {
        match line.strip_prefix("unsafe fn ") {
            Some(line) => {
                r.push_str("fn ");
                r.push_str(line);
                r.push('\n');
            }
            None => {
                r.push_str(line);
                r.push('\n');
            }
        }
    }
    Some(r)
}

fn expected_choice(result: &str) -> Comparison {
    let s = "Choice: Implementation ";
    let i = match result.find(s) {
        Some(i) => i,
        None => return Comparison::Equal,
    };
    let c = match result[i + s.len()..].chars().find(|&c| c == '1' || c == '2') {
        Some(c) => c,
        None => return Comparison::Equal,
    };
    match c {
        '1' => Comparison::Greater,
        '2' => Comparison::Less,
        _ => Comparison::Equal,
    }
}

fn expected_name(result: &str) -> Option<String> {
    let i = match result.find('`') {
        Some(i) => i,
        None => return Some(result.to_string()),
    };
    let rest = &result[i + 1..];
    let i = rest.find('`')?;
    Some(rest[..i].to_string())
}

#[test]
fn replies_are_read_as_std_reads_them() {
    let mut numbers = Numbers(7);
    for _ in 0..4000 {
        let reply = text_from(&mut numbers, &WORDS, 12);
        assert_eq!(extract_code(&reply, &["fn "]), expected_code(&reply, &["fn "]), "{:?}", reply);
        assert_eq!(
            extract_code(&reply, &["struct ", "x"]),
            expected_code(&reply, &["struct ", "x"]),
            "{:?}",
            reply
        );
        assert_eq!(extract_signatures(&reply), expected_signatures(&reply), "{:?}", reply);
        assert_eq!(extract_function(&reply), expected_function(&reply), "{:?}", reply);
        assert_eq!(extract_choice(&reply), expected_choice(&reply), "{:?}", reply);
        let name = expected_name(&reply);
        assert_eq!(can_extract_name(&reply), name.is_some(), "{:?}", reply);
        if let Some(name) = name {
            assert_eq!(extract_name(reply.clone()), name, "{:?}", reply);
        }
    }
}

#[test]
fn texts_are_handled_as_std_handles_them() {
    let words = ["a", "b", "ab", " ", "\n", "\r", "\r\n", "\t", "\u{a0}", "\u{e9}", "aa"];
    let patterns = ["", "a", "ab", "\n", "aa", " ", "b\n", "\u{e9}"];
    let mut numbers = Numbers(11);
    for _ in 0..4000 {
        let s = text_from(&mut numbers, &words, 8);
        let p = patterns[numbers.next(patterns.len())];
        let t = words[numbers.next(words.len())];
        let chars = chars_of(&s);
        let expected_lines: Vec<String> = s.lines().map(|l| l.to_string()).collect();
        let found_lines: Vec<String> = lines(&chars).iter().map(string_of).collect();
        assert_eq!(found_lines, expected_lines, "lines of {:?}", s);
        assert_eq!(string_of(&trim(&chars)), s.trim(), "trim of {:?}", s);
        assert_eq!(
            string_of(&replace(&chars, &chars_of(p), &chars_of(t))),
            s.replace(p, t),
            "replace {:?} by {:?} in {:?}",
            p,
            t,
            s
        );
        let at = find(&chars, &chars_of(p), 0);
        let expected_at = s.find(p).map(|i| s[..i].chars().count());
        assert_eq!(at, expected_at, "find {:?} in {:?}", p, s);
        if !p.is_empty() {
            let expected_parts: Vec<String> = s.split(p).map(|l| l.to_string()).collect();
            let found_parts: Vec<String> = split(&chars, &chars_of(p)).iter().map(string_of).collect();
            assert_eq!(found_parts, expected_parts, "split {:?} at {:?}", s, p);
        }
    }
}
