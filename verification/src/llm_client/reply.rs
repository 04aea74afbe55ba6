//! What a reply of the model says: a name, a block of code, a list of
//! signatures, a function, a choice between two candidates.

use crate::text::{
    append, chars_of, contains, find, first_match, has_match, has_prefix, lemma_first_match,
    lemma_first_match_skip, lines, lines_of, newline, occurs_at, pieces, replace, replaced,
    slice_of, split, starts_with, string_of, strip_prefix, strip_suffix, texts, trim, trimmed,
    without_prefix, without_suffix,
};
use vstd::prelude::*;
use vstd::utf8::encode_utf8;

verus! {

/// How the first of two candidates stands to the second.
#[derive(Clone, Copy, Debug, PartialEq, Eq, Structural)]
pub enum Comparison {
    /// The second candidate is the better one.
    Less,
    /// Neither is preferred.
    Equal,
    /// The first candidate is the better one.
    Greater,
}

// ---------------------------------------------------------------------------
// Names
// ---------------------------------------------------------------------------

/// The mark that encloses a name or a signature in a reply.
pub open spec fn tick() -> Seq<char> {
    seq!['`']
}

/// The text between the first and the second tick of `s`, with the index
/// behind the second tick.
pub open spec fn first_quoted(s: Seq<char>) -> Option<(Seq<char>, int)> {
    match first_match(s, tick(), 0) {
        Some(i) => {
            let rest = s.skip(i + 1);
            match first_match(rest, tick(), 0) {
                Some(j) => Some((rest.take(j), i + 1 + j + 1)),
                None => None,
            }
        },
        None => None,
    }
}

/// A reply names something unless it opens a tick and never closes it.
pub open spec fn names_something(reply: Seq<char>) -> bool {
    first_match(reply, tick(), 0) is Some ==> first_quoted(reply) is Some
}

/// The name that a reply gives: the text between its first two ticks, or the
/// whole reply where it holds no tick.
pub open spec fn name_in(reply: Seq<char>) -> Seq<char> {
    match first_quoted(reply) {
        Some((name, _)) => name,
        None => reply,
    }
}

/// The name that a reply gives for a constant: spaces become underscores.
pub open spec fn constant_name_in(reply: Seq<char>) -> Seq<char> {
    replaced(name_in(reply), seq![' '], seq!['_'])
}

fn tick_mark() -> (t: Vec<char>)
    ensures
        t@ == tick(),
{
    let mut t: Vec<char> = Vec::new();
    t.push('`');
    assert(t@ =~= tick());
    t
}

/// The bounds of the text between the first two ticks at or after `from`.
fn quoted(s: &Vec<char>, from: usize) -> (r: Option<(usize, usize)>)
    requires
        from <= s.len(),
    ensures
        match r {
            Some((a, b)) => from < a <= b < s.len() && first_quoted(s@.skip(from as int)) == Some(
                (s@.subrange(a as int, b as int), b + 1 - from),
            ),
            None => first_quoted(s@.skip(from as int)) is None,
        },
        first_match(s@.skip(from as int), tick(), 0) is Some <==> first_match(
            s@,
            tick(),
            from as int,
        ) is Some,
{
    let t = tick_mark();
    let ghost tail = s@.skip(from as int);
    proof {
        lemma_first_match(s@, t@, from as int);
        lemma_first_match_skip(s@, t@, from as int, 0);
    }
    match find(s, &t, from) {
        Some(i) => {
            let ghost rest = tail.skip(i - from + 1);
            proof {
                assert(rest =~= s@.skip(i + 1));
                lemma_first_match(s@, t@, i + 1);
                lemma_first_match_skip(s@, t@, i + 1, 0);
            }
            match find(s, &t, i + 1) {
                Some(j) => {
                    proof {
                        assert(rest.take(j - (i + 1)) =~= s@.subrange(i + 1, j as int));
                    }
                    Some((i + 1, j))
                },
                None => None,
            }
        },
        None => None,
    }
}

/// Whether `extract_name` can read the reply.
pub fn can_extract_name(result: &str) -> (r: bool)
    ensures
        r == names_something(result@),
{
    let text = chars_of(result);
    let t = tick_mark();
    assert(text@.skip(0) =~= text@);
    let first = find(&text, &t, 0);
    let q = quoted(&text, 0);
    first.is_none() || q.is_some()
}

/// The name that a reply gives.
pub fn extract_name(result: String) -> (name: String)
    requires
        names_something(result@),
    ensures
        name@ == name_in(result@),
{
    let text = chars_of(result.as_str());
    assert(text@.skip(0) =~= text@);
    match quoted(&text, 0) {
        Some((a, b)) => string_of(&slice_of(&text, a, b)),
        None => result,
    }
}

/// The name that a reply gives for a constant.
pub fn extract_constant_name(result: String) -> (name: String)
    requires
        names_something(result@),
    ensures
        name@ == constant_name_in(result@),
{
    let name = extract_name(result);
    let mut space: Vec<char> = Vec::new();
    space.push(' ');
    let mut underscore: Vec<char> = Vec::new();
    underscore.push('_');
    assert(space@ =~= seq![' ']);
    assert(underscore@ =~= seq!['_']);
    string_of(&replace(&chars_of(name.as_str()), &space, &underscore))
}

// ---------------------------------------------------------------------------
// Code blocks
// ---------------------------------------------------------------------------

/// The line that opens a block of code and names the language.
pub open spec fn fence_tagged() -> Seq<char> {
    "```rust\n"@
}

/// The line that opens a block of code without naming a language.
pub open spec fn fence_plain() -> Seq<char> {
    "```\n"@
}

/// The end of a block of code.
pub open spec fn fence_close() -> Seq<char> {
    "\n```"@
}

/// The index behind the opening fence that ends first in `s`.
pub open spec fn block_start(s: Seq<char>) -> Option<int> {
    match (first_match(s, fence_tagged(), 0), first_match(s, fence_plain(), 0)) {
        (Some(a), Some(b)) => if a + fence_tagged().len() <= b + fence_plain().len() {
            Some(a + fence_tagged().len())
        } else {
            Some(b + fence_plain().len())
        },
        (Some(a), None) => Some(a + fence_tagged().len()),
        (None, Some(b)) => Some(b + fence_plain().len()),
        (None, None) => None,
    }
}

/// The fenced blocks of `s` in order: each runs from behind an opening fence
/// to the next closing fence, and the search goes on behind that.
pub open spec fn fenced_blocks(s: Seq<char>) -> Seq<Seq<char>>
    decreases s.len(),
{
    match block_start(s) {
        Some(i) => if 0 < i <= s.len() {
            let rest = s.skip(i);
            match first_match(rest, fence_close(), 0) {
                Some(j) => if 0 <= j && j + fence_close().len() <= rest.len() {
                    seq![rest.take(j)] + fenced_blocks(rest.skip(j + fence_close().len()))
                } else {
                    Seq::empty()
                },
                None => Seq::empty(),
            }
        } else {
            Seq::empty()
        },
        None => Seq::empty(),
    }
}

/// `line` begins with one of the prefixes.
pub open spec fn line_has_prefix(line: Seq<char>, prefixes: Seq<Seq<char>>) -> bool {
    exists|k: int| 0 <= k < prefixes.len() && has_prefix(line, #[trigger] prefixes[k])
}

/// Some line of `block` begins with one of the prefixes.
pub open spec fn is_wanted(block: Seq<char>, prefixes: Seq<Seq<char>>) -> bool {
    exists|l: int|
        0 <= l < lines_of(block).len() && line_has_prefix(#[trigger] lines_of(block)[l], prefixes)
}

/// The length of a text in bytes of UTF-8.
pub open spec fn byte_len(s: Seq<char>) -> usize {
    encode_utf8(s).len() as usize
}

/// The longest of the wanted blocks, by bytes; of several longest ones the last.
pub open spec fn longest_wanted(blocks: Seq<Seq<char>>, prefixes: Seq<Seq<char>>) -> Option<
    Seq<char>,
>
    decreases blocks.len(),
{
    if blocks.len() == 0 {
        None
    } else {
        let earlier = longest_wanted(blocks.drop_last(), prefixes);
        let block = blocks.last();
        if !is_wanted(block, prefixes) {
            earlier
        } else {
            match earlier {
                Some(e) => if byte_len(e) > byte_len(block) {
                    earlier
                } else {
                    Some(block)
                },
                None => Some(block),
            }
        }
    }
}

/// The code that a reply holds for the given prefixes: the longest wanted
/// block; or the reply itself, where it holds no fenced block and begins
/// with one of the prefixes.
pub open spec fn code_in(reply: Seq<char>, prefixes: Seq<Seq<char>>) -> Option<Seq<char>> {
    if fenced_blocks(reply).len() == 0 {
        if line_has_prefix(reply, prefixes) {
            Some(reply)
        } else {
            None
        }
    } else {
        longest_wanted(fenced_blocks(reply), prefixes)
    }
}

/// The texts of a list of string slices.
pub open spec fn slice_texts(items: Seq<&str>) -> Seq<Seq<char>> {
    Seq::new(items.len(), |i: int| items[i]@)
}

fn blocks(s: &Vec<char>) -> (r: Vec<Vec<char>>)
    ensures
        texts(r@) == fenced_blocks(s@),
{
    let tagged = chars_of("```rust\n");
    let plain = chars_of("```\n");
    let close = chars_of("\n```");
    let mut r: Vec<Vec<char>> = Vec::new();
    let mut pos: usize = 0;
    assert(s@.skip(0) =~= s@);
    assert(texts(r@) + fenced_blocks(s@) =~= fenced_blocks(s@));
    loop
        invariant_except_break
            fenced_blocks(s@) == texts(r@) + fenced_blocks(s@.skip(pos as int)),
        invariant
            pos <= s.len(),
            tagged@ == fence_tagged(),
            plain@ == fence_plain(),
            close@ == fence_close(),
        ensures
            texts(r@) == fenced_blocks(s@),
        decreases s.len() - pos,
    {
        let ghost before = texts(r@);
        let ghost tail = s@.skip(pos as int);
        proof {
            lemma_first_match(s@, tagged@, pos as int);
            lemma_first_match_skip(s@, tagged@, pos as int, 0);
            lemma_first_match(s@, plain@, pos as int);
            lemma_first_match_skip(s@, plain@, pos as int, 0);
        }
        let start = match (find(s, &tagged, pos), find(s, &plain, pos)) {
            (Some(a), Some(b)) => if a + tagged.len() <= b + plain.len() {
                Some(a + tagged.len())
            } else {
                Some(b + plain.len())
            },
            (Some(a), None) => Some(a + tagged.len()),
            (None, Some(b)) => Some(b + plain.len()),
            (None, None) => None,
        };
        assert(match start {
            Some(i) => pos <= i <= s.len() && block_start(tail) == Some(i - pos),
            None => block_start(tail) is None,
        });
        let i = match start {
            Some(i) => i,
            None => {
                assert(texts(r@) + fenced_blocks(tail) =~= texts(r@));
                break ;
            },
        };
        if i == pos {
            assert(texts(r@) + fenced_blocks(tail) =~= texts(r@));
            break ;
        }
        let ghost rest = tail.skip(i - pos);
        proof {
            assert(rest =~= s@.skip(i as int));
            lemma_first_match(s@, close@, i as int);
            lemma_first_match_skip(s@, close@, i as int, 0);
        }
        match find(s, &close, i) {
            Some(j) => {
                let block = slice_of(s, i, j);
                r.push(block);
                proof {
                    assert(rest.take(j - i) =~= s@.subrange(i as int, j as int));
                    assert(rest.skip(j - i + close@.len()) =~= s@.skip(j + close@.len()));
                    assert(texts(r@) =~= before + seq![rest.take(j - i)]);
                }
                pos = j + close.len();
            },
            None => {
                assert(texts(r@) + fenced_blocks(tail) =~= texts(r@));
                break ;
            },
        }
    }
    r
}

fn line_starts(line: &Vec<char>, prefixes: &Vec<Vec<char>>) -> (r: bool)
    ensures
        r == line_has_prefix(line@, texts(prefixes@)),
{
    let mut k: usize = 0;
    while k < prefixes.len()
        invariant
            k <= prefixes.len(),
            forall|j: int| 0 <= j < k ==> !has_prefix(line@, #[trigger] texts(prefixes@)[j]),
        decreases prefixes.len() - k,
    {
        if starts_with(line, &prefixes[k]) {
            assert(texts(prefixes@)[k as int] == prefixes@[k as int]@);
            return true;
        }
        k += 1;
    }
    false
}

fn wanted(block: &Vec<char>, prefixes: &Vec<Vec<char>>) -> (r: bool)
    ensures
        r == is_wanted(block@, texts(prefixes@)),
{
    let ls = lines(block);
    let mut l: usize = 0;
    while l < ls.len()
        invariant
            l <= ls.len(),
            texts(ls@) == lines_of(block@),
            forall|j: int|
                0 <= j < l ==> !line_has_prefix(#[trigger] lines_of(block@)[j], texts(prefixes@)),
        decreases ls.len() - l,
    {
        if line_starts(&ls[l], prefixes) {
            assert(texts(ls@)[l as int] == ls@[l as int]@);
            return true;
        }
        assert(texts(ls@)[l as int] == ls@[l as int]@);
        l += 1;
    }
    false
}

fn byte_length(s: &Vec<char>) -> (n: usize)
    ensures
        n == byte_len(s@),
{
    let owned = string_of(s);
    owned.as_str().len()
}

fn select(found: &Vec<Vec<char>>, prefixes: &Vec<Vec<char>>) -> (r: Option<Vec<char>>)
    ensures
        match r {
            Some(b) => longest_wanted(texts(found@), texts(prefixes@)) == Some(b@),
            None => longest_wanted(texts(found@), texts(prefixes@)) is None,
        },
{
    let ghost all = texts(found@);
    let ghost wanted_prefixes = texts(prefixes@);
    let mut best: Option<usize> = None;
    let mut best_len: usize = 0;
    let mut i: usize = 0;
    while i < found.len()
        invariant
            i <= found.len(),
            all == texts(found@),
            wanted_prefixes == texts(prefixes@),
            match best {
                Some(k) => k < i && longest_wanted(all.take(i as int), wanted_prefixes) == Some(
                    all[k as int],
                ) && best_len == byte_len(all[k as int]),
                None => longest_wanted(all.take(i as int), wanted_prefixes) is None,
            },
        decreases found.len() - i,
    {
        proof {
            assert(all.take(i + 1).drop_last() =~= all.take(i as int));
            assert(all.take(i + 1).last() == all[i as int]);
            assert(all[i as int] == found@[i as int]@);
        }
        if wanted(&found[i], prefixes) {
            let len = byte_length(&found[i]);
            let keep = match best {
                Some(_) => best_len > len,
                None => false,
            };
            if !keep {
                best = Some(i);
                best_len = len;
            }
        }
        i += 1;
    }
    assert(all.take(i as int) =~= all);
    match best {
        Some(k) => {
            let b = slice_of(&found[k], 0, found[k].len());
            assert(b@ =~= found@[k as int]@);
            Some(b)
        },
        None => None,
    }
}

fn prefix_list(prefixes: &[&str]) -> (r: Vec<Vec<char>>)
    ensures
        texts(r@) == slice_texts(prefixes@),
{
    let mut r: Vec<Vec<char>> = Vec::new();
    let mut i: usize = 0;
    while i < prefixes.len()
        invariant
            i <= prefixes.len(),
            texts(r@) == slice_texts(prefixes@).take(i as int),
        decreases prefixes.len() - i,
    {
        let ghost before = texts(r@);
        r.push(chars_of(prefixes[i]));
        assert(texts(r@) =~= before.push(prefixes@[i as int]@));
        assert(slice_texts(prefixes@).take(i + 1) =~= slice_texts(prefixes@).take(i as int).push(
            prefixes@[i as int]@,
        ));
        i += 1;
    }
    assert(slice_texts(prefixes@).take(i as int) =~= slice_texts(prefixes@));
    r
}

pub(crate) fn code_of(text: &Vec<char>, prefixes: &Vec<Vec<char>>) -> (r: Option<Vec<char>>)
    ensures
        match r {
            Some(b) => code_in(text@, texts(prefixes@)) == Some(b@),
            None => code_in(text@, texts(prefixes@)) is None,
        },
{
    let found = blocks(text);
    assert(texts(found@).len() == found@.len());
    if found.len() == 0 {
        if line_starts(text, prefixes) {
            let whole = slice_of(text, 0, text.len());
            assert(whole@ =~= text@);
            Some(whole)
        } else {
            None
        }
    } else {
        select(&found, prefixes)
    }
}

/// The code that a reply holds: the longest fenced block one of whose lines
/// begins with one of `prefixes`; a reply without a fenced block that begins
/// with one of them is taken whole.
pub fn extract_code(result: &str, prefixes: &[&str]) -> (code: Option<String>)
    ensures
        code.deep_view() == code_in(result@, slice_texts(prefixes@)),
{
    let text = chars_of(result);
    let wanted_prefixes = prefix_list(prefixes);
    match code_of(&text, &wanted_prefixes) {
        Some(b) => Some(string_of(&b)),
        None => None,
    }
}

// ---------------------------------------------------------------------------
// Signatures
// ---------------------------------------------------------------------------

/// The modifier that a signature is stripped of.
pub open spec fn unsafe_modifier() -> Seq<char> {
    "unsafe "@
}

/// The mark that ends a signature in a reply.
pub open spec fn semicolon() -> Seq<char> {
    ";"@
}

/// The keyword that a signature begins with.
pub open spec fn fn_keyword() -> Seq<char> {
    "fn "@
}

/// A quoted signature without the white space around it, a leading `unsafe`
/// and a semicolon at its end.
pub open spec fn clean_signature(raw: Seq<char>) -> Seq<char> {
    let bare = trimmed(raw);
    let safe = trimmed(without_prefix(bare, unsafe_modifier()));
    trimmed(without_suffix(safe, semicolon()))
}

/// The signature on a line of the numbered list: the line begins with a digit
/// from 1 to 9 and a full stop, and the signature stands between its first two ticks.
pub open spec fn numbered_signature(line: Seq<char>) -> Option<Seq<char>> {
    if line.len() >= 2 && '1' <= line[0] && line[0] <= '9' && line[1] == '.' {
        match first_quoted(line) {
            Some((raw, _)) => Some(clean_signature(raw)),
            None => None,
        }
    } else {
        None
    }
}

/// The signatures of the numbered lines, in order.
pub open spec fn numbered_signatures(lines: Seq<Seq<char>>) -> Seq<Seq<char>>
    decreases lines.len(),
{
    if lines.len() == 0 {
        Seq::empty()
    } else {
        let earlier = numbered_signatures(lines.drop_last());
        match numbered_signature(lines.last()) {
            Some(sig) => earlier.push(sig),
            None => earlier,
        }
    }
}

/// The quoted texts of `s` that are signatures once cleaned, in order. Ticks
/// pair up from the left; an unpaired tick ends the search.
pub open spec fn quoted_signatures(s: Seq<char>) -> Seq<Seq<char>>
    decreases s.len(),
{
    match first_quoted(s) {
        Some((raw, next)) => if 0 < next <= s.len() {
            let sig = clean_signature(raw);
            let later = quoted_signatures(s.skip(next));
            if has_prefix(sig, fn_keyword()) {
                seq![sig] + later
            } else {
                later
            }
        } else {
            Seq::empty()
        },
        None => Seq::empty(),
    }
}

/// The candidate signatures of a reply: those of its numbered list, or,
/// where that gives none, its quoted signatures.
pub open spec fn signatures_in(reply: Seq<char>) -> Seq<Seq<char>> {
    let numbered = numbered_signatures(lines_of(reply));
    if numbered.len() > 0 {
        numbered
    } else {
        quoted_signatures(reply)
    }
}

fn clean(raw: &Vec<char>) -> (r: Vec<char>)
    ensures
        r@ == clean_signature(raw@),
{
    let bare = trim(raw);
    let safe = trim(&strip_prefix(&bare, &chars_of("unsafe ")));
    trim(&strip_suffix(&safe, &chars_of(";")))
}

fn numbered(line: &Vec<char>) -> (r: Option<Vec<char>>)
    ensures
        match r {
            Some(sig) => numbered_signature(line@) == Some(sig@),
            None => numbered_signature(line@) is None,
        },
{
    if line.len() >= 2 && line[0] >= '1' && line[0] <= '9' && line[1] == '.' {
        assert(line@.skip(0) =~= line@);
        match quoted(line, 0) {
            Some((a, b)) => Some(clean(&slice_of(line, a, b))),
            None => None,
        }
    } else {
        None
    }
}

fn numbered_list(text: &Vec<char>) -> (r: Vec<Vec<char>>)
    ensures
        texts(r@) == numbered_signatures(lines_of(text@)),
{
    let ls = lines(text);
    let ghost all = texts(ls@);
    let mut r: Vec<Vec<char>> = Vec::new();
    let mut i: usize = 0;
    while i < ls.len()
        invariant
            i <= ls.len(),
            all == texts(ls@),
            texts(r@) == numbered_signatures(all.take(i as int)),
        decreases ls.len() - i,
    {
        proof {
            assert(all.take(i + 1).drop_last() =~= all.take(i as int));
            assert(all.take(i + 1).last() == ls@[i as int]@);
        }
        let ghost before = texts(r@);
        match numbered(&ls[i]) {
            Some(sig) => {
                r.push(sig);
                assert(texts(r@) =~= before.push(sig@));
            },
            None => {},
        }
        i += 1;
    }
    assert(all.take(i as int) =~= all);
    r
}

fn quoted_list(s: &Vec<char>) -> (r: Vec<Vec<char>>)
    ensures
        texts(r@) == quoted_signatures(s@),
{
    let keyword = chars_of("fn ");
    let mut r: Vec<Vec<char>> = Vec::new();
    let mut pos: usize = 0;
    assert(s@.skip(0) =~= s@);
    assert(texts(r@) + quoted_signatures(s@) =~= quoted_signatures(s@));
    loop
        invariant_except_break
            quoted_signatures(s@) == texts(r@) + quoted_signatures(s@.skip(pos as int)),
        invariant
            pos <= s.len(),
            keyword@ == fn_keyword(),
        ensures
            texts(r@) == quoted_signatures(s@),
        decreases s.len() - pos,
    {
        let ghost before = texts(r@);
        let ghost tail = s@.skip(pos as int);
        match quoted(s, pos) {
            Some((a, b)) => {
                let sig = clean(&slice_of(s, a, b));
                proof {
                    assert(tail.skip(b + 1 - pos) =~= s@.skip(b + 1));
                }
                if starts_with(&sig, &keyword) {
                    r.push(sig);
                    assert(texts(r@) =~= before + seq![sig@]);
                }
                pos = b + 1;
            },
            None => {
                assert(texts(r@) + quoted_signatures(tail) =~= texts(r@));
                break ;
            },
        }
    }
    r
}

/// The strings that hold the given texts.
pub fn strings_of(items: &Vec<Vec<char>>) -> (r: Vec<String>)
    ensures
        r.deep_view() == texts(items@),
{
    let mut r: Vec<String> = Vec::new();
    let mut i: usize = 0;
    while i < items.len()
        invariant
            i <= items.len(),
            r.deep_view() == texts(items@).take(i as int),
        decreases items.len() - i,
    {
        let ghost before = r.deep_view();
        r.push(string_of(&items[i]));
        assert(r.deep_view() =~= before.push(items@[i as int]@));
        assert(texts(items@).take(i + 1) =~= texts(items@).take(i as int).push(
            items@[i as int]@,
        ));
        i += 1;
    }
    assert(texts(items@).take(i as int) =~= texts(items@));
    r
}

/// The first `n` of the signatures, or all of them where they are fewer.
pub open spec fn first_of(signatures: Seq<Seq<char>>, n: nat) -> Seq<Seq<char>> {
    if n < signatures.len() {
        signatures.take(n as int)
    } else {
        signatures
    }
}

/// The signatures cut at the count that was asked for.
pub fn first_signatures(signatures: &Vec<String>, n: usize) -> (r: Vec<String>)
    ensures
        r.deep_view() == first_of(signatures.deep_view(), n as nat),
{
    let ghost all = signatures.deep_view();
    let end = if n < signatures.len() {
        n
    } else {
        signatures.len()
    };
    let mut r: Vec<String> = Vec::new();
    let mut i: usize = 0;
    while i < end
        invariant
            i <= end <= signatures.len(),
            all == signatures.deep_view(),
            r.deep_view() == all.take(i as int),
        decreases end - i,
    {
        let ghost before = r.deep_view();
        r.push(signatures[i].clone());
        assert(r.deep_view() =~= before.push(signatures@[i as int]@));
        assert(all.take(i + 1) =~= all.take(i as int).push(signatures@[i as int]@));
        i += 1;
    }
    assert(all.take(all.len() as int) =~= all);
    r
}

/// The candidate signatures that a reply gives.
pub fn extract_signatures(result: &str) -> (sigs: Vec<String>)
    ensures
        sigs.deep_view() == signatures_in(result@),
{
    let text = chars_of(result);
    let listed = numbered_list(&text);
    if listed.len() > 0 {
        strings_of(&listed)
    } else {
        strings_of(&quoted_list(&text))
    }
}

// ---------------------------------------------------------------------------
// Functions
// ---------------------------------------------------------------------------

/// The start of a function that is marked `unsafe`.
pub open spec fn unsafe_fn_keyword() -> Seq<char> {
    "unsafe fn "@
}

/// The prefixes by which a block is taken for a function.
pub open spec fn function_prefixes() -> Seq<Seq<char>> {
    seq![fn_keyword(), unsafe_fn_keyword()]
}

/// `line` with a leading `unsafe fn` turned into `fn`.
pub open spec fn safe_line(line: Seq<char>) -> Seq<char> {
    if has_prefix(line, unsafe_fn_keyword()) {
        fn_keyword() + line.skip(unsafe_fn_keyword().len() as int)
    } else {
        line
    }
}

/// The parts, each made safe and followed by a line feed.
pub open spec fn safe_lines(parts: Seq<Seq<char>>) -> Seq<char>
    decreases parts.len(),
{
    if parts.len() == 0 {
        Seq::empty()
    } else {
        safe_lines(parts.drop_last()) + safe_line(parts.last()) + newline()
    }
}

/// The function that a reply holds: its code for the function prefixes, or
/// the whole reply where none of its blocks is wanted and it begins like a
/// function; every line made safe and ended with a line feed.
pub open spec fn function_in(reply: Seq<char>) -> Option<Seq<char>> {
    let code = match code_in(reply, function_prefixes()) {
        Some(c) => Some(c),
        None => if has_prefix(reply, fn_keyword()) || has_prefix(reply, unsafe_fn_keyword()) {
            Some(reply)
        } else {
            None
        },
    };
    match code {
        Some(c) => Some(safe_lines(pieces(c, newline()))),
        None => None,
    }
}

fn make_safe(code: &Vec<char>) -> (r: Vec<char>)
    ensures
        r@ == safe_lines(pieces(code@, newline())),
{
    let keyword = chars_of("fn ");
    let marked = chars_of("unsafe fn ");
    let mut sep: Vec<char> = Vec::new();
    sep.push('\n');
    assert(sep@ =~= newline());
    let parts = split(code, &sep);
    let ghost all = texts(parts@);
    let mut r: Vec<char> = Vec::new();
    let mut i: usize = 0;
    while i < parts.len()
        invariant
            i <= parts.len(),
            all == texts(parts@),
            keyword@ == fn_keyword(),
            marked@ == unsafe_fn_keyword(),
            sep@ == newline(),
            r@ == safe_lines(all.take(i as int)),
        decreases parts.len() - i,
    {
        proof {
            assert(all.take(i + 1).drop_last() =~= all.take(i as int));
            assert(all.take(i + 1).last() == parts@[i as int]@);
        }
        let line = &parts[i];
        if starts_with(line, &marked) {
            append(&mut r, &keyword);
            let rest = slice_of(line, marked.len(), line.len());
            assert(rest@ =~= line@.skip(marked@.len() as int));
            append(&mut r, &rest);
        } else {
            append(&mut r, line);
        }
        append(&mut r, &sep);
        i += 1;
    }
    assert(all.take(i as int) =~= all);
    r
}

/// The function that a reply holds.
pub fn extract_function(result: &str) -> (code: Option<String>)
    ensures
        code.deep_view() == function_in(result@),
{
    let text = chars_of(result);
    let keyword = chars_of("fn ");
    let marked = chars_of("unsafe fn ");
    let mut prefixes: Vec<Vec<char>> = Vec::new();
    prefixes.push(chars_of("fn "));
    prefixes.push(chars_of("unsafe fn "));
    assert(texts(prefixes@) =~= function_prefixes());
    let code = match code_of(&text, &prefixes) {
        Some(c) => Some(c),
        None => if starts_with(&text, &keyword) || starts_with(&text, &marked) {
            Some(slice_of(&text, 0, text.len()))
        } else {
            None
        },
    };
    match code {
        Some(c) => {
            assert(text@.subrange(0, text@.len() as int) =~= text@);
            Some(string_of(&make_safe(&c)))
        },
        None => None,
    }
}

// ---------------------------------------------------------------------------
// Choices
// ---------------------------------------------------------------------------

/// The words before the number of the chosen candidate.
pub open spec fn choice_marker() -> Seq<char> {
    "Choice: Implementation "@
}

/// The first `1` or `2` of `s`.
pub open spec fn first_one_or_two(s: Seq<char>) -> Option<char>
    decreases s.len(),
{
    if s.len() == 0 {
        None
    } else if s[0] == '1' || s[0] == '2' {
        Some(s[0])
    } else {
        first_one_or_two(s.drop_first())
    }
}

/// The choice that a reply states: the first `1` or `2` behind the marker
/// prefers the first or the second candidate; without either nothing is preferred.
pub open spec fn choice_in(reply: Seq<char>) -> Comparison {
    match first_match(reply, choice_marker(), 0) {
        Some(i) => match first_one_or_two(reply.skip(i + choice_marker().len())) {
            Some(c) => if c == '1' {
                Comparison::Greater
            } else {
                Comparison::Less
            },
            None => Comparison::Equal,
        },
        None => Comparison::Equal,
    }
}

/// The choice that a reply states.
pub fn extract_choice(result: &str) -> (choice: Comparison)
    ensures
        choice == choice_in(result@),
{
    let text = chars_of(result);
    let marker = chars_of("Choice: Implementation ");
    proof {
        lemma_first_match(text@, marker@, 0);
    }
    match find(&text, &marker, 0) {
        Some(i) => {
            assert(occurs_at(text@, marker@, i as int));
            let mut k: usize = i + marker.len();
            while k < text.len()
                invariant
                    i + marker@.len() <= k <= text.len(),
                    text@ == result@,
                    marker@ == choice_marker(),
                    first_match(text@, marker@, 0) == Some(i as int),
                    first_one_or_two(text@.skip(i + marker@.len())) == first_one_or_two(
                        text@.skip(k as int),
                    ),
                decreases text.len() - k,
            {
                let c = text[k];
                assert(text@.skip(k as int)[0] == c);
                if c == '1' {
                    return Comparison::Greater;
                }
                if c == '2' {
                    return Comparison::Less;
                }
                assert(text@.skip(k as int).drop_first() =~= text@.skip(k + 1));
                k += 1;
            }
            Comparison::Equal
        },
        None => Comparison::Equal,
    }
}

// ---------------------------------------------------------------------------
// Repairs
// ---------------------------------------------------------------------------

/// The start of an import.
pub open spec fn use_keyword() -> Seq<char> {
    "use "@
}

/// The start of a crate import of the old style.
pub open spec fn crate_import() -> Seq<char> {
    "extern crate "@
}

/// The heading of a manifest's list of dependencies.
pub open spec fn manifest_heading() -> Seq<char> {
    "[dependencies]"@
}

/// A repair is acceptable where it does not begin with an import, is a
/// function exactly where the snippet it repairs is one, and brings neither a
/// crate import nor a piece of a manifest.
pub open spec fn is_acceptable_repair(snippet: Seq<char>, repaired: Seq<char>) -> bool {
    &&& !has_prefix(repaired, use_keyword())
    &&& has_prefix(repaired, fn_keyword()) == has_prefix(snippet, fn_keyword())
    &&& !has_match(repaired, crate_import())
    &&& !has_match(repaired, manifest_heading())
}

pub(crate) fn acceptable(snippet: &Vec<char>, repaired: &Vec<char>) -> (r: bool)
    ensures
        r == is_acceptable_repair(snippet@, repaired@),
{
    let keyword = chars_of("fn ");
    let import = chars_of("extern crate ");
    !starts_with(repaired, &chars_of("use ")) && starts_with(repaired, &keyword) == starts_with(
        snippet,
        &keyword,
    ) && !contains(repaired, &import) && !contains(repaired, &chars_of("[dependencies]"))
}

/// Whether `repaired` is an acceptable repair of `snippet`.
pub fn accepts_repair(snippet: &str, repaired: &str) -> (r: bool)
    ensures
        r == is_acceptable_repair(snippet@, repaired@),
{
    acceptable(&chars_of(snippet), &chars_of(repaired))
}

} // verus!
