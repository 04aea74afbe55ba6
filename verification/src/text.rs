//! Text as sequences of characters: searching, trimming, splitting, joining
//! and replacing, each with a mathematical definition over `Seq<char>` and an
//! executable counterpart over `Vec<char>`.

use vstd::prelude::*;

verus! {

/// Whether `c` is white space: one of the characters with the Unicode
/// property `White_Space`. These are the controls from the tabulator to the
/// carriage return, the space, the next-line control, the no-break space,
/// the Ogham space mark, the spaces of fixed width, the line and the
/// paragraph separator, the narrow no-break space, the medium mathematical
/// space and the ideographic space.
pub open spec fn is_space(c: char) -> bool {
    let n = c as u32;
    ||| 0x09 <= n <= 0x0d
    ||| n == 0x20
    ||| n == 0x85
    ||| n == 0xa0
    ||| n == 0x1680
    ||| 0x2000 <= n <= 0x200a
    ||| n == 0x2028
    ||| n == 0x2029
    ||| n == 0x202f
    ||| n == 0x205f
    ||| n == 0x3000
}

/// Whether `c`, a character beyond ASCII, is an uppercase letter in the
/// sense of `char::is_uppercase`.
pub uninterp spec fn is_upper_beyond_ascii(c: char) -> bool;

/// Whether `c`, a character beyond ASCII, is a lowercase letter in the
/// sense of `char::is_lowercase`.
pub uninterp spec fn is_lower_beyond_ascii(c: char) -> bool;

/// Whether `c` is a character of ASCII.
pub open spec fn is_ascii(c: char) -> bool {
    (c as u32) < 0x80
}

/// Whether `c` is an uppercase letter: in ASCII one of `A` to `Z`, beyond
/// ASCII a character with the Unicode property `Uppercase`.
pub open spec fn is_upper(c: char) -> bool {
    if is_ascii(c) {
        0x41 <= (c as u32) <= 0x5a
    } else {
        is_upper_beyond_ascii(c)
    }
}

/// Whether `c` is a lowercase letter: in ASCII one of `a` to `z`, beyond
/// ASCII a character with the Unicode property `Lowercase`.
pub open spec fn is_lower(c: char) -> bool {
    if is_ascii(c) {
        0x61 <= (c as u32) <= 0x7a
    } else {
        is_lower_beyond_ascii(c)
    }
}

/// `char::is_whitespace` decides the Unicode `White_Space` property, which
/// holds of the characters that `is_space` lists and of no other.
pub assume_specification[ char::is_whitespace ](c: char) -> (b: bool)
    ensures
        b == is_space(c),
;

/// `char::is_uppercase` decides the Unicode `Uppercase` property. In ASCII
/// it holds of the letters `A` to `Z` and of nothing else; beyond ASCII the
/// property is a long table, so it is only given a name here.
pub assume_specification[ char::is_uppercase ](c: char) -> (b: bool)
    ensures
        b == if is_ascii(c) {
            0x41 <= (c as u32) <= 0x5a
        } else {
            is_upper_beyond_ascii(c)
        },
;

/// `char::is_lowercase` decides the Unicode `Lowercase` property. In ASCII
/// it holds of the letters `a` to `z` and of nothing else; beyond ASCII the
/// property is a long table, so it is only given a name here.
pub assume_specification[ char::is_lowercase ](c: char) -> (b: bool)
    ensures
        b == if is_ascii(c) {
            0x61 <= (c as u32) <= 0x7a
        } else {
            is_lower_beyond_ascii(c)
        },
;

/// `String::push` appends one character to the end of the string.
pub assume_specification[ String::push ](s: &mut String, c: char)
    ensures
        final(s)@ == old(s)@.push(c),
;

// ---------------------------------------------------------------------------
// Definitions
// ---------------------------------------------------------------------------

/// `pat` stands in `s` at index `i`.
pub open spec fn occurs_at(s: Seq<char>, pat: Seq<char>, i: int) -> bool {
    0 <= i && i + pat.len() <= s.len() && s.subrange(i, i + pat.len()) == pat
}

/// The least index at or after `from` at which `pat` stands in `s`.
pub open spec fn first_match(s: Seq<char>, pat: Seq<char>, from: int) -> Option<int>
    decreases s.len() - from,
{
    if from < 0 || from + pat.len() > s.len() {
        None
    } else if occurs_at(s, pat, from) {
        Some(from)
    } else if from >= s.len() {
        None
    } else {
        first_match(s, pat, from + 1)
    }
}

/// `pat` stands somewhere in `s`.
pub open spec fn has_match(s: Seq<char>, pat: Seq<char>) -> bool {
    first_match(s, pat, 0) is Some
}

/// `s` begins with `p`.
pub open spec fn has_prefix(s: Seq<char>, p: Seq<char>) -> bool {
    p.len() <= s.len() && s.take(p.len() as int) == p
}

/// `s` ends with `p`.
pub open spec fn has_suffix(s: Seq<char>, p: Seq<char>) -> bool {
    p.len() <= s.len() && s.skip(s.len() - p.len()) == p
}

/// `s` without the prefix `p`, or `s` itself where it does not begin with `p`.
pub open spec fn without_prefix(s: Seq<char>, p: Seq<char>) -> Seq<char> {
    if has_prefix(s, p) {
        s.skip(p.len() as int)
    } else {
        s
    }
}

/// `s` without the suffix `p`, or `s` itself where it does not end with `p`.
pub open spec fn without_suffix(s: Seq<char>, p: Seq<char>) -> Seq<char> {
    if has_suffix(s, p) {
        s.take(s.len() - p.len())
    } else {
        s
    }
}

/// The number of white-space characters at the start of `s`.
pub open spec fn leading_space(s: Seq<char>) -> nat
    decreases s.len(),
{
    if s.len() > 0 && is_space(s[0]) {
        1 + leading_space(s.drop_first())
    } else {
        0
    }
}

/// The number of white-space characters at the end of `s`.
pub open spec fn trailing_space(s: Seq<char>) -> nat
    decreases s.len(),
{
    if s.len() > 0 && is_space(s.last()) {
        1 + trailing_space(s.drop_last())
    } else {
        0
    }
}

/// The white space that `s` begins with.
pub open spec fn indentation_of(s: Seq<char>) -> Seq<char> {
    s.take(leading_space(s) as int)
}

/// `s` without the white space at its start.
pub open spec fn trimmed_start(s: Seq<char>) -> Seq<char> {
    s.skip(leading_space(s) as int)
}

/// `s` without the white space at its end.
pub open spec fn trimmed_end(s: Seq<char>) -> Seq<char> {
    s.take(s.len() - trailing_space(s))
}

/// `s` without the white space at either end.
pub open spec fn trimmed(s: Seq<char>) -> Seq<char> {
    trimmed_end(trimmed_start(s))
}

/// The parts of `s` between the occurrences of the separator `sep`, found
/// from left to right without overlap. There is always at least one part,
/// and with an empty separator `s` is its one part.
pub open spec fn pieces(s: Seq<char>, sep: Seq<char>) -> Seq<Seq<char>>
    decreases s.len(),
{
    match first_match(s, sep, 0) {
        Some(i) => if 0 <= i && 0 < sep.len() && i + sep.len() <= s.len() {
            seq![s.take(i)] + pieces(s.skip(i + sep.len()), sep)
        } else {
            seq![s]
        },
        None => seq![s],
    }
}

/// The one-character text that ends a line.
pub open spec fn newline() -> Seq<char> {
    seq!['\n']
}

/// `line` without one carriage return at its end.
pub open spec fn without_carriage_return(line: Seq<char>) -> Seq<char> {
    if line.len() > 0 && line.last() == '\r' {
        line.drop_last()
    } else {
        line
    }
}

/// The lines of `s`. A line ends with a line feed, which is dropped together
/// with a carriage return directly before it; the last line needs no line
/// feed, and an empty last line is no line.
pub open spec fn lines_of(s: Seq<char>) -> Seq<Seq<char>> {
    let parts = pieces(s, newline());
    let ended = parts.drop_last().map_values(|l: Seq<char>| without_carriage_return(l));
    if parts.last().len() == 0 {
        ended
    } else {
        ended.push(parts.last())
    }
}

/// The parts in order, with `sep` between each two neighbours.
pub open spec fn joined(parts: Seq<Seq<char>>, sep: Seq<char>) -> Seq<char>
    decreases parts.len(),
{
    if parts.len() == 0 {
        Seq::empty()
    } else if parts.len() == 1 {
        parts[0]
    } else {
        joined(parts.drop_last(), sep) + sep + parts.last()
    }
}

/// `s` with every occurrence of `from` replaced by `to`, the occurrences
/// found from left to right without overlap. An empty `from` occurs before
/// every character and at the end.
pub open spec fn replaced(s: Seq<char>, from: Seq<char>, to: Seq<char>) -> Seq<char>
    decreases s.len(),
{
    if from.len() == 0 {
        if s.len() == 0 {
            to
        } else {
            to + seq![s[0]] + replaced(s.skip(1), from, to)
        }
    } else {
        match first_match(s, from, 0) {
            Some(i) => if 0 <= i && i + from.len() <= s.len() {
                s.take(i) + to + replaced(s.skip(i + from.len()), from, to)
            } else {
                s
            },
            None => s,
        }
    }
}

/// The texts that a vector of character vectors holds.
pub open spec fn texts(parts: Seq<Vec<char>>) -> Seq<Seq<char>> {
    Seq::new(parts.len(), |i: int| parts[i]@)
}

// ---------------------------------------------------------------------------
// Facts
// ---------------------------------------------------------------------------

/// What `first_match` finds is an occurrence, and the first one from `from`;
/// where it finds nothing there is none.
pub proof fn lemma_first_match(s: Seq<char>, pat: Seq<char>, from: int)
    requires
        0 <= from,
    ensures
        match first_match(s, pat, from) {
            Some(i) => from <= i && occurs_at(s, pat, i) && forall|j: int|
                from <= j < i ==> !occurs_at(s, pat, j),
            None => forall|j: int| from <= j ==> !occurs_at(s, pat, j),
        },
    decreases s.len() - from,
{
    if from + pat.len() > s.len() {
    } else if occurs_at(s, pat, from) {
    } else if from >= s.len() {
        assert(s.subrange(from, from + pat.len()) =~= pat);
    } else {
        lemma_first_match(s, pat, from + 1);
    }
}

/// An index that satisfies the description of the first match is the first match.
pub proof fn lemma_first_match_is(s: Seq<char>, pat: Seq<char>, from: int, i: int)
    requires
        0 <= from <= i,
        occurs_at(s, pat, i),
        forall|j: int| from <= j < i ==> !occurs_at(s, pat, j),
    ensures
        first_match(s, pat, from) == Some(i),
    decreases i - from,
{
    if from < i {
        lemma_first_match_is(s, pat, from + 1, i);
    }
}

/// Searching the rest of a text is searching the text from that index on.
pub proof fn lemma_first_match_skip(s: Seq<char>, pat: Seq<char>, k: int, from: int)
    requires
        0 <= k <= s.len(),
        0 <= from,
    ensures
        first_match(s.skip(k), pat, from) == match first_match(s, pat, k + from) {
            Some(i) => Some(i - k),
            None => None,
        },
    decreases s.len() - k - from,
{
    let t = s.skip(k);
    if from + pat.len() > t.len() {
    } else {
        assert(t.subrange(from, from + pat.len()) =~= s.subrange(
            k + from,
            k + from + pat.len(),
        ));
        if occurs_at(t, pat, from) {
        } else if from >= t.len() {
        } else {
            lemma_first_match_skip(s, pat, k, from + 1);
        }
    }
}

/// A run of white space at the start that ends before a character that is
/// none, or at the end of the text, is the whole leading white space.
pub proof fn lemma_leading_space_is(s: Seq<char>, n: int)
    requires
        0 <= n <= s.len(),
        forall|i: int| 0 <= i < n ==> is_space(#[trigger] s[i]),
        n < s.len() ==> !is_space(s[n]),
    ensures
        leading_space(s) == n,
    decreases n,
{
    if n > 0 {
        let t = s.drop_first();
        assert forall|i: int| 0 <= i < n - 1 implies is_space(#[trigger] t[i]) by {
            assert(t[i] == s[i + 1]);
        }
        lemma_leading_space_is(t, n - 1);
    }
}

/// A run of white space at the end that begins after a character that is
/// none, or at the start of the text, is the whole trailing white space.
pub proof fn lemma_trailing_space_is(s: Seq<char>, n: int)
    requires
        0 <= n <= s.len(),
        forall|i: int| s.len() - n <= i < s.len() ==> is_space(#[trigger] s[i]),
        n < s.len() ==> !is_space(s[s.len() - n - 1]),
    ensures
        trailing_space(s) == n,
    decreases n,
{
    if n > 0 {
        let t = s.drop_last();
        assert forall|i: int| t.len() - (n - 1) <= i < t.len() implies is_space(
            #[trigger] t[i],
        ) by {
            assert(t[i] == s[i]);
        }
        lemma_trailing_space_is(t, n - 1);
    }
}

/// Joining one more part appends the separator and the part, unless the part is the first.
pub proof fn lemma_joined_push(parts: Seq<Seq<char>>, sep: Seq<char>, last: Seq<char>)
    ensures
        joined(parts.push(last), sep) == if parts.len() == 0 {
            last
        } else {
            joined(parts, sep) + sep + last
        },
{
    let all = parts.push(last);
    assert(all.drop_last() =~= parts);
    assert(all.last() == last);
    if parts.len() == 0 {
        assert(all[0] == last);
    }
}

// ---------------------------------------------------------------------------
// Executable counterparts
// ---------------------------------------------------------------------------

/// The characters of `s`.
pub fn chars_of(s: &str) -> (v: Vec<char>)
    ensures
        v@ == s@,
{
    let mut v: Vec<char> = Vec::new();
    let it = s.chars();
    for c in iter: it
        invariant
            v@ == s@.take(iter.index() as int),
            iter.seq() == s@,
    {
        v.push(c);
    }
    v
}

/// The string made of the characters `v`.
pub fn string_of(v: &Vec<char>) -> (s: String)
    ensures
        s@ == v@,
{
    let mut s = String::new();
    let mut i: usize = 0;
    while i < v.len()
        invariant
            i <= v.len(),
            s@ == v@.take(i as int),
        decreases v.len() - i,
    {
        s.push(v[i]);
        i += 1;
    }
    s
}

/// The characters of `v` from index `a` up to index `b`.
pub fn slice_of(v: &Vec<char>, a: usize, b: usize) -> (r: Vec<char>)
    requires
        a <= b <= v.len(),
    ensures
        r@ == v@.subrange(a as int, b as int),
{
    let mut r: Vec<char> = Vec::new();
    let mut i: usize = a;
    while i < b
        invariant
            a <= i <= b <= v.len(),
            r@ == v@.subrange(a as int, i as int),
        decreases b - i,
    {
        r.push(v[i]);
        i += 1;
    }
    r
}

/// Appends the characters `more` to `out`.
pub fn append(out: &mut Vec<char>, more: &Vec<char>)
    ensures
        final(out)@ == old(out)@ + more@,
{
    let mut i: usize = 0;
    while i < more.len()
        invariant
            i <= more.len(),
            out@ == old(out)@ + more@.take(i as int),
        decreases more.len() - i,
    {
        out.push(more[i]);
        i += 1;
    }
}

/// Whether two texts hold the same characters.
pub fn same(a: &Vec<char>, b: &Vec<char>) -> (r: bool)
    ensures
        r == (a@ == b@),
{
    if a.len() != b.len() {
        return false;
    }
    let mut i: usize = 0;
    while i < a.len()
        invariant
            i <= a.len(),
            a.len() == b.len(),
            a@.take(i as int) == b@.take(i as int),
        decreases a.len() - i,
    {
        if a[i] != b[i] {
            return false;
        }
        assert(a@.take(i + 1) =~= a@.take(i as int).push(a@[i as int]));
        assert(b@.take(i + 1) =~= b@.take(i as int).push(b@[i as int]));
        i += 1;
    }
    assert(a@ =~= a@.take(a.len() as int));
    assert(b@ =~= b@.take(b.len() as int));
    true
}

/// Whether `pat` stands in `s` at index `i`.
pub fn matches_at(s: &Vec<char>, pat: &Vec<char>, i: usize) -> (r: bool)
    ensures
        r == occurs_at(s@, pat@, i as int),
{
    if pat.len() > s.len() || i > s.len() - pat.len() {
        return false;
    }
    let mut k: usize = 0;
    while k < pat.len()
        invariant
            k <= pat.len(),
            i + pat.len() <= s.len(),
            s@.subrange(i as int, i + k) == pat@.take(k as int),
        decreases pat.len() - k,
    {
        if s[i + k] != pat[k] {
            assert(s@.subrange(i as int, i + pat.len())[k as int] != pat@[k as int]);
            return false;
        }
        assert(s@.subrange(i as int, i + k + 1) =~= s@.subrange(i as int, i + k).push(
            s@[i + k],
        ));
        assert(pat@.take(k + 1) =~= pat@.take(k as int).push(pat@[k as int]));
        k += 1;
    }
    assert(pat@ =~= pat@.take(pat.len() as int));
    true
}

/// The first index at or after `from` at which `pat` stands in `s`.
pub fn find(s: &Vec<char>, pat: &Vec<char>, from: usize) -> (r: Option<usize>)
    ensures
        r matches Some(i) ==> first_match(s@, pat@, from as int) == Some(i as int),
        r is None ==> first_match(s@, pat@, from as int) is None,
{
    if pat.len() > s.len() {
        return None;
    }
    let last = s.len() - pat.len();
    let mut i: usize = from;
    while i <= last
        invariant
            from <= i,
            last == s.len() - pat.len(),
            first_match(s@, pat@, from as int) == first_match(s@, pat@, i as int),
        decreases last - i,
    {
        if matches_at(s, pat, i) {
            return Some(i);
        }
        if i == last {
            assert(first_match(s@, pat@, i + 1) is None);
            return None;
        }
        i += 1;
    }
    None
}

/// Whether `pat` stands somewhere in `s`.
pub fn contains(s: &Vec<char>, pat: &Vec<char>) -> (r: bool)
    ensures
        r == has_match(s@, pat@),
{
    find(s, pat, 0).is_some()
}

/// Whether `s` begins with `p`.
pub fn starts_with(s: &Vec<char>, p: &Vec<char>) -> (r: bool)
    ensures
        r == has_prefix(s@, p@),
{
    let r = matches_at(s, p, 0);
    assert(s@.take(p@.len() as int) =~= s@.subrange(0, 0 + p@.len() as int));
    r
}

/// Whether `s` ends with `p`.
pub fn ends_with(s: &Vec<char>, p: &Vec<char>) -> (r: bool)
    ensures
        r == has_suffix(s@, p@),
{
    if p.len() > s.len() {
        return false;
    }
    let at = s.len() - p.len();
    let r = matches_at(s, p, at);
    assert(s@.skip(at as int) =~= s@.subrange(at as int, at + p@.len()));
    r
}

/// `s` without the prefix `p`, or a copy of `s` where it does not begin with `p`.
pub fn strip_prefix(s: &Vec<char>, p: &Vec<char>) -> (r: Vec<char>)
    ensures
        r@ == without_prefix(s@, p@),
{
    if starts_with(s, p) {
        slice_of(s, p.len(), s.len())
    } else {
        slice_of(s, 0, s.len())
    }
}

/// `s` without the suffix `p`, or a copy of `s` where it does not end with `p`.
pub fn strip_suffix(s: &Vec<char>, p: &Vec<char>) -> (r: Vec<char>)
    ensures
        r@ == without_suffix(s@, p@),
{
    if ends_with(s, p) {
        slice_of(s, 0, s.len() - p.len())
    } else {
        slice_of(s, 0, s.len())
    }
}

/// The number of white-space characters that `s` begins with.
pub fn count_leading_space(s: &Vec<char>) -> (n: usize)
    ensures
        n == leading_space(s@),
        n <= s.len(),
{
    let mut n: usize = 0;
    while n < s.len() && s[n].is_whitespace()
        invariant
            n <= s.len(),
            forall|i: int| 0 <= i < n ==> is_space(#[trigger] s@[i]),
        decreases s.len() - n,
    {
        n += 1;
    }
    proof {
        lemma_leading_space_is(s@, n as int);
    }
    n
}

/// The number of white-space characters that `s` ends with.
pub fn count_trailing_space(s: &Vec<char>) -> (n: usize)
    ensures
        n == trailing_space(s@),
        n <= s.len(),
{
    let mut n: usize = 0;
    while n < s.len() && s[s.len() - n - 1].is_whitespace()
        invariant
            n <= s.len(),
            forall|i: int| s.len() - n <= i < s.len() ==> is_space(#[trigger] s@[i]),
        decreases s.len() - n,
    {
        n += 1;
    }
    proof {
        lemma_trailing_space_is(s@, n as int);
    }
    n
}

/// The white space that `s` begins with.
pub fn indentation(s: &Vec<char>) -> (r: Vec<char>)
    ensures
        r@ == indentation_of(s@),
{
    let n = count_leading_space(s);
    slice_of(s, 0, n)
}

/// `s` without the white space at its end.
pub fn trim_end(s: &Vec<char>) -> (r: Vec<char>)
    ensures
        r@ == trimmed_end(s@),
{
    let b = count_trailing_space(s);
    slice_of(s, 0, s.len() - b)
}

/// `s` without the white space at either end.
pub fn trim(s: &Vec<char>) -> (r: Vec<char>)
    ensures
        r@ == trimmed(s@),
{
    let a = count_leading_space(s);
    let rest = slice_of(s, a, s.len());
    let b = count_trailing_space(&rest);
    let r = slice_of(&rest, 0, rest.len() - b);
    assert(rest@ =~= trimmed_start(s@));
    r
}

/// The parts of `s` between the occurrences of `sep`; `s` as its one part
/// where `sep` is empty.
pub fn split(s: &Vec<char>, sep: &Vec<char>) -> (parts: Vec<Vec<char>>)
    ensures
        texts(parts@) == pieces(s@, sep@),
{
    let mut parts: Vec<Vec<char>> = Vec::new();
    if sep.len() == 0 {
        let whole = slice_of(s, 0, s.len());
        assert(whole@ =~= s@);
        parts.push(whole);
        assert(texts(parts@) =~= seq![s@]);
        return parts;
    }
    let mut pos: usize = 0;
    assert(s@.skip(0) =~= s@);
    assert(texts(parts@) + pieces(s@, sep@) =~= pieces(s@, sep@));
    loop
        invariant_except_break
            pieces(s@, sep@) == texts(parts@) + pieces(s@.skip(pos as int), sep@),
        invariant
            pos <= s.len(),
            sep@.len() > 0,
        ensures
            texts(parts@) == pieces(s@, sep@),
        decreases s.len() - pos,
    {
        let ghost before = texts(parts@);
        let ghost rest = s@.skip(pos as int);
        proof {
            lemma_first_match(s@, sep@, pos as int);
            lemma_first_match_skip(s@, sep@, pos as int, 0);
        }
        match find(s, sep, pos) {
            Some(i) => {
                let part = slice_of(s, pos, i);
                parts.push(part);
                proof {
                    assert(rest.take(i - pos) =~= s@.subrange(pos as int, i as int));
                    assert(rest.skip(i - pos + sep@.len()) =~= s@.skip(i + sep@.len()));
                    assert(texts(parts@) =~= before + seq![rest.take(i - pos)]);
                }
                pos = i + sep.len();
            },
            None => {
                let part = slice_of(s, pos, s.len());
                parts.push(part);
                proof {
                    assert(rest =~= s@.subrange(pos as int, s.len() as int));
                    assert(texts(parts@) =~= before + seq![rest]);
                }
                break ;
            },
        }
    }
    parts
}

/// The lines of `s`.
pub fn lines(s: &Vec<char>) -> (r: Vec<Vec<char>>)
    ensures
        texts(r@) == lines_of(s@),
{
    let mut sep: Vec<char> = Vec::new();
    sep.push('\n');
    assert(sep@ =~= newline());
    let parts = split(s, &sep);
    proof {
        lemma_pieces_nonempty(s@, sep@);
    }
    let mut r: Vec<Vec<char>> = Vec::new();
    let n = parts.len();
    let ghost all = texts(parts@);
    let ghost ended = all.drop_last().map_values(|l: Seq<char>| without_carriage_return(l));
    let mut i: usize = 0;
    while i + 1 < n
        invariant
            n == parts.len(),
            n >= 1,
            i + 1 <= n,
            all == texts(parts@),
            ended == all.drop_last().map_values(|l: Seq<char>| without_carriage_return(l)),
            texts(r@) == ended.take(i as int),
        decreases n - i,
    {
        let ghost before = texts(r@);
        let line = &parts[i];
        let len = line.len();
        let kept = if len > 0 && line[len - 1] == '\r' {
            slice_of(line, 0, len - 1)
        } else {
            slice_of(line, 0, len)
        };
        proof {
            assert(all[i as int] == line@);
            assert(kept@ =~= without_carriage_return(line@));
            assert(ended[i as int] == without_carriage_return(all.drop_last()[i as int]));
        }
        r.push(kept);
        proof {
            assert(texts(r@) =~= before.push(kept@));
            assert(ended.take(i + 1) =~= ended.take(i as int).push(ended[i as int]));
        }
        i += 1;
    }
    assert(ended.take(i as int) =~= ended);
    let last = &parts[n - 1];
    assert(all.last() == last@);
    if last.len() > 0 {
        let ghost before = texts(r@);
        let kept = slice_of(last, 0, last.len());
        assert(kept@ =~= last@);
        r.push(kept);
        assert(texts(r@) =~= before.push(last@));
    }
    r
}

/// A text always splits into at least one part.
pub proof fn lemma_pieces_nonempty(s: Seq<char>, sep: Seq<char>)
    ensures
        pieces(s, sep).len() >= 1,
    decreases s.len(),
{
    match first_match(s, sep, 0) {
        Some(i) => {
            if 0 <= i && 0 < sep.len() && i + sep.len() <= s.len() {
                lemma_pieces_nonempty(s.skip(i + sep.len()), sep);
            }
        },
        None => {},
    }
}

/// The parts in order, with `sep` between each two neighbours.
pub fn join(parts: &Vec<Vec<char>>, sep: &Vec<char>) -> (r: Vec<char>)
    ensures
        r@ == joined(texts(parts@), sep@),
{
    let mut r: Vec<char> = Vec::new();
    let ghost all = texts(parts@);
    let mut i: usize = 0;
    while i < parts.len()
        invariant
            i <= parts.len(),
            all == texts(parts@),
            r@ == joined(all.take(i as int), sep@),
        decreases parts.len() - i,
    {
        proof {
            lemma_joined_push(all.take(i as int), sep@, all[i as int]);
            assert(all.take(i + 1) =~= all.take(i as int).push(all[i as int]));
            assert(all[i as int] == parts@[i as int]@);
        }
        if i > 0 {
            append(&mut r, sep);
        }
        append(&mut r, &parts[i]);
        i += 1;
    }
    assert(all.take(i as int) =~= all);
    r
}

/// `s` with every occurrence of `from` replaced by `to`.
pub fn replace(s: &Vec<char>, from: &Vec<char>, to: &Vec<char>) -> (r: Vec<char>)
    ensures
        r@ == replaced(s@, from@, to@),
{
    let mut r: Vec<char> = Vec::new();
    let mut pos: usize = 0;
    assert(s@.skip(0) =~= s@);
    assert(r@ + replaced(s@, from@, to@) =~= replaced(s@, from@, to@));
    if from.len() == 0 {
        while pos < s.len()
            invariant
                pos <= s.len(),
                from@.len() == 0,
                replaced(s@, from@, to@) == r@ + replaced(s@.skip(pos as int), from@, to@),
            decreases s.len() - pos,
        {
            let ghost rest = s@.skip(pos as int);
            append(&mut r, to);
            r.push(s[pos]);
            proof {
                assert(rest.skip(1) =~= s@.skip(pos + 1));
                assert(rest[0] == s@[pos as int]);
            }
            pos += 1;
        }
        append(&mut r, to);
        return r;
    }
    loop
        invariant_except_break
            replaced(s@, from@, to@) == r@ + replaced(s@.skip(pos as int), from@, to@),
        invariant
            pos <= s.len(),
            from@.len() > 0,
        ensures
            r@ == replaced(s@, from@, to@),
        decreases s.len() - pos,
    {
        let ghost rest = s@.skip(pos as int);
        proof {
            lemma_first_match(s@, from@, pos as int);
            lemma_first_match_skip(s@, from@, pos as int, 0);
        }
        match find(s, from, pos) {
            Some(i) => {
                let part = slice_of(s, pos, i);
                append(&mut r, &part);
                append(&mut r, to);
                proof {
                    assert(rest.take(i - pos) =~= s@.subrange(pos as int, i as int));
                    assert(rest.skip(i - pos + from@.len()) =~= s@.skip(i + from@.len()));
                }
                pos = i + from.len();
            },
            None => {
                let part = slice_of(s, pos, s.len());
                append(&mut r, &part);
                proof {
                    assert(rest =~= s@.subrange(pos as int, s.len() as int));
                    assert(replaced(rest, from@, to@) == rest);
                }
                break ;
            },
        }
    }
    r
}

/// The strings in order, a line feed between each two neighbours.
pub fn join_lines(parts: &[String]) -> (r: Vec<char>)
    ensures
        r@ == joined(parts.deep_view(), newline()),
{
    let ghost all = parts.deep_view();
    let mut r: Vec<char> = Vec::new();
    let mut i: usize = 0;
    while i < parts.len()
        invariant
            i <= parts.len(),
            all == parts.deep_view(),
            r@ == joined(all.take(i as int), newline()),
        decreases parts.len() - i,
    {
        proof {
            lemma_joined_push(all.take(i as int), newline(), all[i as int]);
            assert(all.take(i + 1) =~= all.take(i as int).push(all[i as int]));
            assert(all[i as int] == parts@[i as int]@);
        }
        if i > 0 {
            r.push('\n');
            assert(r@ =~= joined(all.take(i as int), newline()) + newline());
        }
        append(&mut r, &chars_of(parts[i].as_str()));
        i += 1;
    }
    assert(all.take(i as int) =~= all);
    r
}

/// The strings in order, a line feed between each two neighbours.
pub fn join_strings(parts: &Vec<String>) -> (r: Vec<char>)
    ensures
        r@ == joined(parts.deep_view(), newline()),
{
    let items = parts.as_slice();
    assert(items.deep_view() =~= parts.deep_view());
    join_lines(items)
}

/// Joining one part before others puts the part and the separator before them.
pub proof fn lemma_joined_first(first: Seq<char>, rest: Seq<Seq<char>>, sep: Seq<char>)
    requires
        rest.len() > 0,
    ensures
        joined(seq![first] + rest, sep) == first + sep + joined(rest, sep),
    decreases rest.len(),
{
    let all = seq![first] + rest;
    assert(all.last() == rest.last());
    if rest.len() == 1 {
        assert(all.drop_last() =~= seq![first]);
        assert(seq![first][0] == first);
        assert(joined(seq![first], sep) == first);
        assert(rest[0] == rest.last());
        assert(joined(all, sep) =~= first + sep + joined(rest, sep));
    } else {
        assert(all.drop_last() =~= seq![first] + rest.drop_last());
        lemma_joined_first(first, rest.drop_last(), sep);
        assert(joined(all, sep) =~= first + sep + joined(rest, sep));
    }
}

/// The parts of a text, joined by the separator again, are the text.
pub proof fn law_joined_pieces(s: Seq<char>, sep: Seq<char>)
    ensures
        joined(pieces(s, sep), sep) == s,
    decreases s.len(),
{
    lemma_first_match(s, sep, 0);
    match first_match(s, sep, 0) {
        Some(i) => {
            if 0 <= i && 0 < sep.len() && i + sep.len() <= s.len() {
                let rest = s.skip(i + sep.len());
                law_joined_pieces(rest, sep);
                lemma_pieces_nonempty(rest, sep);
                lemma_joined_first(s.take(i), pieces(rest, sep), sep);
                assert(s.subrange(i, i + sep.len()) == sep);
                assert(s.take(i) + sep + rest =~= s);
            }
        },
        None => {},
    }
}

} // verus!
