//! Comments put above the lines of a text.

use crate::text::{
    append, chars_of, indentation, indentation_of, newline, pieces, split, string_of, texts,
};
use std::collections::BTreeMap;
use vstd::prelude::*;

verus! {

broadcast use {vstd::std_specs::btree::group_btree_axioms, vstd::laws_cmp::group_laws_cmp};

/// The start of a comment.
pub const COMMENT: &'static str = "// ";

/// The comments, each on a line of its own behind the indentation `indent`.
pub open spec fn comment_lines(indent: Seq<char>, comments: Seq<Seq<char>>) -> Seq<char>
    decreases comments.len(),
{
    if comments.len() == 0 {
        Seq::empty()
    } else {
        comment_lines(indent, comments.drop_last()) + indent + COMMENT@ + comments.last()
            + newline()
    }
}

/// The comments that stand above the line of the number `i`.
pub open spec fn comments_above(
    comments: Map<usize, Vec<String>>,
    i: int,
    line: Seq<char>,
) -> Seq<char> {
    if 0 <= i <= usize::MAX && comments.contains_key(i as usize) {
        comment_lines(indentation_of(line), comments[i as usize].deep_view())
    } else {
        Seq::empty()
    }
}

/// The lines, each ended by a line feed, and above each the comments of
/// its number, indented as the line is.
pub open spec fn commented(lines: Seq<Seq<char>>, comments: Map<usize, Vec<String>>) -> Seq<char>
    decreases lines.len(),
{
    if lines.len() == 0 {
        Seq::empty()
    } else {
        commented(lines.drop_last(), comments) + comments_above(
            comments,
            lines.len() - 1,
            lines.last(),
        ) + lines.last() + newline()
    }
}

/// The text with the comments of each line above it; lines are counted from 0.
pub open spec fn with_comments(code: Seq<char>, comments: Map<usize, Vec<String>>) -> Seq<char> {
    commented(pieces(code, newline()), comments)
}

fn comments_of(comments: &BTreeMap<usize, Vec<String>>, line: usize) -> (r: Option<&Vec<String>>)
    ensures
        match r {
            Some(list) => comments@.contains_key(line) && comments@[line] == *list,
            None => !comments@.contains_key(line),
        },
{
    comments.get(&line)
}

fn put_comments(out: &mut Vec<char>, indent: &Vec<char>, list: &Vec<String>)
    ensures
        final(out)@ == old(out)@ + comment_lines(indent@, list.deep_view()),
{
    let ghost start = out@;
    let ghost all = list.deep_view();
    let mut k: usize = 0;
    assert(start + comment_lines(indent@, all.take(0)) =~= start);
    while k < list.len()
        invariant
            k <= list.len(),
            all == list.deep_view(),
            out@ == start + comment_lines(indent@, all.take(k as int)),
        decreases list.len() - k,
    {
        proof {
            assert(all.take(k + 1).drop_last() =~= all.take(k as int));
            assert(all.take(k + 1).last() == list@[k as int]@);
        }
        append(out, indent);
        append(out, &chars_of(COMMENT));
        append(out, &chars_of(list[k].as_str()));
        out.push('\n');
        assert(out@ =~= start + (comment_lines(indent@, all.take(k as int)) + indent@ + COMMENT@
            + list@[k as int]@ + newline()));
        k += 1;
    }
    assert(all.take(k as int) =~= all);
}

/// The text with the comments of each line above it, each indented as the
/// line is; every line, the last too, ends with a line feed.
pub fn add_comments(code: &str, comments: &BTreeMap<usize, Vec<String>>) -> (r: String)
    ensures
        r@ == with_comments(code@, comments@),
{
    let mut sep: Vec<char> = Vec::new();
    sep.push('\n');
    assert(sep@ =~= newline());
    let lines = split(&chars_of(code), &sep);
    let ghost all = texts(lines@);
    let mut out: Vec<char> = Vec::new();
    let mut i: usize = 0;
    while i < lines.len()
        invariant
            i <= lines.len(),
            all == texts(lines@),
            out@ == commented(all.take(i as int), comments@),
        decreases lines.len() - i,
    {
        proof {
            assert(all.take(i + 1).drop_last() =~= all.take(i as int));
            assert(all.take(i + 1).last() == lines@[i as int]@);
        }
        let ghost before = out@;
        match comments_of(comments, i) {
            Some(list) => {
                put_comments(&mut out, &indentation(&lines[i]), list);
            },
            None => {
                assert(out@ + Seq::<char>::empty() =~= out@);
            },
        }
        append(&mut out, &lines[i]);
        out.push('\n');
        assert(out@ =~= before + comments_above(comments@, i as int, lines@[i as int]@)
            + lines@[i as int]@ + newline());
        i += 1;
    }
    assert(all.take(i as int) =~= all);
    string_of(&out)
}

} // verus!
