//! What a repair changed: the lines of a candidate before and after, told
//! apart line by line.

use crate::text::{append, chars_of, same, string_of};
use vstd::prelude::*;
use vstd::string::StrSliceExecFns;

verus! {

/// A line of one text, of the other, or of both.
#[derive(Clone, Debug, PartialEq, Eq)]
pub enum Change {
    /// A line that only the text before has.
    Left(String),
    /// A line that both texts have.
    Both(String, String),
    /// A line that only the text after has.
    Right(String),
}

/// What a `Change` holds.
pub enum ChangeView {
    Left(Seq<char>),
    Both(Seq<char>, Seq<char>),
    Right(Seq<char>),
}

impl View for Change {
    type V = ChangeView;

    open spec fn view(&self) -> ChangeView {
        match self {
            Change::Left(l) => ChangeView::Left(l@),
            Change::Both(l, r) => ChangeView::Both(l@, r@),
            Change::Right(r) => ChangeView::Right(r@),
        }
    }
}

impl DeepView for Change {
    type V = ChangeView;

    open spec fn deep_view(&self) -> ChangeView {
        self@
    }
}

/// The changes that lead from the lines of `left` to the lines of `right`,
/// as `diff::lines` finds them.
pub uninterp spec fn line_changes(left: Seq<char>, right: Seq<char>) -> Seq<ChangeView>;

/// The tables that the comparison of two texts fills have room in memory:
/// one entry for each pair of lines, and one for each line.
pub open spec fn can_be_compared(left: Seq<char>, right: Seq<char>) -> bool {
    (left.len() + 2) * (right.len() + 2) * 64 <= isize::MAX
}

/// `diff::lines` compares two texts line by line and gives the lines of
/// either and of both in order. It fills a table of one entry for each
/// pair of lines and a list of one entry for each line, which must have
/// room; what it gives depends on the two texts alone and is only given a
/// name here.
#[verifier::external_body]
fn changed_lines(left: &str, right: &str) -> (r: Vec<Change>)
    requires
        can_be_compared(left@, right@),
    ensures
        r.deep_view() == line_changes(left@, right@),
{
    diff::lines(left, right).into_iter().map(
        |d| match d {
            diff::Result::Left(l) => Change::Left(l.to_string()),
            diff::Result::Both(l, r) => Change::Both(l.to_string(), r.to_string()),
            diff::Result::Right(r) => Change::Right(r.to_string()),
        },
    ).collect()
}

/// The line that tells of a change: behind a minus sign a line that is
/// gone, behind a plus sign a line that is new, behind a space a line that stays.
pub open spec fn change_line(change: ChangeView) -> Seq<char> {
    match change {
        ChangeView::Left(l) => seq!['-'] + l,
        ChangeView::Both(l, _) => seq![' '] + l,
        ChangeView::Right(r) => seq!['+'] + r,
    }
}

/// The lines that tell of the changes.
pub open spec fn change_lines(changes: Seq<ChangeView>) -> Seq<Seq<char>> {
    changes.map_values(|c: ChangeView| change_line(c))
}

/// What is told of the way from `before` to `after`: nothing where they
/// are equal, else a line for each change.
pub open spec fn report_of(before: Seq<char>, after: Seq<char>) -> Seq<Seq<char>> {
    if before == after {
        Seq::empty()
    } else {
        change_lines(line_changes(before, after))
    }
}

fn marked(mark: char, line: &String) -> (r: String)
    ensures
        r@ == seq![mark] + line@,
{
    let mut out: Vec<char> = Vec::new();
    out.push(mark);
    assert(out@ =~= seq![mark]);
    append(&mut out, &chars_of(line.as_str()));
    string_of(&out)
}

/// The lines that tell of the changes.
pub fn render_changes(changes: &Vec<Change>) -> (r: Vec<String>)
    ensures
        r.deep_view() == change_lines(changes.deep_view()),
{
    let ghost wanted = change_lines(changes.deep_view());
    let mut r: Vec<String> = Vec::new();
    let mut i: usize = 0;
    while i < changes.len()
        invariant
            i <= changes.len(),
            wanted == change_lines(changes.deep_view()),
            r.deep_view() == wanted.take(i as int),
        decreases changes.len() - i,
    {
        let ghost before = r.deep_view();
        let line = match &changes[i] {
            Change::Left(l) => marked('-', l),
            Change::Both(l, _) => marked(' ', l),
            Change::Right(r) => marked('+', r),
        };
        assert(changes.deep_view()[i as int] == changes@[i as int]@);
        assert(line@ == wanted[i as int]);
        r.push(line);
        assert(r.deep_view() =~= before.push(line@));
        assert(wanted.take(i + 1) =~= wanted.take(i as int).push(wanted[i as int]));
        i += 1;
    }
    assert(wanted.take(i as int) =~= wanted);
    r
}

fn fits(left: usize, right: usize) -> (r: bool)
    ensures
        r == ((left + 2) * (right + 2) * 64 <= isize::MAX),
{
    let bound: usize = isize::MAX as usize;
    let rows = match left.checked_add(2) {
        Some(n) => n,
        None => {
            assert((left + 2) * (right + 2) * 64 > isize::MAX) by (nonlinear_arith)
                requires
                    left + 2 > usize::MAX,
                    right >= 0,
                    usize::MAX >= isize::MAX,
            ;
            return false;
        },
    };
    let columns = match right.checked_add(2) {
        Some(n) => n,
        None => {
            assert((left + 2) * (right + 2) * 64 > isize::MAX) by (nonlinear_arith)
                requires
                    right + 2 > usize::MAX,
                    left >= 0,
                    usize::MAX >= isize::MAX,
            ;
            return false;
        },
    };
    match rows.checked_mul(columns) {
        Some(cells) => match cells.checked_mul(64) {
            Some(bytes) => bytes <= bound,
            None => false,
        },
        None => {
            assert(rows * columns * 64 > isize::MAX) by (nonlinear_arith)
                requires
                    rows * columns > usize::MAX,
                    usize::MAX >= isize::MAX,
            ;
            false
        },
    }
}

/// What is to be told of the way from `before` to `after`, where the two
/// can be compared: nothing where they are equal, else a line for each
/// line that is gone, that is new or that stays.
pub fn diff_report(before: &str, after: &str) -> (r: Option<Vec<String>>)
    ensures
        match r {
            Some(lines) => can_be_compared(before@, after@) && lines.deep_view() == report_of(
                before@,
                after@,
            ),
            None => !can_be_compared(before@, after@),
        },
{
    if !fits(before.unicode_len(), after.unicode_len()) {
        return None;
    }
    if same(&chars_of(before), &chars_of(after)) {
        let none: Vec<String> = Vec::new();
        assert(none.deep_view() =~= Seq::empty());
        Some(none)
    } else {
        Some(render_changes(&changed_lines(before, after)))
    }
}

} // verus!
