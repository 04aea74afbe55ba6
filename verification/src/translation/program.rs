//! The C program as the translator sees it: declarations of global
//! variables and definitions of functions, with the places of the names that
//! are to be rewritten.

use crate::text::{append, chars_of, string_of};
use vstd::prelude::*;

verus! {

/// A stretch of a text: from the character at `start` up to the one at `end`.
#[derive(Clone, Copy, Debug, PartialEq, Eq, Structural)]
pub struct Span {
    pub start: usize,
    pub end: usize,
}

/// An occurrence of a name in the text of a function.
#[derive(Clone, Debug, PartialEq, Eq)]
pub struct Identifier {
    pub name: String,
    pub span: Span,
}

/// What an `Identifier` holds.
pub struct IdentifierView {
    pub name: Seq<char>,
    pub span: Span,
}

impl View for Identifier {
    type V = IdentifierView;

    open spec fn view(&self) -> IdentifierView {
        IdentifierView { name: self.name@, span: self.span }
    }
}

impl DeepView for Identifier {
    type V = IdentifierView;

    open spec fn deep_view(&self) -> IdentifierView {
        self@
    }
}

/// A declaration of global variables: the names it declares and its text.
#[derive(Clone, Debug, PartialEq, Eq)]
pub struct Declaration {
    pub names: Vec<String>,
    pub code: String,
}

/// What a `Declaration` holds.
pub struct DeclarationView {
    pub names: Seq<Seq<char>>,
    pub code: Seq<char>,
}

impl View for Declaration {
    type V = DeclarationView;

    open spec fn view(&self) -> DeclarationView {
        DeclarationView { names: self.names.deep_view(), code: self.code@ }
    }
}

impl DeepView for Declaration {
    type V = DeclarationView;

    open spec fn deep_view(&self) -> DeclarationView {
        self@
    }
}

/// The definition of a function: its name and where the name stands in its
/// text, the names that occur in it, the variables it declares itself, and
/// the functions it calls, each where it is called. Spans count the
/// characters of `code`.
#[derive(Clone, Debug, PartialEq, Eq)]
pub struct FunctionDefinition {
    pub name: String,
    pub name_span: Span,
    pub code: String,
    pub identifiers: Vec<Identifier>,
    pub locals: Vec<String>,
    pub callees: Vec<Identifier>,
}

/// What a `FunctionDefinition` holds.
pub struct FunctionDefinitionView {
    pub name: Seq<char>,
    pub name_span: Span,
    pub code: Seq<char>,
    pub identifiers: Seq<IdentifierView>,
    pub locals: Seq<Seq<char>>,
    pub callees: Seq<IdentifierView>,
}

impl View for FunctionDefinition {
    type V = FunctionDefinitionView;

    open spec fn view(&self) -> FunctionDefinitionView {
        FunctionDefinitionView {
            name: self.name@,
            name_span: self.name_span,
            code: self.code@,
            identifiers: self.identifiers.deep_view(),
            locals: self.locals.deep_view(),
            callees: self.callees.deep_view(),
        }
    }
}

impl DeepView for FunctionDefinition {
    type V = FunctionDefinitionView;

    open spec fn deep_view(&self) -> FunctionDefinitionView {
        self@
    }
}

/// A C program: its declarations of global variables and its definitions
/// of functions, each in the order of the source.
#[derive(Clone, Debug, PartialEq, Eq)]
pub struct Program {
    pub variables: Vec<Declaration>,
    pub functions: Vec<FunctionDefinition>,
}

/// What a `Program` holds.
pub struct ProgramView {
    pub variables: Seq<DeclarationView>,
    pub functions: Seq<FunctionDefinitionView>,
}

impl View for Program {
    type V = ProgramView;

    open spec fn view(&self) -> ProgramView {
        ProgramView {
            variables: self.variables.deep_view(),
            functions: self.functions.deep_view(),
        }
    }
}

/// A text to put in the place of a span.
#[derive(Clone, Debug, PartialEq, Eq)]
pub struct Edit {
    pub span: Span,
    pub text: String,
}

/// What an `Edit` holds.
pub struct EditView {
    pub span: Span,
    pub text: Seq<char>,
}

impl View for Edit {
    type V = EditView;

    open spec fn view(&self) -> EditView {
        EditView { span: self.span, text: self.text@ }
    }
}

impl DeepView for Edit {
    type V = EditView;

    open spec fn deep_view(&self) -> EditView {
        self@
    }
}

// ---------------------------------------------------------------------------
// Names
// ---------------------------------------------------------------------------

/// The first index from `k` on at which `names` holds `name`.
pub open spec fn position_from(names: Seq<Seq<char>>, name: Seq<char>, k: int) -> Option<int>
    decreases names.len() - k,
{
    if k < 0 || k >= names.len() {
        None
    } else if names[k] == name {
        Some(k)
    } else {
        position_from(names, name, k + 1)
    }
}

/// The first index at which `names` holds `name`.
pub open spec fn position_of(names: Seq<Seq<char>>, name: Seq<char>) -> Option<int> {
    position_from(names, name, 0)
}

/// What `position_from` finds is an index of `name` from `k` on and the
/// first such; where it finds nothing, `name` does not occur from `k` on.
pub proof fn lemma_position_from(names: Seq<Seq<char>>, name: Seq<char>, k: int)
    requires
        0 <= k,
    ensures
        match position_from(names, name, k) {
            Some(i) => k <= i < names.len() && names[i] == name && forall|j: int|
                k <= j < i ==> names[j] != name,
            None => forall|j: int| k <= j < names.len() ==> names[j] != name,
        },
    decreases names.len() - k,
{
    if k < names.len() && names[k] != name {
        lemma_position_from(names, name, k + 1);
    }
}

/// The first index at which `names` holds `name`.
pub fn find_name(names: &Vec<String>, name: &String) -> (r: Option<usize>)
    ensures
        match r {
            Some(i) => position_of(names.deep_view(), name@) == Some(i as int) && i < names.len(),
            None => position_of(names.deep_view(), name@) is None,
        },
{
    let ghost all = names.deep_view();
    let mut i: usize = 0;
    while i < names.len()
        invariant
            i <= names.len(),
            all == names.deep_view(),
            position_of(all, name@) == position_from(all, name@, i as int),
        decreases names.len() - i,
    {
        assert(all[i as int] == names@[i as int]@);
        if names[i] == *name {
            return Some(i);
        }
        i += 1;
    }
    None
}

/// The names of the functions, in order.
pub open spec fn function_names(functions: Seq<FunctionDefinitionView>) -> Seq<Seq<char>> {
    functions.map_values(|f: FunctionDefinitionView| f.name)
}

/// The first function of the name `name`.
pub fn find_function(functions: &Vec<FunctionDefinition>, name: &String) -> (r: Option<usize>)
    ensures
        match r {
            Some(i) => position_of(function_names(functions.deep_view()), name@) == Some(i as int)
                && i < functions.len(),
            None => position_of(function_names(functions.deep_view()), name@) is None,
        },
{
    let ghost all = function_names(functions.deep_view());
    let mut i: usize = 0;
    while i < functions.len()
        invariant
            i <= functions.len(),
            all == function_names(functions.deep_view()),
            position_of(all, name@) == position_from(all, name@, i as int),
        decreases functions.len() - i,
    {
        assert(all[i as int] == functions@[i as int].name@);
        if functions[i].name == *name {
            return Some(i);
        }
        i += 1;
    }
    None
}

/// All names that the declarations declare, in order.
pub open spec fn declared_names(variables: Seq<DeclarationView>) -> Seq<Seq<char>>
    decreases variables.len(),
{
    if variables.len() == 0 {
        Seq::empty()
    } else {
        declared_names(variables.drop_last()) + variables.last().names
    }
}

/// All names that the declarations declare, in order.
pub fn names_of(variables: &Vec<Declaration>) -> (r: Vec<String>)
    ensures
        r.deep_view() == declared_names(variables.deep_view()),
{
    let ghost all = variables.deep_view();
    let mut r: Vec<String> = Vec::new();
    let mut i: usize = 0;
    while i < variables.len()
        invariant
            i <= variables.len(),
            all == variables.deep_view(),
            r.deep_view() == declared_names(all.take(i as int)),
        decreases variables.len() - i,
    {
        proof {
            assert(all.take(i + 1).drop_last() =~= all.take(i as int));
            assert(all.take(i + 1).last() == variables@[i as int]@);
        }
        let names = &variables[i].names;
        let ghost start = r.deep_view();
        let mut k: usize = 0;
        while k < names.len()
            invariant
                k <= names.len(),
                r.deep_view() == start + names.deep_view().take(k as int),
            decreases names.len() - k,
        {
            let ghost before = r.deep_view();
            r.push(names[k].clone());
            assert(r.deep_view() =~= before.push(names@[k as int]@));
            assert(start + names.deep_view().take(k + 1) =~= (start + names.deep_view().take(
                k as int,
            )).push(names@[k as int]@));
            k += 1;
        }
        assert(names.deep_view().take(k as int) =~= names.deep_view());
        i += 1;
    }
    assert(all.take(i as int) =~= all);
    r
}

// ---------------------------------------------------------------------------
// Rewriting
// ---------------------------------------------------------------------------

/// The edit at `k` takes the place of text that begins at `p`.
pub open spec fn begins_at(edit: EditView, p: int, len: int) -> bool {
    edit.span.start == p && p < edit.span.end <= len
}

/// The first edit from `k` on that begins at `p`.
pub open spec fn edit_from(edits: Seq<EditView>, p: int, len: int, k: int) -> Option<int>
    decreases edits.len() - k,
{
    if k < 0 || k >= edits.len() {
        None
    } else if begins_at(edits[k], p, len) {
        Some(k)
    } else {
        edit_from(edits, p, len, k + 1)
    }
}

/// The text of `code` from `p` on with the edits made: read from left to
/// right, where an edit begins its text stands for its span; of several
/// that begin at one place the first counts, and an edit that begins within
/// a span already replaced, is empty or does not fit the text, is left out.
pub open spec fn rewritten_from(code: Seq<char>, edits: Seq<EditView>, p: int) -> Seq<char>
    decreases code.len() - p,
{
    if p < 0 || p >= code.len() {
        Seq::empty()
    } else {
        match edit_from(edits, p, code.len() as int, 0) {
            Some(k) => if 0 <= k < edits.len() && p < edits[k].span.end <= code.len() {
                edits[k].text + rewritten_from(code, edits, edits[k].span.end as int)
            } else {
                Seq::empty()
            },
            None => seq![code[p]] + rewritten_from(code, edits, p + 1),
        }
    }
}

/// The text of `code` with the edits made.
pub open spec fn rewritten(code: Seq<char>, edits: Seq<EditView>) -> Seq<char> {
    rewritten_from(code, edits, 0)
}

fn edit_beginning_at(edits: &Vec<Edit>, p: usize, len: usize) -> (r: Option<usize>)
    ensures
        match r {
            Some(k) => edit_from(edits.deep_view(), p as int, len as int, 0) == Some(k as int) && k
                < edits.len() && begins_at(edits@[k as int]@, p as int, len as int),
            None => edit_from(edits.deep_view(), p as int, len as int, 0) is None,
        },
{
    let ghost all = edits.deep_view();
    let mut k: usize = 0;
    while k < edits.len()
        invariant
            k <= edits.len(),
            all == edits.deep_view(),
            edit_from(all, p as int, len as int, 0) == edit_from(all, p as int, len as int, k as int),
        decreases edits.len() - k,
    {
        assert(all[k as int] == edits@[k as int]@);
        let span = edits[k].span;
        if span.start == p && p < span.end && span.end <= len {
            return Some(k);
        }
        k += 1;
    }
    None
}

/// The text of `code` with the edits made.
pub fn rewrite(code: &str, edits: &Vec<Edit>) -> (r: String)
    ensures
        r@ == rewritten(code@, edits.deep_view()),
{
    let text = chars_of(code);
    let ghost all = edits.deep_view();
    let mut out: Vec<char> = Vec::new();
    let mut p: usize = 0;
    assert(out@ + rewritten_from(text@, all, 0) =~= rewritten(text@, all));
    while p < text.len()
        invariant
            p <= text.len(),
            all == edits.deep_view(),
            rewritten(text@, all) == out@ + rewritten_from(text@, all, p as int),
        decreases text.len() - p,
    {
        let ghost before = out@;
        match edit_beginning_at(edits, p, text.len()) {
            Some(k) => {
                assert(all[k as int] == edits@[k as int]@);
                append(&mut out, &chars_of(edits[k].text.as_str()));
                p = edits[k].span.end;
                assert(out@ + rewritten_from(text@, all, p as int) =~= before + (all[k as int].text
                    + rewritten_from(text@, all, p as int)));
            },
            None => {
                out.push(text[p]);
                p += 1;
                assert(out@ + rewritten_from(text@, all, p as int) =~= before + (seq![
                    text@[p - 1],
                ] + rewritten_from(text@, all, p as int)));
            },
        }
    }
    assert(out@ + rewritten_from(text@, all, p as int) =~= out@);
    string_of(&out)
}

/// Without edits the rest of a text stays as it is.
proof fn lemma_rewritten_without_edits(code: Seq<char>, p: int)
    requires
        0 <= p <= code.len(),
    ensures
        rewritten_from(code, Seq::empty(), p) == code.skip(p),
    decreases code.len() - p,
{
    if p < code.len() {
        lemma_rewritten_without_edits(code, p + 1);
        assert(seq![code[p]] + code.skip(p + 1) =~= code.skip(p));
    } else {
        assert(code.skip(p) =~= Seq::<char>::empty());
    }
}

/// Without edits a text stays as it is.
pub proof fn law_rewritten_without_edits(code: Seq<char>)
    ensures
        rewritten(code, Seq::empty()) == code,
{
    lemma_rewritten_without_edits(code, 0);
    assert(code.skip(0) =~= code);
}

/// One edit that fits the text puts its text in the place of its span.
pub proof fn law_rewritten_with_one_edit(code: Seq<char>, edit: EditView)
    requires
        edit.span.start < edit.span.end <= code.len(),
    ensures
        rewritten(code, seq![edit]) == code.take(edit.span.start as int) + edit.text + code.skip(
            edit.span.end as int,
        ),
{
    lemma_rewritten_with_one_edit(code, edit, 0);
    assert(code.subrange(0, edit.span.start as int) =~= code.take(edit.span.start as int));
}

/// From a place before it on, one edit that fits the text puts its text in
/// the place of its span.
proof fn lemma_rewritten_with_one_edit(code: Seq<char>, edit: EditView, p: int)
    requires
        0 <= p <= edit.span.start < edit.span.end <= code.len(),
    ensures
        rewritten_from(code, seq![edit], p) == code.subrange(p, edit.span.start as int) + edit.text
            + code.skip(edit.span.end as int),
    decreases code.len() - p,
{
    let edits = seq![edit];
    let start = edit.span.start as int;
    let end = edit.span.end as int;
    if p == start {
        assert(begins_at(edits[0], p, code.len() as int));
        lemma_rewritten_behind(code, edit, end);
        assert(code.subrange(p, start) =~= Seq::<char>::empty());
        assert(edit.text + code.skip(end) =~= code.subrange(p, start) + edit.text + code.skip(end));
    } else {
        assert(!begins_at(edits[0], p, code.len() as int));
        assert(edit_from(edits, p, code.len() as int, 1) is None);
        lemma_rewritten_with_one_edit(code, edit, p + 1);
        assert(seq![code[p]] + (code.subrange(p + 1, start) + edit.text + code.skip(end))
            =~= code.subrange(p, start) + edit.text + code.skip(end));
    }
}

/// Behind the start of its one edit a text stays as it is.
proof fn lemma_rewritten_behind(code: Seq<char>, edit: EditView, p: int)
    requires
        edit.span.start < p <= code.len(),
    ensures
        rewritten_from(code, seq![edit], p) == code.skip(p),
    decreases code.len() - p,
{
    let edits = seq![edit];
    if p < code.len() {
        assert(!begins_at(edits[0], p, code.len() as int));
        assert(edit_from(edits, p, code.len() as int, 1) is None);
        lemma_rewritten_behind(code, edit, p + 1);
        assert(seq![code[p]] + code.skip(p + 1) =~= code.skip(p));
    } else {
        assert(code.skip(p) =~= Seq::<char>::empty());
    }
}

} // verus!
