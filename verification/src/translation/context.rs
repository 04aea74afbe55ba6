//! What the translator works out for itself: the program made ready and its
//! call graph, lists of names, what a function depends on, what stands
//! before it when it is checked, and the new names put into its text.

use crate::graph::{is_graph, successors};
use crate::text::{
    append, chars_of, find, has_prefix, join_strings, joined, lemma_first_match,
    lemma_joined_push, newline, occurs_at, slice_of, starts_with, string_of, strip_suffix, texts,
};
use crate::translation::program::{
    find_function, find_name, function_names, position_from, position_of, Edit, EditView,
    FunctionDefinition, FunctionDefinitionView, Identifier, IdentifierView, Program,
};
use crate::translation::rules::{
    call_edits, call_graph, call_targets, callee_names, calls_of_others, checked_function,
    checked_functions, checked_import, checked_imports, checked_variable, checked_variables,
    context_of, edits_of, function_signatures, functions_of, global_names, global_uses, has_main,
    identifier_names, inserted, is_global_use, kept_functions, local_calls, merged, nonempty,
    ordered, preamble_text, prefix_text, prepared, reserved_prefix, text_before, translated_names,
    variable_edits, variable_names, variable_texts, variables_of, with_local_calls,
    ALLOW_DEAD_CODE, ALLOW_UNUSED_IMPORTS, DENY_UNUSED, EMPTY_BODY, MAIN, MAIN_STUB, STUB_CLOSE,
    STUB_OPEN, ZERO_CLOSE, ZERO_OPEN,
};
use crate::translation::state::{
    copy_strings, TranslatedFunction, TranslatedFunctionView, TranslatedVariable,
    TranslatedVariableView,
};
use vstd::prelude::*;

verus! {

// ---------------------------------------------------------------------------
// Copies
// ---------------------------------------------------------------------------

fn copy_identifier(id: &Identifier) -> (r: Identifier)
    ensures
        r@ == id@,
{
    Identifier { name: id.name.clone(), span: id.span }
}

fn copy_identifiers(ids: &Vec<Identifier>) -> (r: Vec<Identifier>)
    ensures
        r.deep_view() == ids.deep_view(),
{
    let mut r: Vec<Identifier> = Vec::new();
    let mut i: usize = 0;
    while i < ids.len()
        invariant
            i <= ids.len(),
            r.deep_view() == ids.deep_view().take(i as int),
        decreases ids.len() - i,
    {
        let ghost before = r.deep_view();
        r.push(copy_identifier(&ids[i]));
        assert(r.deep_view() =~= before.push(ids@[i as int]@));
        assert(ids.deep_view().take(i + 1) =~= ids.deep_view().take(i as int).push(
            ids@[i as int]@,
        ));
        i += 1;
    }
    assert(ids.deep_view().take(i as int) =~= ids.deep_view());
    r
}

// ---------------------------------------------------------------------------
// Making a program ready
// ---------------------------------------------------------------------------

fn is_reserved(name: &String) -> (r: bool)
    ensures
        r == has_prefix(name@, reserved_prefix()),
{
    starts_with(&chars_of(name.as_str()), &chars_of("__"))
}

fn local_calls_of(names: &Vec<String>, callees: &Vec<Identifier>) -> (r: Vec<Identifier>)
    ensures
        r.deep_view() == local_calls(names.deep_view(), callees.deep_view()),
{
    let ghost all = callees.deep_view();
    let mut r: Vec<Identifier> = Vec::new();
    let mut i: usize = 0;
    while i < callees.len()
        invariant
            i <= callees.len(),
            all == callees.deep_view(),
            r.deep_view() == local_calls(names.deep_view(), all.take(i as int)),
        decreases callees.len() - i,
    {
        proof {
            assert(all.take(i + 1).drop_last() =~= all.take(i as int));
            assert(all.take(i + 1).last() == callees@[i as int]@);
        }
        let ghost before = r.deep_view();
        if find_name(names, &callees[i].name).is_some() {
            r.push(copy_identifier(&callees[i]));
            assert(r.deep_view() =~= before + seq![callees@[i as int]@]);
        }
        i += 1;
    }
    assert(all.take(i as int) =~= all);
    r
}

/// The program made ready: without the functions of reserved names, and
/// with each function's calls limited to the functions that are left.
pub fn prepare(program: Program) -> (r: Program)
    ensures
        r@ == prepared(program@),
{
    let Program { variables, functions } = program;
    let ghost all = functions.deep_view();
    let mut names: Vec<String> = Vec::new();
    let mut i: usize = 0;
    while i < functions.len()
        invariant
            i <= functions.len(),
            all == functions.deep_view(),
            names.deep_view() == function_names(kept_functions(all.take(i as int))),
        decreases functions.len() - i,
    {
        proof {
            assert(all.take(i + 1).drop_last() =~= all.take(i as int));
            assert(all.take(i + 1).last() == functions@[i as int]@);
        }
        let ghost before = names.deep_view();
        if !is_reserved(&functions[i].name) {
            names.push(functions[i].name.clone());
            assert(names.deep_view() =~= before.push(functions@[i as int]@.name));
            assert(function_names(kept_functions(all.take(i as int)) + seq![functions@[i as int]@])
                =~= function_names(kept_functions(all.take(i as int))).push(
                functions@[i as int]@.name,
            ));
        }
        i += 1;
    }
    assert(all.take(i as int) =~= all);
    let ghost kept_names = names.deep_view();
    let ghost kept = kept_functions(all);
    let mut out: Vec<FunctionDefinition> = Vec::new();
    let mut i: usize = 0;
    while i < functions.len()
        invariant
            i <= functions.len(),
            all == functions.deep_view(),
            kept_names == names.deep_view(),
            out.deep_view() == kept_functions(all.take(i as int)).map_values(
                |f: FunctionDefinitionView| with_local_calls(kept_names, f),
            ),
        decreases functions.len() - i,
    {
        proof {
            assert(all.take(i + 1).drop_last() =~= all.take(i as int));
            assert(all.take(i + 1).last() == functions@[i as int]@);
        }
        let ghost before = out.deep_view();
        let f = &functions[i];
        if !is_reserved(&f.name) {
            let g = FunctionDefinition {
                name: f.name.clone(),
                name_span: f.name_span,
                code: f.code.clone(),
                identifiers: copy_identifiers(&f.identifiers),
                locals: copy_strings(&f.locals),
                callees: local_calls_of(&names, &f.callees),
            };
            assert(g@ == with_local_calls(kept_names, f@));
            out.push(g);
            assert(out.deep_view() =~= before.push(g@));
            assert((kept_functions(all.take(i as int)) + seq![f@]).map_values(
                |f: FunctionDefinitionView| with_local_calls(kept_names, f),
            ) =~= kept_functions(all.take(i as int)).map_values(
                |f: FunctionDefinitionView| with_local_calls(kept_names, f),
            ).push(with_local_calls(kept_names, f@)));
        }
        i += 1;
    }
    assert(all.take(i as int) =~= all);
    Program { variables, functions: out }
}

fn targets_of(functions: &Vec<FunctionDefinition>, callees: &Vec<Identifier>) -> (r: Vec<usize>)
    ensures
        r@ == call_targets(function_names(functions.deep_view()), callees.deep_view()),
        forall|k: int| 0 <= k < r@.len() ==> r@[k] < functions.len(),
{
    let ghost all = callees.deep_view();
    let ghost names = function_names(functions.deep_view());
    let mut r: Vec<usize> = Vec::new();
    let mut i: usize = 0;
    while i < callees.len()
        invariant
            i <= callees.len(),
            all == callees.deep_view(),
            names == function_names(functions.deep_view()),
            r@ == call_targets(names, all.take(i as int)),
            forall|k: int| 0 <= k < r@.len() ==> r@[k] < functions.len(),
        decreases callees.len() - i,
    {
        proof {
            assert(all.take(i + 1).drop_last() =~= all.take(i as int));
            assert(all.take(i + 1).last() == callees@[i as int]@);
        }
        let ghost before = r@;
        match find_function(functions, &callees[i].name) {
            Some(j) => {
                r.push(j);
                assert(r@ =~= before + seq![j]);
            },
            None => {},
        }
        i += 1;
    }
    assert(all.take(i as int) =~= all);
    r
}

/// The call graph of the functions.
pub fn graph_of(functions: &Vec<FunctionDefinition>) -> (g: Vec<Vec<usize>>)
    ensures
        successors(g@) == call_graph(functions.deep_view()),
        is_graph(successors(g@)),
{
    let ghost wanted = call_graph(functions.deep_view());
    let mut g: Vec<Vec<usize>> = Vec::new();
    let mut i: usize = 0;
    while i < functions.len()
        invariant
            i <= functions.len(),
            wanted == call_graph(functions.deep_view()),
            g.len() == i,
            forall|k: int| 0 <= k < i ==> (#[trigger] g@[k])@ == wanted[k],
            forall|k: int, j: int|
                0 <= k < i && 0 <= j < g@[k]@.len() ==> #[trigger] g@[k]@[j] < functions.len(),
        decreases functions.len() - i,
    {
        let row = targets_of(functions, &functions[i].callees);
        assert(functions.deep_view()[i as int] == functions@[i as int]@);
        g.push(row);
        i += 1;
    }
    assert(successors(g@) =~= wanted);
    assert forall|a: int, b: int|
        0 <= a < successors(g@).len() && 0 <= b < successors(g@)[a].len() implies #[trigger] successors(
        g@,
    )[a][b] < successors(g@).len() by {
        assert(successors(g@)[a] == g@[a]@);
    }
    g
}

// ---------------------------------------------------------------------------
// Lists of names
// ---------------------------------------------------------------------------

/// Puts those of `more` that come new behind `list`, each once.
pub fn merge(list: &mut Vec<String>, more: &Vec<String>)
    ensures
        final(list).deep_view() == merged(old(list).deep_view(), more.deep_view()),
{
    let ghost start = list.deep_view();
    let ghost all = more.deep_view();
    let mut i: usize = 0;
    while i < more.len()
        invariant
            i <= more.len(),
            all == more.deep_view(),
            list.deep_view() == merged(start, all.take(i as int)),
        decreases more.len() - i,
    {
        proof {
            assert(all.take(i + 1).drop_last() =~= all.take(i as int));
            assert(all.take(i + 1).last() == more@[i as int]@);
        }
        let ghost before = list.deep_view();
        if find_name(list, &more[i]).is_none() {
            list.push(more[i].clone());
            assert(list.deep_view() =~= before.push(more@[i as int]@));
        }
        i += 1;
    }
    assert(all.take(i as int) =~= all);
}

fn comes_before(a: &Vec<char>, b: &Vec<char>) -> (r: bool)
    ensures
        r == text_before(a@, b@),
{
    let mut i: usize = 0;
    assert(a@.skip(0) =~= a@);
    assert(b@.skip(0) =~= b@);
    loop
        invariant
            i <= a.len(),
            i <= b.len(),
            text_before(a@, b@) == text_before(a@.skip(i as int), b@.skip(i as int)),
        decreases a.len() - i,
    {
        if i >= b.len() {
            return false;
        }
        if i >= a.len() {
            return true;
        }
        assert(a@.skip(i as int)[0] == a@[i as int]);
        assert(b@.skip(i as int)[0] == b@[i as int]);
        if a[i] != b[i] {
            return a[i] < b[i];
        }
        assert(a@.skip(i as int).drop_first() =~= a@.skip(i + 1));
        assert(b@.skip(i as int).drop_first() =~= b@.skip(i + 1));
        i += 1;
    }
}

fn insert_name(sorted: &mut Vec<String>, name: String)
    ensures
        final(sorted).deep_view() == inserted(old(sorted).deep_view(), name@),
{
    let ghost all = sorted.deep_view();
    let text = chars_of(name.as_str());
    let mut i: usize = sorted.len();
    assert(all.take(i as int) =~= all);
    assert(inserted(all, name@) =~= inserted(all.take(i as int), name@) + all.skip(i as int));
    while i > 0
        invariant
            i <= sorted.len(),
            all == sorted.deep_view(),
            all == old(sorted).deep_view(),
            text@ == name@,
            inserted(all, name@) == inserted(all.take(i as int), name@) + all.skip(i as int),
        decreases i,
    {
        let last = &sorted[i - 1];
        proof {
            assert(all.take(i as int).last() == last@);
            assert(all.take(i as int).drop_last() =~= all.take(i - 1));
        }
        if *last == name {
            assert(all.take(i as int) + all.skip(i as int) =~= all);
            return ;
        }
        if comes_before(&chars_of(last.as_str()), &text) {
            sorted.insert(i, name);
            assert(sorted.deep_view() =~= all.take(i as int).push(name@) + all.skip(i as int));
            return ;
        }
        assert(inserted(all.take(i - 1), name@).push(last@) + all.skip(i as int) =~= inserted(
            all.take(i - 1),
            name@,
        ) + all.skip(i - 1));
        i -= 1;
    }
    sorted.insert(0, name);
    assert(sorted.deep_view() =~= seq![name@] + all.skip(0));
}

/// The names in the order of the dictionary, each once.
pub fn sort_names(names: &Vec<String>) -> (r: Vec<String>)
    ensures
        r.deep_view() == ordered(names.deep_view()),
{
    let ghost all = names.deep_view();
    let mut r: Vec<String> = Vec::new();
    let mut i: usize = 0;
    while i < names.len()
        invariant
            i <= names.len(),
            all == names.deep_view(),
            r.deep_view() == ordered(all.take(i as int)),
        decreases names.len() - i,
    {
        proof {
            assert(all.take(i + 1).drop_last() =~= all.take(i as int));
            assert(all.take(i + 1).last() == names@[i as int]@);
        }
        insert_name(&mut r, names[i].clone());
        i += 1;
    }
    assert(all.take(i as int) =~= all);
    r
}

// ---------------------------------------------------------------------------
// What a function depends on
// ---------------------------------------------------------------------------

/// The uses of global variables in a function.
pub fn uses_of(declared: &Vec<String>, f: &FunctionDefinition) -> (r: Vec<Identifier>)
    ensures
        r.deep_view() == global_uses(declared.deep_view(), f@),
{
    let ghost all = f.identifiers.deep_view();
    let mut r: Vec<Identifier> = Vec::new();
    let mut i: usize = 0;
    while i < f.identifiers.len()
        invariant
            i <= f.identifiers.len(),
            all == f.identifiers.deep_view(),
            r.deep_view() == all.take(i as int).filter_map(
                |id: IdentifierView|
                    if is_global_use(declared.deep_view(), f@, id) {
                        Some(id)
                    } else {
                        None
                    },
            ),
        decreases f.identifiers.len() - i,
    {
        proof {
            assert(all.take(i + 1).drop_last() =~= all.take(i as int));
            assert(all.take(i + 1).last() == f.identifiers@[i as int]@);
        }
        let ghost before = r.deep_view();
        let id = &f.identifiers[i];
        if find_name(declared, &id.name).is_some() && find_name(&f.locals, &id.name).is_none() {
            r.push(copy_identifier(id));
            assert(r.deep_view() =~= before + seq![id@]);
        }
        i += 1;
    }
    assert(all.take(i as int) =~= all);
    r
}

fn names_of_identifiers(ids: &Vec<Identifier>) -> (r: Vec<String>)
    ensures
        r.deep_view() == identifier_names(ids.deep_view()),
{
    let mut r: Vec<String> = Vec::new();
    let mut i: usize = 0;
    while i < ids.len()
        invariant
            i <= ids.len(),
            r.deep_view() == identifier_names(ids.deep_view()).take(i as int),
        decreases ids.len() - i,
    {
        let ghost before = r.deep_view();
        r.push(ids[i].name.clone());
        assert(r.deep_view() =~= before.push(ids@[i as int]@.name));
        assert(identifier_names(ids.deep_view()).take(i + 1) =~= identifier_names(
            ids.deep_view(),
        ).take(i as int).push(ids@[i as int]@.name));
        i += 1;
    }
    assert(identifier_names(ids.deep_view()).take(i as int) =~= identifier_names(ids.deep_view()));
    r
}

fn other_calls(f: &FunctionDefinition) -> (r: Vec<Identifier>)
    ensures
        r.deep_view() == calls_of_others(f@),
{
    let ghost all = f.callees.deep_view();
    let mut r: Vec<Identifier> = Vec::new();
    let mut i: usize = 0;
    while i < f.callees.len()
        invariant
            i <= f.callees.len(),
            all == f.callees.deep_view(),
            r.deep_view() == all.take(i as int).filter_map(
                |c: IdentifierView|
                    if c.name == f@.name {
                        None
                    } else {
                        Some(c)
                    },
            ),
        decreases f.callees.len() - i,
    {
        proof {
            assert(all.take(i + 1).drop_last() =~= all.take(i as int));
            assert(all.take(i + 1).last() == f.callees@[i as int]@);
        }
        let ghost before = r.deep_view();
        let c = &f.callees[i];
        if !(c.name == f.name) {
            r.push(copy_identifier(c));
            assert(r.deep_view() =~= before + seq![c@]);
        }
        i += 1;
    }
    assert(all.take(i as int) =~= all);
    r
}

/// The first translated variable of the name `name` in the C program.
pub fn find_variable(variables: &Vec<TranslatedVariable>, name: &String) -> (r: Option<usize>)
    ensures
        match r {
            Some(i) => position_of(variable_names(variables.deep_view()), name@) == Some(i as int)
                && i < variables.len(),
            None => position_of(variable_names(variables.deep_view()), name@) is None,
        },
{
    let ghost all = variable_names(variables.deep_view());
    let mut i: usize = 0;
    while i < variables.len()
        invariant
            i <= variables.len(),
            all == variable_names(variables.deep_view()),
            position_of(all, name@) == position_from(all, name@, i as int),
        decreases variables.len() - i,
    {
        assert(all[i as int] == variables@[i as int].name@);
        if variables[i].name == *name {
            return Some(i);
        }
        i += 1;
    }
    None
}

/// The first translated function of the name `name` in the C program.
pub fn find_translated(functions: &Vec<TranslatedFunction>, name: &String) -> (r: Option<usize>)
    ensures
        match r {
            Some(i) => position_of(translated_names(functions.deep_view()), name@) == Some(
                i as int,
            ) && i < functions.len(),
            None => position_of(translated_names(functions.deep_view()), name@) is None,
        },
{
    let ghost all = translated_names(functions.deep_view());
    let mut i: usize = 0;
    while i < functions.len()
        invariant
            i <= functions.len(),
            all == translated_names(functions.deep_view()),
            position_of(all, name@) == position_from(all, name@, i as int),
        decreases functions.len() - i,
    {
        assert(all[i as int] == functions@[i as int].original@);
        if functions[i].original == *name {
            return Some(i);
        }
        i += 1;
    }
    None
}

/// The places of the variables of the given names among the translated ones.
pub open spec fn picked_variables(variables: Seq<TranslatedVariableView>, places: Seq<usize>) -> Seq<
    TranslatedVariableView,
> {
    Seq::new(places.len(), |k: int| variables[places[k] as int])
}

/// The places of the functions of the given names among the translated ones.
pub open spec fn picked_functions(functions: Seq<TranslatedFunctionView>, places: Seq<usize>) -> Seq<
    TranslatedFunctionView,
> {
    Seq::new(places.len(), |k: int| functions[places[k] as int])
}

fn places_of_variables(variables: &Vec<TranslatedVariable>, names: &Vec<String>) -> (r: Option<
    Vec<usize>,
>)
    ensures
        match r {
            Some(places) => variables_of(variables.deep_view(), names.deep_view()) == Some(
                picked_variables(variables.deep_view(), places@),
            ) && forall|k: int| 0 <= k < places@.len() ==> places@[k] < variables.len(),
            None => variables_of(variables.deep_view(), names.deep_view()) is None,
        },
{
    let ghost all = names.deep_view();
    let ghost vs = variables.deep_view();
    let mut places: Vec<usize> = Vec::new();
    let mut ok = true;
    let mut i: usize = 0;
    assert(picked_variables(vs, places@) =~= Seq::empty());
    while i < names.len()
        invariant
            i <= names.len(),
            all == names.deep_view(),
            vs == variables.deep_view(),
            forall|k: int| 0 <= k < places@.len() ==> places@[k] < variables.len(),
            ok ==> variables_of(vs, all.take(i as int)) == Some(picked_variables(vs, places@)),
            !ok ==> variables_of(vs, all.take(i as int)) is None,
        decreases names.len() - i,
    {
        proof {
            assert(all.take(i + 1).drop_last() =~= all.take(i as int));
            assert(all.take(i + 1).last() == names@[i as int]@);
        }
        let ghost before = picked_variables(vs, places@);
        match find_variable(variables, &names[i]) {
            Some(j) => {
                if ok {
                    places.push(j);
                    assert(picked_variables(vs, places@) =~= before.push(vs[j as int]));
                }
            },
            None => {
                ok = false;
            },
        }
        i += 1;
    }
    assert(all.take(i as int) =~= all);
    if ok {
        Some(places)
    } else {
        None
    }
}

fn places_of_functions(functions: &Vec<TranslatedFunction>, names: &Vec<String>) -> (r: Option<
    Vec<usize>,
>)
    ensures
        match r {
            Some(places) => functions_of(functions.deep_view(), names.deep_view()) == Some(
                picked_functions(functions.deep_view(), places@),
            ) && forall|k: int| 0 <= k < places@.len() ==> places@[k] < functions.len(),
            None => functions_of(functions.deep_view(), names.deep_view()) is None,
        },
{
    let ghost all = names.deep_view();
    let ghost fs = functions.deep_view();
    let mut places: Vec<usize> = Vec::new();
    let mut ok = true;
    let mut i: usize = 0;
    assert(picked_functions(fs, places@) =~= Seq::empty());
    while i < names.len()
        invariant
            i <= names.len(),
            all == names.deep_view(),
            fs == functions.deep_view(),
            forall|k: int| 0 <= k < places@.len() ==> places@[k] < functions.len(),
            ok ==> functions_of(fs, all.take(i as int)) == Some(picked_functions(fs, places@)),
            !ok ==> functions_of(fs, all.take(i as int)) is None,
        decreases names.len() - i,
    {
        proof {
            assert(all.take(i + 1).drop_last() =~= all.take(i as int));
            assert(all.take(i + 1).last() == names@[i as int]@);
        }
        let ghost before = picked_functions(fs, places@);
        match find_translated(functions, &names[i]) {
            Some(j) => {
                if ok {
                    places.push(j);
                    assert(picked_functions(fs, places@) =~= before.push(fs[j as int]));
                }
            },
            None => {
                ok = false;
            },
        }
        i += 1;
    }
    assert(all.take(i as int) =~= all);
    if ok {
        Some(places)
    } else {
        None
    }
}

// ---------------------------------------------------------------------------
// What stands before a function when it is checked
// ---------------------------------------------------------------------------

fn put(out: &mut Vec<char>, s: &str)
    ensures
        final(out)@ == old(out)@ + s@,
{
    append(out, &chars_of(s));
}

fn check_variable(v: &TranslatedVariable) -> (r: Option<String>)
    ensures
        r.deep_view() == checked_variable(v@),
{
    let text = chars_of(v.text.as_str());
    let mut sign: Vec<char> = Vec::new();
    sign.push('=');
    assert(sign@ =~= seq!['=']);
    proof {
        lemma_first_match(text@, sign@, 0);
    }
    match find(&text, &sign, 0) {
        Some(i) => {
            assert(occurs_at(text@, sign@, i as int));
            assert(sign@.len() == 1);
            assert(i + 1 <= text.len());
            let mut out = chars_of(DENY_UNUSED);
            let head = slice_of(&text, 0, i + 1);
            assert(head@ =~= text@.take(i + 1));
            append(&mut out, &head);
            put(&mut out, ZERO_OPEN);
            put(&mut out, v.ty.as_str());
            put(&mut out, ZERO_CLOSE);
            Some(string_of(&out))
        },
        None => None,
    }
}

fn check_variables(variables: &Vec<TranslatedVariable>, places: &Vec<usize>) -> (r: Option<
    Vec<String>,
>)
    requires
        forall|k: int| 0 <= k < places@.len() ==> places@[k] < variables.len(),
    ensures
        r.deep_view() == checked_variables(picked_variables(variables.deep_view(), places@)),
{
    let ghost all = picked_variables(variables.deep_view(), places@);
    let mut out: Vec<String> = Vec::new();
    let mut ok = true;
    let mut i: usize = 0;
    while i < places.len()
        invariant
            i <= places.len(),
            all == picked_variables(variables.deep_view(), places@),
            forall|k: int| 0 <= k < places@.len() ==> places@[k] < variables.len(),
            ok ==> checked_variables(all.take(i as int)) == Some(out.deep_view()),
            !ok ==> checked_variables(all.take(i as int)) is None,
        decreases places.len() - i,
    {
        proof {
            assert(all.take(i + 1).drop_last() =~= all.take(i as int));
            assert(all.take(i + 1).last() == variables@[places@[i as int] as int]@);
        }
        let ghost before = out.deep_view();
        match check_variable(&variables[places[i]]) {
            Some(text) => {
                if ok {
                    out.push(text);
                    assert(out.deep_view() =~= before.push(text@));
                }
            },
            None => {
                ok = false;
            },
        }
        i += 1;
    }
    assert(all.take(i as int) =~= all);
    if ok {
        Some(out)
    } else {
        None
    }
}

fn check_function(f: &TranslatedFunction) -> (r: String)
    ensures
        r@ == checked_function(f@),
{
    let mut out = chars_of(STUB_OPEN);
    append(&mut out, &strip_suffix(&chars_of(f.signature.as_str()), &chars_of(EMPTY_BODY)));
    put(&mut out, STUB_CLOSE);
    string_of(&out)
}

fn check_functions(functions: &Vec<TranslatedFunction>, places: &Vec<usize>) -> (r: Vec<String>)
    requires
        forall|k: int| 0 <= k < places@.len() ==> places@[k] < functions.len(),
    ensures
        r.deep_view() == checked_functions(picked_functions(functions.deep_view(), places@)),
{
    let ghost all = picked_functions(functions.deep_view(), places@);
    let mut out: Vec<String> = Vec::new();
    let mut i: usize = 0;
    while i < places.len()
        invariant
            i <= places.len(),
            all == picked_functions(functions.deep_view(), places@),
            forall|k: int| 0 <= k < places@.len() ==> places@[k] < functions.len(),
            out.deep_view() == checked_functions(all).take(i as int),
        decreases places.len() - i,
    {
        let ghost before = out.deep_view();
        let text = check_function(&functions[places[i]]);
        assert(all[i as int] == functions@[places@[i as int] as int]@);
        out.push(text);
        assert(out.deep_view() =~= before.push(text@));
        assert(checked_functions(all).take(i + 1) =~= checked_functions(all).take(i as int).push(
            checked_function(all[i as int]),
        ));
        i += 1;
    }
    assert(checked_functions(all).take(i as int) =~= checked_functions(all));
    out
}

fn check_imports(lines: &Vec<String>) -> (r: Vec<String>)
    ensures
        r.deep_view() == checked_imports(lines.deep_view()),
{
    let ghost all = lines.deep_view();
    let mut out: Vec<String> = Vec::new();
    let mut i: usize = 0;
    while i < lines.len()
        invariant
            i <= lines.len(),
            all == lines.deep_view(),
            out.deep_view() == checked_imports(all).take(i as int),
        decreases lines.len() - i,
    {
        let ghost before = out.deep_view();
        let mut text = chars_of(ALLOW_UNUSED_IMPORTS);
        put(&mut text, lines[i].as_str());
        let line = string_of(&text);
        assert(all[i as int] == lines@[i as int]@);
        out.push(line);
        assert(out.deep_view() =~= before.push(line@));
        assert(checked_imports(all).take(i + 1) =~= checked_imports(all).take(i as int).push(
            checked_import(all[i as int]),
        ));
        i += 1;
    }
    assert(checked_imports(all).take(i as int) =~= checked_imports(all));
    out
}

/// What stands before every function of a program when it is checked.
pub fn make_preamble(imports: &Vec<String>, with_main: bool) -> (r: String)
    ensures
        r@ == preamble_text(imports.deep_view(), with_main),
{
    let mut out: Vec<char> = Vec::new();
    if imports.len() > 0 {
        append(&mut out, &join_strings(&check_imports(imports)));
        out.push('\n');
    }
    if !with_main {
        append(&mut out, &chars_of(MAIN_STUB));
        out.push('\n');
    }
    assert(out@ =~= preamble_text(imports.deep_view(), with_main));
    string_of(&out)
}

/// What stands in for the dependencies of a function when it is checked.
pub fn make_prefix(variables: &Vec<String>, functions: &Vec<String>) -> (r: String)
    ensures
        r@ == prefix_text(variables.deep_view(), functions.deep_view()),
{
    let mut parts: Vec<Vec<char>> = Vec::new();
    parts.push(join_strings(variables));
    parts.push(join_strings(functions));
    parts.push(chars_of(ALLOW_DEAD_CODE));
    let ghost all = seq![
        joined(variables.deep_view(), newline()),
        joined(functions.deep_view(), newline()),
        ALLOW_DEAD_CODE@,
    ];
    assert(texts(parts@) =~= all);
    let mut out: Vec<char> = Vec::new();
    let mut first = true;
    let mut i: usize = 0;
    while i < parts.len()
        invariant
            i <= parts.len(),
            all == texts(parts@),
            first == (nonempty(all.take(i as int)).len() == 0),
            out@ == joined(nonempty(all.take(i as int)), newline()),
        decreases parts.len() - i,
    {
        proof {
            assert(all.take(i + 1).drop_last() =~= all.take(i as int));
            assert(all.take(i + 1).last() == parts@[i as int]@);
        }
        if parts[i].len() > 0 {
            proof {
                let kept = nonempty(all.take(i as int));
                lemma_joined_push(kept, newline(), parts@[i as int]@);
                assert(kept + seq![parts@[i as int]@] =~= kept.push(parts@[i as int]@));
            }
            if !first {
                out.push('\n');
                assert(out@ =~= joined(nonempty(all.take(i as int)), newline()) + newline());
            }
            append(&mut out, &parts[i]);
            first = false;
        }
        i += 1;
    }
    assert(all.take(i as int) =~= all);
    out.push('\n');
    assert(out@ =~= joined(nonempty(all), newline()) + newline());
    string_of(&out)
}

fn is_main(name: &String) -> (r: bool)
    ensures
        r == (name@ == MAIN@),
{
    *name == MAIN.to_owned()
}

/// Whether the program has a `main` once the function `name` is translated.
pub fn with_main(functions: &Vec<TranslatedFunction>, name: &String) -> (r: bool)
    ensures
        r == has_main(functions.deep_view(), name@),
{
    find_translated(functions, &MAIN.to_owned()).is_some() || is_main(name)
}

/// What a function is translated with: what stands in for its dependencies
/// when it is checked, and the translations it depends on.
pub fn context(
    declared: &Vec<String>,
    variables: &Vec<TranslatedVariable>,
    functions: &Vec<TranslatedFunction>,
    f: &FunctionDefinition,
) -> (r: Option<(String, Vec<String>)>)
    ensures
        r.deep_view() == context_of(
            declared.deep_view(),
            variables.deep_view(),
            functions.deep_view(),
            f@,
        ),
{
    let uses = uses_of(declared, f);
    let mut globals: Vec<String> = Vec::new();
    assert(globals.deep_view() =~= Seq::<Seq<char>>::empty());
    merge(&mut globals, &names_of_identifiers(&uses));
    assert(globals.deep_view() == global_names(declared.deep_view(), f@));
    let callees = sort_names(&names_of_identifiers(&other_calls(f)));
    assert(callees.deep_view() == callee_names(f@));
    let used = places_of_variables(variables, &globals);
    let called = places_of_functions(functions, &callees);
    match (used, called) {
        (Some(used), Some(called)) => {
            match check_variables(variables, &used) {
                Some(checked) => {
                    let stubs = check_functions(functions, &called);
                    let prefix = make_prefix(&checked, &stubs);
                    let ghost vs = picked_variables(variables.deep_view(), used@);
                    let ghost fs = picked_functions(functions.deep_view(), called@);
                    let mut deps: Vec<String> = Vec::new();
                    let mut i: usize = 0;
                    while i < used.len()
                        invariant
                            i <= used.len(),
                            vs == picked_variables(variables.deep_view(), used@),
                            forall|k: int| 0 <= k < used@.len() ==> used@[k] < variables.len(),
                            deps.deep_view() == variable_texts(vs).take(i as int),
                        decreases used.len() - i,
                    {
                        let ghost before = deps.deep_view();
                        deps.push(variables[used[i]].text.clone());
                        assert(deps.deep_view() =~= before.push(vs[i as int].text));
                        assert(variable_texts(vs).take(i + 1) =~= variable_texts(vs).take(
                            i as int,
                        ).push(vs[i as int].text));
                        i += 1;
                    }
                    assert(variable_texts(vs).take(i as int) =~= variable_texts(vs));
                    let mut k: usize = 0;
                    while k < called.len()
                        invariant
                            k <= called.len(),
                            fs == picked_functions(functions.deep_view(), called@),
                            forall|j: int| 0 <= j < called@.len() ==> called@[j] < functions.len(),
                            deps.deep_view() == variable_texts(vs) + function_signatures(fs).take(
                                k as int,
                            ),
                        decreases called.len() - k,
                    {
                        let ghost before = deps.deep_view();
                        deps.push(functions[called[k]].signature.clone());
                        assert(deps.deep_view() =~= before.push(fs[k as int].signature));
                        assert(variable_texts(vs) + function_signatures(fs).take(k + 1) =~= (
                        variable_texts(vs) + function_signatures(fs).take(k as int)).push(
                            fs[k as int].signature,
                        ));
                        k += 1;
                    }
                    assert(function_signatures(fs).take(k as int) =~= function_signatures(fs));
                    Some((prefix, deps))
                },
                None => None,
            }
        },
        _ => None,
    }
}

// ---------------------------------------------------------------------------
// New names in the C function
// ---------------------------------------------------------------------------

fn edits_of_uses(variables: &Vec<TranslatedVariable>, uses: &Vec<Identifier>, out: &mut Vec<Edit>) -> (ok:
    bool)
    ensures
        match variable_edits(variables.deep_view(), uses.deep_view()) {
            Some(edits) => ok && final(out).deep_view() == old(out).deep_view() + edits,
            None => !ok,
        },
{
    let ghost start = out.deep_view();
    let ghost all = uses.deep_view();
    let ghost vs = variables.deep_view();
    let mut ok = true;
    let mut i: usize = 0;
    assert(start + Seq::<EditView>::empty() =~= start);
    while i < uses.len()
        invariant
            i <= uses.len(),
            all == uses.deep_view(),
            vs == variables.deep_view(),
            match variable_edits(vs, all.take(i as int)) {
                Some(edits) => ok && out.deep_view() == start + edits,
                None => !ok,
            },
        decreases uses.len() - i,
    {
        proof {
            assert(all.take(i + 1).drop_last() =~= all.take(i as int));
            assert(all.take(i + 1).last() == uses@[i as int]@);
        }
        let ghost before = out.deep_view();
        let ghost earlier = variable_edits(vs, all.take(i as int));
        match find_variable(variables, &uses[i].name) {
            Some(j) => {
                if ok {
                    let edit = Edit { span: uses[i].span, text: variables[j].new_name.clone() };
                    out.push(edit);
                    assert(out.deep_view() =~= before.push(edit@));
                    assert(start + earlier->0.push(edit@) =~= (start + earlier->0).push(edit@));
                }
            },
            None => {
                ok = false;
            },
        }
        i += 1;
    }
    assert(all.take(i as int) =~= all);
    ok
}

fn edits_of_calls(
    functions: &Vec<TranslatedFunction>,
    name: &String,
    new_name: &String,
    calls: &Vec<Identifier>,
    out: &mut Vec<Edit>,
) -> (ok: bool)
    ensures
        match call_edits(functions.deep_view(), name@, new_name@, calls.deep_view()) {
            Some(edits) => ok && final(out).deep_view() == old(out).deep_view() + edits,
            None => !ok,
        },
{
    let ghost start = out.deep_view();
    let ghost all = calls.deep_view();
    let ghost fs = functions.deep_view();
    let mut ok = true;
    let mut i: usize = 0;
    assert(start + Seq::<EditView>::empty() =~= start);
    while i < calls.len()
        invariant
            i <= calls.len(),
            all == calls.deep_view(),
            fs == functions.deep_view(),
            match call_edits(fs, name@, new_name@, all.take(i as int)) {
                Some(edits) => ok && out.deep_view() == start + edits,
                None => !ok,
            },
        decreases calls.len() - i,
    {
        proof {
            assert(all.take(i + 1).drop_last() =~= all.take(i as int));
            assert(all.take(i + 1).last() == calls@[i as int]@);
        }
        let ghost before = out.deep_view();
        let ghost earlier = call_edits(fs, name@, new_name@, all.take(i as int));
        if ok {
            let text = if calls[i].name == *name {
                Some(new_name.clone())
            } else {
                match find_translated(functions, &calls[i].name) {
                    Some(j) => Some(functions[j].name.clone()),
                    None => None,
                }
            };
            match text {
                Some(text) => {
                    let edit = Edit { span: calls[i].span, text };
                    out.push(edit);
                    assert(out.deep_view() =~= before.push(edit@));
                    assert(start + earlier->0.push(edit@) =~= (start + earlier->0).push(edit@));
                },
                None => {
                    ok = false;
                },
            }
        }
        i += 1;
    }
    assert(all.take(i as int) =~= all);
    ok
}

/// The edits that put the new names in a function.
pub fn edits(
    declared: &Vec<String>,
    variables: &Vec<TranslatedVariable>,
    functions: &Vec<TranslatedFunction>,
    f: &FunctionDefinition,
    new_name: &String,
) -> (r: Option<Vec<Edit>>)
    ensures
        r.deep_view() == edits_of(
            declared.deep_view(),
            variables.deep_view(),
            functions.deep_view(),
            f@,
            new_name@,
        ),
{
    let mut out: Vec<Edit> = Vec::new();
    out.push(Edit { span: f.name_span, text: new_name.clone() });
    assert(out.deep_view() =~= seq![EditView { span: f.name_span, text: new_name@ }]);
    let uses = uses_of(declared, f);
    let first = edits_of_uses(variables, &uses, &mut out);
    let ghost middle = out.deep_view();
    let second = edits_of_calls(functions, &f.name, new_name, &f.callees, &mut out);
    if first && second {
        Some(out)
    } else {
        None
    }
}

} // verus!
