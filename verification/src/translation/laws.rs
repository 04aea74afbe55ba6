//! What holds of a translator at every stage, and what follows from it.

use crate::graph::{comes_after_successors, has_post_order, is_graph, is_post_order};
use crate::graph::reach::reach_each_other;
use crate::graph::scc::{
    has_single_nodes, law_post_order_means_single_nodes, law_single_nodes_mean_post_order,
};
use crate::llm_client::reply::Comparison;
use crate::text::{has_prefix, joined, newline};
use crate::translation::program::{
    declared_names, function_names, lemma_position_from, position_of, DeclarationView, EditView,
    FunctionDefinitionView, IdentifierView, ProgramView,
};
use crate::translation::rules::{
    after, begin_functions, begin_variables, begins_with_signature, call_edits, call_graph,
    call_targets, callee_names, calls_of_others, candidate, checked_functions, checked_variables,
    commit, context_of, edits_of, function_at, function_signatures, function_texts, functions_of,
    global_names, global_uses, has_main, header, identifier_names, inserted, kept_functions,
    least_errors, local_calls, merged, next_signature, nonempty, on_checked, on_compared, on_fixed,
    on_function_translated, on_signatures_parsed, ordered, preamble_text, prepared, program_text,
    repaired_text, settled, signature_keys, text_before, tied, to_body, to_compare, to_fix,
    to_function, to_selection, to_variable, translated_names, unique_signatures, variable_edits,
    variable_names, variable_texts, variables_of, with_errors, with_uses, ALLOW_DEAD_CODE, MAIN,
    MAIN_STUB, TranslatorView,
};
use crate::translation::state::{
    EventView, JobView, ParsedSignatureView, StageView, TranslatedFunctionView,
    TranslatedVariableView, TypeCheckingResultView,
};
use vstd::prelude::*;

verus! {

// ---------------------------------------------------------------------------
// The invariant
// ---------------------------------------------------------------------------

/// All imports of the functions.
pub open spec fn all_uses(functions: Seq<TranslatedFunctionView>) -> Set<Seq<char>>
    decreases functions.len(),
{
    if functions.len() == 0 {
        Set::empty()
    } else {
        all_uses(functions.drop_last()).union(functions.last().uses.to_set())
    }
}

/// Every call in the program is a call of a function of the program.
pub open spec fn calls_are_local(functions: Seq<FunctionDefinitionView>) -> bool {
    forall|i: int, k: int|
        0 <= i < functions.len() && 0 <= k < functions[i].callees.len() ==> position_of(
            function_names(functions),
            (#[trigger] functions[i].callees[k]).name,
        ) is Some
}

/// The translated variable at `i` is that of the declaration at `i`, which
/// declares one variable.
pub open spec fn is_translation_of_declaration(
    declarations: Seq<DeclarationView>,
    variables: Seq<TranslatedVariableView>,
    i: int,
) -> bool {
    declarations[i].names.len() == 1 && variables[i].name == declarations[i].names[0]
}

/// The translated function at `i` is that of the function at `i` of the order.
pub open spec fn is_translation_of_function(
    definitions: Seq<FunctionDefinitionView>,
    order: Seq<usize>,
    functions: Seq<TranslatedFunctionView>,
    i: int,
) -> bool {
    functions[i].original == definitions[order[i] as int].name
}

/// What holds of the translations made so far: the order is a post-order of
/// the call graph; the translated variables are those of the first
/// declarations, and the translated functions those of the first functions of
/// the order; each translated function begins with the header of its
/// signature; and the imports of the program are those of its functions,
/// each once.
pub open spec fn tables_inv(t: TranslatorView) -> bool {
    &&& t.program.functions.len() <= usize::MAX
    &&& calls_are_local(t.program.functions)
    &&& is_post_order(call_graph(t.program.functions), t.order)
    &&& 1 <= t.signature_count <= 9
    &&& t.variables.len() <= t.program.variables.len()
    &&& forall|i: int|
        0 <= i < t.variables.len() ==> #[trigger] is_translation_of_declaration(
            t.program.variables,
            t.variables,
            i,
        )
    &&& t.functions.len() <= t.order.len()
    &&& forall|i: int|
        0 <= i < t.functions.len() ==> #[trigger] is_translation_of_function(
            t.program.functions,
            t.order,
            t.functions,
            i,
        )
    &&& forall|i: int|
        0 <= i < t.functions.len() ==> begins_with_signature(#[trigger] t.functions[i])
    &&& t.use_list.no_duplicates()
    &&& t.use_list.to_set() == all_uses(t.functions)
}

/// Every candidate is a candidate of the function `name`.
pub open spec fn are_candidates_of(candidates: Seq<TranslatedFunctionView>, name: Seq<char>) -> bool {
    forall|k: int| 0 <= k < candidates.len() ==> (#[trigger] candidates[k]).original == name
}

/// The job is done with what its function depends on: the global variables
/// that the function uses and the functions that it calls are translated,
/// and the job has their translations, what stands in for them when the
/// function is checked, and the imports of the program and the stub of
/// `main` as they are to stand before it.
pub open spec fn has_its_context(t: TranslatorView, job: JobView) -> bool {
    &&& context_of(
        declared_names(t.program.variables),
        t.variables,
        t.functions,
        function_at(t, job.position),
    ) == Some((job.prefix, job.dependencies))
    &&& job.preamble == preamble_text(
        t.use_list,
        has_main(t.functions, function_at(t, job.position).name),
    )
}

/// Every candidate begins with the header of its signature.
pub open spec fn begin_with_their_signatures(candidates: Seq<TranslatedFunctionView>) -> bool {
    forall|k: int| 0 <= k < candidates.len() ==> begins_with_signature(#[trigger] candidates[k])
}

/// What holds of a job: its function is the next to be translated, its
/// candidates are candidates of that function and begin with their
/// signatures, and it is done with what the function depends on.
pub open spec fn job_inv(t: TranslatorView, job: JobView) -> bool {
    &&& job.position == t.functions.len()
    &&& job.position < t.order.len()
    &&& job.taken <= job.signatures.len()
    &&& are_candidates_of(job.candidates, function_at(t, job.position).name)
    &&& begin_with_their_signatures(job.candidates)
    &&& has_its_context(t, job)
}

/// What holds of the stage.
pub open spec fn stage_inv(t: TranslatorView) -> bool {
    match t.stage {
        StageView::Idle => true,
        StageView::Failed { .. } => true,
        StageView::Variable { index } => index == t.variables.len() && index
            < t.program.variables.len() && t.program.variables[index as int].names.len() == 1,
        StageView::VariableParsed { index, .. } => index == t.variables.len() && index
            < t.program.variables.len() && t.program.variables[index as int].names.len() == 1,
        StageView::Name { job } => job_inv(t, job),
        StageView::Signatures { job } => job_inv(t, job),
        StageView::Keys { job, .. } => job_inv(t, job),
        StageView::Body { job } => job_inv(t, job) && job.taken < job.signatures.len(),
        StageView::Check { job, current, before, index } => {
            &&& job_inv(t, job)
            &&& job.taken < job.signatures.len()
            &&& current.original == function_at(t, job.position).name
            &&& match before {
                Some(b) => index < b.errors.len() && b.original == function_at(
                    t,
                    job.position,
                ).name && begins_with_signature(b),
                None => true,
            }
        },
        StageView::Fix { job, base, index } => {
            &&& job_inv(t, job)
            &&& job.taken < job.signatures.len()
            &&& index < base.errors.len()
            &&& base.original == function_at(t, job.position).name
            &&& begins_with_signature(base)
        },
        StageView::Compare { job, best, next } => job_inv(t, job) && best < next
            < job.candidates.len(),
    }
}

/// The translations made so far and the stage are as they should be.
pub open spec fn stages_hold(t: TranslatorView) -> bool {
    tables_inv(t) && stage_inv(t)
}

/// What holds of a translator at every stage: its translations and its
/// stage are as they should be, and it keeps to its job.
pub open spec fn inv(t: TranslatorView) -> bool {
    stages_hold(t) && keeps_to_its_job(t)
}

/// Two translators hold the same translations.
pub open spec fn same_tables(a: TranslatorView, b: TranslatorView) -> bool {
    &&& a.program == b.program
    &&& a.order == b.order
    &&& a.signature_count == b.signature_count
    &&& a.variables == b.variables
    &&& a.functions == b.functions
    &&& a.use_list == b.use_list
}

// ---------------------------------------------------------------------------
// Lists
// ---------------------------------------------------------------------------

/// A name has a position in a list exactly where the list holds it.
pub proof fn lemma_position_of(names: Seq<Seq<char>>, name: Seq<char>)
    ensures
        position_of(names, name) is Some <==> names.contains(name),
        position_of(names, name) matches Some(i) ==> 0 <= i < names.len() && names[i] == name,
{
    lemma_position_from(names, name, 0);
    if names.contains(name) {
        let j = choose|j: int| 0 <= j < names.len() && names[j] == name;
        assert(names[j] == name);
    }
}

/// Merging keeps a list free of repetitions and adds the members of the
/// other list to its members.
pub proof fn lemma_merged(list: Seq<Seq<char>>, more: Seq<Seq<char>>)
    requires
        list.no_duplicates(),
    ensures
        merged(list, more).no_duplicates(),
        merged(list, more).to_set() == list.to_set().union(more.to_set()),
    decreases more.len(),
{
    if more.len() == 0 {
        assert(more.to_set() =~= Set::empty());
        assert(list.to_set().union(more.to_set()) =~= list.to_set());
    } else {
        let earlier = merged(list, more.drop_last());
        let last = more.last();
        lemma_merged(list, more.drop_last());
        lemma_position_of(earlier, last);
        let result = merged(list, more);
        assert forall|a: Seq<char>| more.to_set().contains(a) <==> (more.drop_last().to_set().contains(
            a,
        ) || a == last) by {
            if more.contains(a) {
                let j = choose|j: int| 0 <= j < more.len() && more[j] == a;
                if j < more.len() - 1 {
                    assert(more.drop_last()[j] == a);
                }
            }
            if more.drop_last().contains(a) {
                let j = choose|j: int| 0 <= j < more.drop_last().len() && more.drop_last()[j] == a;
                assert(more[j] == a);
            }
            if a == last {
                assert(more[more.len() - 1] == a);
            }
        }
        if position_of(earlier, last) is Some {
            assert(result.to_set() =~= list.to_set().union(more.to_set()));
        } else {
            assert(result == earlier.push(last));
            assert forall|a: Seq<char>| result.to_set().contains(a) <==> (earlier.to_set().contains(
                a,
            ) || a == last) by {
                if result.contains(a) {
                    let j = choose|j: int| 0 <= j < result.len() && result[j] == a;
                    if j < earlier.len() {
                        assert(earlier[j] == a);
                    }
                }
                if earlier.contains(a) {
                    let j = choose|j: int| 0 <= j < earlier.len() && earlier[j] == a;
                    assert(result[j] == a);
                }
                if a == last {
                    assert(result[result.len() - 1] == a);
                }
            }
            assert(result.to_set() =~= list.to_set().union(more.to_set()));
            assert forall|a: int, b: int|
                0 <= a < result.len() && 0 <= b < result.len() && a != b implies result[a]
                != result[b] by {
                if a < earlier.len() && b < earlier.len() {
                    assert(earlier[a] != earlier[b]);
                } else if a < earlier.len() {
                    assert(earlier.contains(earlier[a]));
                } else if b < earlier.len() {
                    assert(earlier.contains(earlier[b]));
                }
            }
        }
    }
}

/// The candidates of a number of complaints are among the candidates.
pub proof fn lemma_with_errors(candidates: Seq<TranslatedFunctionView>, count: nat)
    ensures
        forall|k: int|
            0 <= k < with_errors(candidates, count).len() ==> candidates.contains(
                #[trigger] with_errors(candidates, count)[k],
            ),
        (exists|j: int| 0 <= j < candidates.len() && candidates[j].errors.len() == count)
            ==> with_errors(candidates, count).len() > 0,
    decreases candidates.len(),
{
    if candidates.len() > 0 {
        let rest = candidates.drop_last();
        let last = candidates.last();
        lemma_with_errors(rest, count);
        let found = with_errors(candidates, count);
        assert forall|k: int| 0 <= k < found.len() implies candidates.contains(#[trigger] found[k]) by {
            if k < with_errors(rest, count).len() {
                let c = with_errors(rest, count)[k];
                assert(rest.contains(c));
                let j = choose|j: int| 0 <= j < rest.len() && rest[j] == c;
                assert(candidates[j] == c);
            } else {
                assert(candidates[candidates.len() - 1] == last);
            }
        }
        if exists|j: int| 0 <= j < candidates.len() && candidates[j].errors.len() == count {
            let j = choose|j: int| 0 <= j < candidates.len() && candidates[j].errors.len() == count;
            if j < rest.len() {
                assert(rest[j].errors.len() == count);
            }
        }
    }
}

/// The least number of complaints is that of some candidate.
pub proof fn lemma_least_errors(candidates: Seq<TranslatedFunctionView>)
    requires
        candidates.len() > 0,
    ensures
        exists|j: int|
            0 <= j < candidates.len() && candidates[j].errors.len() == least_errors(candidates),
        forall|j: int|
            0 <= j < candidates.len() ==> least_errors(candidates) <= candidates[j].errors.len(),
    decreases candidates.len(),
{
    if candidates.len() == 1 {
        assert(candidates[0].errors.len() == least_errors(candidates));
    } else {
        let rest = candidates.drop_last();
        lemma_least_errors(rest);
        let j = choose|j: int| 0 <= j < rest.len() && rest[j].errors.len() == least_errors(rest);
        assert(candidates[j] == rest[j]);
        assert(candidates[candidates.len() - 1] == candidates.last());
        assert forall|j: int| 0 <= j < candidates.len() implies least_errors(candidates)
            <= candidates[j].errors.len() by {
            if j < rest.len() {
                assert(candidates[j] == rest[j]);
            }
        }
    }
}

/// Of candidates, some are tied for the least number of complaints, and
/// those that are tied are among the candidates.
pub proof fn lemma_tied(candidates: Seq<TranslatedFunctionView>)
    requires
        candidates.len() > 0,
    ensures
        tied(candidates).len() > 0,
        forall|k: int|
            0 <= k < tied(candidates).len() ==> candidates.contains(#[trigger] tied(candidates)[k]),
{
    lemma_least_errors(candidates);
    lemma_with_errors(candidates, least_errors(candidates));
}

// ---------------------------------------------------------------------------
// The stages keep the invariant
// ---------------------------------------------------------------------------

pub proof fn lemma_to_variable(t: TranslatorView, index: nat)
    requires
        tables_inv(t),
        index == t.variables.len(),
    ensures
        stages_hold(to_variable(t, index).0),
        same_tables(to_variable(t, index).0, t),
{
}

pub proof fn lemma_to_function(t: TranslatorView, position: nat)
    requires
        tables_inv(t),
        position == t.functions.len(),
    ensures
        stages_hold(to_function(t, position).0),
        same_tables(to_function(t, position).0, t),
{
}

pub proof fn lemma_commit(t: TranslatorView, job: JobView, chosen: TranslatedFunctionView)
    requires
        tables_inv(t),
        job_inv(t, job),
        chosen.original == function_at(t, job.position).name,
        begins_with_signature(chosen),
    ensures
        stages_hold(commit(t, job, chosen).0),
{
    let next = TranslatorView {
        functions: t.functions.push(chosen),
        use_list: merged(t.use_list, chosen.uses),
        ..t
    };
    lemma_merged(t.use_list, chosen.uses);
    assert(next.functions.drop_last() =~= t.functions);
    assert(next.functions.last() == chosen);
    assert forall|i: int| 0 <= i < next.functions.len() implies #[trigger] is_translation_of_function(
        next.program.functions,
        next.order,
        next.functions,
        i,
    ) by {
        if i < t.functions.len() {
            assert(is_translation_of_function(t.program.functions, t.order, t.functions, i));
            assert(next.functions[i] == t.functions[i]);
        }
    }
    assert forall|i: int| 0 <= i < next.functions.len() implies begins_with_signature(
        #[trigger] next.functions[i],
    ) by {
        if i < t.functions.len() {
            assert(next.functions[i] == t.functions[i]);
        }
    }
    assert(tables_inv(next));
    lemma_to_function(next, job.position + 1);
}

pub proof fn lemma_to_compare(t: TranslatorView, job: JobView, best: nat, next: nat)
    requires
        tables_inv(t),
        job_inv(t, job),
        best < next,
        best < job.candidates.len(),
    ensures
        stages_hold(to_compare(t, job, best, next).0),
{
    if next >= job.candidates.len() {
        assert(begins_with_signature(job.candidates[best as int]));
        lemma_commit(t, job, job.candidates[best as int]);
    }
}

pub proof fn lemma_to_selection(t: TranslatorView, job: JobView)
    requires
        tables_inv(t),
        job_inv(t, job),
    ensures
        stages_hold(to_selection(t, job).0),
{
    if job.candidates.len() > 0 {
        lemma_tied(job.candidates);
        let chosen = JobView { candidates: tied(job.candidates), ..job };
        assert forall|k: int| 0 <= k < chosen.candidates.len() implies (
        #[trigger] chosen.candidates[k]).original == function_at(t, job.position).name
            && begins_with_signature(chosen.candidates[k]) by {
            let c = chosen.candidates[k];
            assert(job.candidates.contains(c));
            let j = choose|j: int| 0 <= j < job.candidates.len() && job.candidates[j] == c;
            assert(job.candidates[j].original == function_at(t, job.position).name);
            assert(begins_with_signature(job.candidates[j]));
        }
        lemma_to_compare(t, chosen, 0, 1);
    }
}

pub proof fn lemma_to_body(t: TranslatorView, job: JobView)
    requires
        tables_inv(t),
        job_inv(t, job),
    ensures
        stages_hold(to_body(t, job).0),
{
    if job.taken >= job.signatures.len() {
        lemma_to_selection(t, job);
    }
}

pub proof fn lemma_to_fix(t: TranslatorView, job: JobView, base: TranslatedFunctionView, index: nat)
    requires
        tables_inv(t),
        job_inv(t, job),
        job.taken < job.signatures.len(),
        base.original == function_at(t, job.position).name,
        begins_with_signature(base),
    ensures
        stages_hold(to_fix(t, job, base, index).0),
{
    if index >= base.errors.len() {
        let done = JobView { candidates: job.candidates.push(base), taken: job.taken + 1, ..job };
        assert forall|k: int| 0 <= k < done.candidates.len() implies (#[trigger] done.candidates[k]).original
            == function_at(t, job.position).name && begins_with_signature(done.candidates[k]) by {
            if k < job.candidates.len() {
                assert(done.candidates[k] == job.candidates[k]);
            }
        }
        lemma_to_body(t, done);
    }
}

proof fn lemma_stages_begin(t: TranslatorView)
    requires
        stages_hold(t),
    ensures
        stages_hold(begin_variables(t).0),
        stages_hold(begin_functions(t).0),
{
    if t.stage is Idle {
        lemma_to_variable(t, t.variables.len());
        lemma_to_function(t, t.functions.len());
    }
}

proof fn lemma_stages_after(t: TranslatorView, event: EventView)
    requires
        stages_hold(t),
    ensures
        stages_hold(after(t, event).0),
{
    match (t.stage, event) {
        (StageView::Variable { index }, EventView::VariableTranslated { text }) => {},
        (
            StageView::VariableParsed { index, translated },
            EventView::VariableParsed { declared },
        ) => {
            let d = t.program.variables[index as int];
            if !(declared.len() != 1 || d.names.len() != 1) {
                let next = TranslatorView {
                    variables: t.variables.push(
                        TranslatedVariableView {
                            name: d.names[0],
                            new_name: declared[0].0,
                            ty: declared[0].1,
                            text: translated,
                        },
                    ),
                    ..t
                };
                assert forall|i: int| 0 <= i < next.variables.len() implies #[trigger] is_translation_of_declaration(
                    next.program.variables,
                    next.variables,
                    i,
                ) by {
                    if i < t.variables.len() {
                        assert(is_translation_of_declaration(t.program.variables, t.variables, i));
                        assert(next.variables[i] == t.variables[i]);
                    }
                }
                lemma_to_variable(next, index + 1);
            }
        },
        (StageView::Name { job }, EventView::Renamed { name }) => {},
        (StageView::Signatures { job }, EventView::Signatures { signatures }) => {},
        (StageView::Keys { job, count }, EventView::SignaturesParsed { parsed }) => {
            let fresh = JobView {
                signatures: unique_signatures(parsed),
                taken: 0,
                ..job
            };
            lemma_to_body(t, fresh);
        },
        (StageView::Body { job }, EventView::FunctionTranslated { body }) => {
            lemma_to_body(t, next_signature(job));
        },
        (StageView::Check { job, current, before, index }, EventView::Checked { result }) => {
            let now = settled(current, result);
            if begins_with_signature(now) {
                lemma_to_fix(t, job, now, 0);
            }
            lemma_to_body(t, next_signature(job));
            match before {
                Some(b) => {
                    lemma_to_fix(t, job, b, index + 1);
                },
                None => {},
            }
        },
        (StageView::Fix { job, base, index }, EventView::Fixed { repaired }) => {
            lemma_to_fix(t, job, base, index + 1);
        },
        (StageView::Compare { job, best, next }, EventView::Compared { preference }) => {
            lemma_to_compare(t, job, best, next + 1);
            lemma_to_compare(t, job, next, next + 1);
        },
        _ => {},
    }
}

/// The translator with the chosen candidate of its job among its functions
/// holds its translations rightly.
pub proof fn lemma_committed(t: TranslatorView, job: JobView, chosen: TranslatedFunctionView)
    requires
        tables_inv(t),
        job_inv(t, job),
        chosen.original == function_at(t, job.position).name,
        begins_with_signature(chosen),
    ensures
        tables_inv(
            TranslatorView {
                functions: t.functions.push(chosen),
                use_list: merged(t.use_list, chosen.uses),
                ..t
            },
        ),
{
    let next = TranslatorView {
        functions: t.functions.push(chosen),
        use_list: merged(t.use_list, chosen.uses),
        ..t
    };
    lemma_merged(t.use_list, chosen.uses);
    assert(next.functions.drop_last() =~= t.functions);
    assert(next.functions.last() == chosen);
    assert forall|i: int| 0 <= i < next.functions.len() implies #[trigger] is_translation_of_function(
        next.program.functions,
        next.order,
        next.functions,
        i,
    ) by {
        if i < t.functions.len() {
            assert(is_translation_of_function(t.program.functions, t.order, t.functions, i));
            assert(next.functions[i] == t.functions[i]);
        }
    }
    assert forall|i: int| 0 <= i < next.functions.len() implies begins_with_signature(
        #[trigger] next.functions[i],
    ) by {
        if i < t.functions.len() {
            assert(next.functions[i] == t.functions[i]);
        }
    }
}

/// The calls that are kept are calls of functions of the given names.
pub proof fn lemma_local_calls(names: Seq<Seq<char>>, callees: Seq<IdentifierView>)
    ensures
        forall|k: int|
            0 <= k < local_calls(names, callees).len() ==> position_of(
                names,
                (#[trigger] local_calls(names, callees)[k]).name,
            ) is Some,
    decreases callees.len(),
{
    if callees.len() > 0 {
        lemma_local_calls(names, callees.drop_last());
        let rest = local_calls(names, callees.drop_last());
        let all = local_calls(names, callees);
        assert forall|k: int| 0 <= k < all.len() implies position_of(names, (#[trigger] all[k]).name) is Some by {
            if k < rest.len() {
                assert(all[k] == rest[k]);
            }
        }
    }
}

/// In a program made ready every call is a call of a function of the program.
pub proof fn lemma_prepared_is_local(program: ProgramView)
    ensures
        calls_are_local(prepared(program).functions),
{
    let kept = kept_functions(program.functions);
    let names = function_names(kept);
    let functions = prepared(program).functions;
    assert(function_names(functions) =~= names);
    assert forall|i: int, k: int|
        0 <= i < functions.len() && 0 <= k < functions[i].callees.len() implies position_of(
        function_names(functions),
        (#[trigger] functions[i].callees[k]).name,
    ) is Some by {
        lemma_local_calls(names, kept[i].callees);
    }
}

// ---------------------------------------------------------------------------
// Laws
// ---------------------------------------------------------------------------

/// Where every call is a call of a function of the given names, the
/// targets of the calls are the numbers of those functions, call by call.
pub proof fn lemma_call_targets(names: Seq<Seq<char>>, callees: Seq<IdentifierView>)
    requires
        names.len() <= usize::MAX,
        forall|k: int|
            0 <= k < callees.len() ==> position_of(names, (#[trigger] callees[k]).name) is Some,
    ensures
        call_targets(names, callees).len() == callees.len(),
        forall|k: int|
            0 <= k < callees.len() ==> (#[trigger] call_targets(
                names,
                callees,
            )[k]) as int == position_of(names, callees[k].name)->0,
    decreases callees.len(),
{
    if callees.len() > 0 {
        let rest = callees.drop_last();
        assert forall|k: int| 0 <= k < rest.len() implies position_of(
            names,
            (#[trigger] rest[k]).name,
        ) is Some by {
            assert(rest[k] == callees[k]);
        }
        lemma_call_targets(names, rest);
        let last = callees.last();
        assert(callees[callees.len() - 1] == last);
        lemma_position_of(names, last.name);
        let all = call_targets(names, callees);
        let earlier = call_targets(names, rest);
        assert forall|k: int| 0 <= k < callees.len() implies (#[trigger] all[k]) as int
            == position_of(names, callees[k].name)->0 by {
            if k < rest.len() {
                assert(all[k] == earlier[k]);
                assert(rest[k] == callees[k]);
            }
        }
    }
}

/// Every other function that a function calls stands before it in the
/// order of translation. So when a function is translated, the functions it
/// calls are translated already, and they stand before it in the program.
pub proof fn law_callees_are_translated_first(t: TranslatorView, p: int, k: int)
    requires
        tables_inv(t),
        0 <= p < t.order.len(),
        p <= t.functions.len(),
        0 <= k < function_at(t, p as nat).callees.len(),
        function_at(t, p as nat).callees[k].name != function_at(t, p as nat).name,
    ensures
        exists|q: int|
            0 <= q < p && (#[trigger] t.functions[q]).original == function_at(
                t,
                p as nat,
            ).callees[k].name,
{
    let definitions = t.program.functions;
    let names = function_names(definitions);
    let graph = call_graph(definitions);
    let u = t.order[p];
    let f = definitions[u as int];
    let callee = f.callees[k];
    assert forall|j: int| 0 <= j < f.callees.len() implies position_of(
        names,
        (#[trigger] f.callees[j]).name,
    ) is Some by {
        assert(position_of(names, definitions[u as int].callees[j].name) is Some);
    }
    lemma_call_targets(names, f.callees);
    lemma_position_of(names, callee.name);
    let m = graph[u as int][k];
    assert(m as int == position_of(names, callee.name)->0);
    assert(names[m as int] == definitions[m as int].name);
    assert(names[u as int] == definitions[u as int].name);
    assert(m != u);
    assert(comes_after_successors(graph, t.order, p));
    let q = choose|q: int| 0 <= q < p && t.order[q] == graph[t.order[p] as int][k];
    assert(is_translation_of_function(definitions, t.order, t.functions, q));
    assert(t.functions[q].original == callee.name);
}

/// A translation becomes a candidate only where it begins with its
/// signature up to the body.
pub proof fn law_candidates_begin_with_their_signature(
    t: TranslatorView,
    job: JobView,
    body: Seq<char>,
)
    ensures
        on_function_translated(
            t,
            job,
            Some(body),
        ).0.stage matches StageView::Check { current, .. } ==> current.translated == body
            && has_prefix(
            current.translated,
            header(current.signature),
        ),
{
}

/// Every translated function begins with its signature up to the body,
/// whatever is reported next: a candidate that the compiler or a repair
/// has changed so that it no longer does is never chosen.
pub proof fn law_functions_begin_with_their_signatures(t: TranslatorView, event: EventView, i: int)
    requires
        inv(t),
        0 <= i < after(t, event).0.functions.len(),
    ensures
        has_prefix(
            after(t, event).0.functions[i].translated,
            header(after(t, event).0.functions[i].signature),
        ),
{
    lemma_after(t, event);
    assert(begins_with_signature(after(t, event).0.functions[i]));
}

/// The imports of a function are among all imports of functions.
pub proof fn lemma_all_uses(functions: Seq<TranslatedFunctionView>, i: int)
    requires
        0 <= i < functions.len(),
    ensures
        functions[i].uses.to_set().subset_of(all_uses(functions)),
    decreases functions.len(),
{
    if i < functions.len() - 1 {
        lemma_all_uses(functions.drop_last(), i);
        assert(functions.drop_last()[i] == functions[i]);
    }
}

/// The imports of the program are the union of the imports of its
/// functions, each once.
pub proof fn law_imports_are_the_union(t: TranslatorView)
    requires
        inv(t),
    ensures
        t.use_list.to_set() == all_uses(t.functions),
        t.use_list.no_duplicates(),
        forall|i: int|
            0 <= i < t.functions.len() ==> (#[trigger] t.functions[i]).uses.to_set().subset_of(
                t.use_list.to_set(),
            ),
{
    assert forall|i: int| 0 <= i < t.functions.len() implies (
    #[trigger] t.functions[i]).uses.to_set().subset_of(t.use_list.to_set()) by {
        lemma_all_uses(t.functions, i);
    }
}

/// A program without functions is translated to its global variables and a
/// stub of `main`.
pub proof fn law_program_without_functions(t: TranslatorView)
    requires
        inv(t),
        t.program.functions.len() == 0,
    ensures
        t.functions.len() == 0,
        t.use_list.len() == 0,
        program_text(t) == newline()
            + joined(
            variable_texts(t.variables),
            newline(),
        ) + newline() + newline() + MAIN_STUB@,
{
    assert(call_graph(t.program.functions).len() == 0);
    assert(t.functions.len() == 0);
    if t.use_list.len() > 0 {
        assert(t.use_list.contains(t.use_list[0]));
        assert(t.use_list.to_set().contains(t.use_list[0]));
    }
    let none = Seq::<Seq<char>>::empty();
    assert(t.use_list =~= none);
    assert(function_texts(t.functions) =~= none);
    assert(translated_names(t.functions) =~= none);
    assert(joined(none, newline()) =~= Seq::<char>::empty());
    assert(program_text(t) =~= newline()
        + joined(
        variable_texts(t.variables),
        newline(),
    ) + newline() + newline() + MAIN_STUB@);
}

/// A program of which a function called `main` is translated has no stub of `main`.
pub proof fn law_program_with_main(t: TranslatorView, i: int)
    requires
        0 <= i < t.functions.len(),
        t.functions[i].original == MAIN@,
    ensures
        program_text(t) == joined(
            t.use_list,
            newline(),
        ) + newline() + joined(
            variable_texts(t.variables),
            newline(),
        ) + newline() + joined(
            function_texts(t.functions),
            newline(),
        ) + newline(),
{
    let names = translated_names(t.functions);
    assert(names[i] == MAIN@);
    assert(names.contains(MAIN@));
    lemma_position_of(names, MAIN@);
    let body = joined(t.use_list, newline()) + newline()
        + joined(
        variable_texts(t.variables),
        newline(),
    ) + newline() + joined(
        function_texts(t.functions),
        newline(),
    ) + newline();
    assert(body + Seq::<char>::empty() =~= body);
}

/// A program whose only function is `main` is translated to its imports,
/// its global variables and the translation of `main`, without a stub.
pub proof fn law_program_of_main_alone(t: TranslatorView)
    requires
        inv(t),
        t.program.functions.len() == 1,
        t.program.functions[0].name == MAIN@,
        t.functions.len() == 1,
    ensures
        program_text(t) == joined(
            t.use_list,
            newline(),
        ) + newline() + joined(
            variable_texts(t.variables),
            newline(),
        ) + newline() + t.functions[0].translated + newline(),
{
    assert(is_translation_of_function(t.program.functions, t.order, t.functions, 0));
    assert(call_graph(t.program.functions).len() == 1);
    assert(t.order[0] < 1);
    law_program_with_main(t, 0);
    let texts = function_texts(t.functions);
    assert(texts.len() == 1);
    assert(texts[0] == t.functions[0].translated);
}

/// Leaving out the empty texts of a list with one more text.
pub proof fn lemma_nonempty_push(parts: Seq<Seq<char>>, last: Seq<char>)
    ensures
        nonempty(parts.push(last)) == if last.len() == 0 {
            nonempty(parts)
        } else {
            nonempty(parts).push(last)
        },
{
    let all = parts.push(last);
    assert(all.drop_last() =~= parts);
    assert(all.last() == last);
    assert(nonempty(parts) + seq![last]
        =~= nonempty(parts).push(last));
}

/// A function that calls no function and uses no global variable is
/// translated with nothing that it depends on, and what stands in for its
/// dependencies when it is checked is the leave to be unused on a line,
/// and no more.
pub proof fn law_prefix_without_dependencies(
    declared: Seq<Seq<char>>,
    variables: Seq<TranslatedVariableView>,
    functions: Seq<TranslatedFunctionView>,
    f: FunctionDefinitionView,
)
    requires
        f.callees.len() == 0,
        global_uses(declared, f).len() == 0,
    ensures
        context_of(declared, variables, functions, f) == Some(
            (ALLOW_DEAD_CODE@ + newline(), Seq::<Seq<char>>::empty()),
        ),
{
    let none = Seq::<Seq<char>>::empty();
    let no_text = Seq::<char>::empty();
    let nl = newline();
    assert(identifier_names(
        global_uses(declared, f),
    ) =~= none);
    assert(global_names(declared, f) == none);
    assert(calls_of_others(f) =~= Seq::<IdentifierView>::empty());
    assert(identifier_names(
        calls_of_others(f),
    ) =~= none);
    assert(callee_names(f) == none);
    let used = Seq::<TranslatedVariableView>::empty();
    let called = Seq::<TranslatedFunctionView>::empty();
    assert(variables_of(variables, none) == Some(used));
    assert(functions_of(functions, none) == Some(called));
    assert(checked_variables(used) == Some(none));
    assert(checked_functions(called) =~= none);
    assert(variable_texts(used)
        + function_signatures(called) =~= none);
    reveal_strlit("#[allow(dead_code)]");
    let leave = ALLOW_DEAD_CODE@;
    assert(joined(none, nl) =~= no_text);
    let parts = seq![no_text, no_text, leave];
    let p0 = Seq::<Seq<char>>::empty();
    assert(nonempty(p0) =~= none);
    lemma_nonempty_push(p0, no_text);
    let p1 = p0.push(no_text);
    lemma_nonempty_push(p1, no_text);
    let p2 = p1.push(no_text);
    lemma_nonempty_push(p2, leave);
    assert(p2.push(leave) =~= parts);
    assert(nonempty(parts) =~= seq![leave]);
    assert(joined(seq![leave], nl) == leave);
}

/// Every call of the call graph goes to a function of the program.
pub proof fn lemma_call_targets_are_functions(names: Seq<Seq<char>>, callees: Seq<IdentifierView>)
    requires
        names.len() <= usize::MAX,
    ensures
        forall|k: int|
            0 <= k < call_targets(names, callees).len()
                ==> #[trigger] call_targets(names, callees)[k]
                < names.len(),
    decreases callees.len(),
{
    if callees.len() > 0 {
        lemma_call_targets_are_functions(names, callees.drop_last());
        lemma_position_of(names, callees.last().name);
        let all = call_targets(names, callees);
        let rest = call_targets(names, callees.drop_last());
        assert forall|k: int| 0 <= k < all.len() implies #[trigger] all[k] < names.len() by {
            if k < rest.len() {
                assert(all[k] == rest[k]);
            }
        }
    }
}

/// No two functions of a program that is being translated call each other
/// in a circle: functions that reach each other in the call graph are one
/// function.
pub proof fn law_no_mutual_recursion(t: TranslatorView, u: int, v: int)
    requires
        tables_inv(t),
        reach_each_other(call_graph(t.program.functions), u, v),
    ensures
        u == v,
{
    let functions = t.program.functions;
    let graph = call_graph(functions);
    assert(is_graph(graph)) by {
        assert forall|i: int, k: int| 0 <= i < graph.len() && 0 <= k < graph[i].len() implies #[trigger] graph[i][k]
            < graph.len() by {
            lemma_call_targets_are_functions(function_names(functions), functions[i].callees);
        }
    }
    law_post_order_means_single_nodes(graph, t.order, u, v);
}

/// The functions of a program can be put in an order of translation
/// exactly where no two of them call each other in a circle: so a program
/// is refused for mutual recursion on those grounds and on no other.
pub proof fn law_mutual_recursion_is_what_is_refused(functions: Seq<FunctionDefinitionView>)
    requires
        functions.len() <= usize::MAX,
    ensures
        has_post_order(call_graph(functions)) <==> has_single_nodes(call_graph(functions)),
{
    let graph = call_graph(functions);
    assert(is_graph(graph)) by {
        assert forall|i: int, k: int| 0 <= i < graph.len() && 0 <= k < graph[i].len() implies #[trigger] graph[i][k]
            < graph.len() by {
            lemma_call_targets_are_functions(function_names(functions), functions[i].callees);
        }
    }
    if has_post_order(graph) {
        let order = choose|order: Seq<usize>| is_post_order(graph, order);
        assert forall|u: int, v: int| #[trigger] reach_each_other(graph, u, v) implies u == v by {
            law_post_order_means_single_nodes(graph, order, u, v);
        }
    }
    if has_single_nodes(graph) {
        law_single_nodes_mean_post_order(graph);
    }
}

/// While a function is translated, the global variables that it uses and
/// the other functions that it calls are translated already.
pub proof fn law_dependencies_are_translated(t: TranslatorView, job: JobView)
    requires
        job_inv(t, job),
    ensures
        variables_of(
            t.variables,
            global_names(
                declared_names(t.program.variables),
                function_at(t, job.position),
            ),
        ) is Some,
        functions_of(
            t.functions,
            callee_names(function_at(t, job.position)),
        ) is Some,
{
}

/// The names stand in the order of the dictionary, each before the next.
pub open spec fn is_sorted(names: Seq<Seq<char>>) -> bool {
    forall|i: int, j: int| 0 <= i < j < names.len() ==> text_before(names[i], names[j])
}

/// No text comes before itself.
pub proof fn lemma_text_before_itself(a: Seq<char>)
    ensures
        !text_before(a, a),
    decreases a.len(),
{
    if a.len() > 0 {
        lemma_text_before_itself(a.drop_first());
    }
}

/// Of two texts one comes before the other or they are the same, and
/// never both come before each other.
pub proof fn lemma_text_before_orders(a: Seq<char>, b: Seq<char>)
    ensures
        a == b || text_before(a, b) || text_before(b, a),
        !(text_before(a, b) && text_before(b, a)),
        !text_before(a, a),
    decreases a.len(),
{
    lemma_text_before_itself(a);
    if a.len() > 0 && b.len() > 0 {
        lemma_text_before_orders(a.drop_first(), b.drop_first());
        if a[0] == b[0] && a.drop_first() == b.drop_first() {
            assert(a.len() == b.len()) by {
                assert(a.drop_first().len() == a.len() - 1);
                assert(b.drop_first().len() == b.len() - 1);
            }
            assert forall|i: int| 0 <= i < a.len() implies a[i] == b[i] by {
                if i > 0 {
                    assert(a[i] == a.drop_first()[i - 1]);
                    assert(b[i] == b.drop_first()[i - 1]);
                }
            }
            assert(a =~= b);
        }
    } else if a.len() == 0 && b.len() == 0 {
        assert(a =~= b);
    }
}

/// What comes before a text comes before what that text comes before.
pub proof fn lemma_text_before_passes_on(a: Seq<char>, b: Seq<char>, c: Seq<char>)
    requires
        text_before(a, b),
        text_before(b, c),
    ensures
        text_before(a, c),
    decreases a.len(),
{
    if a.len() > 0 && b.len() > 0 && c.len() > 0 {
        if a[0] == b[0] && b[0] == c[0] {
            lemma_text_before_passes_on(a.drop_first(), b.drop_first(), c.drop_first());
        }
    }
}

/// A name put at its place in a sorted list leaves the list sorted, and
/// adds itself to its members.
pub proof fn lemma_inserted(sorted: Seq<Seq<char>>, name: Seq<char>)
    requires
        is_sorted(sorted),
    ensures
        is_sorted(inserted(sorted, name)),
        inserted(sorted, name).to_set() == sorted.to_set().insert(name),
    decreases sorted.len(),
{
    let result = inserted(sorted, name);
    if sorted.len() == 0 {
        assert(result =~= seq![name]);
        assert(result[0] == name);
        assert(result.to_set() =~= sorted.to_set().insert(name));
    } else if sorted.last() == name {
        assert(sorted[sorted.len() - 1] == name);
        assert(result.to_set() =~= sorted.to_set().insert(name));
    } else if text_before(sorted.last(), name) {
        assert forall|i: int, j: int| 0 <= i < j < result.len() implies text_before(
            result[i],
            result[j],
        ) by {
            if j == sorted.len() {
                if i < sorted.len() - 1 {
                    assert(text_before(sorted[i], sorted[sorted.len() - 1]));
                    lemma_text_before_passes_on(sorted[i], sorted.last(), name);
                }
            } else {
                assert(text_before(sorted[i], sorted[j]));
            }
        }
        assert forall|a: Seq<char>| result.to_set().contains(a) <==> sorted.to_set().insert(
            name,
        ).contains(a) by {
            if result.contains(a) {
                let q = choose|q: int| 0 <= q < result.len() && result[q] == a;
                if q < sorted.len() {
                    assert(sorted[q] == a);
                }
            }
            if sorted.contains(a) {
                let q = choose|q: int| 0 <= q < sorted.len() && sorted[q] == a;
                assert(result[q] == a);
            }
            if a == name {
                assert(result[result.len() - 1] == a);
            }
        }
        assert(result.to_set() =~= sorted.to_set().insert(name));
    } else {
        let rest = sorted.drop_last();
        let last = sorted.last();
        assert(is_sorted(rest)) by {
            assert forall|i: int, j: int| 0 <= i < j < rest.len() implies text_before(
                rest[i],
                rest[j],
            ) by {
                assert(text_before(sorted[i], sorted[j]));
            }
        }
        lemma_inserted(rest, name);
        lemma_text_before_orders(last, name);
        let inner = inserted(rest, name);
        assert(result == inner.push(last));
        assert forall|i: int, j: int| 0 <= i < j < result.len() implies text_before(
            result[i],
            result[j],
        ) by {
            if j < inner.len() {
                assert(text_before(inner[i], inner[j]));
            } else {
                let x = inner[i];
                assert(inner.contains(x));
                assert(inner.to_set().contains(x));
                if x == name {
                } else {
                    assert(rest.to_set().contains(x));
                    let q = choose|q: int| 0 <= q < rest.len() && rest[q] == x;
                    assert(text_before(sorted[q], sorted[sorted.len() - 1]));
                }
            }
        }
        assert forall|a: Seq<char>| result.to_set().contains(a) <==> sorted.to_set().insert(
            name,
        ).contains(a) by {
            if result.contains(a) {
                let q = choose|q: int| 0 <= q < result.len() && result[q] == a;
                if q < inner.len() {
                    assert(inner.contains(inner[q]));
                    assert(inner.to_set().contains(a));
                    if a != name {
                        assert(rest.to_set().contains(a));
                        let r = choose|r: int| 0 <= r < rest.len() && rest[r] == a;
                        assert(sorted[r] == a);
                    }
                } else {
                    assert(sorted[sorted.len() - 1] == a);
                }
            }
            if sorted.contains(a) {
                let q = choose|q: int| 0 <= q < sorted.len() && sorted[q] == a;
                if q < rest.len() {
                    assert(rest[q] == a);
                    assert(rest.contains(a));
                    assert(inner.to_set().contains(a));
                    let r = choose|r: int| 0 <= r < inner.len() && inner[r] == a;
                    assert(result[r] == a);
                } else {
                    assert(result[result.len() - 1] == a);
                }
            }
            if a == name {
                assert(inner.to_set().contains(a));
                let r = choose|r: int| 0 <= r < inner.len() && inner[r] == a;
                assert(result[r] == a);
            }
        }
        assert(result.to_set() =~= sorted.to_set().insert(name));
    }
}

/// The ordered names are the given names, each once, in the order of the
/// dictionary.
pub proof fn law_ordered_names(names: Seq<Seq<char>>)
    ensures
        is_sorted(ordered(names)),
        ordered(names).to_set() == names.to_set(),
    decreases names.len(),
{
    if names.len() == 0 {
        assert(ordered(names).to_set() =~= names.to_set());
    } else {
        let rest = names.drop_last();
        law_ordered_names(rest);
        lemma_inserted(ordered(rest), names.last());
        assert forall|a: Seq<char>| names.to_set().contains(a) <==> rest.to_set().insert(
            names.last(),
        ).contains(a) by {
            if names.contains(a) {
                let q = choose|q: int| 0 <= q < names.len() && names[q] == a;
                if q < rest.len() {
                    assert(rest[q] == a);
                }
            }
            if rest.contains(a) {
                let q = choose|q: int| 0 <= q < rest.len() && rest[q] == a;
                assert(names[q] == a);
            }
            if a == names.last() {
                assert(names[names.len() - 1] == a);
            }
        }
        assert(names.to_set() =~= rest.to_set().insert(names.last()));
    }
}

/// Of the signatures that the compiler has read, one of each key is kept:
/// the first that has the key.
pub proof fn law_unique_signatures(parsed: Seq<ParsedSignatureView>)
    ensures
        signature_keys(unique_signatures(parsed)).no_duplicates(),
        forall|i: int|
            0 <= i < parsed.len() ==> signature_keys(unique_signatures(parsed)).contains(
                (#[trigger] parsed[i]).key,
            ),
        forall|k: int|
            0 <= k < unique_signatures(parsed).len() ==> exists|i: int|
                0 <= i < parsed.len() && parsed[i] == #[trigger] unique_signatures(parsed)[k]
                    && forall|j: int| 0 <= j < i ==> parsed[j].key != parsed[i].key,
    decreases parsed.len(),
{
    if parsed.len() > 0 {
        let rest = parsed.drop_last();
        let last = parsed.last();
        law_unique_signatures(rest);
        let earlier = unique_signatures(rest);
        let kept = unique_signatures(parsed);
        let keys = signature_keys(earlier);
        lemma_position_of(keys, last.key);
        assert forall|i: int| 0 <= i < parsed.len() implies signature_keys(kept).contains(
            (#[trigger] parsed[i]).key,
        ) by {
            if i < rest.len() {
                assert(rest[i] == parsed[i]);
                assert(keys.contains(rest[i].key));
                let q = choose|q: int| 0 <= q < keys.len() && keys[q] == rest[i].key;
                assert(signature_keys(kept)[q] == parsed[i].key);
            } else if keys.contains(last.key) {
                let q = choose|q: int| 0 <= q < keys.len() && keys[q] == last.key;
                assert(signature_keys(kept)[q] == last.key);
            } else {
                assert(signature_keys(kept)[kept.len() - 1] == last.key);
            }
        }
        assert forall|k: int| 0 <= k < kept.len() implies exists|i: int|
            0 <= i < parsed.len() && parsed[i] == #[trigger] kept[k] && forall|j: int|
                0 <= j < i ==> parsed[j].key != parsed[i].key by {
            if k < earlier.len() {
                assert(kept[k] == earlier[k]);
                let i = choose|i: int|
                    0 <= i < rest.len() && rest[i] == earlier[k] && forall|j: int|
                        0 <= j < i ==> rest[j].key != rest[i].key;
                assert(parsed[i] == kept[k]);
                assert forall|j: int| 0 <= j < i implies parsed[j].key != parsed[i].key by {
                    assert(rest[j] == parsed[j]);
                }
            } else {
                let i = parsed.len() - 1;
                assert(parsed[i] == kept[k]);
                assert forall|j: int| 0 <= j < i implies parsed[j].key != parsed[i].key by {
                    assert(rest[j] == parsed[j]);
                    assert(keys.contains(rest[j].key));
                }
            }
        }
        if !keys.contains(last.key) {
            let all = signature_keys(kept);
            assert(all =~= keys.push(last.key));
            assert forall|a: int, b: int|
                0 <= a < all.len() && 0 <= b < all.len() && a != b implies all[a] != all[b] by {
                if a < keys.len() && b < keys.len() {
                    assert(keys[a] != keys[b]);
                } else if a < keys.len() {
                    assert(keys.contains(keys[a]));
                } else if b < keys.len() {
                    assert(keys.contains(keys[b]));
                }
            }
        }
    }
}

// ---------------------------------------------------------------------------
// A function is committed as its job made it
// ---------------------------------------------------------------------------

/// The candidate is one that the job made: it has the job's new name and
/// one of the job's signatures, with the key of that signature.
pub open spec fn is_of_job(job: JobView, f: TranslatedFunctionView) -> bool {
    &&& f.name == job.new_name
    &&& exists|s: int|
        0 <= s < job.signatures.len() && (#[trigger] job.signatures[s]).key == f.signature_key
            && job.signatures[s].text == f.signature
}

/// Every candidate is one that the job made.
pub open spec fn are_of_job(job: JobView, candidates: Seq<TranslatedFunctionView>) -> bool {
    forall|k: int| 0 <= k < candidates.len() ==> is_of_job(job, #[trigger] candidates[k])
}

/// The job that is under way at a stage.
pub open spec fn job_of(stage: StageView) -> Option<JobView> {
    match stage {
        StageView::Name { job } => Some(job),
        StageView::Signatures { job } => Some(job),
        StageView::Keys { job, .. } => Some(job),
        StageView::Body { job } => Some(job),
        StageView::Check { job, .. } => Some(job),
        StageView::Fix { job, .. } => Some(job),
        StageView::Compare { job, .. } => Some(job),
        _ => None,
    }
}

/// The translator keeps to its job: while the name and the signatures are
/// asked for there is no candidate yet, and every candidate after that is
/// one that the job made.
pub open spec fn keeps_to_its_job(t: TranslatorView) -> bool {
    match t.stage {
        StageView::Name { job } => job.candidates.len() == 0,
        StageView::Signatures { job } => job.candidates.len() == 0,
        StageView::Keys { job, .. } => job.candidates.len() == 0,
        StageView::Body { job } => are_of_job(job, job.candidates),
        StageView::Check { job, current, before, .. } => {
            &&& are_of_job(job, job.candidates)
            &&& is_of_job(job, current)
            &&& before matches Some(b) ==> is_of_job(job, b)
        },
        StageView::Fix { job, base, .. } => are_of_job(job, job.candidates) && is_of_job(job, base),
        StageView::Compare { job, .. } => are_of_job(job, job.candidates),
        _ => true,
    }
}

/// From `t` to `next` the translated functions stay as they are, or one
/// that the job made is added to them.
pub open spec fn adds_at_most_its_own(t: TranslatorView, job: JobView, next: TranslatorView) -> bool {
    ||| next.functions == t.functions
    ||| {
        &&& next.functions.len() == t.functions.len() + 1
        &&& is_of_job(job, next.functions.last())
    }
}

/// What a job made, a job with the same name and signatures made.
proof fn lemma_of_the_same_job(job: JobView, other: JobView, f: TranslatedFunctionView)
    requires
        is_of_job(job, f),
        other.new_name == job.new_name,
        other.signatures == job.signatures,
    ensures
        is_of_job(other, f),
{
    let s = choose|s: int|
        0 <= s < job.signatures.len() && (#[trigger] job.signatures[s]).key == f.signature_key
            && job.signatures[s].text == f.signature;
    assert(other.signatures[s].key == f.signature_key);
}

proof fn lemma_job_to_compare(t: TranslatorView, job: JobView, best: nat, next: nat)
    requires
        are_of_job(job, job.candidates),
        best < job.candidates.len(),
    ensures
        keeps_to_its_job(to_compare(t, job, best, next).0),
        adds_at_most_its_own(t, job, to_compare(t, job, best, next).0),
{
    if next >= job.candidates.len() {
        let chosen = job.candidates[best as int];
        assert(is_of_job(job, chosen));
        assert(t.functions.push(chosen).last() == chosen);
    }
}

proof fn lemma_job_to_body(t: TranslatorView, job: JobView)
    requires
        are_of_job(job, job.candidates),
    ensures
        keeps_to_its_job(to_body(t, job).0),
        adds_at_most_its_own(t, job, to_body(t, job).0),
{
    if job.taken >= job.signatures.len() && job.candidates.len() > 0 {
        lemma_tied(job.candidates);
        let chosen = JobView { candidates: tied(job.candidates), ..job };
        assert forall|k: int| 0 <= k < chosen.candidates.len() implies is_of_job(
            chosen,
            #[trigger] chosen.candidates[k],
        ) by {
            let c = chosen.candidates[k];
            assert(job.candidates.contains(c));
            let j = choose|j: int| 0 <= j < job.candidates.len() && job.candidates[j] == c;
            assert(is_of_job(job, job.candidates[j]));
            lemma_of_the_same_job(job, chosen, c);
        }
        lemma_job_to_compare(t, chosen, 0, 1);
        let next = to_compare(t, chosen, 0, 1).0;
        if next.functions != t.functions {
            lemma_of_the_same_job(chosen, job, next.functions.last());
        }
    }
}

proof fn lemma_job_to_fix(t: TranslatorView, job: JobView, base: TranslatedFunctionView, index: nat)
    requires
        are_of_job(job, job.candidates),
        is_of_job(job, base),
    ensures
        keeps_to_its_job(to_fix(t, job, base, index).0),
        adds_at_most_its_own(t, job, to_fix(t, job, base, index).0),
{
    if index >= base.errors.len() {
        let done = JobView { candidates: job.candidates.push(base), taken: job.taken + 1, ..job };
        assert forall|k: int| 0 <= k < done.candidates.len() implies is_of_job(
            done,
            #[trigger] done.candidates[k],
        ) by {
            if k < job.candidates.len() {
                assert(done.candidates[k] == job.candidates[k]);
                assert(is_of_job(job, job.candidates[k]));
            }
            lemma_of_the_same_job(job, done, done.candidates[k]);
        }
        lemma_job_to_body(t, done);
        let next = to_body(t, done).0;
        if next.functions != t.functions {
            lemma_of_the_same_job(done, job, next.functions.last());
        }
    }
}

proof fn lemma_job_on_signatures_parsed(
    t: TranslatorView,
    job: JobView,
    count: nat,
    parsed: Seq<ParsedSignatureView>,
)
    requires
        job.candidates.len() == 0,
    ensures
        keeps_to_its_job(on_signatures_parsed(t, job, count, parsed).0),
        on_signatures_parsed(t, job, count, parsed).0.functions == t.functions,
{
    let fresh = JobView { signatures: unique_signatures(parsed), taken: 0, ..job };
    lemma_job_to_body(t, fresh);
}

proof fn lemma_job_on_function_translated(t: TranslatorView, job: JobView, body: Option<Seq<char>>)
    requires
        are_of_job(job, job.candidates),
        job.taken < job.signatures.len(),
    ensures
        keeps_to_its_job(on_function_translated(t, job, body).0),
        adds_at_most_its_own(t, job, on_function_translated(t, job, body).0),
{
    let later = next_signature(job);
    assert forall|k: int| 0 <= k < later.candidates.len() implies is_of_job(
        later,
        #[trigger] later.candidates[k],
    ) by {
        lemma_of_the_same_job(job, later, job.candidates[k]);
    }
    lemma_job_to_body(t, later);
    if to_body(t, later).0.functions != t.functions {
        lemma_of_the_same_job(later, job, to_body(t, later).0.functions.last());
    }
    match body {
        Some(text) => {
            let s = job.taken as int;
            assert(job.signatures[s].key == candidate(t, job, text).signature_key);
        },
        None => {},
    }
}

proof fn lemma_job_on_checked(
    t: TranslatorView,
    job: JobView,
    current: TranslatedFunctionView,
    before: Option<TranslatedFunctionView>,
    index: nat,
    result: TypeCheckingResultView,
)
    requires
        are_of_job(job, job.candidates),
        is_of_job(job, current),
        before matches Some(b) ==> is_of_job(job, b),
    ensures
        keeps_to_its_job(on_checked(t, job, current, before, index, result).0),
        adds_at_most_its_own(t, job, on_checked(t, job, current, before, index, result).0),
{
    let now = settled(current, result);
    assert(is_of_job(job, now)) by {
        let s = choose|s: int|
            0 <= s < job.signatures.len() && (#[trigger] job.signatures[s]).key
                == current.signature_key && job.signatures[s].text == current.signature;
        assert(job.signatures[s].key == now.signature_key);
    }
    assert(is_of_job(job, with_uses(current, result.add_use))) by {
        let s = choose|s: int|
            0 <= s < job.signatures.len() && (#[trigger] job.signatures[s]).key
                == current.signature_key && job.signatures[s].text == current.signature;
        assert(job.signatures[s].key == with_uses(current, result.add_use).signature_key);
    }
    lemma_job_to_fix(t, job, now, 0);
    let later = next_signature(job);
    assert forall|k: int| 0 <= k < later.candidates.len() implies is_of_job(
        later,
        #[trigger] later.candidates[k],
    ) by {
        lemma_of_the_same_job(job, later, job.candidates[k]);
    }
    lemma_job_to_body(t, later);
    if to_body(t, later).0.functions != t.functions {
        lemma_of_the_same_job(later, job, to_body(t, later).0.functions.last());
    }
    match before {
        Some(b) => {
            lemma_job_to_fix(t, job, b, index + 1);
        },
        None => {},
    }
}

proof fn lemma_job_on_fixed(
    t: TranslatorView,
    job: JobView,
    base: TranslatedFunctionView,
    index: nat,
    repaired: Option<Seq<char>>,
)
    requires
        are_of_job(job, job.candidates),
        is_of_job(job, base),
    ensures
        keeps_to_its_job(on_fixed(t, job, base, index, repaired).0),
        adds_at_most_its_own(t, job, on_fixed(t, job, base, index, repaired).0),
{
    lemma_job_to_fix(t, job, base, index + 1);
    match repaired {
        Some(text) => {
            let trial = TranslatedFunctionView {
                translated: repaired_text(base, index as int, text),
                ..base
            };
            let s = choose|s: int|
                0 <= s < job.signatures.len() && (#[trigger] job.signatures[s]).key
                    == base.signature_key && job.signatures[s].text == base.signature;
            assert(job.signatures[s].key == trial.signature_key);
            assert(is_of_job(job, trial));
        },
        None => {},
    }
}

proof fn lemma_job_on_compared(
    t: TranslatorView,
    job: JobView,
    best: nat,
    next: nat,
    preference: Comparison,
)
    requires
        are_of_job(job, job.candidates),
        best < next < job.candidates.len(),
    ensures
        keeps_to_its_job(on_compared(t, job, best, next, preference).0),
        adds_at_most_its_own(t, job, on_compared(t, job, best, next, preference).0),
{
    lemma_job_to_compare(t, job, best, next + 1);
    lemma_job_to_compare(t, job, next, next + 1);
}

/// Whatever is reported, a translator that keeps to its job goes on doing
/// so, and its job adds at most a function of its own.
proof fn lemma_job_after(t: TranslatorView, event: EventView)
    requires
        stages_hold(t),
        keeps_to_its_job(t),
    ensures
        keeps_to_its_job(after(t, event).0),
        match job_of(t.stage) {
            Some(job) => adds_at_most_its_own(t, job, after(t, event).0),
            None => after(t, event).0.functions == t.functions,
        },
{
    match (t.stage, event) {
        (StageView::Keys { job, count }, EventView::SignaturesParsed { parsed }) => {
            lemma_job_on_signatures_parsed(t, job, count, parsed);
        },
        (StageView::Body { job }, EventView::FunctionTranslated { body }) => {
            lemma_job_on_function_translated(t, job, body);
        },
        (StageView::Check { job, current, before, index }, EventView::Checked { result }) => {
            lemma_job_on_checked(t, job, current, before, index, result);
        },
        (StageView::Fix { job, base, index }, EventView::Fixed { repaired }) => {
            lemma_job_on_fixed(t, job, base, index, repaired);
        },
        (StageView::Compare { job, best, next }, EventView::Compared { preference }) => {
            lemma_job_on_compared(t, job, best, next, preference);
        },
        _ => {},
    }
}

/// The translator that a pass begins with goes on in the invariant.
pub proof fn lemma_begin(t: TranslatorView)
    requires
        inv(t),
    ensures
        inv(begin_variables(t).0),
        inv(begin_functions(t).0),
{
    lemma_stages_begin(t);
}

/// Whatever is reported, the translator goes on in the invariant.
pub proof fn lemma_after(t: TranslatorView, event: EventView)
    requires
        inv(t),
    ensures
        inv(after(t, event).0),
{
    lemma_stages_after(t, event);
    lemma_job_after(t, event);
}

/// A function is committed as its job made it. Where a report adds to the
/// translated functions, it adds one function: a translation of the
/// function that the job is about, under the name that was reported for
/// it, with one of the signatures that were read for it, and beginning
/// with that signature.
pub proof fn law_functions_are_committed_as_their_jobs_made_them(
    t: TranslatorView,
    event: EventView,
)
    requires
        inv(t),
    ensures
        after(t, event).0.functions != t.functions ==> {
            &&& job_of(t.stage) matches Some(job)
            &&& after(t, event).0.functions.len() == t.functions.len() + 1
            &&& after(t, event).0.functions.last().original == function_at(t, job.position).name
            &&& is_of_job(job, after(t, event).0.functions.last())
            &&& begins_with_signature(after(t, event).0.functions.last())
        },
{
    let next = after(t, event).0;
    lemma_after(t, event);
    lemma_job_after(t, event);
    lemma_after_keeps_the_program(t, event);
    if next.functions != t.functions {
        let job = job_of(t.stage)->0;
        let i = t.functions.len() as int;
        assert(next.functions.last() == next.functions[i]);
        assert(begins_with_signature(next.functions[i]));
        assert(is_translation_of_function(next.program.functions, next.order, next.functions, i));
        assert(job.position == t.functions.len());
    }
}

/// Where the pass over the functions is done, every function of the
/// program is translated: the translated functions are as many as the
/// functions of the program, each the translation of the function at its
/// place in the order.
pub proof fn law_a_finished_pass_has_translated_every_function(t: TranslatorView, event: EventView)
    requires
        inv(t),
        job_of(t.stage) is Some,
        after(t, event).1 is Finished,
    ensures
        after(t, event).0.functions.len() == t.program.functions.len(),
        forall|i: int|
            0 <= i < t.program.functions.len() ==> (#[trigger] after(
                t,
                event,
            ).0.functions[i]).original == t.program.functions[t.order[i] as int].name,
{
    let next = after(t, event).0;
    lemma_after(t, event);
    lemma_finished_is_idle(t, event);
    assert(call_graph(t.program.functions).len() == t.program.functions.len());
    assert forall|i: int| 0 <= i < t.program.functions.len() implies (#[trigger] next.functions[i]).original
        == t.program.functions[t.order[i] as int].name by {
        assert(is_translation_of_function(next.program.functions, next.order, next.functions, i));
    }
}

/// Where a report on a function ends the pass, the translated functions
/// are as many as the order is long.
proof fn lemma_finished_is_idle(t: TranslatorView, event: EventView)
    requires
        inv(t),
        job_of(t.stage) is Some,
        after(t, event).1 is Finished,
    ensures
        after(t, event).0.functions.len() == t.order.len(),
        after(t, event).0.program == t.program,
        after(t, event).0.order == t.order,
{
    match (t.stage, event) {
        (StageView::Keys { job, count }, EventView::SignaturesParsed { parsed }) => {
            let fresh = JobView { signatures: unique_signatures(parsed), taken: 0, ..job };
            lemma_finished_to_body(t, fresh);
        },
        (StageView::Body { job }, EventView::FunctionTranslated { body }) => {
            lemma_finished_to_body(t, next_signature(job));
        },
        (StageView::Check { job, current, before, index }, EventView::Checked { result }) => {
            lemma_finished_to_fix(t, job, settled(current, result), 0);
            lemma_finished_to_body(t, next_signature(job));
            match before {
                Some(b) => {
                    lemma_finished_to_fix(t, job, b, index + 1);
                },
                None => {},
            }
        },
        (StageView::Fix { job, base, index }, EventView::Fixed { repaired }) => {
            lemma_finished_to_fix(t, job, base, index + 1);
        },
        (StageView::Compare { job, best, next }, EventView::Compared { preference }) => {
            lemma_finished_to_compare(t, job, best, next + 1);
            lemma_finished_to_compare(t, job, next, next + 1);
        },
        _ => {},
    }
}

proof fn lemma_finished_to_compare(t: TranslatorView, job: JobView, best: nat, next: nat)
    requires
        job.position == t.functions.len(),
        job.position < t.order.len(),
    ensures
        to_compare(t, job, best, next).1 is Finished ==> to_compare(
            t,
            job,
            best,
            next,
        ).0.functions.len() == t.order.len(),
        to_compare(t, job, best, next).0.program == t.program,
        to_compare(t, job, best, next).0.order == t.order,
{
}

proof fn lemma_finished_to_body(t: TranslatorView, job: JobView)
    requires
        job.position == t.functions.len(),
        job.position < t.order.len(),
    ensures
        to_body(t, job).1 is Finished ==> to_body(t, job).0.functions.len() == t.order.len(),
        to_body(t, job).0.program == t.program,
        to_body(t, job).0.order == t.order,
{
    if job.taken >= job.signatures.len() && job.candidates.len() > 0 {
        lemma_finished_to_compare(t, JobView { candidates: tied(job.candidates), ..job }, 0, 1);
    }
}

proof fn lemma_finished_to_fix(t: TranslatorView, job: JobView, base: TranslatedFunctionView, index: nat)
    requires
        job.position == t.functions.len(),
        job.position < t.order.len(),
    ensures
        to_fix(t, job, base, index).1 is Finished ==> to_fix(t, job, base, index).0.functions.len()
            == t.order.len(),
        to_fix(t, job, base, index).0.program == t.program,
        to_fix(t, job, base, index).0.order == t.order,
{
    if index >= base.errors.len() {
        let done = JobView { candidates: job.candidates.push(base), taken: job.taken + 1, ..job };
        lemma_finished_to_body(t, done);
    }
}

/// Whatever is reported, the program and the order of translation stay.
proof fn lemma_after_keeps_the_program(t: TranslatorView, event: EventView)
    ensures
        after(t, event).0.program == t.program,
        after(t, event).0.order == t.order,
{
}

// ---------------------------------------------------------------------------
// The new names in a C function
// ---------------------------------------------------------------------------

/// The edit puts the new name of a translated variable in the place of the
/// use `u` of that variable.
pub open spec fn names_a_variable(
    variables: Seq<TranslatedVariableView>,
    u: IdentifierView,
    e: EditView,
) -> bool {
    e.span == u.span && exists|i: int|
        0 <= i < variables.len() && (#[trigger] variables[i]).name == u.name && variables[i].new_name
            == e.text
}

/// The edit puts a new name in the place of the call `c`: that of the
/// function `name` itself where it calls itself, else that of a translated
/// function.
pub open spec fn names_a_function(
    functions: Seq<TranslatedFunctionView>,
    name: Seq<char>,
    new_name: Seq<char>,
    c: IdentifierView,
    e: EditView,
) -> bool {
    e.span == c.span && if c.name == name {
        e.text == new_name
    } else {
        exists|i: int|
            0 <= i < functions.len() && (#[trigger] functions[i]).original == c.name
                && functions[i].name == e.text
    }
}

/// Each global variable that a function uses gets the new name of its
/// translation, in the place where it is used.
pub proof fn law_uses_get_the_names_of_translated_variables(
    variables: Seq<TranslatedVariableView>,
    uses: Seq<IdentifierView>,
)
    requires
        variable_edits(variables, uses) is Some,
    ensures
        variable_edits(variables, uses)->0.len() == uses.len(),
        forall|k: int|
            0 <= k < uses.len() ==> names_a_variable(
                variables,
                uses[k],
                #[trigger] variable_edits(variables, uses)->0[k],
            ),
    decreases uses.len(),
{
    if uses.len() > 0 {
        let rest = uses.drop_last();
        law_uses_get_the_names_of_translated_variables(variables, rest);
        let earlier = variable_edits(variables, rest)->0;
        let all = variable_edits(variables, uses)->0;
        let names = variable_names(variables);
        lemma_position_of(names, uses.last().name);
        let i = position_of(names, uses.last().name)->0;
        assert(variables[i].name == names[i]);
        assert forall|k: int| 0 <= k < uses.len() implies names_a_variable(
            variables,
            uses[k],
            #[trigger] all[k],
        ) by {
            if k < rest.len() {
                assert(all[k] == earlier[k]);
                assert(uses[k] == rest[k]);
            } else {
                assert(variables[i].new_name == all[k].text);
            }
        }
    }
}

/// Each call in a function gets the new name of the function that is
/// called, in the place of the call: the function's own new name where it
/// calls itself, else the name of a function that is translated already.
pub proof fn law_calls_get_the_names_of_translated_functions(
    functions: Seq<TranslatedFunctionView>,
    name: Seq<char>,
    new_name: Seq<char>,
    calls: Seq<IdentifierView>,
)
    requires
        call_edits(functions, name, new_name, calls) is Some,
    ensures
        call_edits(functions, name, new_name, calls)->0.len() == calls.len(),
        forall|k: int|
            0 <= k < calls.len() ==> names_a_function(
                functions,
                name,
                new_name,
                calls[k],
                #[trigger] call_edits(functions, name, new_name, calls)->0[k],
            ),
    decreases calls.len(),
{
    if calls.len() > 0 {
        let rest = calls.drop_last();
        law_calls_get_the_names_of_translated_functions(functions, name, new_name, rest);
        let earlier = call_edits(functions, name, new_name, rest)->0;
        let all = call_edits(functions, name, new_name, calls)->0;
        let names = translated_names(functions);
        lemma_position_of(names, calls.last().name);
        assert forall|k: int| 0 <= k < calls.len() implies names_a_function(
            functions,
            name,
            new_name,
            calls[k],
            #[trigger] all[k],
        ) by {
            if k < rest.len() {
                assert(all[k] == earlier[k]);
                assert(calls[k] == rest[k]);
            } else if calls.last().name != name {
                let i = position_of(names, calls.last().name)->0;
                assert(functions[i].original == names[i]);
                assert(functions[i].name == all[k].text);
            }
        }
    }
}

/// The new names that are put into a C function before the model is asked
/// for its translation: its own at its name; at each use of a global
/// variable the new name of that variable; at each call the new name of the
/// function called. No other place is changed.
pub proof fn law_new_names_are_those_of_dependencies(
    declared: Seq<Seq<char>>,
    variables: Seq<TranslatedVariableView>,
    functions: Seq<TranslatedFunctionView>,
    f: FunctionDefinitionView,
    new_name: Seq<char>,
)
    requires
        edits_of(declared, variables, functions, f, new_name) is Some,
    ensures
        ({
            let edits = edits_of(declared, variables, functions, f, new_name)->0;
            let uses = global_uses(declared, f);
            &&& edits.len() == 1 + uses.len() + f.callees.len()
            &&& edits[0] == (EditView { span: f.name_span, text: new_name })
            &&& forall|k: int|
                0 <= k < uses.len() ==> names_a_variable(variables, uses[k], #[trigger] edits[1 + k])
            &&& forall|k: int|
                0 <= k < f.callees.len() ==> names_a_function(
                    functions,
                    f.name,
                    new_name,
                    f.callees[k],
                    #[trigger] edits[1 + uses.len() + k],
                )
        }),
{
    let uses = global_uses(declared, f);
    law_uses_get_the_names_of_translated_variables(variables, uses);
    law_calls_get_the_names_of_translated_functions(functions, f.name, new_name, f.callees);
    let first = variable_edits(variables, uses)->0;
    let second = call_edits(functions, f.name, new_name, f.callees)->0;
    let edits = edits_of(declared, variables, functions, f, new_name)->0;
    assert forall|k: int| 0 <= k < uses.len() implies names_a_variable(
        variables,
        uses[k],
        #[trigger] edits[1 + k],
    ) by {
        assert(edits[1 + k] == first[k]);
    }
    assert forall|k: int| 0 <= k < f.callees.len() implies names_a_function(
        functions,
        f.name,
        new_name,
        f.callees[k],
        #[trigger] edits[1 + uses.len() + k],
    ) by {
        assert(edits[1 + uses.len() + k] == second[k]);
    }
}

} // verus!
