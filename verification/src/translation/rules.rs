//! The rules of the translation, as mathematics: what the translator holds,
//! what it makes of a program before it starts, what stands around a
//! function when it is translated and checked, and what each report leads to.

use crate::llm_client::reply::{first_of, is_acceptable_repair, Comparison};
use crate::text::{
    first_match, has_prefix, has_suffix, indentation_of, joined, newline, replaced, trimmed,
    trimmed_end, without_suffix,
};
use crate::translation::program::{
    declared_names, function_names, position_of, rewritten, EditView, FunctionDefinitionView,
    IdentifierView, ProgramView,
};
use crate::translation::state::{
    ActionView, EventView, JobView, ParsedSignatureView, StageView, TranslatedFunctionView,
    TranslatedVariableView, TranslationError, TypeCheckingResultView,
};
use vstd::prelude::*;

verus! {

/// What a translator holds.
pub struct TranslatorView {
    /// The program, made ready.
    pub program: ProgramView,
    /// The order in which the functions are translated.
    pub order: Seq<usize>,
    /// How many candidate signatures are asked for.
    pub signature_count: nat,
    /// The translated global variables, in the order of their declarations.
    pub variables: Seq<TranslatedVariableView>,
    /// The translated functions, in the order of their translation.
    pub functions: Seq<TranslatedFunctionView>,
    /// The imports of the translated program.
    pub use_list: Seq<Seq<char>>,
    /// Where the translator stands.
    pub stage: StageView,
}

// ---------------------------------------------------------------------------
// Making a program ready
// ---------------------------------------------------------------------------

/// The start of a name that the translator leaves alone.
pub open spec fn reserved_prefix() -> Seq<char> {
    "__"@
}

/// The functions whose names are not reserved.
pub open spec fn kept_functions(functions: Seq<FunctionDefinitionView>) -> Seq<
    FunctionDefinitionView,
> {
    functions.filter_map(
        |f: FunctionDefinitionView|
            if has_prefix(f.name, reserved_prefix()) {
                None
            } else {
                Some(f)
            },
    )
}

/// The calls of functions of the given names.
pub open spec fn local_calls(names: Seq<Seq<char>>, callees: Seq<IdentifierView>) -> Seq<
    IdentifierView,
> {
    callees.filter_map(
        |c: IdentifierView|
            if position_of(names, c.name) is Some {
                Some(c)
            } else {
                None
            },
    )
}

/// The function with only its calls of functions of the given names.
pub open spec fn with_local_calls(
    names: Seq<Seq<char>>,
    f: FunctionDefinitionView,
) -> FunctionDefinitionView {
    FunctionDefinitionView { callees: local_calls(names, f.callees), ..f }
}

/// The program made ready: without the functions of reserved names, and
/// with each function's calls limited to the functions that are left.
pub open spec fn prepared(program: ProgramView) -> ProgramView {
    let kept = kept_functions(program.functions);
    ProgramView {
        variables: program.variables,
        functions: kept.map_values(
            |f: FunctionDefinitionView| with_local_calls(function_names(kept), f),
        ),
    }
}

/// The numbers of the functions that are called.
pub open spec fn call_targets(names: Seq<Seq<char>>, callees: Seq<IdentifierView>) -> Seq<usize> {
    callees.filter_map(
        |c: IdentifierView|
            match position_of(names, c.name) {
                Some(i) => Some(i as usize),
                None => None,
            },
    )
}

/// The call graph: for each function the numbers of the functions it calls.
pub open spec fn call_graph(functions: Seq<FunctionDefinitionView>) -> Seq<Seq<usize>> {
    Seq::new(
        functions.len(),
        |i: int| call_targets(function_names(functions), functions[i].callees),
    )
}

// ---------------------------------------------------------------------------
// Lists of names
// ---------------------------------------------------------------------------

/// `list`, and behind it those of `more` that come new, each once.
pub open spec fn merged(list: Seq<Seq<char>>, more: Seq<Seq<char>>) -> Seq<Seq<char>>
    decreases more.len(),
{
    if more.len() == 0 {
        list
    } else {
        let earlier = merged(list, more.drop_last());
        if position_of(earlier, more.last()) is Some {
            earlier
        } else {
            earlier.push(more.last())
        }
    }
}

/// `a` comes before `b` in the order of the dictionary, character by character.
pub open spec fn text_before(a: Seq<char>, b: Seq<char>) -> bool
    decreases a.len(),
{
    if b.len() == 0 {
        false
    } else if a.len() == 0 {
        true
    } else if a[0] != b[0] {
        a[0] < b[0]
    } else {
        text_before(a.drop_first(), b.drop_first())
    }
}

/// The sorted list `sorted` with `name` at its place, unless it is there already.
pub open spec fn inserted(sorted: Seq<Seq<char>>, name: Seq<char>) -> Seq<Seq<char>>
    decreases sorted.len(),
{
    if sorted.len() == 0 {
        seq![name]
    } else if sorted.last() == name {
        sorted
    } else if text_before(sorted.last(), name) {
        sorted.push(name)
    } else {
        inserted(sorted.drop_last(), name).push(sorted.last())
    }
}

/// The names in the order of the dictionary, each once.
pub open spec fn ordered(names: Seq<Seq<char>>) -> Seq<Seq<char>>
    decreases names.len(),
{
    if names.len() == 0 {
        Seq::empty()
    } else {
        inserted(ordered(names.drop_last()), names.last())
    }
}

// ---------------------------------------------------------------------------
// What a function depends on
// ---------------------------------------------------------------------------

/// The identifier is a use of a global variable: a global variable has its
/// name and no variable of the function's own has.
pub open spec fn is_global_use(
    declared: Seq<Seq<char>>,
    f: FunctionDefinitionView,
    id: IdentifierView,
) -> bool {
    position_of(declared, id.name) is Some && position_of(f.locals, id.name) is None
}

/// The uses of global variables in a function, given the names of all
/// global variables.
pub open spec fn global_uses(declared: Seq<Seq<char>>, f: FunctionDefinitionView) -> Seq<
    IdentifierView,
> {
    f.identifiers.filter_map(
        |id: IdentifierView|
            if is_global_use(declared, f, id) {
                Some(id)
            } else {
                None
            },
    )
}

/// The names of the identifiers.
pub open spec fn identifier_names(ids: Seq<IdentifierView>) -> Seq<Seq<char>> {
    ids.map_values(|id: IdentifierView| id.name)
}

/// The global variables that a function uses, in the order of their first use.
pub open spec fn global_names(declared: Seq<Seq<char>>, f: FunctionDefinitionView) -> Seq<
    Seq<char>,
> {
    merged(Seq::empty(), identifier_names(global_uses(declared, f)))
}

/// The calls of other functions than `f` itself.
pub open spec fn calls_of_others(f: FunctionDefinitionView) -> Seq<IdentifierView> {
    f.callees.filter_map(
        |c: IdentifierView|
            if c.name == f.name {
                None
            } else {
                Some(c)
            },
    )
}

/// The other functions that a function calls, in the order of the dictionary.
pub open spec fn callee_names(f: FunctionDefinitionView) -> Seq<Seq<char>> {
    ordered(identifier_names(calls_of_others(f)))
}

/// The names of the translated variables in the C program.
pub open spec fn variable_names(variables: Seq<TranslatedVariableView>) -> Seq<Seq<char>> {
    variables.map_values(|v: TranslatedVariableView| v.name)
}

/// The names of the translated functions in the C program.
pub open spec fn translated_names(functions: Seq<TranslatedFunctionView>) -> Seq<Seq<char>> {
    functions.map_values(|f: TranslatedFunctionView| f.original)
}

/// The translations of the variables of the given names, if all are made.
pub open spec fn variables_of(
    variables: Seq<TranslatedVariableView>,
    names: Seq<Seq<char>>,
) -> Option<Seq<TranslatedVariableView>>
    decreases names.len(),
{
    if names.len() == 0 {
        Some(Seq::empty())
    } else {
        match (
            variables_of(variables, names.drop_last()),
            position_of(variable_names(variables), names.last()),
        ) {
            (Some(earlier), Some(i)) => Some(earlier.push(variables[i])),
            _ => None,
        }
    }
}

/// The translations of the functions of the given names, if all are made.
pub open spec fn functions_of(
    functions: Seq<TranslatedFunctionView>,
    names: Seq<Seq<char>>,
) -> Option<Seq<TranslatedFunctionView>>
    decreases names.len(),
{
    if names.len() == 0 {
        Some(Seq::empty())
    } else {
        match (
            functions_of(functions, names.drop_last()),
            position_of(translated_names(functions), names.last()),
        ) {
            (Some(earlier), Some(i)) => Some(earlier.push(functions[i])),
            _ => None,
        }
    }
}

// ---------------------------------------------------------------------------
// What stands before a function when it is checked
// ---------------------------------------------------------------------------

/// What stands before an import that need not be used.
pub const ALLOW_UNUSED_IMPORTS: &'static str = "#[allow(unused_imports)] ";

/// What stands before a variable that must be used.
pub const DENY_UNUSED: &'static str = "#[deny(unused)] ";

/// The start of a value of zero bytes, up to its type.
pub const ZERO_OPEN: &'static str = " unsafe { std::mem::transmute([0u8; std::mem::size_of::<";

/// The end of a value of zero bytes, behind its type.
pub const ZERO_CLOSE: &'static str = ">()]) }";

/// What stands before the stub of a function.
pub const STUB_OPEN: &'static str = "#[deny(dead_code)] #[allow(unused_variables)] ";

/// The body of the stub of a function.
pub const STUB_CLOSE: &'static str = " { todo!() }\n";

/// The empty body that ends the text of a signature.
pub const EMPTY_BODY: &'static str = "{}";

/// The name of the function at which a program starts.
pub const MAIN: &'static str = "main";

/// The stub of `main`.
pub const MAIN_STUB: &'static str = "fn main() {}";

/// The leave to be unused, for the function that is checked.
pub const ALLOW_DEAD_CODE: &'static str = "#[allow(dead_code)]";

/// An import, allowed to be unused.
pub open spec fn checked_import(line: Seq<char>) -> Seq<char> {
    ALLOW_UNUSED_IMPORTS@ + line
}

/// The imports, each allowed to be unused.
pub open spec fn checked_imports(lines: Seq<Seq<char>>) -> Seq<Seq<char>> {
    lines.map_values(|line: Seq<char>| checked_import(line))
}

/// The sign that parts a declaration from its value.
pub open spec fn equals_sign() -> Seq<char> {
    seq!['=']
}

/// The declaration of a variable up to its equals sign, with a value of
/// its type that is made of zero bytes; nothing where it has no equals sign.
pub open spec fn checked_variable(v: TranslatedVariableView) -> Option<Seq<char>> {
    match first_match(v.text, equals_sign(), 0) {
        Some(i) => Some(DENY_UNUSED@ + v.text.take(i + 1) + ZERO_OPEN@ + v.ty + ZERO_CLOSE@),
        None => None,
    }
}

/// The checked declarations of the variables, if each has an equals sign.
pub open spec fn checked_variables(variables: Seq<TranslatedVariableView>) -> Option<
    Seq<Seq<char>>,
>
    decreases variables.len(),
{
    if variables.len() == 0 {
        Some(Seq::empty())
    } else {
        match (checked_variables(variables.drop_last()), checked_variable(variables.last())) {
            (Some(earlier), Some(text)) => Some(earlier.push(text)),
            _ => None,
        }
    }
}

/// A signature without its empty body.
pub open spec fn header(signature: Seq<char>) -> Seq<char> {
    without_suffix(signature, EMPTY_BODY@)
}

/// The stub of a function: its signature with a body that is yet to be written.
pub open spec fn checked_function(f: TranslatedFunctionView) -> Seq<char> {
    STUB_OPEN@ + header(f.signature) + STUB_CLOSE@
}

/// The stubs of the functions.
pub open spec fn checked_functions(functions: Seq<TranslatedFunctionView>) -> Seq<Seq<char>> {
    functions.map_values(|f: TranslatedFunctionView| checked_function(f))
}

/// The texts that are not empty.
pub open spec fn nonempty(parts: Seq<Seq<char>>) -> Seq<Seq<char>> {
    parts.filter_map(
        |p: Seq<char>|
            if p.len() == 0 {
                None
            } else {
                Some(p)
            },
    )
}

/// The stub of `main`, unless the program has a `main` by now.
pub open spec fn main_stub(has_main: bool) -> Seq<char> {
    if has_main {
        Seq::empty()
    } else {
        MAIN_STUB@
    }
}

/// What stands in for the dependencies of a function when it is checked:
/// the variables it uses, stubs of the functions it calls, and the leave to
/// be unused; each part on lines of its own, and no empty part.
pub open spec fn prefix_text(variables: Seq<Seq<char>>, functions: Seq<Seq<char>>) -> Seq<char> {
    joined(
        nonempty(
            seq![joined(variables, newline()), joined(functions, newline()), ALLOW_DEAD_CODE@],
        ),
        newline(),
    ) + newline()
}

/// What stands before every function of a program when it is checked: the
/// imports of the program, each on a line and allowed to be unused, and a
/// line with a stub of `main` where the program has none.
pub open spec fn preamble_text(imports: Seq<Seq<char>>, has_main: bool) -> Seq<char> {
    let lines = if imports.len() == 0 {
        Seq::empty()
    } else {
        joined(checked_imports(imports), newline()) + newline()
    };
    if has_main {
        lines
    } else {
        lines + MAIN_STUB@ + newline()
    }
}

/// The program has a `main` once the function `name` is translated.
pub open spec fn has_main(functions: Seq<TranslatedFunctionView>, name: Seq<char>) -> bool {
    position_of(translated_names(functions), MAIN@) is Some || name == MAIN@
}

/// The texts of the variables.
pub open spec fn variable_texts(variables: Seq<TranslatedVariableView>) -> Seq<Seq<char>> {
    variables.map_values(|v: TranslatedVariableView| v.text)
}

/// The signatures of the functions.
pub open spec fn function_signatures(functions: Seq<TranslatedFunctionView>) -> Seq<Seq<char>> {
    functions.map_values(|f: TranslatedFunctionView| f.signature)
}

/// The texts of the functions.
pub open spec fn function_texts(functions: Seq<TranslatedFunctionView>) -> Seq<Seq<char>> {
    functions.map_values(|f: TranslatedFunctionView| f.translated)
}

/// What a function is translated with: what stands in for its dependencies
/// when it is checked, and the translations it depends on. Nothing where
/// one of those is not made yet, or a variable it uses has no equals sign.
pub open spec fn context_of(
    declared: Seq<Seq<char>>,
    variables: Seq<TranslatedVariableView>,
    functions: Seq<TranslatedFunctionView>,
    f: FunctionDefinitionView,
) -> Option<(Seq<char>, Seq<Seq<char>>)> {
    match (
        variables_of(variables, global_names(declared, f)),
        functions_of(functions, callee_names(f)),
    ) {
        (Some(used), Some(called)) => match checked_variables(used) {
            Some(checked) => Some(
                (
                    prefix_text(checked, checked_functions(called)),
                    variable_texts(used) + function_signatures(called),
                ),
            ),
            None => None,
        },
        _ => None,
    }
}

// ---------------------------------------------------------------------------
// New names in the C function
// ---------------------------------------------------------------------------

/// The edits that put the new names of the variables in the place of their uses.
pub open spec fn variable_edits(
    variables: Seq<TranslatedVariableView>,
    uses: Seq<IdentifierView>,
) -> Option<Seq<EditView>>
    decreases uses.len(),
{
    if uses.len() == 0 {
        Some(Seq::empty())
    } else {
        match (
            variable_edits(variables, uses.drop_last()),
            position_of(variable_names(variables), uses.last().name),
        ) {
            (Some(earlier), Some(i)) => Some(
                earlier.push(EditView { span: uses.last().span, text: variables[i].new_name }),
            ),
            _ => None,
        }
    }
}

/// The edits that put the new names of the functions in the place of their
/// calls; in a call of the function itself, its own new name.
pub open spec fn call_edits(
    functions: Seq<TranslatedFunctionView>,
    name: Seq<char>,
    new_name: Seq<char>,
    calls: Seq<IdentifierView>,
) -> Option<Seq<EditView>>
    decreases calls.len(),
{
    if calls.len() == 0 {
        Some(Seq::empty())
    } else {
        match call_edits(functions, name, new_name, calls.drop_last()) {
            Some(earlier) => if calls.last().name == name {
                Some(earlier.push(EditView { span: calls.last().span, text: new_name }))
            } else {
                match position_of(translated_names(functions), calls.last().name) {
                    Some(i) => Some(
                        earlier.push(EditView { span: calls.last().span, text: functions[i].name }),
                    ),
                    None => None,
                }
            },
            None => None,
        }
    }
}

/// The edits that put the new names in a function: its own, those of the
/// global variables it uses and those of the functions it calls.
pub open spec fn edits_of(
    declared: Seq<Seq<char>>,
    variables: Seq<TranslatedVariableView>,
    functions: Seq<TranslatedFunctionView>,
    f: FunctionDefinitionView,
    new_name: Seq<char>,
) -> Option<Seq<EditView>> {
    match (
        variable_edits(variables, global_uses(declared, f)),
        call_edits(functions, f.name, new_name, f.callees),
    ) {
        (Some(uses), Some(calls)) => Some(
            seq![EditView { span: f.name_span, text: new_name }] + uses + calls,
        ),
        _ => None,
    }
}

// ---------------------------------------------------------------------------
// Candidates
// ---------------------------------------------------------------------------

/// The keys of the signatures.
pub open spec fn signature_keys(signatures: Seq<ParsedSignatureView>) -> Seq<Seq<char>> {
    signatures.map_values(|s: ParsedSignatureView| s.key)
}

/// The signatures without those whose key has come before.
pub open spec fn unique_signatures(signatures: Seq<ParsedSignatureView>) -> Seq<
    ParsedSignatureView,
>
    decreases signatures.len(),
{
    if signatures.len() == 0 {
        Seq::empty()
    } else {
        let earlier = unique_signatures(signatures.drop_last());
        if position_of(signature_keys(earlier), signatures.last().key) is Some {
            earlier
        } else {
            earlier.push(signatures.last())
        }
    }
}

/// Every signature ends with an empty body.
pub open spec fn all_have_bodies(signatures: Seq<ParsedSignatureView>) -> bool {
    forall|i: int|
        0 <= i < signatures.len() ==> has_suffix((#[trigger] signatures[i]).text, EMPTY_BODY@)
}

/// What stands before the translated function when it is checked: its
/// imports, each on a line; the imports of the program and the stub of
/// `main`; and what stands in for its dependencies.
pub open spec fn check_prefix(f: TranslatedFunctionView) -> Seq<char> {
    joined(f.uses, newline()) + newline() + f.preamble + f.prefix
}

/// The text that is checked for a candidate.
pub open spec fn check_text(f: TranslatedFunctionView) -> Seq<char> {
    check_prefix(f) + f.translated
}

/// How the compiler's word on a candidate is taken.
pub enum FixpointView {
    /// The candidate has more imports now and is to be checked again.
    Again(TranslatedFunctionView),
    /// The candidate is as the compiler left it, with the complaints that remain.
    Settled(TranslatedFunctionView),
}

/// The candidate with more imports.
pub open spec fn with_uses(f: TranslatedFunctionView, more: Seq<Seq<char>>) -> TranslatedFunctionView {
    TranslatedFunctionView { uses: f.uses + more, ..f }
}

/// The text with the compiler's suggestions made: each suggestion that
/// fits takes the place of its stretch of the text.
pub open spec fn suggested(source: Seq<char>, result: TypeCheckingResultView) -> Seq<char> {
    rewritten(source, result.suggestions)
}

/// The compiler's word on a candidate can be taken: the checked text with
/// its suggestions made still holds at least as much as stood before the
/// candidate.
pub open spec fn can_settle(f: TranslatedFunctionView, result: TypeCheckingResultView) -> bool {
    suggested(check_text(f), result).len() >= check_prefix(f).len()
}

/// The candidate as the compiler leaves it: what stands behind the prefix
/// in the checked text with the suggestions made, and the complaints for
/// which the compiler has no suggestion.
pub open spec fn settled(
    f: TranslatedFunctionView,
    result: TypeCheckingResultView,
) -> TranslatedFunctionView {
    TranslatedFunctionView {
        translated: suggested(check_text(f), result).skip(check_prefix(f).len() as int),
        errors: result.errors,
        ..f
    }
}

/// One round of the compiler's repairs; nothing where the compiler's word
/// cannot be taken. Where the compiler asks for imports, the candidate
/// takes them and is checked again; else the candidate is what the
/// compiler makes of it.
pub open spec fn compiler_step(
    f: TranslatedFunctionView,
    result: TypeCheckingResultView,
) -> Option<FixpointView> {
    if !can_settle(f, result) {
        None
    } else if result.add_use.len() > 0 {
        Some(FixpointView::Again(with_uses(f, result.add_use)))
    } else {
        Some(FixpointView::Settled(settled(f, result)))
    }
}

/// The text of `base` with a repair in the place of the code that its
/// complaint at `index` is about; the repair is trimmed and indented as
/// that code is.
pub open spec fn repaired_text(
    base: TranslatedFunctionView,
    index: int,
    repaired: Seq<char>,
) -> Seq<char> {
    let snippet = base.errors[index].1;
    replaced(base.translated, snippet, indentation_of(snippet) + trimmed(repaired))
}

/// The least number of complaints that a candidate has.
pub open spec fn least_errors(candidates: Seq<TranslatedFunctionView>) -> nat
    decreases candidates.len(),
{
    if candidates.len() == 0 {
        0
    } else if candidates.len() == 1 {
        candidates[0].errors.len()
    } else {
        let earlier = least_errors(candidates.drop_last());
        if candidates.last().errors.len() < earlier {
            candidates.last().errors.len()
        } else {
            earlier
        }
    }
}

/// The candidates of `count` complaints.
pub open spec fn with_errors(candidates: Seq<TranslatedFunctionView>, count: nat) -> Seq<
    TranslatedFunctionView,
> {
    candidates.filter_map(
        |c: TranslatedFunctionView|
            if c.errors.len() == count {
                Some(c)
            } else {
                None
            },
    )
}

/// The candidates that have the least number of complaints.
pub open spec fn tied(candidates: Seq<TranslatedFunctionView>) -> Seq<TranslatedFunctionView> {
    with_errors(candidates, least_errors(candidates))
}

// ---------------------------------------------------------------------------
// The translated program
// ---------------------------------------------------------------------------

/// The translated program: its imports, its variables, its functions, and
/// a stub of `main` where no function of the C program is called `main`;
/// the parts apart by line feeds, and so the members of each part.
pub open spec fn program_text(t: TranslatorView) -> Seq<char> {
    joined(t.use_list, newline()) + newline() + joined(variable_texts(t.variables), newline())
        + newline() + joined(function_texts(t.functions), newline()) + newline() + main_stub(
        position_of(translated_names(t.functions), MAIN@) is Some,
    )
}

// ---------------------------------------------------------------------------
// The course of the translation
// ---------------------------------------------------------------------------

/// The function at a place of the order.
pub open spec fn function_at(t: TranslatorView, position: nat) -> FunctionDefinitionView {
    t.program.functions[t.order[position as int] as int]
}

/// The translation fails.
pub open spec fn fail(t: TranslatorView, error: TranslationError, entity: Seq<char>) -> (
    TranslatorView,
    ActionView,
) {
    (TranslatorView { stage: StageView::Failed { error }, ..t }, ActionView::Abort { error, entity })
}

/// A report is turned away; the translator stays as it is.
pub open spec fn reject(t: TranslatorView) -> (TranslatorView, ActionView) {
    (t, ActionView::Abort { error: TranslationError::UnexpectedEvent, entity: Seq::empty() })
}

/// On to the declaration at `index`, or to the end of the pass.
pub open spec fn to_variable(t: TranslatorView, index: nat) -> (TranslatorView, ActionView) {
    if index >= t.program.variables.len() {
        (TranslatorView { stage: StageView::Idle, ..t }, ActionView::Finished)
    } else {
        let d = t.program.variables[index as int];
        if d.names.len() != 1 {
            fail(t, TranslationError::UnsupportedDeclaration, d.code)
        } else {
            (
                TranslatorView { stage: StageView::Variable { index }, ..t },
                ActionView::TranslateVariable { code: d.code },
            )
        }
    }
}

/// The pass over the global variables begins, or goes on where it stood.
pub open spec fn begin_variables(t: TranslatorView) -> (TranslatorView, ActionView) {
    match t.stage {
        StageView::Idle => to_variable(t, t.variables.len()),
        _ => reject(t),
    }
}

/// The model has translated a declaration, or has not.
pub open spec fn on_variable_translated(t: TranslatorView, index: nat, text: Option<Seq<char>>) -> (
    TranslatorView,
    ActionView,
) {
    match text {
        Some(translated) => (
            TranslatorView { stage: StageView::VariableParsed { index, translated }, ..t },
            ActionView::ParseVariable { text: translated },
        ),
        None => fail(t, TranslationError::ParseFailure, t.program.variables[index as int].code),
    }
}

/// The compiler has read a translated declaration.
pub open spec fn on_variable_parsed(
    t: TranslatorView,
    index: nat,
    translated: Seq<char>,
    declared: Seq<(Seq<char>, Seq<char>)>,
) -> (TranslatorView, ActionView) {
    let d = t.program.variables[index as int];
    if declared.len() != 1 || d.names.len() != 1 {
        fail(t, TranslationError::ParseFailure, d.code)
    } else {
        to_variable(
            TranslatorView {
                variables: t.variables.push(
                    TranslatedVariableView {
                        name: d.names[0],
                        new_name: declared[0].0,
                        ty: declared[0].1,
                        text: translated,
                    },
                ),
                ..t
            },
            index + 1,
        )
    }
}

/// The job of translating the function at `position`, at its start.
pub open spec fn new_job(
    position: nat,
    preamble: Seq<char>,
    prefix: Seq<char>,
    dependencies: Seq<Seq<char>>,
) -> JobView {
    JobView {
        position,
        preamble,
        prefix,
        dependencies,
        new_name: Seq::empty(),
        code: Seq::empty(),
        signatures: Seq::empty(),
        taken: 0,
        candidates: Seq::empty(),
    }
}

/// On to the function at `position` of the order, or to the end of the pass.
pub open spec fn to_function(t: TranslatorView, position: nat) -> (TranslatorView, ActionView) {
    if position >= t.order.len() {
        (TranslatorView { stage: StageView::Idle, ..t }, ActionView::Finished)
    } else {
        let f = function_at(t, position);
        match context_of(declared_names(t.program.variables), t.variables, t.functions, f) {
            Some(context) => (
                TranslatorView {
                    stage: StageView::Name {
                        job: new_job(
                            position,
                            preamble_text(t.use_list, has_main(t.functions, f.name)),
                            context.0,
                            context.1,
                        ),
                    },
                    ..t
                },
                ActionView::Rename { name: f.name },
            ),
            None => fail(t, TranslationError::MissingDependency, f.name),
        }
    }
}

/// The pass over the functions begins, or goes on where it stood.
pub open spec fn begin_functions(t: TranslatorView) -> (TranslatorView, ActionView) {
    match t.stage {
        StageView::Idle => to_function(t, t.functions.len()),
        _ => reject(t),
    }
}

/// The model has named the function.
pub open spec fn on_renamed(t: TranslatorView, job: JobView, name: Seq<char>) -> (
    TranslatorView,
    ActionView,
) {
    let f = function_at(t, job.position);
    match edits_of(declared_names(t.program.variables), t.variables, t.functions, f, name) {
        Some(edits) => {
            let code = rewritten(f.code, edits);
            (
                TranslatorView {
                    stage: StageView::Signatures { job: JobView { new_name: name, code, ..job } },
                    ..t
                },
                ActionView::TranslateSignature {
                    code,
                    new_name: name,
                    deps: job.dependencies,
                    count: t.signature_count,
                },
            )
        },
        None => fail(t, TranslationError::MissingDependency, f.name),
    }
}

/// The model has given candidate signatures: those beyond the count that
/// was asked for are left aside.
pub open spec fn on_signatures(t: TranslatorView, job: JobView, signatures: Seq<Seq<char>>) -> (
    TranslatorView,
    ActionView,
) {
    let kept = first_of(signatures, t.signature_count);
    (
        TranslatorView { stage: StageView::Keys { job, count: kept.len() }, ..t },
        ActionView::ParseSignatures { signatures: kept },
    )
}

/// The compiler has read the candidate signatures.
pub open spec fn on_signatures_parsed(
    t: TranslatorView,
    job: JobView,
    count: nat,
    parsed: Seq<ParsedSignatureView>,
) -> (TranslatorView, ActionView) {
    if parsed.len() != count || !all_have_bodies(parsed) {
        fail(t, TranslationError::ParseFailure, function_at(t, job.position).name)
    } else {
        to_body(t, JobView { signatures: unique_signatures(parsed), taken: 0, ..job })
    }
}

/// What the model is asked to begin a translation with: the signature
/// without its empty body and the white space before it.
pub open spec fn asked_header(signature: Seq<char>) -> Seq<char> {
    trimmed_end(header(signature))
}

/// On to the next signature, or to the choice among the candidates.
pub open spec fn to_body(t: TranslatorView, job: JobView) -> (TranslatorView, ActionView) {
    if job.taken >= job.signatures.len() {
        to_selection(t, job)
    } else {
        (
            TranslatorView { stage: StageView::Body { job }, ..t },
            ActionView::TranslateFunction {
                code: job.code,
                signature: asked_header(job.signatures[job.taken as int].text),
                deps: job.dependencies,
            },
        )
    }
}

/// The candidate that a translation of the function makes for the signature in turn.
pub open spec fn candidate(t: TranslatorView, job: JobView, body: Seq<char>) -> TranslatedFunctionView {
    TranslatedFunctionView {
        original: function_at(t, job.position).name,
        name: job.new_name,
        preamble: job.preamble,
        prefix: job.prefix,
        signature_key: job.signatures[job.taken as int].key,
        signature: job.signatures[job.taken as int].text,
        translated: body,
        uses: Seq::empty(),
        errors: Seq::empty(),
    }
}

/// The job with the signature in turn dealt with.
pub open spec fn next_signature(job: JobView) -> JobView {
    JobView { taken: job.taken + 1, ..job }
}

/// The model has translated the function, or has not. A translation that
/// begins with the signature's header becomes a candidate and is checked;
/// any other is dropped.
pub open spec fn on_function_translated(t: TranslatorView, job: JobView, body: Option<Seq<char>>) -> (
    TranslatorView,
    ActionView,
) {
    match body {
        Some(text) => if has_prefix(text, header(job.signatures[job.taken as int].text)) {
            to_check(t, job, candidate(t, job, text), None, 0)
        } else {
            to_body(t, next_signature(job))
        },
        None => to_body(t, next_signature(job)),
    }
}

/// The candidate `current` goes to the compiler.
pub open spec fn to_check(
    t: TranslatorView,
    job: JobView,
    current: TranslatedFunctionView,
    base: Option<TranslatedFunctionView>,
    index: nat,
) -> (TranslatorView, ActionView) {
    (
        TranslatorView { stage: StageView::Check { job, current, before: base, index }, ..t },
        ActionView::TypeCheck { code: check_text(current) },
    )
}

/// The translation begins with the header of its signature.
pub open spec fn begins_with_signature(f: TranslatedFunctionView) -> bool {
    has_prefix(f.translated, header(f.signature))
}

/// The compiler has checked `current`. With imports asked for, it is
/// checked again with them. Else it is what the compiler makes of it, and
/// is dropped where it no longer begins with its signature: the first
/// time, the next signature is then in turn; as an attempt at a repair,
/// the next complaint of `base`. One that begins with its signature is
/// kept: the first time, the repairs by the model begin with it; as an
/// attempt at a repair, they begin anew with it where it has fewer
/// complaints than `base`, and go on with the next complaint of `base`
/// where it has not.
pub open spec fn on_checked(
    t: TranslatorView,
    job: JobView,
    current: TranslatedFunctionView,
    base: Option<TranslatedFunctionView>,
    index: nat,
    result: TypeCheckingResultView,
) -> (TranslatorView, ActionView) {
    match compiler_step(current, result) {
        None => fail(t, TranslationError::BrokenCheck, current.original),
        Some(FixpointView::Again(more)) => to_check(t, job, more, base, index),
        Some(FixpointView::Settled(now)) => match base {
            None => if begins_with_signature(now) {
                to_fix(t, job, now, 0)
            } else {
                to_body(t, next_signature(job))
            },
            Some(b) => if begins_with_signature(now) && now.errors.len() < b.errors.len() {
                to_fix(t, job, now, 0)
            } else {
                to_fix(t, job, b, index + 1)
            },
        },
    }
}

/// On to the complaint at `index` of `base`; after the last the candidate
/// is done and the next signature is in turn.
pub open spec fn to_fix(t: TranslatorView, job: JobView, base: TranslatedFunctionView, index: nat) -> (
    TranslatorView,
    ActionView,
) {
    if index >= base.errors.len() {
        to_body(
            t,
            JobView { candidates: job.candidates.push(base), taken: job.taken + 1, ..job },
        )
    } else {
        (
            TranslatorView { stage: StageView::Fix { job, base, index }, ..t },
            ActionView::Fix {
                code: base.errors[index as int].1,
                message: base.errors[index as int].0,
            },
        )
    }
}

/// The model has given a repair, or has not. An acceptable repair is put
/// in place and checked; else the next complaint is in turn.
pub open spec fn on_fixed(
    t: TranslatorView,
    job: JobView,
    base: TranslatedFunctionView,
    index: nat,
    repaired: Option<Seq<char>>,
) -> (TranslatorView, ActionView) {
    match repaired {
        Some(text) => if is_acceptable_repair(base.errors[index as int].1, text) {
            to_check(
                t,
                job,
                TranslatedFunctionView {
                    translated: repaired_text(base, index as int, text),
                    ..base
                },
                Some(base),
                index,
            )
        } else {
            to_fix(t, job, base, index + 1)
        },
        None => to_fix(t, job, base, index + 1),
    }
}

/// The choice among the candidates: without any the translation fails;
/// else those of the least number of complaints are compared.
pub open spec fn to_selection(t: TranslatorView, job: JobView) -> (TranslatorView, ActionView) {
    if job.candidates.len() == 0 {
        fail(t, TranslationError::NoCandidates, function_at(t, job.position).name)
    } else {
        to_compare(t, JobView { candidates: tied(job.candidates), ..job }, 0, 1)
    }
}

/// On to the comparison of the best candidate so far with the one at
/// `next`; after the last the best is the function's translation.
pub open spec fn to_compare(t: TranslatorView, job: JobView, best: nat, next: nat) -> (
    TranslatorView,
    ActionView,
) {
    if next >= job.candidates.len() {
        commit(t, job, job.candidates[best as int])
    } else {
        (
            TranslatorView { stage: StageView::Compare { job, best, next }, ..t },
            ActionView::Compare {
                first: job.candidates[best as int].translated,
                second: job.candidates[next as int].translated,
            },
        )
    }
}

/// The model has chosen. The later candidate takes the place of the best
/// only where it is preferred.
pub open spec fn on_compared(
    t: TranslatorView,
    job: JobView,
    best: nat,
    next: nat,
    preference: Comparison,
) -> (TranslatorView, ActionView) {
    to_compare(
        t,
        job,
        if preference == Comparison::Less {
            next
        } else {
            best
        },
        next + 1,
    )
}

/// The chosen candidate becomes the function's translation, its imports
/// join those of the program, and the next function is in turn.
pub open spec fn commit(t: TranslatorView, job: JobView, chosen: TranslatedFunctionView) -> (
    TranslatorView,
    ActionView,
) {
    to_function(
        TranslatorView {
            functions: t.functions.push(chosen),
            use_list: merged(t.use_list, chosen.uses),
            ..t
        },
        job.position + 1,
    )
}

/// What a report leads to: the translator after it, and what it asks for
/// next. A report that is not the one awaited is turned away.
pub open spec fn after(t: TranslatorView, event: EventView) -> (TranslatorView, ActionView) {
    match (t.stage, event) {
        (StageView::Variable { index }, EventView::VariableTranslated { text }) => {
            on_variable_translated(t, index, text)
        },
        (
            StageView::VariableParsed { index, translated },
            EventView::VariableParsed { declared },
        ) => on_variable_parsed(t, index, translated, declared),
        (StageView::Name { job }, EventView::Renamed { name }) => on_renamed(t, job, name),
        (StageView::Signatures { job }, EventView::Signatures { signatures }) => on_signatures(
            t,
            job,
            signatures,
        ),
        (StageView::Keys { job, count }, EventView::SignaturesParsed { parsed }) => {
            on_signatures_parsed(t, job, count, parsed)
        },
        (StageView::Body { job }, EventView::FunctionTranslated { body }) => {
            on_function_translated(t, job, body)
        },
        (StageView::Check { job, current, before, index }, EventView::Checked { result }) => {
            on_checked(t, job, current, before, index, result)
        },
        (StageView::Fix { job, base, index }, EventView::Fixed { repaired }) => on_fixed(
            t,
            job,
            base,
            index,
            repaired,
        ),
        (StageView::Compare { job, best, next }, EventView::Compared { preference }) => {
            on_compared(t, job, best, next, preference)
        },
        _ => reject(t),
    }
}

} // verus!
