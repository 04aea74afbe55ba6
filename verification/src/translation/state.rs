//! What the translator keeps: the translations made so far and the work
//! under way, and what passes between the translator and those who ask the
//! model and the compiler on its behalf.

use crate::llm_client::reply::Comparison;
use crate::translation::program::{Edit, EditView};
use vstd::prelude::*;

verus! {

/// A translated global variable.
#[derive(Clone, Debug, PartialEq, Eq)]
pub struct TranslatedVariable {
    /// The name in the C program.
    pub name: String,
    /// The name in the translation.
    pub new_name: String,
    /// The type in the translation.
    pub ty: String,
    /// The translated declaration.
    pub text: String,
}

/// What a `TranslatedVariable` holds.
pub struct TranslatedVariableView {
    pub name: Seq<char>,
    pub new_name: Seq<char>,
    pub ty: Seq<char>,
    pub text: Seq<char>,
}

impl View for TranslatedVariable {
    type V = TranslatedVariableView;

    open spec fn view(&self) -> TranslatedVariableView {
        TranslatedVariableView {
            name: self.name@,
            new_name: self.new_name@,
            ty: self.ty@,
            text: self.text@,
        }
    }
}

impl DeepView for TranslatedVariable {
    type V = TranslatedVariableView;

    open spec fn deep_view(&self) -> TranslatedVariableView {
        self@
    }
}

/// A translation of a function: a candidate while it is made and repaired,
/// the function's translation once it is chosen.
#[derive(Clone, Debug, PartialEq, Eq)]
pub struct TranslatedFunction {
    /// The name in the C program.
    pub original: String,
    /// The name in the translation.
    pub name: String,
    /// The imports of the program so far and the stub of `main`, which
    /// stand before the function when it is type-checked.
    pub preamble: String,
    /// What stands in for the variables it uses and the functions it calls
    /// when it is type-checked.
    pub prefix: String,
    /// The key of the signature: equal for signatures of the same types.
    pub signature_key: String,
    /// The signature, with an empty body.
    pub signature: String,
    /// The translated function.
    pub translated: String,
    /// The imports gathered for it.
    pub uses: Vec<String>,
    /// The compiler's complaints that are left: each a message and the code it is about.
    pub errors: Vec<(String, String)>,
}

/// What a `TranslatedFunction` holds.
pub struct TranslatedFunctionView {
    pub original: Seq<char>,
    pub name: Seq<char>,
    pub preamble: Seq<char>,
    pub prefix: Seq<char>,
    pub signature_key: Seq<char>,
    pub signature: Seq<char>,
    pub translated: Seq<char>,
    pub uses: Seq<Seq<char>>,
    pub errors: Seq<(Seq<char>, Seq<char>)>,
}

impl View for TranslatedFunction {
    type V = TranslatedFunctionView;

    open spec fn view(&self) -> TranslatedFunctionView {
        TranslatedFunctionView {
            original: self.original@,
            name: self.name@,
            preamble: self.preamble@,
            prefix: self.prefix@,
            signature_key: self.signature_key@,
            signature: self.signature@,
            translated: self.translated@,
            uses: self.uses.deep_view(),
            errors: self.errors.deep_view(),
        }
    }
}

impl DeepView for TranslatedFunction {
    type V = TranslatedFunctionView;

    open spec fn deep_view(&self) -> TranslatedFunctionView {
        self@
    }
}

/// A signature as the compiler reads it: the key of its types, and its text
/// with an empty body.
#[derive(Clone, Debug, PartialEq, Eq)]
pub struct ParsedSignature {
    pub key: String,
    pub text: String,
}

/// What a `ParsedSignature` holds.
pub struct ParsedSignatureView {
    pub key: Seq<char>,
    pub text: Seq<char>,
}

impl View for ParsedSignature {
    type V = ParsedSignatureView;

    open spec fn view(&self) -> ParsedSignatureView {
        ParsedSignatureView { key: self.key@, text: self.text@ }
    }
}

impl DeepView for ParsedSignature {
    type V = ParsedSignatureView;

    open spec fn deep_view(&self) -> ParsedSignatureView {
        self@
    }
}

/// What the compiler says of a text: the complaints for which it has no
/// suggestion, each a message and the code it is about; its suggestions,
/// each a text for a stretch of the checked text; and the imports it asks for.
#[derive(Clone, Debug, PartialEq, Eq)]
pub struct TypeCheckingResult {
    pub errors: Vec<(String, String)>,
    pub suggestions: Vec<Edit>,
    pub add_use: Vec<String>,
}

/// What a `TypeCheckingResult` holds.
pub struct TypeCheckingResultView {
    pub errors: Seq<(Seq<char>, Seq<char>)>,
    pub suggestions: Seq<EditView>,
    pub add_use: Seq<Seq<char>>,
}

impl View for TypeCheckingResult {
    type V = TypeCheckingResultView;

    open spec fn view(&self) -> TypeCheckingResultView {
        TypeCheckingResultView {
            errors: self.errors.deep_view(),
            suggestions: self.suggestions.deep_view(),
            add_use: self.add_use.deep_view(),
        }
    }
}

/// Why a translation cannot go on.
#[derive(Clone, Copy, Debug, PartialEq, Eq, Structural)]
pub enum TranslationError {
    /// Functions call each other in a circle.
    MutualRecursion,
    /// A declaration does not declare exactly one variable.
    UnsupportedDeclaration,
    /// The translation of a variable or a signature could not be read.
    ParseFailure,
    /// A translation that is needed has not been made.
    MissingDependency,
    /// The compiler's answer does not hold the text it was given to check.
    BrokenCheck,
    /// No candidate of a function is left.
    NoCandidates,
    /// What was reported is not what was asked for.
    UnexpectedEvent,
}

/// The translation of one function, as far as it has come.
#[derive(Clone, Debug, PartialEq, Eq)]
pub struct Job {
    /// The place of the function in the order of translation.
    pub position: usize,
    /// The imports of the program so far and the stub of `main`, which
    /// stand before the function when it is type-checked.
    pub preamble: String,
    /// What stands in for the variables it uses and the functions it calls
    /// when it is type-checked.
    pub prefix: String,
    /// The translations that the function depends on: the global variables
    /// it uses, then the signatures of the functions it calls.
    pub dependencies: Vec<String>,
    /// The name in the translation.
    pub new_name: String,
    /// The C function with the new names in place.
    pub code: String,
    /// The candidate signatures, one of each key.
    pub signatures: Vec<ParsedSignature>,
    /// How many of the signatures have been dealt with.
    pub taken: usize,
    /// The candidates made so far.
    pub candidates: Vec<TranslatedFunction>,
}

/// What a `Job` holds.
pub struct JobView {
    pub position: nat,
    pub preamble: Seq<char>,
    pub prefix: Seq<char>,
    pub dependencies: Seq<Seq<char>>,
    pub new_name: Seq<char>,
    pub code: Seq<char>,
    pub signatures: Seq<ParsedSignatureView>,
    pub taken: nat,
    pub candidates: Seq<TranslatedFunctionView>,
}

impl View for Job {
    type V = JobView;

    open spec fn view(&self) -> JobView {
        JobView {
            position: self.position as nat,
            preamble: self.preamble@,
            prefix: self.prefix@,
            dependencies: self.dependencies.deep_view(),
            new_name: self.new_name@,
            code: self.code@,
            signatures: self.signatures.deep_view(),
            taken: self.taken as nat,
            candidates: self.candidates.deep_view(),
        }
    }
}

/// Where the translator stands.
#[derive(Clone, Debug, PartialEq, Eq)]
pub enum Stage {
    /// Nothing is under way.
    Idle,
    /// The translation of the declaration at `index` is awaited.
    Variable { index: usize },
    /// The name and the type that `translated` declares are awaited.
    VariableParsed { index: usize, translated: String },
    /// The new name of the function is awaited.
    Name { job: Job },
    /// Candidate signatures are awaited.
    Signatures { job: Job },
    /// The compiler's reading of the candidate signatures is awaited.
    Keys { job: Job, count: usize },
    /// The translation of the function for the signature at `job.taken` is awaited.
    Body { job: Job },
    /// The compiler's word on `current` is awaited. Where `current` is an
    /// attempt to repair the complaint at `index` of `before`, `before` is kept.
    Check { job: Job, current: TranslatedFunction, before: Option<TranslatedFunction>, index: usize },
    /// A repair of the complaint at `index` of `base` is awaited.
    Fix { job: Job, base: TranslatedFunction, index: usize },
    /// The choice between the candidates at `best` and at `next` is awaited.
    Compare { job: Job, best: usize, next: usize },
    /// The translation has failed.
    Failed { error: TranslationError },
}

/// What a `Stage` holds.
pub enum StageView {
    Idle,
    Variable { index: nat },
    VariableParsed { index: nat, translated: Seq<char> },
    Name { job: JobView },
    Signatures { job: JobView },
    Keys { job: JobView, count: nat },
    Body { job: JobView },
    Check {
        job: JobView,
        current: TranslatedFunctionView,
        before: Option<TranslatedFunctionView>,
        index: nat,
    },
    Fix { job: JobView, base: TranslatedFunctionView, index: nat },
    Compare { job: JobView, best: nat, next: nat },
    Failed { error: TranslationError },
}

impl View for Stage {
    type V = StageView;

    open spec fn view(&self) -> StageView {
        match self {
            Stage::Idle => StageView::Idle,
            Stage::Variable { index } => StageView::Variable { index: *index as nat },
            Stage::VariableParsed { index, translated } => StageView::VariableParsed {
                index: *index as nat,
                translated: translated@,
            },
            Stage::Name { job } => StageView::Name { job: job@ },
            Stage::Signatures { job } => StageView::Signatures { job: job@ },
            Stage::Keys { job, count } => StageView::Keys { job: job@, count: *count as nat },
            Stage::Body { job } => StageView::Body { job: job@ },
            Stage::Check { job, current, before, index } => StageView::Check {
                job: job@,
                current: current@,
                before: before.deep_view(),
                index: *index as nat,
            },
            Stage::Fix { job, base, index } => StageView::Fix {
                job: job@,
                base: base@,
                index: *index as nat,
            },
            Stage::Compare { job, best, next } => StageView::Compare {
                job: job@,
                best: *best as nat,
                next: *next as nat,
            },
            Stage::Failed { error } => StageView::Failed { error: *error },
        }
    }
}

/// What the translator asks for.
#[derive(Clone, Debug, PartialEq, Eq)]
pub enum Action {
    /// Ask the model to translate the declaration `code`.
    TranslateVariable { code: String },
    /// Ask the compiler for the name and the type that `text` declares.
    ParseVariable { text: String },
    /// Ask the model for the new name of the function `name`.
    Rename { name: String },
    /// Ask the model for `count` candidate signatures of the function `code`.
    TranslateSignature { code: String, new_name: String, deps: Vec<String>, count: usize },
    /// Ask the compiler to read the signatures.
    ParseSignatures { signatures: Vec<String> },
    /// Ask the model to translate the function `code` to one that begins
    /// with `signature`: the signature in turn, without its empty body and
    /// the white space before it.
    TranslateFunction { code: String, signature: String, deps: Vec<String> },
    /// Ask the compiler to check `code`.
    TypeCheck { code: String },
    /// Ask the model to repair `code`, of which the compiler says `message`.
    Fix { code: String, message: String },
    /// Ask the model which of two candidates is the better.
    Compare { first: String, second: String },
    /// The pass is done.
    Finished,
    /// The translation has failed, at the entity `entity`.
    Abort { error: TranslationError, entity: String },
}

/// What an `Action` holds.
pub enum ActionView {
    TranslateVariable { code: Seq<char> },
    ParseVariable { text: Seq<char> },
    Rename { name: Seq<char> },
    TranslateSignature { code: Seq<char>, new_name: Seq<char>, deps: Seq<Seq<char>>, count: nat },
    ParseSignatures { signatures: Seq<Seq<char>> },
    TranslateFunction { code: Seq<char>, signature: Seq<char>, deps: Seq<Seq<char>> },
    TypeCheck { code: Seq<char> },
    Fix { code: Seq<char>, message: Seq<char> },
    Compare { first: Seq<char>, second: Seq<char> },
    Finished,
    Abort { error: TranslationError, entity: Seq<char> },
}

impl View for Action {
    type V = ActionView;

    open spec fn view(&self) -> ActionView {
        match self {
            Action::TranslateVariable { code } => ActionView::TranslateVariable { code: code@ },
            Action::ParseVariable { text } => ActionView::ParseVariable { text: text@ },
            Action::Rename { name } => ActionView::Rename { name: name@ },
            Action::TranslateSignature { code, new_name, deps, count } => {
                ActionView::TranslateSignature {
                    code: code@,
                    new_name: new_name@,
                    deps: deps.deep_view(),
                    count: *count as nat,
                }
            },
            Action::ParseSignatures { signatures } => ActionView::ParseSignatures {
                signatures: signatures.deep_view(),
            },
            Action::TranslateFunction { code, signature, deps } => ActionView::TranslateFunction {
                code: code@,
                signature: signature@,
                deps: deps.deep_view(),
            },
            Action::TypeCheck { code } => ActionView::TypeCheck { code: code@ },
            Action::Fix { code, message } => ActionView::Fix { code: code@, message: message@ },
            Action::Compare { first, second } => ActionView::Compare {
                first: first@,
                second: second@,
            },
            Action::Finished => ActionView::Finished,
            Action::Abort { error, entity } => ActionView::Abort { error: *error, entity: entity@ },
        }
    }
}

/// What is reported to the translator.
#[derive(Clone, Debug, PartialEq, Eq)]
pub enum Event {
    /// The model's translation of a declaration, if it gave one.
    VariableTranslated { text: Option<String> },
    /// The names and types that a translated declaration declares.
    VariableParsed { declared: Vec<(String, String)> },
    /// The model's new name of a function.
    Renamed { name: String },
    /// The model's candidate signatures.
    Signatures { signatures: Vec<String> },
    /// The compiler's reading of the candidate signatures, one for one.
    SignaturesParsed { parsed: Vec<ParsedSignature> },
    /// The model's translation of a function, if it gave one.
    FunctionTranslated { body: Option<String> },
    /// The compiler's word on the text that it was asked to check.
    Checked { result: TypeCheckingResult },
    /// The model's repair, if it gave one.
    Fixed { repaired: Option<String> },
    /// The model's choice between two candidates.
    Compared { preference: Comparison },
}

/// What an `Event` holds.
pub enum EventView {
    VariableTranslated { text: Option<Seq<char>> },
    VariableParsed { declared: Seq<(Seq<char>, Seq<char>)> },
    Renamed { name: Seq<char> },
    Signatures { signatures: Seq<Seq<char>> },
    SignaturesParsed { parsed: Seq<ParsedSignatureView> },
    FunctionTranslated { body: Option<Seq<char>> },
    Checked { result: TypeCheckingResultView },
    Fixed { repaired: Option<Seq<char>> },
    Compared { preference: Comparison },
}

impl View for Event {
    type V = EventView;

    open spec fn view(&self) -> EventView {
        match self {
            Event::VariableTranslated { text } => EventView::VariableTranslated {
                text: text.deep_view(),
            },
            Event::VariableParsed { declared } => EventView::VariableParsed {
                declared: declared.deep_view(),
            },
            Event::Renamed { name } => EventView::Renamed { name: name@ },
            Event::Signatures { signatures } => EventView::Signatures {
                signatures: signatures.deep_view(),
            },
            Event::SignaturesParsed { parsed } => EventView::SignaturesParsed {
                parsed: parsed.deep_view(),
            },
            Event::FunctionTranslated { body } => EventView::FunctionTranslated {
                body: body.deep_view(),
            },
            Event::Checked { result } => EventView::Checked { result: result@ },
            Event::Fixed { repaired } => EventView::Fixed { repaired: repaired.deep_view() },
            Event::Compared { preference } => EventView::Compared { preference: *preference },
        }
    }
}

// ---------------------------------------------------------------------------
// Copies
// ---------------------------------------------------------------------------

/// A copy of the strings.
pub fn copy_strings(items: &Vec<String>) -> (r: Vec<String>)
    ensures
        r.deep_view() == items.deep_view(),
{
    let mut r: Vec<String> = Vec::new();
    let mut i: usize = 0;
    while i < items.len()
        invariant
            i <= items.len(),
            r.deep_view() == items.deep_view().take(i as int),
        decreases items.len() - i,
    {
        let ghost before = r.deep_view();
        r.push(items[i].clone());
        assert(r.deep_view() =~= before.push(items@[i as int]@));
        assert(items.deep_view().take(i + 1) =~= items.deep_view().take(i as int).push(
            items@[i as int]@,
        ));
        i += 1;
    }
    assert(items.deep_view().take(i as int) =~= items.deep_view());
    r
}

/// A copy of the pairs of strings.
pub fn copy_pairs(items: &Vec<(String, String)>) -> (r: Vec<(String, String)>)
    ensures
        r.deep_view() == items.deep_view(),
{
    let mut r: Vec<(String, String)> = Vec::new();
    let mut i: usize = 0;
    while i < items.len()
        invariant
            i <= items.len(),
            r.deep_view() == items.deep_view().take(i as int),
        decreases items.len() - i,
    {
        let ghost before = r.deep_view();
        r.push((items[i].0.clone(), items[i].1.clone()));
        assert(r.deep_view() =~= before.push(items@[i as int].deep_view()));
        assert(items.deep_view().take(i + 1) =~= items.deep_view().take(i as int).push(
            items@[i as int].deep_view(),
        ));
        i += 1;
    }
    assert(items.deep_view().take(i as int) =~= items.deep_view());
    r
}

impl TranslatedFunction {
    /// A copy of the translation.
    pub fn copy(&self) -> (r: TranslatedFunction)
        ensures
            r@ == self@,
    {
        TranslatedFunction {
            original: self.original.clone(),
            name: self.name.clone(),
            preamble: self.preamble.clone(),
            prefix: self.prefix.clone(),
            signature_key: self.signature_key.clone(),
            signature: self.signature.clone(),
            translated: self.translated.clone(),
            uses: copy_strings(&self.uses),
            errors: copy_pairs(&self.errors),
        }
    }
}

} // verus!
