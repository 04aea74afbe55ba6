//! The translator: it takes a C program through the translation of its
//! global variables and of its functions, each after what it depends on.
//!
//! The translator neither asks the model nor runs the compiler. It says
//! what is to be asked, and is told the answer; whoever drives it does the
//! asking in between.

pub mod comments;
pub mod context;
pub mod laws;
pub mod program;
pub mod report;
pub mod rules;
pub mod state;

use crate::graph::{has_post_order, is_post_order, post_order, takes_least_first};
use crate::llm_client::reply::{acceptable, first_signatures, Comparison};
use crate::text::{
    append, chars_of, ends_with, has_suffix, indentation, join_strings, joined, newline, replace,
    slice_of, starts_with, string_of, strip_suffix, trim, trim_end,
};
use crate::translation::context::{
    context, edits, find_translated, graph_of, make_preamble, merge, prepare, with_main,
};
use crate::translation::laws::{
    inv, job_inv, lemma_after, lemma_begin, lemma_committed, lemma_prepared_is_local, lemma_tied,
    same_tables, tables_inv,
};
use crate::translation::program::{names_of, position_from, position_of, rewrite, Program};
use crate::translation::rules::{
    after, all_have_bodies, begin_functions, begin_variables, begins_with_signature, call_graph,
    candidate, check_prefix, check_text, compiler_step, fail, function_at, function_texts, least_errors, merged,
    on_checked, on_compared, on_fixed, on_function_translated, on_renamed, on_signatures,
    on_signatures_parsed, on_variable_parsed, on_variable_translated, prepared, program_text,
    repaired_text, signature_keys, suggested, tied, to_body, to_check, to_compare, to_fix,
    to_function, to_selection, to_variable, unique_signatures, variable_texts, with_errors,
    with_uses, EMPTY_BODY, FixpointView, MAIN, MAIN_STUB, TranslatorView,
};
use crate::translation::state::{
    copy_strings, Action, Event, Job, ParsedSignature, Stage, TranslatedFunction,
    TranslatedFunctionView, TranslatedVariable, TranslationError, TypeCheckingResult,
};
use vstd::prelude::*;

verus! {

/// The translator of one C program.
#[derive(Clone, Debug, PartialEq, Eq)]
pub struct Translator {
    /// The program, made ready.
    pub program: Program,
    /// The order in which the functions are translated.
    pub function_post_order: Vec<usize>,
    /// How many candidate signatures are asked for.
    pub signature_count: usize,
    /// The translated global variables, in the order of their declarations.
    pub translated_variables: Vec<TranslatedVariable>,
    /// The translated functions, in the order of their translation.
    pub translated_functions: Vec<TranslatedFunction>,
    /// The imports of the translated program.
    pub use_list: Vec<String>,
    /// Where the translator stands.
    pub stage: Stage,
}

impl View for Translator {
    type V = TranslatorView;

    open spec fn view(&self) -> TranslatorView {
        TranslatorView {
            program: self.program@,
            order: self.function_post_order@,
            signature_count: self.signature_count as nat,
            variables: self.translated_variables.deep_view(),
            functions: self.translated_functions.deep_view(),
            use_list: self.use_list.deep_view(),
            stage: self.stage@,
        }
    }
}

/// How the compiler's word on a candidate is taken.
#[derive(Clone, Debug, PartialEq, Eq)]
pub enum Fixpoint {
    /// The candidate has more imports now and is to be checked again.
    Again(TranslatedFunction),
    /// The candidate is as the compiler left it, with the complaints that remain.
    Settled(TranslatedFunction),
}

impl View for Fixpoint {
    type V = FixpointView;

    open spec fn view(&self) -> FixpointView {
        match self {
            Fixpoint::Again(f) => FixpointView::Again(f@),
            Fixpoint::Settled(f) => FixpointView::Settled(f@),
        }
    }
}

impl DeepView for Fixpoint {
    type V = FixpointView;

    open spec fn deep_view(&self) -> FixpointView {
        self@
    }
}

/// Whether the translation begins with the header of its signature.
pub fn begins_with_its_signature(function: &TranslatedFunction) -> (r: bool)
    ensures
        r == begins_with_signature(function@),
{
    let head = strip_suffix(&chars_of(function.signature.as_str()), &chars_of(EMPTY_BODY));
    starts_with(&chars_of(function.translated.as_str()), &head)
}

fn check_prefix_of(function: &TranslatedFunction) -> (r: Vec<char>)
    ensures
        r@ == check_prefix(function@),
{
    let mut out = join_strings(&function.uses);
    out.push('\n');
    assert(out@ =~= joined(function.uses.deep_view(), newline()) + newline());
    append(&mut out, &chars_of(function.preamble.as_str()));
    append(&mut out, &chars_of(function.prefix.as_str()));
    assert(out@ =~= check_prefix(function@));
    out
}

/// The text that is checked for a candidate: its imports, those of the
/// program and the stub of `main`, what stands in for its dependencies, and
/// its translation.
pub fn check_request(function: &TranslatedFunction) -> (r: String)
    ensures
        r@ == check_text(function@),
{
    let mut out = check_prefix_of(function);
    append(&mut out, &chars_of(function.translated.as_str()));
    string_of(&out)
}

/// The text with the compiler's suggestions made, and the compiler's word
/// as it was: the complaints in it are those for which it has no suggestion.
pub fn apply_suggestions(source: &str, result: TypeCheckingResult) -> (r: (
    String,
    TypeCheckingResult,
))
    ensures
        r.0@ == suggested(source@, result@),
        r.1 == result,
{
    (rewrite(source, &result.suggestions), result)
}

/// One round of the compiler's repairs on a candidate that the compiler has
/// checked: its suggestions are made in the checked text. Nothing comes of
/// it where that text has lost part of what stood before the candidate.
/// Else, where the compiler asks for imports, the candidate takes them and
/// is to be checked again; and where it asks for none, the candidate
/// becomes what stands behind its prefix in the text so made, with the
/// complaints that remain.
pub fn fix_function_compiler(function: TranslatedFunction, result: TypeCheckingResult) -> (r:
    Option<Fixpoint>)
    ensures
        r.deep_view() == compiler_step(function@, result@),
{
    let mut function = function;
    let ghost before = function@;
    let (code, result) = apply_suggestions(check_request(&function).as_str(), result);
    let text = chars_of(code.as_str());
    let skip = check_prefix_of(&function).len();
    if text.len() < skip {
        return None;
    }
    if result.add_use.len() > 0 {
        let mut i: usize = 0;
        assert(result.add_use.deep_view().take(0) =~= Seq::empty());
        assert(before.uses + Seq::<Seq<char>>::empty() =~= before.uses);
        while i < result.add_use.len()
            invariant
                i <= result.add_use.len(),
                function@ == with_uses(before, result.add_use.deep_view().take(i as int)),
            decreases result.add_use.len() - i,
        {
            let ghost uses = function.uses.deep_view();
            function.uses.push(result.add_use[i].clone());
            assert(function.uses.deep_view() =~= uses.push(result.add_use@[i as int]@));
            assert(before.uses + result.add_use.deep_view().take(i + 1) =~= (before.uses
                + result.add_use.deep_view().take(i as int)).push(result.add_use@[i as int]@));
            i += 1;
        }
        assert(result.add_use.deep_view().take(i as int) =~= result.add_use.deep_view());
        Some(Fixpoint::Again(function))
    } else {
        let rest = slice_of(&text, skip, text.len());
        assert(rest@ =~= code@.skip(skip as int));
        function.translated = string_of(&rest);
        function.errors = result.errors;
        Some(Fixpoint::Settled(function))
    }
}

fn all_end_with_bodies(parsed: &Vec<ParsedSignature>) -> (r: bool)
    ensures
        r == all_have_bodies(parsed.deep_view()),
{
    let body = chars_of(EMPTY_BODY);
    let mut i: usize = 0;
    while i < parsed.len()
        invariant
            i <= parsed.len(),
            body@ == EMPTY_BODY@,
            forall|k: int|
                0 <= k < i ==> has_suffix((#[trigger] parsed.deep_view()[k]).text, EMPTY_BODY@),
        decreases parsed.len() - i,
    {
        assert(parsed.deep_view()[i as int] == parsed@[i as int]@);
        if !ends_with(&chars_of(parsed[i].text.as_str()), &body) {
            return false;
        }
        i += 1;
    }
    true
}

fn find_key(signatures: &Vec<ParsedSignature>, key: &String) -> (r: bool)
    ensures
        r == position_of(signature_keys(signatures.deep_view()), key@) is Some,
{
    let ghost all = signature_keys(signatures.deep_view());
    let mut i: usize = 0;
    while i < signatures.len()
        invariant
            i <= signatures.len(),
            all == signature_keys(signatures.deep_view()),
            position_of(all, key@) == position_from(
                all,
                key@,
                i as int,
            ),
        decreases signatures.len() - i,
    {
        assert(all[i as int] == signatures@[i as int].key@);
        if signatures[i].key == *key {
            return true;
        }
        i += 1;
    }
    false
}

fn unique(parsed: &Vec<ParsedSignature>) -> (r: Vec<ParsedSignature>)
    ensures
        r.deep_view() == unique_signatures(parsed.deep_view()),
{
    let ghost all = parsed.deep_view();
    let mut r: Vec<ParsedSignature> = Vec::new();
    let mut i: usize = 0;
    while i < parsed.len()
        invariant
            i <= parsed.len(),
            all == parsed.deep_view(),
            r.deep_view() == unique_signatures(all.take(i as int)),
        decreases parsed.len() - i,
    {
        proof {
            assert(all.take(i + 1).drop_last() =~= all.take(i as int));
            assert(all.take(i + 1).last() == parsed@[i as int]@);
        }
        let ghost before = r.deep_view();
        if !find_key(&r, &parsed[i].key) {
            r.push(ParsedSignature { key: parsed[i].key.clone(), text: parsed[i].text.clone() });
            assert(r.deep_view() =~= before.push(parsed@[i as int]@));
        }
        i += 1;
    }
    assert(all.take(i as int) =~= all);
    r
}

fn least_of(candidates: &Vec<TranslatedFunction>) -> (r: usize)
    requires
        candidates.len() > 0,
    ensures
        r == least_errors(candidates.deep_view()),
{
    let ghost all = candidates.deep_view();
    let mut least = candidates[0].errors.len();
    assert(all.take(1)[0] == candidates@[0]@);
    assert(candidates@[0]@.errors.len() == candidates@[0].errors.len());
    let mut i: usize = 1;
    while i < candidates.len()
        invariant
            1 <= i <= candidates.len(),
            all == candidates.deep_view(),
            least == least_errors(all.take(i as int)),
        decreases candidates.len() - i,
    {
        proof {
            assert(all.take(i + 1).drop_last() =~= all.take(i as int));
            assert(all.take(i + 1).last() == candidates@[i as int]@);
            assert(candidates@[i as int]@.errors.len() == candidates@[i as int].errors.len());
        }
        if candidates[i].errors.len() < least {
            least = candidates[i].errors.len();
        }
        i += 1;
    }
    assert(all.take(i as int) =~= all);
    least
}

fn tied_of(candidates: &Vec<TranslatedFunction>) -> (r: Vec<TranslatedFunction>)
    requires
        candidates.len() > 0,
    ensures
        r.deep_view() == tied(candidates.deep_view()),
{
    let ghost all = candidates.deep_view();
    let least = least_of(candidates);
    let mut r: Vec<TranslatedFunction> = Vec::new();
    let mut i: usize = 0;
    while i < candidates.len()
        invariant
            i <= candidates.len(),
            all == candidates.deep_view(),
            r.deep_view() == with_errors(all.take(i as int), least as nat),
        decreases candidates.len() - i,
    {
        proof {
            assert(all.take(i + 1).drop_last() =~= all.take(i as int));
            assert(all.take(i + 1).last() == candidates@[i as int]@);
            assert(candidates@[i as int]@.errors.len() == candidates@[i as int].errors.len());
        }
        let ghost before = r.deep_view();
        if candidates[i].errors.len() == least {
            r.push(candidates[i].copy());
            assert(r.deep_view() =~= before + seq![candidates@[i as int]@]);
        }
        i += 1;
    }
    assert(all.take(i as int) =~= all);
    r
}

impl Translator {
    /// What holds of a translator at every stage.
    pub open spec fn inv(&self) -> bool {
        inv(self@)
    }

    /// The translator of `program`: the program is made ready, and its
    /// functions are put in an order in which each comes after those it
    /// calls. There is no such order exactly where functions call each other
    /// in a circle, and then there is no translator.
    pub fn new(program: Program) -> (r: Result<Translator, TranslationError>)
        ensures
            match r {
                Ok(t) => {
                    &&& t.inv()
                    &&& t@.program == prepared(program@)
                    &&& is_post_order(call_graph(prepared(program@).functions), t@.order)
                    &&& takes_least_first(call_graph(prepared(program@).functions), t@.order)
                    &&& t@.signature_count == 3
                    &&& t@.variables.len() == 0
                    &&& t@.functions.len() == 0
                    &&& t@.use_list.len() == 0
                    &&& t@.stage is Idle
                },
                Err(e) => e == TranslationError::MutualRecursion && !has_post_order(
                    call_graph(prepared(program@).functions),
                ),
            },
    {
        let ghost given = program@;
        let program = prepare(program);
        let graph = graph_of(&program.functions);
        match post_order(&graph) {
            Some(order) => {
                let t = Translator {
                    program,
                    function_post_order: order,
                    signature_count: 3,
                    translated_variables: Vec::new(),
                    translated_functions: Vec::new(),
                    use_list: Vec::new(),
                    stage: Stage::Idle,
                };
                proof {
                    lemma_prepared_is_local(given);
                    assert(t@.use_list.to_set() =~= Set::empty());
                    assert(t@.program.functions.len() == t.program.functions.len());
                }
                Ok(t)
            },
            None => Err(TranslationError::MutualRecursion),
        }
    }

    /// The translator that asks for `count` candidate signatures of each function.
    pub fn with_signature_count(self, count: usize) -> (t: Translator)
        requires
            self.inv(),
            1 <= count <= 9,
        ensures
            t.inv(),
            t@ == (TranslatorView { signature_count: count as nat, ..self@ }),
    {
        let mut t = self;
        t.signature_count = count;
        t
    }

    /// The translated program: its imports, its variables in the order of
    /// their declarations, its functions in the order of their translation,
    /// and a stub of `main` where the C program has no `main`.
    pub fn whole_code(&self) -> (code: String)
        ensures
            code@ == program_text(self@),
    {
        let mut out = join_strings(&self.use_list);
        out.push('\n');
        assert(out@ =~= joined(self@.use_list, newline()) + newline());
        let mut variables: Vec<String> = Vec::new();
        let mut i: usize = 0;
        while i < self.translated_variables.len()
            invariant
                i <= self.translated_variables.len(),
                variables.deep_view() == variable_texts(self@.variables).take(i as int),
            decreases self.translated_variables.len() - i,
        {
            let ghost before = variables.deep_view();
            variables.push(self.translated_variables[i].text.clone());
            assert(variables.deep_view() =~= before.push(self.translated_variables@[i as int]@.text));
            assert(variable_texts(self@.variables).take(i + 1) =~= variable_texts(
                self@.variables,
            ).take(i as int).push(self.translated_variables@[i as int]@.text));
            i += 1;
        }
        assert(variable_texts(self@.variables).take(i as int) =~= variable_texts(self@.variables));
        append(&mut out, &join_strings(&variables));
        let ghost head = out@;
        out.push('\n');
        assert(out@ =~= head + newline());
        let mut functions: Vec<String> = Vec::new();
        let mut k: usize = 0;
        while k < self.translated_functions.len()
            invariant
                k <= self.translated_functions.len(),
                functions.deep_view() == function_texts(self@.functions).take(k as int),
            decreases self.translated_functions.len() - k,
        {
            let ghost before = functions.deep_view();
            functions.push(self.translated_functions[k].translated.clone());
            assert(functions.deep_view() =~= before.push(
                self.translated_functions@[k as int]@.translated,
            ));
            assert(function_texts(self@.functions).take(k + 1) =~= function_texts(
                self@.functions,
            ).take(k as int).push(self.translated_functions@[k as int]@.translated));
            k += 1;
        }
        assert(function_texts(self@.functions).take(k as int) =~= function_texts(self@.functions));
        append(&mut out, &join_strings(&functions));
        let ghost body = out@;
        out.push('\n');
        assert(out@ =~= body + newline());
        if find_translated(&self.translated_functions, &MAIN.to_owned()).is_some() {
            assert(out@ + Seq::<char>::empty() =~= out@);
        } else {
            append(&mut out, &chars_of(MAIN_STUB));
        }
        string_of(&out)
    }

    fn fail(&mut self, Ghost(t): Ghost<TranslatorView>, error: TranslationError, entity: String) -> (action:
        Action)
        requires
            same_tables(old(self)@, t),
        ensures
            (final(self)@, action@) == fail(t, error, entity@),
    {
        self.stage = Stage::Failed { error };
        Action::Abort { error, entity }
    }

    fn to_variable(&mut self, Ghost(t): Ghost<TranslatorView>, index: usize) -> (action: Action)
        requires
            same_tables(old(self)@, t),
        ensures
            (final(self)@, action@) == to_variable(t, index as nat),
    {
        if index >= self.program.variables.len() {
            self.stage = Stage::Idle;
            return Action::Finished;
        }
        let d = &self.program.variables[index];
        assert(t.program.variables[index as int] == d@);
        let code = d.code.clone();
        if d.names.len() != 1 {
            self.fail(Ghost(t), TranslationError::UnsupportedDeclaration, code)
        } else {
            self.stage = Stage::Variable { index };
            Action::TranslateVariable { code }
        }
    }

    fn on_variable_translated(&mut self, Ghost(t): Ghost<TranslatorView>, index: usize, text: Option<
        String,
    >) -> (action: Action)
        requires
            same_tables(old(self)@, t),
            index < t.program.variables.len(),
        ensures
            (final(self)@, action@) == on_variable_translated(t, index as nat, text.deep_view()),
    {
        match text {
            Some(translated) => {
                let text = translated.clone();
                self.stage = Stage::VariableParsed { index, translated };
                Action::ParseVariable { text }
            },
            None => {
                let code = self.program.variables[index].code.clone();
                assert(t.program.variables[index as int] == self.program.variables@[index as int]@);
                self.fail(Ghost(t), TranslationError::ParseFailure, code)
            },
        }
    }

    fn on_variable_parsed(
        &mut self,
        Ghost(t): Ghost<TranslatorView>,
        index: usize,
        translated: String,
        declared: Vec<(String, String)>,
    ) -> (action: Action)
        requires
            same_tables(old(self)@, t),
            tables_inv(t),
            index == t.variables.len(),
            index < t.program.variables.len(),
        ensures
            (final(self)@, action@) == on_variable_parsed(
                t,
                index as nat,
                translated@,
                declared.deep_view(),
            ),
    {
        let d = &self.program.variables[index];
        assert(t.program.variables[index as int] == d@);
        if declared.len() != 1 || d.names.len() != 1 {
            let code = d.code.clone();
            self.fail(Ghost(t), TranslationError::ParseFailure, code)
        } else {
            let mut declared = declared;
            let ghost pairs = declared.deep_view();
            let name = d.names[0].clone();
            assert(d@.names[0] == d.names@[0]@);
            let (new_name, ty) = declared.remove(0);
            assert(pairs[0] == (new_name@, ty@));
            let v = TranslatedVariable { name, new_name, ty, text: translated };
            let ghost before = self.translated_variables.deep_view();
            self.translated_variables.push(v);
            assert(self.translated_variables.deep_view() =~= before.push(v@));
            let ghost next = TranslatorView { variables: t.variables.push(v@), ..t };
            let total = self.program.variables.len();
            assert(index < total);
            self.to_variable(Ghost(next), index + 1)
        }
    }

    fn to_function(&mut self, Ghost(t): Ghost<TranslatorView>, position: usize) -> (action: Action)
        requires
            same_tables(old(self)@, t),
            tables_inv(t),
        ensures
            (final(self)@, action@) == to_function(t, position as nat),
    {
        if position >= self.function_post_order.len() {
            self.stage = Stage::Idle;
            return Action::Finished;
        }
        let index = self.function_post_order[position];
        assert(index < call_graph(t.program.functions).len());
        let f = &self.program.functions[index];
        assert(function_at(t, position as nat) == f@);
        let declared = names_of(&self.program.variables);
        let name = f.name.clone();
        match context(&declared, &self.translated_variables, &self.translated_functions, f) {
            Some((prefix, dependencies)) => {
                let preamble = make_preamble(
                    &self.use_list,
                    with_main(&self.translated_functions, &f.name),
                );
                let job = Job {
                    position,
                    preamble,
                    prefix,
                    dependencies,
                    new_name: String::new(),
                    code: String::new(),
                    signatures: Vec::new(),
                    taken: 0,
                    candidates: Vec::new(),
                };
                assert(job.signatures.deep_view() =~= Seq::empty());
                assert(job.candidates.deep_view() =~= Seq::empty());
                self.stage = Stage::Name { job };
                Action::Rename { name }
            },
            None => self.fail(Ghost(t), TranslationError::MissingDependency, name),
        }
    }

    fn on_renamed(&mut self, Ghost(t): Ghost<TranslatorView>, job: Job, name: String) -> (action:
        Action)
        requires
            same_tables(old(self)@, t),
            tables_inv(t),
            job.position < t.order.len(),
        ensures
            (final(self)@, action@) == on_renamed(t, job@, name@),
    {
        let index = self.function_post_order[job.position];
        assert(index < call_graph(t.program.functions).len());
        let f = &self.program.functions[index];
        assert(function_at(t, job.position as nat) == f@);
        let declared = names_of(&self.program.variables);
        match edits(&declared, &self.translated_variables, &self.translated_functions, f, &name) {
            Some(changes) => {
                let code = rewrite(f.code.as_str(), &changes);
                let action = Action::TranslateSignature {
                    code: code.clone(),
                    new_name: name.clone(),
                    deps: copy_strings(&job.dependencies),
                    count: self.signature_count,
                };
                let mut job = job;
                job.new_name = name;
                job.code = code;
                self.stage = Stage::Signatures { job };
                action
            },
            None => {
                let entity = f.name.clone();
                self.fail(Ghost(t), TranslationError::MissingDependency, entity)
            },
        }
    }

    fn on_signatures(&mut self, Ghost(t): Ghost<TranslatorView>, job: Job, signatures: Vec<String>) -> (action:
        Action)
        requires
            same_tables(old(self)@, t),
        ensures
            (final(self)@, action@) == on_signatures(t, job@, signatures.deep_view()),
    {
        let signatures = first_signatures(&signatures, self.signature_count);
        let count = signatures.len();
        self.stage = Stage::Keys { job, count };
        Action::ParseSignatures { signatures }
    }

    fn on_signatures_parsed(
        &mut self,
        Ghost(t): Ghost<TranslatorView>,
        job: Job,
        count: usize,
        parsed: Vec<ParsedSignature>,
    ) -> (action: Action)
        requires
            same_tables(old(self)@, t),
            tables_inv(t),
            job_inv(t, job@),
        ensures
            (final(self)@, action@) == on_signatures_parsed(
                t,
                job@,
                count as nat,
                parsed.deep_view(),
            ),
    {
        if parsed.len() != count || !all_end_with_bodies(&parsed) {
            let index = self.function_post_order[job.position];
            assert(index < call_graph(t.program.functions).len());
            let entity = self.program.functions[index].name.clone();
            assert(function_at(t, job.position as nat) == self.program.functions@[index as int]@);
            self.fail(Ghost(t), TranslationError::ParseFailure, entity)
        } else {
            let mut job = job;
            let ghost given = job@;
            job.signatures = unique(&parsed);
            job.taken = 0;
            assert(job@.candidates == given.candidates);
            self.to_body(Ghost(t), job)
        }
    }

    fn to_body(&mut self, Ghost(t): Ghost<TranslatorView>, job: Job) -> (action: Action)
        requires
            same_tables(old(self)@, t),
            tables_inv(t),
            job_inv(t, job@),
        ensures
            (final(self)@, action@) == to_body(t, job@),
    {
        if job.taken >= job.signatures.len() {
            self.to_selection(Ghost(t), job)
        } else {
            assert(job@.signatures[job.taken as int] == job.signatures@[job.taken as int]@);
            let action = Action::TranslateFunction {
                code: job.code.clone(),
                signature: string_of(
                    &trim_end(
                        &strip_suffix(
                            &chars_of(job.signatures[job.taken].text.as_str()),
                            &chars_of(EMPTY_BODY),
                        ),
                    ),
                ),
                deps: copy_strings(&job.dependencies),
            };
            self.stage = Stage::Body { job };
            action
        }
    }

    fn on_function_translated(&mut self, Ghost(t): Ghost<TranslatorView>, job: Job, body: Option<
        String,
    >) -> (action: Action)
        requires
            same_tables(old(self)@, t),
            tables_inv(t),
            job_inv(t, job@),
            job.taken < job.signatures.len(),
        ensures
            (final(self)@, action@) == on_function_translated(t, job@, body.deep_view()),
    {
        let mut job = job;
        let ghost given = job@;
        assert(job@.signatures[job.taken as int] == job.signatures@[job.taken as int]@);
        match body {
            Some(text) => {
                let signature = &job.signatures[job.taken];
                let head = strip_suffix(
                    &chars_of(signature.text.as_str()),
                    &chars_of(EMPTY_BODY),
                );
                if starts_with(&chars_of(text.as_str()), &head) {
                    let index = self.function_post_order[job.position];
                    assert(index < call_graph(t.program.functions).len());
                    assert(function_at(t, job.position as nat)
                        == self.program.functions@[index as int]@);
                    let current = TranslatedFunction {
                        original: self.program.functions[index].name.clone(),
                        name: job.new_name.clone(),
                        preamble: job.preamble.clone(),
                        prefix: job.prefix.clone(),
                        signature_key: signature.key.clone(),
                        signature: signature.text.clone(),
                        translated: text,
                        uses: Vec::new(),
                        errors: Vec::new(),
                    };
                    assert(current.uses.deep_view() =~= Seq::empty());
                    assert(current.errors.deep_view() =~= Seq::empty());
                    assert(current@ == candidate(t, given, text@));
                    self.to_check(Ghost(t), job, current, None, 0)
                } else {
                    job.taken = job.taken + 1;
                    assert(job@.candidates == given.candidates);
                    self.to_body(Ghost(t), job)
                }
            },
            None => {
                job.taken = job.taken + 1;
                assert(job@.candidates == given.candidates);
                self.to_body(Ghost(t), job)
            },
        }
    }

    fn to_check(
        &mut self,
        Ghost(t): Ghost<TranslatorView>,
        job: Job,
        current: TranslatedFunction,
        before: Option<TranslatedFunction>,
        index: usize,
    ) -> (action: Action)
        requires
            same_tables(old(self)@, t),
        ensures
            (final(self)@, action@) == to_check(
                t,
                job@,
                current@,
                before.deep_view(),
                index as nat,
            ),
    {
        let code = check_request(&current);
        self.stage = Stage::Check { job, current, before, index };
        Action::TypeCheck { code }
    }

    fn on_checked(
        &mut self,
        Ghost(t): Ghost<TranslatorView>,
        job: Job,
        current: TranslatedFunction,
        before: Option<TranslatedFunction>,
        index: usize,
        result: TypeCheckingResult,
    ) -> (action: Action)
        requires
            same_tables(old(self)@, t),
            tables_inv(t),
            job_inv(t, job@),
            job.taken < job.signatures.len(),
            current@.original == function_at(t, job@.position).name,
            before matches Some(b) ==> index < b.errors.len() && b@.original == function_at(
                t,
                job@.position,
            ).name && begins_with_signature(b@),
        ensures
            (final(self)@, action@) == on_checked(
                t,
                job@,
                current@,
                before.deep_view(),
                index as nat,
                result@,
            ),
    {
        let entity = current.original.clone();
        match fix_function_compiler(current, result) {
            None => self.fail(Ghost(t), TranslationError::BrokenCheck, entity),
            Some(Fixpoint::Again(more)) => self.to_check(Ghost(t), job, more, before, index),
            Some(Fixpoint::Settled(now)) => match before {
                None => if begins_with_its_signature(&now) {
                    self.to_fix(Ghost(t), job, now, 0)
                } else {
                    let mut job = job;
                    let ghost given = job@;
                    job.taken = job.taken + 1;
                    assert(job@.candidates == given.candidates);
                    self.to_body(Ghost(t), job)
                },
                Some(b) => {
                    assert(now@.errors.len() == now.errors.len());
                    assert(b@.errors.len() == b.errors.len());
                    if begins_with_its_signature(&now) && now.errors.len() < b.errors.len() {
                        self.to_fix(Ghost(t), job, now, 0)
                    } else {
                        self.to_fix(Ghost(t), job, b, index + 1)
                    }
                },
            },
        }
    }

    fn to_fix(&mut self, Ghost(t): Ghost<TranslatorView>, job: Job, base: TranslatedFunction, index: usize) -> (action:
        Action)
        requires
            same_tables(old(self)@, t),
            tables_inv(t),
            job_inv(t, job@),
            job.taken < job.signatures.len(),
            base@.original == function_at(t, job@.position).name,
            begins_with_signature(base@),
        ensures
            (final(self)@, action@) == to_fix(t, job@, base@, index as nat),
    {
        assert(base@.errors.len() == base.errors.len());
        if index >= base.errors.len() {
            let mut job = job;
            let ghost given = job@;
            job.candidates.push(base);
            assert(job.candidates.deep_view() =~= given.candidates.push(base@));
            job.taken = job.taken + 1;
            assert forall|k: int| 0 <= k < job@.candidates.len() implies (
            #[trigger] job@.candidates[k]).original == function_at(t, job@.position).name
                && begins_with_signature(job@.candidates[k]) by {
                if k < given.candidates.len() {
                    assert(job@.candidates[k] == given.candidates[k]);
                }
            }
            self.to_body(Ghost(t), job)
        } else {
            assert(base@.errors[index as int] == base.errors@[index as int].deep_view());
            let action = Action::Fix {
                code: base.errors[index].1.clone(),
                message: base.errors[index].0.clone(),
            };
            self.stage = Stage::Fix { job, base, index };
            action
        }
    }

    fn on_fixed(
        &mut self,
        Ghost(t): Ghost<TranslatorView>,
        job: Job,
        base: TranslatedFunction,
        index: usize,
        repaired: Option<String>,
    ) -> (action: Action)
        requires
            same_tables(old(self)@, t),
            tables_inv(t),
            job_inv(t, job@),
            job.taken < job.signatures.len(),
            index < base.errors.len(),
            base@.original == function_at(t, job@.position).name,
            begins_with_signature(base@),
        ensures
            (final(self)@, action@) == on_fixed(
                t,
                job@,
                base@,
                index as nat,
                repaired.deep_view(),
            ),
    {
        assert(base@.errors[index as int] == base.errors@[index as int].deep_view());
        assert(base@.errors.len() == base.errors.len());
        match repaired {
            Some(text) => {
                let snippet = chars_of(base.errors[index].1.as_str());
                let fixed = chars_of(text.as_str());
                if acceptable(&snippet, &fixed) {
                    let mut with = indentation(&snippet);
                    append(&mut with, &trim(&fixed));
                    let changed = replace(&chars_of(base.translated.as_str()), &snippet, &with);
                    let mut trial = base.copy();
                    trial.translated = string_of(&changed);
                    assert(trial@ == TranslatedFunctionView {
                        translated: repaired_text(base@, index as int, text@),
                        ..base@
                    });
                    self.to_check(Ghost(t), job, trial, Some(base), index)
                } else {
                    self.to_fix(Ghost(t), job, base, index + 1)
                }
            },
            None => self.to_fix(Ghost(t), job, base, index + 1),
        }
    }

    fn to_selection(&mut self, Ghost(t): Ghost<TranslatorView>, job: Job) -> (action: Action)
        requires
            same_tables(old(self)@, t),
            tables_inv(t),
            job_inv(t, job@),
        ensures
            (final(self)@, action@) == to_selection(t, job@),
    {
        assert(job@.candidates.len() == job.candidates.len());
        if job.candidates.len() == 0 {
            let index = self.function_post_order[job.position];
            assert(index < call_graph(t.program.functions).len());
            let entity = self.program.functions[index].name.clone();
            assert(function_at(t, job.position as nat) == self.program.functions@[index as int]@);
            self.fail(Ghost(t), TranslationError::NoCandidates, entity)
        } else {
            let mut job = job;
            let ghost given = job@;
            job.candidates = tied_of(&job.candidates);
            proof {
                lemma_tied(given.candidates);
                assert forall|k: int| 0 <= k < job@.candidates.len() implies (
                #[trigger] job@.candidates[k]).original == function_at(t, job@.position).name by {
                    let c = job@.candidates[k];
                    assert(given.candidates.contains(c));
                    let j = choose|j: int|
                        0 <= j < given.candidates.len() && given.candidates[j] == c;
                    assert(given.candidates[j].original == function_at(t, given.position).name);
                }
            }
            assert(job@.candidates.len() == job.candidates.len());
            self.to_compare(Ghost(t), job, 0, 1)
        }
    }

    fn to_compare(&mut self, Ghost(t): Ghost<TranslatorView>, job: Job, best: usize, next: usize) -> (action:
        Action)
        requires
            same_tables(old(self)@, t),
            tables_inv(t),
            job_inv(t, job@),
            best < next,
            best < job.candidates.len(),
        ensures
            (final(self)@, action@) == to_compare(t, job@, best as nat, next as nat),
    {
        assert(job@.candidates.len() == job.candidates.len());
        assert(job@.candidates[best as int] == job.candidates@[best as int]@);
        if next >= job.candidates.len() {
            let mut job = job;
            let ghost given = job@;
            let chosen = job.candidates.swap_remove(best);
            assert(chosen@ == given.candidates[best as int]);
            let ghost uses = self.use_list.deep_view();
            let ghost functions = self.translated_functions.deep_view();
            merge(&mut self.use_list, &chosen.uses);
            let ghost next_view = TranslatorView {
                functions: t.functions.push(chosen@),
                use_list: merged(t.use_list, chosen@.uses),
                ..t
            };
            proof {
                lemma_committed(t, given, chosen@);
            }
            self.translated_functions.push(chosen);
            assert(self.translated_functions.deep_view() =~= functions.push(chosen@));
            let total = self.function_post_order.len();
            assert(job.position < total);
            self.to_function(Ghost(next_view), job.position + 1)
        } else {
            assert(job@.candidates[next as int] == job.candidates@[next as int]@);
            let action = Action::Compare {
                first: job.candidates[best].translated.clone(),
                second: job.candidates[next].translated.clone(),
            };
            self.stage = Stage::Compare { job, best, next };
            action
        }
    }

    fn on_compared(
        &mut self,
        Ghost(t): Ghost<TranslatorView>,
        job: Job,
        best: usize,
        next: usize,
        preference: Comparison,
    ) -> (action: Action)
        requires
            same_tables(old(self)@, t),
            tables_inv(t),
            job_inv(t, job@),
            best < next < job.candidates.len(),
        ensures
            (final(self)@, action@) == on_compared(t, job@, best as nat, next as nat, preference),
    {
        if preference == Comparison::Less {
            self.to_compare(Ghost(t), job, next, next + 1)
        } else {
            self.to_compare(Ghost(t), job, best, next + 1)
        }
    }

    /// Begins the pass over the global variables, or takes it up where it
    /// stood: the translator asks for the translation of the first
    /// declaration that is not translated yet, or says that the pass is
    /// done. While other work is under way the call is turned away.
    pub fn translate_variables(&mut self) -> (action: Action)
        requires
            old(self).inv(),
        ensures
            final(self).inv(),
            (final(self)@, action@) == begin_variables(old(self)@),
    {
        let ghost t = self@;
        proof {
            lemma_begin(t);
        }
        match &self.stage {
            Stage::Idle => {
                let index = self.translated_variables.len();
                self.to_variable(Ghost(t), index)
            },
            _ => Action::Abort { error: TranslationError::UnexpectedEvent, entity: String::new() },
        }
    }

    /// Begins the pass over the functions, or takes it up where it stood:
    /// the translator asks for the new name of the first function of the
    /// order that is not translated yet, or says that the pass is done.
    /// While other work is under way the call is turned away.
    pub fn translate_functions(&mut self) -> (action: Action)
        requires
            old(self).inv(),
        ensures
            final(self).inv(),
            (final(self)@, action@) == begin_functions(old(self)@),
    {
        let ghost t = self@;
        proof {
            lemma_begin(t);
        }
        match &self.stage {
            Stage::Idle => {
                let position = self.translated_functions.len();
                self.to_function(Ghost(t), position)
            },
            _ => Action::Abort { error: TranslationError::UnexpectedEvent, entity: String::new() },
        }
    }

    /// Takes a report and says what is to be done next. A report that is
    /// not the one awaited is turned away, and the translator stays as it is.
    pub fn resume(&mut self, event: Event) -> (action: Action)
        requires
            old(self).inv(),
        ensures
            final(self).inv(),
            (final(self)@, action@) == after(old(self)@, event@),
    {
        let ghost t = self@;
        proof {
            lemma_after(t, event@);
        }
        let mut stage = Stage::Idle;
        std::mem::swap(&mut self.stage, &mut stage);
        match (stage, event) {
            (Stage::Variable { index }, Event::VariableTranslated { text }) => {
                self.on_variable_translated(Ghost(t), index, text)
            },
            (
                Stage::VariableParsed { index, translated },
                Event::VariableParsed { declared },
            ) => self.on_variable_parsed(Ghost(t), index, translated, declared),
            (Stage::Name { job }, Event::Renamed { name }) => self.on_renamed(Ghost(t), job, name),
            (Stage::Signatures { job }, Event::Signatures { signatures }) => self.on_signatures(
                Ghost(t),
                job,
                signatures,
            ),
            (Stage::Keys { job, count }, Event::SignaturesParsed { parsed }) => {
                self.on_signatures_parsed(Ghost(t), job, count, parsed)
            },
            (Stage::Body { job }, Event::FunctionTranslated { body }) => {
                self.on_function_translated(Ghost(t), job, body)
            },
            (Stage::Check { job, current, before, index }, Event::Checked { result }) => {
                self.on_checked(Ghost(t), job, current, before, index, result)
            },
            (Stage::Fix { job, base, index }, Event::Fixed { repaired }) => self.on_fixed(
                Ghost(t),
                job,
                base,
                index,
                repaired,
            ),
            (Stage::Compare { job, best, next }, Event::Compared { preference }) => {
                self.on_compared(Ghost(t), job, best, next, preference)
            },
            (stage, _) => {
                self.stage = stage;
                Action::Abort { error: TranslationError::UnexpectedEvent, entity: String::new() }
            },
        }
    }
}

} // verus!
