//! The declared pipeline and its compilation into concrete step instances.

use crate::models::config::{
    has_base_name, instance_names, names_unique, Pipeline, Stage, StageView, Step, StepView,
};
use crate::template::{expand, expanded};
use crate::text::{
    clone_strings, from_chars, parse_i64, parse_i64_of, push_char, strings_view, to_chars,
    trim_bounds, trimmed,
};
use vstd::prelude::*;
use vstd::string::StringExecFns;

verus! {

/// The memory limit of a step that declares none: 512 MiB.
pub const DEFAULT_MEMORY_LIMIT: i64 = 512 * 1024 * 1024;

/// The time allowed to an attempt of a step that declares none: one hour.
pub const DEFAULT_TIMEOUT_SECS: u64 = 3600;

/// Why a declared pipeline cannot be run.
#[derive(Debug, Clone, PartialEq, Eq)]
pub enum ConfigError {
    /// A memory limit is not an integer with an optional unit, or does not
    /// fit in 64 bits. Holds the text that was read as the number.
    InvalidMemory(String),
    /// No stage of the declared order has a definition with steps in it.
    NoValidStages,
}

/// What a `ConfigError` holds, as mathematical values.
pub enum ConfigErrorView {
    InvalidMemory(Seq<char>),
    NoValidStages,
}

impl View for ConfigError {
    type V = ConfigErrorView;

    open spec fn view(&self) -> ConfigErrorView {
        match self {
            ConfigError::InvalidMemory(value) => ConfigErrorView::InvalidMemory(value@),
            ConfigError::NoValidStages => ConfigErrorView::NoValidStages,
        }
    }
}

/// What the error says to the user.
pub open spec fn error_message(error: ConfigErrorView) -> Seq<char> {
    match error {
        ConfigErrorView::InvalidMemory(value) => "Invalid memory format: '"@ + value
            + "'. Use '512mb' or '1gb'"@,
        ConfigErrorView::NoValidStages => "No valid stages or steps found to execute."@,
    }
}

impl ConfigError {
    /// The message for the user.
    pub fn message(&self) -> (out: String)
        ensures
            out@ == error_message(self@),
    {
        match self {
            ConfigError::InvalidMemory(value) => {
                let mut out = String::from_str("Invalid memory format: '");
                out.append(value.as_str());
                out.append("'. Use '512mb' or '1gb'");
                out
            },
            ConfigError::NoValidStages => String::from_str(
                "No valid stages or steps found to execute.",
            ),
        }
    }
}

/// A variable and the values it takes, one step instance for each.
#[derive(Debug)]
pub struct MatrixConfig {
    pub variable: String,
    pub values: Vec<String>,
}

/// One declared step.
#[derive(Debug)]
pub struct RawStep {
    pub image: String,
    pub command: String,
    /// A number of bytes, or a number followed by `kb`, `mb` or `gb`.
    pub memory: Option<String>,
    pub needs: Option<Vec<String>>,
    pub env: Option<Vec<String>>,
    pub matrix: Option<MatrixConfig>,
    pub max_retries: Option<u32>,
    /// The time allowed to one attempt, in seconds.
    pub timeout: Option<u64>,
}

/// The declared steps of one stage, by name, in the order of declaration.
#[derive(Debug)]
pub struct RawStage {
    pub steps: Vec<(String, RawStep)>,
}

/// The declared pipeline: the order of the stages, and the stages by name.
#[derive(Debug)]
pub struct RawPipeline {
    pub stages_order: Vec<String>,
    pub stages: Vec<(String, RawStage)>,
}

/// What a `MatrixConfig` holds, as mathematical values.
pub struct MatrixView {
    pub variable: Seq<char>,
    pub values: Seq<Seq<char>>,
}

/// What a `RawStep` holds, as mathematical values.
pub struct RawStepView {
    pub image: Seq<char>,
    pub command: Seq<char>,
    pub memory: Option<Seq<char>>,
    pub needs: Option<Seq<Seq<char>>>,
    pub env: Option<Seq<Seq<char>>>,
    pub matrix: Option<MatrixView>,
    pub max_retries: Option<u32>,
    pub timeout: Option<u64>,
}

/// What a `RawStage` holds, as mathematical values.
pub struct RawStageView {
    pub steps: Seq<(Seq<char>, RawStepView)>,
}

/// What a `RawPipeline` holds, as mathematical values.
pub struct RawPipelineView {
    pub stages_order: Seq<Seq<char>>,
    pub stages: Seq<(Seq<char>, RawStageView)>,
}

/// The views of an optional list of strings.
pub open spec fn optional_strings_view(v: Option<Vec<String>>) -> Option<Seq<Seq<char>>> {
    match v {
        Some(list) => Some(strings_view(list@)),
        None => None,
    }
}

impl View for MatrixConfig {
    type V = MatrixView;

    open spec fn view(&self) -> MatrixView {
        MatrixView { variable: self.variable@, values: strings_view(self.values@) }
    }
}

impl View for RawStep {
    type V = RawStepView;

    open spec fn view(&self) -> RawStepView {
        RawStepView {
            image: self.image@,
            command: self.command@,
            memory: match self.memory {
                Some(text) => Some(text@),
                None => None,
            },
            needs: optional_strings_view(self.needs),
            env: optional_strings_view(self.env),
            matrix: match self.matrix {
                Some(matrix) => Some(matrix@),
                None => None,
            },
            max_retries: self.max_retries,
            timeout: self.timeout,
        }
    }
}

impl View for RawStage {
    type V = RawStageView;

    open spec fn view(&self) -> RawStageView {
        RawStageView {
            steps: Seq::new(self.steps@.len(), |i: int| (self.steps@[i].0@, self.steps@[i].1@)),
        }
    }
}

impl View for RawPipeline {
    type V = RawPipelineView;

    open spec fn view(&self) -> RawPipelineView {
        RawPipelineView {
            stages_order: strings_view(self.stages_order@),
            stages: Seq::new(self.stages@.len(), |i: int| (self.stages@[i].0@, self.stages@[i].1@)),
        }
    }
}

/// The lower-case form of a text, as `str::to_lowercase` gives it.
pub uninterp spec fn lowercase_of(text: Seq<char>) -> Seq<char>;

/// `str::to_lowercase`: the lower-case equivalent of the text, by the
/// Unicode rules. The result depends on the text alone.
#[verifier::external_body]
fn to_lowercase(text: &str) -> (out: String)
    ensures
        out@ == lowercase_of(text@),
{
    text.to_lowercase()
}

/// The unit that a trimmed, lower-case memory text ends with, as the number
/// of bytes it stands for; 1 when it ends with no unit.
pub open spec fn unit_of(text: Seq<char>) -> int {
    let n = text.len() as int;
    if n >= 2 && text[n - 1] == 'b' && text[n - 2] == 'g' {
        1073741824
    } else if n >= 2 && text[n - 1] == 'b' && text[n - 2] == 'm' {
        1048576
    } else if n >= 2 && text[n - 1] == 'b' && text[n - 2] == 'k' {
        1024
    } else {
        1
    }
}

/// The part of a trimmed, lower-case memory text that is read as the number:
/// the text without its unit.
pub open spec fn number_part(text: Seq<char>) -> Seq<char> {
    if unit_of(text) == 1 {
        text
    } else {
        text.take(text.len() - 2)
    }
}

/// The number of bytes that a lower-case memory text asks for. The text is
/// trimmed, a unit at its end is taken off, and what is left is trimmed again
/// and read as a signed 64-bit integer. The error holds the number part.
pub open spec fn decoded_memory(lower: Seq<char>) -> Result<i64, ConfigErrorView> {
    let text = trimmed(lower);
    let number = number_part(text);
    match parse_i64_of(trimmed(number)) {
        Some(value) => if i64::MIN <= value * unit_of(text) <= i64::MAX {
            Ok((value * unit_of(text)) as i64)
        } else {
            Err(ConfigErrorView::InvalidMemory(number))
        },
        None => Err(ConfigErrorView::InvalidMemory(number)),
    }
}

/// The memory limit that a declaration asks for.
pub open spec fn memory_limit_of(memory: Option<Seq<char>>) -> Result<i64, ConfigErrorView> {
    match memory {
        Some(text) => decoded_memory(lowercase_of(text)),
        None => Ok(DEFAULT_MEMORY_LIMIT),
    }
}

/// A memory limit or an error, as mathematical values.
pub open spec fn memory_result_view(r: Result<i64, ConfigError>) -> Result<i64, ConfigErrorView> {
    match r {
        Ok(bytes) => Ok(bytes),
        Err(error) => Err(error@),
    }
}

/// Reads a lower-case memory text: `2048`, `1024kb`, `512mb`, `1gb`.
pub fn decode_memory(lower: &str) -> (out: Result<i64, ConfigError>)
    ensures
        memory_result_view(out) == decoded_memory(lower@),
{
    let chars = to_chars(lower);
    assert(chars@.subrange(0, chars.len() as int) =~= chars@);
    let (start, end) = trim_bounds(&chars, 0, chars.len());
    let ghost text = chars@.subrange(start as int, end as int);
    let n: usize = end - start;
    let mut unit: i64 = 1;
    if n >= 2 && chars[end - 1] == 'b' {
        let c = chars[end - 2];
        if c == 'g' {
            unit = 1024 * 1024 * 1024;
        } else if c == 'm' {
            unit = 1024 * 1024;
        } else if c == 'k' {
            unit = 1024;
        }
    }
    assert(unit == unit_of(text));
    let number_end: usize = if unit == 1 {
        end
    } else {
        end - 2
    };
    assert(chars@.subrange(start as int, number_end as int) =~= number_part(text));
    let (from, to) = trim_bounds(&chars, start, number_end);
    match parse_i64(&chars, from, to) {
        Some(value) => match value.checked_mul(unit) {
            Some(bytes) => Ok(bytes),
            None => Err(ConfigError::InvalidMemory(from_chars(&chars, start, number_end))),
        },
        None => Err(ConfigError::InvalidMemory(from_chars(&chars, start, number_end))),
    }
}

impl RawStep {
    /// The memory limit of the step in bytes: 512 MiB when none is declared.
    pub fn memory_limit(&self) -> (out: Result<i64, ConfigError>)
        ensures
            memory_result_view(out) == memory_limit_of(self@.memory),
    {
        match &self.memory {
            Some(text) => {
                let lower = to_lowercase(text.as_str());
                decode_memory(lower.as_str())
            },
            None => Ok(DEFAULT_MEMORY_LIMIT),
        }
    }
}

/// The instance name of a step: the declared name, then for an instance of a
/// matrix a hyphen and the value.
pub open spec fn exploded_name_of(id: Seq<char>, value: Option<Seq<char>>) -> Seq<char> {
    match value {
        Some(v) => id + seq!['-'] + v,
        None => id,
    }
}

/// The step instance that the declaration `raw`, named `id`, gives for one
/// binding of its matrix variable, or for none where it has no matrix.
pub open spec fn instance(
    id: Seq<char>,
    raw: RawStepView,
    memory: i64,
    binding: Option<(Seq<char>, Seq<char>)>,
) -> StepView {
    StepView {
        name: id,
        exploded_name: match binding {
            Some(b) => exploded_name_of(id, Some(b.1)),
            None => id,
        },
        image: match binding {
            Some(b) => expanded(raw.image, b.0, b.1),
            None => raw.image,
        },
        command: match binding {
            Some(b) => expanded(raw.command, b.0, b.1),
            None => raw.command,
        },
        memory_bytes: memory,
        needs: match raw.needs {
            Some(needs) => needs,
            None => Seq::empty(),
        },
        env: match raw.env {
            Some(env) => env,
            None => Seq::empty(),
        },
        max_retries: match raw.max_retries {
            Some(n) => n,
            None => 0,
        },
        timeout_secs: match raw.timeout {
            Some(t) => t,
            None => DEFAULT_TIMEOUT_SECS,
        },
    }
}

/// The instances of one declared step: one for each value of its matrix, in
/// the order of the values, or a single one where it has no matrix. The
/// memory limit is read only if there is an instance to give it to.
pub open spec fn expanded_step(id: Seq<char>, raw: RawStepView) -> Result<
    Seq<StepView>,
    ConfigErrorView,
> {
    match raw.matrix {
        Some(matrix) => if matrix.values.len() == 0 {
            Ok(Seq::empty())
        } else {
            match memory_limit_of(raw.memory) {
                Ok(memory) => Ok(
                    Seq::new(
                        matrix.values.len(),
                        |k: int| instance(id, raw, memory, Some((matrix.variable, matrix.values[k]))),
                    ),
                ),
                Err(error) => Err(error),
            }
        },
        None => match memory_limit_of(raw.memory) {
            Ok(memory) => Ok(seq![instance(id, raw, memory, None)]),
            Err(error) => Err(error),
        },
    }
}

/// The instances of the declared steps, in the order of declaration; the
/// first error met in that order otherwise.
pub open spec fn expanded_steps(entries: Seq<(Seq<char>, RawStepView)>) -> Result<
    Seq<StepView>,
    ConfigErrorView,
>
    decreases entries.len(),
{
    if entries.len() == 0 {
        Ok(Seq::empty())
    } else {
        match expanded_steps(entries.drop_last()) {
            Ok(before) => match expanded_step(entries.last().0, entries.last().1) {
                Ok(steps) => Ok(before + steps),
                Err(error) => Err(error),
            },
            Err(error) => Err(error),
        }
    }
}

/// The instance names that a declared step asks for: one for each value of
/// its matrix, or its own name where it has no matrix.
pub open spec fn declared_names_of(id: Seq<char>, raw: RawStepView) -> Seq<Seq<char>> {
    match raw.matrix {
        Some(matrix) => Seq::new(
            matrix.values.len(),
            |k: int| exploded_name_of(id, Some(matrix.values[k])),
        ),
        None => seq![id],
    }
}

/// The instance names that the declared steps ask for, in order.
pub open spec fn declared_names(entries: Seq<(Seq<char>, RawStepView)>) -> Seq<Seq<char>>
    decreases entries.len(),
{
    if entries.len() == 0 {
        Seq::empty()
    } else {
        declared_names(entries.drop_last()) + declared_names_of(
            entries.last().0,
            entries.last().1,
        )
    }
}

/// A matrix with N values gives N instances, in the order of the values.
/// Each keeps the declared name and is called by that name, a hyphen and its
/// value; its image and command are the declared ones with each token
/// of the variable replaced by the value as it is; its dependencies are the
/// declared ones, unchanged.
pub proof fn lemma_matrix_expansion(id: Seq<char>, raw: RawStepView)
    requires
        raw.matrix is Some,
        expanded_step(id, raw) is Ok,
    ensures
        expanded_step(id, raw)->Ok_0.len() == raw.matrix->0.values.len(),
        forall|k: int|
            0 <= k < raw.matrix->0.values.len() ==> {
                let step = #[trigger] expanded_step(id, raw)->Ok_0[k];
                let value = raw.matrix->0.values[k];
                &&& step.name == id
                &&& step.exploded_name == id + seq!['-'] + value
                &&& step.image == expanded(raw.image, raw.matrix->0.variable, value)
                &&& step.command == expanded(raw.command, raw.matrix->0.variable, value)
                &&& step.needs == match raw.needs {
                    Some(needs) => needs,
                    None => Seq::empty(),
                }
            },
{
}

/// The instances of the declared steps are called as the declaration asks.
pub proof fn lemma_expanded_names(entries: Seq<(Seq<char>, RawStepView)>)
    requires
        expanded_steps(entries) is Ok,
    ensures
        instance_names(expanded_steps(entries)->Ok_0) == declared_names(entries),
    decreases entries.len(),
{
    if entries.len() == 0 {
        assert(instance_names(expanded_steps(entries)->Ok_0) =~= declared_names(entries));
    } else {
        lemma_expanded_names(entries.drop_last());
        let before = expanded_steps(entries.drop_last())->Ok_0;
        let added = expanded_step(entries.last().0, entries.last().1)->Ok_0;
        assert(instance_names(added) =~= declared_names_of(entries.last().0, entries.last().1));
        assert(instance_names(before + added) =~= instance_names(before) + instance_names(added));
    }
}

/// No two instances of a stage share a name, where the names that the
/// declaration asks for are distinct.
pub proof fn lemma_distinct_names(entries: Seq<(Seq<char>, RawStepView)>)
    requires
        expanded_steps(entries) is Ok,
        declared_names(entries).no_duplicates(),
    ensures
        names_unique(expanded_steps(entries)->Ok_0),
{
    lemma_expanded_names(entries);
    let steps = expanded_steps(entries)->Ok_0;
    let names = instance_names(steps);
    assert forall|i: int, j: int| 0 <= i < j < steps.len() implies (
    #[trigger] steps[i]).exploded_name != (#[trigger] steps[j]).exploded_name by {
        assert(names[i] == steps[i].exploded_name);
        assert(names[j] == steps[j].exploded_name);
    }
}

/// Whether a declared step gives at least one instance.
pub open spec fn gives_instances(raw: RawStepView) -> bool {
    match raw.matrix {
        Some(matrix) => matrix.values.len() > 0,
        None => true,
    }
}

/// Some step that gives an instance is declared under `name`.
pub open spec fn declares(entries: Seq<(Seq<char>, RawStepView)>, name: Seq<char>) -> bool {
    exists|j: int|
        0 <= j < entries.len() && (#[trigger] entries[j]).0 == name && gives_instances(
            entries[j].1,
        )
}

/// The limits that a declared step asks for are positive, and each step it
/// needs is declared in the same stage.
pub open spec fn valid_step(entries: Seq<(Seq<char>, RawStepView)>, raw: RawStepView) -> bool {
    &&& memory_limit_of(raw.memory) matches Ok(bytes) ==> bytes > 0
    &&& raw.timeout matches Some(secs) ==> secs > 0
    &&& raw.needs matches Some(needs) ==> forall|k: int|
        0 <= k < needs.len() ==> declares(entries, #[trigger] needs[k])
}

/// What the declaration of a stage has to hold for its compiled stage to be
/// well formed: the instance names it asks for are distinct, and every step
/// that gives an instance is valid.
pub open spec fn valid_stage(entries: Seq<(Seq<char>, RawStepView)>) -> bool {
    &&& declared_names(entries).no_duplicates()
    &&& forall|i: int|
        0 <= i < entries.len() && gives_instances((#[trigger] entries[i]).1) ==> valid_step(
            entries,
            entries[i].1,
        )
}

/// Every instance of a stage is an instance of one of its declared steps.
pub proof fn lemma_instance_origin(entries: Seq<(Seq<char>, RawStepView)>, p: int)
    requires
        expanded_steps(entries) is Ok,
        0 <= p < expanded_steps(entries)->Ok_0.len(),
    ensures
        exists|i: int, k: int|
            0 <= i < entries.len() && expanded_step(
                (#[trigger] entries[i]).0,
                entries[i].1,
            ) is Ok && 0 <= k < expanded_step(entries[i].0, entries[i].1)->Ok_0.len()
                && expanded_steps(entries)->Ok_0[p] == #[trigger] expanded_step(
                entries[i].0,
                entries[i].1,
            )->Ok_0[k],
    decreases entries.len(),
{
    let before = expanded_steps(entries.drop_last())->Ok_0;
    let last = entries.len() - 1;
    if p < before.len() {
        lemma_instance_origin(entries.drop_last(), p);
        let (i, k) = choose|i: int, k: int|
            0 <= i < entries.drop_last().len() && expanded_step(
                (#[trigger] entries.drop_last()[i]).0,
                entries.drop_last()[i].1,
            ) is Ok && 0 <= k < expanded_step(
                entries.drop_last()[i].0,
                entries.drop_last()[i].1,
            )->Ok_0.len() && before[p] == #[trigger] expanded_step(
                entries.drop_last()[i].0,
                entries.drop_last()[i].1,
            )->Ok_0[k];
        assert(entries[i] == entries.drop_last()[i]);
        assert(expanded_steps(entries)->Ok_0[p] == expanded_step(
            entries[i].0,
            entries[i].1,
        )->Ok_0[k]);
    } else {
        let k = p - before.len();
        assert(expanded_steps(entries)->Ok_0[p] == expanded_step(
            entries[last].0,
            entries[last].1,
        )->Ok_0[k]);
    }
}

/// Every instance of a declared step is an instance of its stage.
pub proof fn lemma_instance_present(entries: Seq<(Seq<char>, RawStepView)>, i: int, k: int)
    requires
        expanded_steps(entries) is Ok,
        0 <= i < entries.len(),
    ensures
        expanded_step(entries[i].0, entries[i].1) is Ok,
        0 <= k < expanded_step(entries[i].0, entries[i].1)->Ok_0.len() ==> exists|p: int|
            0 <= p < expanded_steps(entries)->Ok_0.len() && #[trigger] expanded_steps(
                entries,
            )->Ok_0[p] == expanded_step(entries[i].0, entries[i].1)->Ok_0[k],
    decreases entries.len(),
{
    let before = expanded_steps(entries.drop_last())->Ok_0;
    let last = entries.len() - 1;
    if i < last {
        lemma_instance_present(entries.drop_last(), i, k);
        assert(entries[i] == entries.drop_last()[i]);
        if 0 <= k < expanded_step(entries[i].0, entries[i].1)->Ok_0.len() {
            let p = choose|p: int|
                0 <= p < before.len() && #[trigger] before[p] == expanded_step(
                    entries[i].0,
                    entries[i].1,
                )->Ok_0[k];
            assert(expanded_steps(entries)->Ok_0[p] == before[p]);
        }
    } else {
        if 0 <= k < expanded_step(entries[i].0, entries[i].1)->Ok_0.len() {
            assert(expanded_steps(entries)->Ok_0[before.len() + k] == expanded_step(
                entries[i].0,
                entries[i].1,
            )->Ok_0[k]);
        }
    }
}

/// The compiled stage of a valid declaration is well formed: no two
/// instances share a name, every dependency names a step of the stage, and
/// the memory limit and the timeout of every instance are positive.
pub proof fn lemma_valid_stage_compiles_well(name: Seq<char>, entries: Seq<(Seq<char>, RawStepView)>)
    requires
        expanded_steps(entries) is Ok,
        valid_stage(entries),
    ensures
        (StageView { name, steps: expanded_steps(entries)->Ok_0 }).well_formed(),
{
    let steps = expanded_steps(entries)->Ok_0;
    lemma_distinct_names(entries);
    assert forall|p: int| 0 <= p < steps.len() implies (#[trigger] steps[p]).well_formed() && (
    forall|n: int| 0 <= n < steps[p].needs.len() ==> has_base_name(steps, steps[p].needs[n])) by {
        lemma_instance_origin(entries, p);
        let (i, k) = choose|i: int, k: int|
            0 <= i < entries.len() && expanded_step((#[trigger] entries[i]).0, entries[i].1) is Ok
                && 0 <= k < expanded_step(entries[i].0, entries[i].1)->Ok_0.len() && steps[p]
                == #[trigger] expanded_step(entries[i].0, entries[i].1)->Ok_0[k];
        let raw = entries[i].1;
        assert(gives_instances(raw));
        assert(valid_step(entries, raw));
        assert forall|n: int| 0 <= n < steps[p].needs.len() implies has_base_name(
            steps,
            steps[p].needs[n],
        ) by {
            let need = steps[p].needs[n];
            assert(raw.needs is Some && raw.needs->0[n] == need);
            assert(declares(entries, need));
            let j = choose|j: int|
                0 <= j < entries.len() && (#[trigger] entries[j]).0 == need && gives_instances(
                    entries[j].1,
                );
            lemma_instance_present(entries, j, 0);
            let q = choose|q: int|
                0 <= q < steps.len() && #[trigger] steps[q] == expanded_step(
                    entries[j].0,
                    entries[j].1,
                )->Ok_0[0];
            assert(steps[q].name == need);
        }
    }
}

/// The first stage declared under `name`.
pub open spec fn find_stage(stages: Seq<(Seq<char>, RawStageView)>, name: Seq<char>) -> Option<
    RawStageView,
>
    decreases stages.len(),
{
    if stages.len() == 0 {
        None
    } else if stages[0].0 == name {
        Some(stages[0].1)
    } else {
        find_stage(stages.drop_first(), name)
    }
}

/// Why a stage of the declared order is left out of the compiled pipeline.
#[derive(Debug, Clone, Copy, PartialEq, Eq, Structural)]
pub enum DropReason {
    /// The order names it, and nothing declares it.
    Missing,
    /// It is declared without steps.
    Empty,
}

/// Whether the stage called `name` is left out, and why.
pub open spec fn drop_reason(raw: RawPipelineView, name: Seq<char>) -> Option<DropReason> {
    match find_stage(raw.stages, name) {
        None => Some(DropReason::Missing),
        Some(stage) => if stage.steps.len() == 0 {
            Some(DropReason::Empty)
        } else {
            None
        },
    }
}

/// The compiled stages of the first `n` names of the declared order. A name
/// without a definition, or with a definition without steps, gives no stage.
pub open spec fn compiled_stages(raw: RawPipelineView, n: int) -> Result<
    Seq<StageView>,
    ConfigErrorView,
>
    decreases n,
{
    if n <= 0 {
        Ok(Seq::empty())
    } else {
        let name = raw.stages_order[n - 1];
        match compiled_stages(raw, n - 1) {
            Ok(before) => match find_stage(raw.stages, name) {
                Some(stage) => if stage.steps.len() == 0 {
                    Ok(before)
                } else {
                    match expanded_steps(stage.steps) {
                        Ok(steps) => Ok(before.push(StageView { name, steps })),
                        Err(error) => Err(error),
                    }
                },
                None => Ok(before),
            },
            Err(error) => Err(error),
        }
    }
}

/// The compiled pipeline of a declaration, or why there is none.
pub open spec fn compiled(raw: RawPipelineView) -> Result<Seq<StageView>, ConfigErrorView> {
    match compiled_stages(raw, raw.stages_order.len() as int) {
        Ok(stages) => if stages.len() == 0 {
            Err(ConfigErrorView::NoValidStages)
        } else {
            Ok(stages)
        },
        Err(error) => Err(error),
    }
}

/// Every compiled stage is the compiled form of a declared stage that the
/// order names and that has steps.
pub proof fn lemma_compiled_stage_origin(raw: RawPipelineView, n: int, j: int)
    requires
        0 <= n <= raw.stages_order.len(),
        compiled_stages(raw, n) is Ok,
        0 <= j < compiled_stages(raw, n)->Ok_0.len(),
    ensures
        exists|m: int|
            0 <= m < n && find_stage(raw.stages, #[trigger] raw.stages_order[m]) is Some
                && expanded_steps(find_stage(raw.stages, raw.stages_order[m])->0.steps) is Ok
                && compiled_stages(raw, n)->Ok_0[j] == (StageView {
                name: raw.stages_order[m],
                steps: expanded_steps(find_stage(raw.stages, raw.stages_order[m])->0.steps)->Ok_0,
            }),
    decreases n,
{
    let before = compiled_stages(raw, n - 1)->Ok_0;
    if j < before.len() {
        lemma_compiled_stage_origin(raw, n - 1, j);
        let m = choose|m: int|
            0 <= m < n - 1 && find_stage(raw.stages, #[trigger] raw.stages_order[m]) is Some
                && expanded_steps(find_stage(raw.stages, raw.stages_order[m])->0.steps) is Ok
                && before[j] == (StageView {
                name: raw.stages_order[m],
                steps: expanded_steps(find_stage(raw.stages, raw.stages_order[m])->0.steps)->Ok_0,
            });
        assert(compiled_stages(raw, n)->Ok_0[j] == before[j]);
    } else {
        let name = raw.stages_order[n - 1];
        assert(find_stage(raw.stages, name) is Some);
    }
}

/// A compiled pipeline has at least one stage, and each of its stages is
/// well formed where the declaration of every stage is valid.
pub proof fn lemma_valid_pipeline_compiles_well(raw: RawPipelineView)
    requires
        compiled(raw) is Ok,
        forall|m: int|
            0 <= m < raw.stages_order.len() && find_stage(
                raw.stages,
                #[trigger] raw.stages_order[m],
            ) is Some ==> valid_stage(find_stage(raw.stages, raw.stages_order[m])->0.steps),
    ensures
        compiled(raw)->Ok_0.len() > 0,
        forall|j: int|
            0 <= j < compiled(raw)->Ok_0.len() ==> (#[trigger] compiled(raw)->Ok_0[j]).well_formed(),
{
    let stages = compiled(raw)->Ok_0;
    assert forall|j: int| 0 <= j < stages.len() implies (#[trigger] stages[j]).well_formed() by {
        lemma_compiled_stage_origin(raw, raw.stages_order.len() as int, j);
        let m = choose|m: int|
            0 <= m < raw.stages_order.len() && find_stage(
                raw.stages,
                #[trigger] raw.stages_order[m],
            ) is Some && expanded_steps(find_stage(raw.stages, raw.stages_order[m])->0.steps) is Ok
                && stages[j] == (StageView {
                name: raw.stages_order[m],
                steps: expanded_steps(find_stage(raw.stages, raw.stages_order[m])->0.steps)->Ok_0,
            });
        lemma_valid_stage_compiles_well(
            raw.stages_order[m],
            find_stage(raw.stages, raw.stages_order[m])->0.steps,
        );
    }
}

/// The names of the declared order that give no stage, among the first `n`,
/// each with the reason.
pub open spec fn dropped(raw: RawPipelineView, n: int) -> Seq<(Seq<char>, DropReason)>
    decreases n,
{
    if n <= 0 {
        Seq::empty()
    } else {
        let name = raw.stages_order[n - 1];
        match drop_reason(raw, name) {
            Some(reason) => dropped(raw, n - 1).push((name, reason)),
            None => dropped(raw, n - 1),
        }
    }
}

/// Step instances or an error, as mathematical values.
pub open spec fn steps_result_view(r: Result<Vec<Step>, ConfigError>) -> Result<
    Seq<StepView>,
    ConfigErrorView,
> {
    match r {
        Ok(steps) => Ok(crate::models::config::steps_view(steps@)),
        Err(error) => Err(error@),
    }
}

/// A compiled pipeline or an error, as mathematical values.
pub open spec fn pipeline_result_view(r: Result<Pipeline, ConfigError>) -> Result<
    Seq<StageView>,
    ConfigErrorView,
> {
    match r {
        Ok(pipeline) => Ok(pipeline@),
        Err(error) => Err(error@),
    }
}

/// A stage of the declared order that the compiled pipeline leaves out.
#[derive(Debug)]
pub struct DroppedStage {
    pub name: String,
    pub reason: DropReason,
}

impl RawStep {
    fn needs_or_empty(&self) -> (out: Vec<String>)
        ensures
            strings_view(out@) == (match self@.needs {
                Some(needs) => needs,
                None => Seq::empty(),
            }),
    {
        match &self.needs {
            Some(needs) => clone_strings(needs),
            None => {
                let out: Vec<String> = Vec::new();
                assert(strings_view(out@) =~= Seq::<Seq<char>>::empty());
                out
            },
        }
    }

    fn env_or_empty(&self) -> (out: Vec<String>)
        ensures
            strings_view(out@) == (match self@.env {
                Some(env) => env,
                None => Seq::empty(),
            }),
    {
        match &self.env {
            Some(env) => clone_strings(env),
            None => {
                let out: Vec<String> = Vec::new();
                assert(strings_view(out@) =~= Seq::<Seq<char>>::empty());
                out
            },
        }
    }

    /// The instances of this step, declared under the name `id`.
    pub fn expand(&self, id: &str) -> (out: Result<Vec<Step>, ConfigError>)
        ensures
            steps_result_view(out) == expanded_step(id@, self@),
    {
        let max_retries: u32 = match self.max_retries {
            Some(n) => n,
            None => 0,
        };
        let timeout_secs: u64 = match self.timeout {
            Some(t) => t,
            None => DEFAULT_TIMEOUT_SECS,
        };
        let mut steps: Vec<Step> = Vec::new();
        match &self.matrix {
            Some(matrix) => {
                let ghost mut memory: i64 = 0;
                let mut k: usize = 0;
                while k < matrix.values.len()
                    invariant
                        k <= matrix.values.len(),
                        self.matrix == Some(*matrix),
                        max_retries == instance(id@, self@, 0, None).max_retries,
                        timeout_secs == instance(id@, self@, 0, None).timeout_secs,
                        steps.len() == k,
                        k > 0 ==> memory_limit_of(self@.memory) == Ok::<i64, ConfigErrorView>(
                            memory,
                        ),
                        forall|j: int|
                            0 <= j < k ==> (#[trigger] steps[j])@ == instance(
                                id@,
                                self@,
                                memory,
                                Some((matrix@.variable, matrix@.values[j])),
                            ),
                    decreases matrix.values.len() - k,
                {
                    let value = &matrix.values[k];
                    let bytes = match self.memory_limit() {
                        Ok(bytes) => bytes,
                        Err(error) => {
                            return Err(error);
                        },
                    };
                    proof {
                        memory = bytes;
                    }
                    let mut exploded_name = String::from_str(id);
                    push_char(&mut exploded_name, '-');
                    exploded_name.append(value.as_str());
                    assert(exploded_name@ =~= exploded_name_of(id@, Some(value@)));
                    steps.push(
                        Step {
                            name: String::from_str(id),
                            exploded_name,
                            image: expand(
                                self.image.as_str(),
                                matrix.variable.as_str(),
                                value.as_str(),
                            ),
                            command: expand(
                                self.command.as_str(),
                                matrix.variable.as_str(),
                                value.as_str(),
                            ),
                            memory_bytes: bytes,
                            needs: self.needs_or_empty(),
                            env: self.env_or_empty(),
                            max_retries,
                            timeout_secs,
                        },
                    );
                    k += 1;
                }
                proof {
                    if matrix.values.len() > 0 {
                        assert(crate::models::config::steps_view(steps@) =~= expanded_step(
                            id@,
                            self@,
                        )->Ok_0);
                    } else {
                        assert(crate::models::config::steps_view(steps@) =~= Seq::<
                            StepView,
                        >::empty());
                    }
                }
                Ok(steps)
            },
            None => {
                let bytes = match self.memory_limit() {
                    Ok(bytes) => bytes,
                    Err(error) => {
                        return Err(error);
                    },
                };
                steps.push(
                    Step {
                        name: String::from_str(id),
                        exploded_name: String::from_str(id),
                        image: self.image.clone(),
                        command: self.command.clone(),
                        memory_bytes: bytes,
                        needs: self.needs_or_empty(),
                        env: self.env_or_empty(),
                        max_retries,
                        timeout_secs,
                    },
                );
                assert(crate::models::config::steps_view(steps@) =~= seq![
                    instance(id@, self@, bytes, None),
                ]);
                Ok(steps)
            },
        }
    }
}

impl RawStage {
    /// The instances of all steps of the stage, in the order of declaration.
    pub fn expand(&self) -> (out: Result<Vec<Step>, ConfigError>)
        ensures
            steps_result_view(out) == expanded_steps(self@.steps),
    {
        let mut steps: Vec<Step> = Vec::new();
        let mut i: usize = 0;
        assert(self@.steps.take(0) =~= Seq::<(Seq<char>, RawStepView)>::empty());
        assert(crate::models::config::steps_view(steps@) =~= Seq::<StepView>::empty());
        while i < self.steps.len()
            invariant
                i <= self.steps.len(),
                expanded_steps(self@.steps.take(i as int)) == Ok::<Seq<StepView>, ConfigErrorView>(
                    crate::models::config::steps_view(steps@),
                ),
            decreases self.steps.len() - i,
        {
            let ghost before = crate::models::config::steps_view(steps@);
            let ghost prefix = self@.steps.take(i + 1);
            proof {
                assert(prefix.drop_last() =~= self@.steps.take(i as int));
                assert(prefix.last() == self@.steps[i as int]);
            }
            let entry = &self.steps[i];
            match entry.1.expand(entry.0.as_str()) {
                Ok(mut instances) => {
                    let ghost added = crate::models::config::steps_view(instances@);
                    steps.append(&mut instances);
                    assert(crate::models::config::steps_view(steps@) =~= before + added);
                },
                Err(error) => {
                    proof {
                        lemma_expanded_steps_error(self@.steps, i + 1);
                    }
                    return Err(error);
                },
            }
            i += 1;
        }
        assert(self@.steps.take(self.steps.len() as int) =~= self@.steps);
        Ok(steps)
    }
}

/// An error among the first `n` declared steps is the error of the whole list.
pub proof fn lemma_expanded_steps_error(entries: Seq<(Seq<char>, RawStepView)>, n: int)
    requires
        0 <= n <= entries.len(),
        expanded_steps(entries.take(n)) is Err,
    ensures
        expanded_steps(entries) == expanded_steps(entries.take(n)),
    decreases entries.len() - n,
{
    if n == entries.len() {
        assert(entries.take(n) =~= entries);
    } else {
        let longer = entries.take(n + 1);
        assert(longer.drop_last() =~= entries.take(n));
        lemma_expanded_steps_error(entries, n + 1);
    }
}

/// An error among the first `n` stages of the order is the error of the
/// whole order.
pub proof fn lemma_compiled_stages_error(raw: RawPipelineView, n: int, m: int)
    requires
        0 <= n <= m,
        compiled_stages(raw, n) is Err,
    ensures
        compiled_stages(raw, m) == compiled_stages(raw, n),
    decreases m - n,
{
    if n < m {
        lemma_compiled_stages_error(raw, n, m - 1);
    }
}

impl RawPipeline {
    /// The first stage declared under `name`.
    fn stage_named(&self, name: &String) -> (out: Option<&RawStage>)
        ensures
            match out {
                Some(stage) => find_stage(self@.stages, name@) == Some(stage@),
                None => find_stage(self@.stages, name@) is None,
            },
    {
        let mut i: usize = 0;
        assert(self@.stages.skip(0) =~= self@.stages);
        while i < self.stages.len()
            invariant
                i <= self.stages.len(),
                find_stage(self@.stages, name@) == find_stage(self@.stages.skip(i as int), name@),
            decreases self.stages.len() - i,
        {
            let ghost rest = self@.stages.skip(i as int);
            assert(rest[0] == self@.stages[i as int]);
            assert(rest.drop_first() =~= self@.stages.skip(i + 1));
            if self.stages[i].0 == *name {
                return Some(&self.stages[i].1);
            }
            i += 1;
        }
        None
    }

    /// Compiles the declaration. The stages are taken in the declared order;
    /// a name without a definition, or with a definition without steps, is
    /// left out. Each declared step gives one instance for each value of its
    /// matrix, with the token replaced in image and command, or a
    /// single instance where it has no matrix.
    pub fn compile(self) -> (out: Result<Pipeline, ConfigError>)
        ensures
            pipeline_result_view(out) == compiled(self@),
    {
        let mut stages: Vec<Stage> = Vec::new();
        let mut i: usize = 0;
        assert(crate::models::config::stages_view(stages@) =~= Seq::<StageView>::empty());
        while i < self.stages_order.len()
            invariant
                i <= self.stages_order.len(),
                compiled_stages(self@, i as int) == Ok::<Seq<StageView>, ConfigErrorView>(
                    crate::models::config::stages_view(stages@),
                ),
            decreases self.stages_order.len() - i,
        {
            let ghost before = crate::models::config::stages_view(stages@);
            let name = &self.stages_order[i];
            assert(self@.stages_order[i as int] == name@);
            match self.stage_named(name) {
                Some(raw_stage) => {
                    if raw_stage.steps.len() > 0 {
                        match raw_stage.expand() {
                            Ok(steps) => {
                                stages.push(Stage { name: name.clone(), steps });
                                assert(crate::models::config::stages_view(stages@) =~= before.push(
                                    StageView {
                                        name: name@,
                                        steps: expanded_steps(raw_stage@.steps)->Ok_0,
                                    },
                                ));
                            },
                            Err(error) => {
                                proof {
                                    lemma_compiled_stages_error(
                                        self@,
                                        i + 1,
                                        self.stages_order.len() as int,
                                    );
                                }
                                return Err(error);
                            },
                        }
                    }
                },
                None => {},
            }
            i += 1;
        }
        if stages.len() == 0 {
            return Err(ConfigError::NoValidStages);
        }
        Ok(Pipeline { stages })
    }

    /// The stages of the declared order that `compile` leaves out, in that
    /// order, each with the reason.
    pub fn dropped_stages(&self) -> (out: Vec<DroppedStage>)
        ensures
            out@.len() == dropped(self@, self@.stages_order.len() as int).len(),
            forall|k: int|
                0 <= k < out@.len() ==> ((#[trigger] out@[k]).name@, out@[k].reason) == dropped(
                    self@,
                    self@.stages_order.len() as int,
                )[k],
    {
        let mut out: Vec<DroppedStage> = Vec::new();
        let mut i: usize = 0;
        while i < self.stages_order.len()
            invariant
                i <= self.stages_order.len(),
                out@.len() == dropped(self@, i as int).len(),
                forall|k: int|
                    0 <= k < out@.len() ==> ((#[trigger] out@[k]).name@, out@[k].reason) == dropped(
                        self@,
                        i as int,
                    )[k],
            decreases self.stages_order.len() - i,
        {
            let name = &self.stages_order[i];
            assert(self@.stages_order[i as int] == name@);
            match self.stage_named(name) {
                Some(raw_stage) => {
                    if raw_stage.steps.len() == 0 {
                        out.push(DroppedStage { name: name.clone(), reason: DropReason::Empty });
                    }
                },
                None => {
                    out.push(DroppedStage { name: name.clone(), reason: DropReason::Missing });
                },
            }
            i += 1;
        }
        out
    }
}

} // verus!
