//! What the container driver is asked to create for a step, and what it
//! reports of a finished container.

use crate::models::config::{Step, StepView};
use crate::text::{clone_strings, push_char, strings_view, to_chars};
use vstd::prelude::*;
use vstd::string::StringExecFns;

verus! {

/// What the driver reports of a finished container.
#[derive(Debug, Clone, Copy, PartialEq, Eq, Structural)]
pub struct ExitState {
    pub exit_code: Option<i64>,
    pub oom_killed: Option<bool>,
}

/// Everything the driver needs to create the container of one attempt.
#[derive(Debug)]
pub struct ContainerPlan {
    pub name: String,
    pub image: String,
    pub cmd: Vec<String>,
    pub working_dir: String,
    pub binds: Vec<String>,
    pub user: String,
    pub env: Vec<String>,
    /// The memory limit in bytes.
    pub memory: i64,
    /// The limit on memory and swap together, in bytes.
    pub memory_swap: i64,
}

/// What a `ContainerPlan` holds, as mathematical values.
pub struct ContainerPlanView {
    pub name: Seq<char>,
    pub image: Seq<char>,
    pub cmd: Seq<Seq<char>>,
    pub working_dir: Seq<char>,
    pub binds: Seq<Seq<char>>,
    pub user: Seq<char>,
    pub env: Seq<Seq<char>>,
    pub memory: i64,
    pub memory_swap: i64,
}

impl View for ContainerPlan {
    type V = ContainerPlanView;

    open spec fn view(&self) -> ContainerPlanView {
        ContainerPlanView {
            name: self.name@,
            image: self.image@,
            cmd: strings_view(self.cmd@),
            working_dir: self.working_dir@,
            binds: strings_view(self.binds@),
            user: self.user@,
            env: strings_view(self.env@),
            memory: self.memory,
            memory_swap: self.memory_swap,
        }
    }
}

/// `text` with every space replaced by a hyphen.
pub open spec fn dashed(text: Seq<char>) -> Seq<char> {
    Seq::new(
        text.len(),
        |i: int|
            if text[i] == ' ' {
                '-'
            } else {
                text[i]
            },
    )
}

/// The name of the container that runs the step instance `exploded_name`.
pub open spec fn container_name_of(exploded_name: Seq<char>) -> Seq<char> {
    "ciroach-"@ + dashed(exploded_name)
}

/// The container of a step: it runs the command through `sh -c` in
/// `/workspace`, onto which the directory `cwd` is mounted, as `user`, with
/// memory and memory plus swap both limited to the step's memory.
pub open spec fn planned(step: StepView, cwd: Seq<char>, user: Seq<char>) -> ContainerPlanView {
    ContainerPlanView {
        name: container_name_of(step.exploded_name),
        image: step.image,
        cmd: seq!["sh"@, "-c"@, step.command],
        working_dir: "/workspace"@,
        binds: seq![cwd + ":/workspace"@],
        user,
        env: step.env,
        memory: step.memory_bytes,
        memory_swap: step.memory_bytes,
    }
}

/// The name of the container that runs the step instance `exploded_name`:
/// `ciroach-` and the instance name, with a hyphen for each space.
pub fn container_name(exploded_name: &str) -> (out: String)
    ensures
        out@ == container_name_of(exploded_name@),
{
    let chars = to_chars(exploded_name);
    let mut out = String::from_str("ciroach-");
    let ghost prefix = out@;
    let mut i: usize = 0;
    while i < chars.len()
        invariant
            i <= chars.len(),
            chars@ == exploded_name@,
            prefix == "ciroach-"@,
            out@ == prefix + dashed(exploded_name@).take(i as int),
        decreases chars.len() - i,
    {
        let c = chars[i];
        if c == ' ' {
            push_char(&mut out, '-');
        } else {
            push_char(&mut out, c);
        }
        assert(dashed(exploded_name@).take(i + 1) =~= dashed(exploded_name@).take(i as int).push(
            dashed(exploded_name@)[i as int],
        ));
        assert(out@ =~= prefix + dashed(exploded_name@).take(i + 1));
        i += 1;
    }
    assert(dashed(exploded_name@).take(chars.len() as int) =~= dashed(exploded_name@));
    out
}

/// What to ask of the driver for one attempt of `step`, run from the
/// directory `cwd` as `user`.
pub fn plan_container(step: &Step, cwd: &str, user: &str) -> (out: ContainerPlan)
    ensures
        out@ == planned(step@, cwd@, user@),
{
    let mut cmd: Vec<String> = Vec::new();
    cmd.push(String::from_str("sh"));
    cmd.push(String::from_str("-c"));
    cmd.push(step.command.clone());
    let mut bind = String::from_str(cwd);
    bind.append(":/workspace");
    let mut binds: Vec<String> = Vec::new();
    binds.push(bind);
    let out = ContainerPlan {
        name: container_name(step.exploded_name.as_str()),
        image: step.image.clone(),
        cmd,
        working_dir: String::from_str("/workspace"),
        binds,
        user: String::from_str(user),
        env: clone_strings(&step.env),
        memory: step.memory_bytes,
        memory_swap: step.memory_bytes,
    };
    assert(out@.cmd =~= seq!["sh"@, "-c"@, step@.command]);
    assert(out@.binds =~= seq![cwd@ + ":/workspace"@]);
    out
}

} // verus!
