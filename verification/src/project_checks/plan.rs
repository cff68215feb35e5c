//! Which commands build and test a project.

use vstd::prelude::*;

use crate::errors;
use crate::errors::FunctionCallError;
use crate::project_checks;
use crate::project_checks::detect;
use crate::project_checks::detect::NodePackageManager;
use crate::project_checks::detect::ProjectDetection;
use crate::project_checks::detect::PythonRunner;
use crate::project_checks::DetectedProjectType;
use crate::project_checks::ProjectChecksTask;
use crate::project_checks::RunProjectChecksArgs;
use crate::text;

verus! {

// ---------------------------------------------------------------------------
// Command lines.

/// The command line that `shlex::try_join` makes of words, or that it makes
/// none of them.
pub uninterp spec fn shell_line(words: Seq<Seq<char>>) -> Option<Seq<char>>;

/// `shlex::try_join`: the command line depends on the words alone, and there
/// is one just where no word holds a null character.
#[verifier::external_body]
fn join_words(words: &[String]) -> (line: Option<String>)
    ensures
        text::opt_text(line) == shell_line(text::texts(words@)),
        line is Some <==> forall|i: int|
            0 <= i < words@.len() ==> !(#[trigger] words@[i]@).contains('\0'),
{
    shlex::try_join(words.iter().map(|word| word.as_str())).ok()
}

/// The command, given the command line that was made of its words.
pub open spec fn command_of(line: Option<Seq<char>>) -> Seq<char> {
    match line {
        Some(command) => command,
        None => "<command included NUL byte>"@,
    }
}

/// The command, given the command line that was made of its words.
pub fn command_from_line(line: Option<String>) -> (command: String)
    ensures
        command@ == command_of(text::opt_text(line)),
{
    match line {
        Some(command) => command,
        None => "<command included NUL byte>".to_string(),
    }
}

/// The command of words.
pub open spec fn command(words: Seq<Seq<char>>) -> Seq<char> {
    command_of(shell_line(words))
}

/// Makes a command of words.
pub fn shlex_join(words: &[String]) -> (out: String)
    ensures
        out@ == command(text::texts(words@)),
{
    command_from_line(join_words(words))
}

fn push_word(words: &mut Vec<String>, word: &str)
    ensures
        text::texts(final(words)@) == text::texts(old(words)@).push(word@),
{
    let ghost before = text::texts(words@);
    words.push(word.to_string());
    proof {
        assert(text::texts(words@) =~= before.push(word@));
    }
}

// ---------------------------------------------------------------------------
// Steps.

/// A command that is to be run.
#[derive(Clone, Debug)]
pub struct PlannedStep {
    pub label: String,
    pub command: String,
}

/// What a [`PlannedStep`] stands for.
#[verifier::ext_equal]
pub ghost struct StepView {
    pub label: Seq<char>,
    pub command: Seq<char>,
}

impl View for PlannedStep {
    type V = StepView;

    open spec fn view(&self) -> StepView {
        StepView { label: self.label@, command: self.command@ }
    }
}

/// The views of a list of steps.
pub open spec fn step_views(steps: Seq<PlannedStep>) -> Seq<StepView> {
    Seq::new(steps.len(), |i: int| steps[i]@)
}

/// The outcome of planning.
pub open spec fn plan_outcome(r: Result<Vec<PlannedStep>, FunctionCallError>) -> Result<
    Seq<StepView>,
    errors::CallFault,
> {
    match r {
        Ok(steps) => Ok(step_views(steps@)),
        Err(fault) => Err(fault@),
    }
}

/// A step.
pub open spec fn step(label: Seq<char>, words: Seq<Seq<char>>) -> StepView {
    StepView { label, command: command(words) }
}

fn new_step(label: &str, words: &[String]) -> (s: PlannedStep)
    ensures
        s@ == step(label@, text::texts(words@)),
{
    PlannedStep { label: label.to_string(), command: shlex_join(words) }
}

fn one_step(only: PlannedStep) -> (steps: Vec<PlannedStep>)
    ensures
        step_views(steps@) == seq![only@],
{
    let mut steps: Vec<PlannedStep> = Vec::new();
    steps.push(only);
    proof {
        assert(step_views(steps@) =~= seq![only@]);
    }
    steps
}

fn two_steps(first: PlannedStep, second: PlannedStep) -> (steps: Vec<PlannedStep>)
    ensures
        step_views(steps@) == seq![first@, second@],
{
    let mut steps: Vec<PlannedStep> = Vec::new();
    steps.push(first);
    steps.push(second);
    proof {
        assert(step_views(steps@) =~= seq![first@, second@]);
    }
    steps
}

fn no_steps() -> (steps: Vec<PlannedStep>)
    ensures
        step_views(steps@) == Seq::<StepView>::empty(),
{
    let steps: Vec<PlannedStep> = Vec::new();
    proof {
        assert(step_views(steps@) =~= Seq::<StepView>::empty());
    }
    steps
}

// ---------------------------------------------------------------------------
// Rust.

/// The words with two more behind them, where there is a value.
pub open spec fn with_option(words: Seq<Seq<char>>, option: Seq<char>, value: Option<Seq<char>>) -> Seq<
    Seq<char>,
> {
    match value {
        Some(v) => words.push(option).push(v),
        None => words,
    }
}

/// The words with one more behind them, where there is a value.
pub open spec fn with_word(words: Seq<Seq<char>>, value: Option<Seq<char>>) -> Seq<Seq<char>> {
    match value {
        Some(v) => words.push(v),
        None => words,
    }
}

/// The words of a call of `cargo`.
pub open spec fn cargo_words(
    subcommand: Seq<char>,
    package: Option<Seq<char>>,
    filter: Option<Seq<char>>,
    more: Seq<&str>,
) -> Seq<Seq<char>> {
    with_word(
        with_option(seq!["cargo"@, subcommand], "-p"@, package) + Seq::new(
            more.len(),
            |i: int| more[i]@,
        ),
        filter,
    )
}

/// Makes a call of `cargo`.
pub fn cargo_command(
    subcommand: &str,
    package: Option<&str>,
    filter: Option<&str>,
    extra_args: &[&str],
) -> (out: String)
    ensures
        out@ == command(
            cargo_words(
                subcommand@,
                text::opt_str(package),
                text::opt_str(filter),
                extra_args@,
            ),
        ),
{
    let mut tokens: Vec<String> = Vec::new();
    push_word(&mut tokens, "cargo");
    push_word(&mut tokens, subcommand);
    proof {
        assert(text::texts(tokens@) =~= seq!["cargo"@, subcommand@]);
    }
    if let Some(package) = package {
        push_word(&mut tokens, "-p");
        push_word(&mut tokens, package);
    }
    let ghost so_far = text::texts(tokens@);
    let ghost more = Seq::new(extra_args@.len(), |i: int| extra_args@[i]@);
    let mut i: usize = 0;
    proof {
        assert(text::texts(tokens@) =~= so_far + more.take(0));
    }
    while i < extra_args.len()
        invariant
            i <= extra_args@.len(),
            more == Seq::new(extra_args@.len(), |i: int| extra_args@[i]@),
            text::texts(tokens@) == so_far + more.take(i as int),
        decreases extra_args@.len() - i,
    {
        push_word(&mut tokens, extra_args[i]);
        proof {
            assert((so_far + more.take(i as int)).push(more[i as int]) =~= so_far + more.take(
                i + 1,
            ));
        }
        i += 1;
    }
    proof {
        assert(more.take(i as int) =~= more);
    }
    if let Some(filter) = filter {
        push_word(&mut tokens, filter);
    }
    shlex_join(&tokens)
}

/// The steps for a Rust project.
pub open spec fn rust_steps(args: RunProjectChecksArgs) -> Seq<StepView> {
    let package = text::opt_text(args.target);
    let filter = text::opt_text(args.test_filter);
    let short = seq!["--message-format", "short"];
    match args.task {
        ProjectChecksTask::Build => if args.quick {
            seq![step("cargo check"@, cargo_words("check"@, package, None, short))]
        } else {
            seq![step("cargo build"@, cargo_words("build"@, package, None, short))]
        },
        ProjectChecksTask::Test => seq![
            step("cargo test"@, cargo_words("test"@, package, filter, seq![])),
        ],
        ProjectChecksTask::Verify => seq![
            step("cargo check"@, cargo_words("check"@, package, None, short)),
            if args.quick {
                step(
                    "cargo test --no-run"@,
                    cargo_words(
                        "test"@,
                        package,
                        filter,
                        seq!["--no-run", "--message-format", "short"],
                    ),
                )
            } else {
                step("cargo test"@, cargo_words("test"@, package, filter, seq![]))
            },
        ],
        ProjectChecksTask::Detect => seq![],
    }
}

fn opt_as_str(value: &Option<String>) -> (s: Option<&str>)
    ensures
        text::opt_str(s) == text::opt_text(*value),
{
    match value {
        Some(s) => Some(s.as_str()),
        None => None,
    }
}

fn cargo_step(
    label: &str,
    subcommand: &str,
    package: Option<&str>,
    filter: Option<&str>,
    extra_args: &[&str],
) -> (s: PlannedStep)
    ensures
        s@ == step(
            label@,
            cargo_words(
                subcommand@,
                text::opt_str(package),
                text::opt_str(filter),
                extra_args@,
            ),
        ),
{
    PlannedStep {
        label: label.to_string(),
        command: cargo_command(subcommand, package, filter, extra_args),
    }
}

/// Plans the steps for a Rust project.
pub fn plan_rust_steps(args: &RunProjectChecksArgs) -> (steps: Vec<PlannedStep>)
    ensures
        step_views(steps@) == rust_steps(*args),
{
    let package = opt_as_str(&args.target);
    let filter = opt_as_str(&args.test_filter);
    let short: [&str; 2] = ["--message-format", "short"];
    let none: [&str; 0] = [];
    proof {
        assert(short@ =~= seq!["--message-format", "short"]);
        assert(none@ =~= Seq::<&str>::empty());
    }
    match args.task {
        ProjectChecksTask::Build => if args.quick {
            one_step(cargo_step("cargo check", "check", package, None, &short))
        } else {
            one_step(cargo_step("cargo build", "build", package, None, &short))
        },
        ProjectChecksTask::Test => one_step(
            cargo_step("cargo test", "test", package, filter, &none),
        ),
        ProjectChecksTask::Verify => {
            let check = cargo_step("cargo check", "check", package, None, &short);
            let test = if args.quick {
                let dry: [&str; 3] = ["--no-run", "--message-format", "short"];
                proof {
                    assert(dry@ =~= seq!["--no-run", "--message-format", "short"]);
                }
                cargo_step("cargo test --no-run", "test", package, filter, &dry)
            } else {
                cargo_step("cargo test", "test", package, filter, &none)
            };
            two_steps(check, test)
        },
        ProjectChecksTask::Detect => no_steps(),
    }
}

// ---------------------------------------------------------------------------
// Go.

/// The words of a build with `go`.
pub open spec fn go_build_words(target: Seq<char>) -> Seq<Seq<char>> {
    seq!["go"@, "build"@, target]
}

/// The words of a test with `go`.
pub open spec fn go_test_words(target: Seq<char>, filter: Option<Seq<char>>) -> Seq<Seq<char>> {
    with_option(seq!["go"@, "test"@, target], "-run"@, filter)
}

/// The steps for a Go project.
pub open spec fn go_steps(args: RunProjectChecksArgs) -> Seq<StepView> {
    let target = match args.target {
        Some(t) => t@,
        None => "./..."@,
    };
    let build = step("go build"@, go_build_words(target));
    let test = step("go test"@, go_test_words(target, text::opt_text(args.test_filter)));
    match args.task {
        ProjectChecksTask::Build => seq![build],
        ProjectChecksTask::Test => seq![test],
        ProjectChecksTask::Verify => if args.quick {
            seq![test]
        } else {
            seq![build, test]
        },
        ProjectChecksTask::Detect => seq![],
    }
}

/// Makes a test with `go`.
pub fn go_test_command(target: &str, filter: Option<&str>) -> (out: String)
    ensures
        out@ == command(go_test_words(target@, text::opt_str(filter))),
{
    let mut tokens: Vec<String> = Vec::new();
    push_word(&mut tokens, "go");
    push_word(&mut tokens, "test");
    push_word(&mut tokens, target);
    proof {
        assert(text::texts(tokens@) =~= seq!["go"@, "test"@, target@]);
    }
    if let Some(filter) = filter {
        push_word(&mut tokens, "-run");
        push_word(&mut tokens, filter);
    }
    shlex_join(&tokens)
}

fn go_build_step(target: &str) -> (s: PlannedStep)
    ensures
        s@ == step("go build"@, go_build_words(target@)),
{
    let mut tokens: Vec<String> = Vec::new();
    push_word(&mut tokens, "go");
    push_word(&mut tokens, "build");
    push_word(&mut tokens, target);
    proof {
        assert(text::texts(tokens@) =~= go_build_words(target@));
    }
    new_step("go build", &tokens)
}

/// Plans the steps for a Go project.
pub fn plan_go_steps(args: &RunProjectChecksArgs) -> (steps: Vec<PlannedStep>)
    ensures
        step_views(steps@) == go_steps(*args),
{
    let target = match &args.target {
        Some(t) => t.as_str(),
        None => "./...",
    };
    let test = PlannedStep {
        label: "go test".to_string(),
        command: go_test_command(target, opt_as_str(&args.test_filter)),
    };
    match args.task {
        ProjectChecksTask::Build => one_step(go_build_step(target)),
        ProjectChecksTask::Test => one_step(test),
        ProjectChecksTask::Verify => if args.quick {
            one_step(test)
        } else {
            two_steps(go_build_step(target), test)
        },
        ProjectChecksTask::Detect => no_steps(),
    }
}

// ---------------------------------------------------------------------------
// Node.

/// The words that run a script.
pub open spec fn script_words(manager: NodePackageManager, script: Seq<char>) -> Seq<Seq<char>> {
    match manager {
        NodePackageManager::Npm => seq!["npm"@, "run"@, script],
        NodePackageManager::Pnpm => seq!["pnpm"@, "run"@, script],
        NodePackageManager::Yarn => seq!["yarn"@, script],
        NodePackageManager::Bun => seq!["bun"@, "run"@, script],
    }
}

impl NodePackageManager {
    /// The command that runs a script.
    pub fn command_for_script(self, script: &str) -> (out: String)
        ensures
            out@ == command(script_words(self, script@)),
    {
        let mut tokens: Vec<String> = Vec::new();
        push_word(&mut tokens, self.as_str());
        if self != NodePackageManager::Yarn {
            push_word(&mut tokens, "run");
        }
        push_word(&mut tokens, script);
        proof {
            assert(text::texts(tokens@) =~= script_words(self, script@));
        }
        shlex_join(&tokens)
    }
}

/// The step that runs a script.
pub open spec fn script_step(manager: NodePackageManager, script: Seq<char>) -> StepView {
    step(script + " script"@, script_words(manager, script))
}

/// The first of the candidates, from the `i`-th on, that is a script.
pub open spec fn first_script(candidates: Seq<&str>, scripts: Seq<Seq<char>>, i: int) -> Option<
    Seq<char>,
>
    decreases candidates.len() - i,
{
    if i < 0 || i >= candidates.len() {
        None
    } else if scripts.contains(candidates[i]@) {
        Some(candidates[i]@)
    } else {
        first_script(candidates, scripts, i + 1)
    }
}

/// The steps for all candidates that are scripts, in their order.
pub open spec fn script_steps(
    candidates: Seq<&str>,
    scripts: Seq<Seq<char>>,
    manager: NodePackageManager,
) -> Seq<StepView>
    decreases candidates.len(),
{
    if candidates.len() == 0 {
        seq![]
    } else {
        let earlier = script_steps(candidates.drop_last(), scripts, manager);
        if scripts.contains(candidates.last()@) {
            earlier.push(script_step(manager, candidates.last()@))
        } else {
            earlier
        }
    }
}

/// The candidates for checking a project.
pub open spec fn verify_candidates(quick: bool) -> Seq<&'static str> {
    if quick {
        seq!["typecheck", "lint", "test"]
    } else {
        seq!["typecheck", "lint", "build", "test"]
    }
}

/// The steps for a Node project, where a script fits the task.
pub open spec fn node_steps_found(
    args: RunProjectChecksArgs,
    manager: NodePackageManager,
    scripts: Seq<Seq<char>>,
) -> Option<Seq<StepView>> {
    match args.task {
        ProjectChecksTask::Build => match first_script(
            seq!["build", "typecheck", "check"],
            scripts,
            0,
        ) {
            Some(script) => Some(seq![script_step(manager, script)]),
            None => None,
        },
        ProjectChecksTask::Test => match first_script(seq!["test"], scripts, 0) {
            Some(script) => Some(seq![script_step(manager, script)]),
            None => None,
        },
        ProjectChecksTask::Verify => {
            let steps = script_steps(verify_candidates(args.quick), scripts, manager);
            if steps.len() > 0 {
                Some(steps)
            } else {
                None
            }
        },
        ProjectChecksTask::Detect => Some(seq![]),
    }
}

/// The package manager that runs the scripts of a project.
pub open spec fn chosen_manager(package_manager: Option<Seq<char>>) -> NodePackageManager {
    match package_manager {
        Some(value) => detect::named_manager(value),
        None => NodePackageManager::Npm,
    }
}

/// The steps for a Node project.
pub open spec fn node_steps(args: RunProjectChecksArgs, project: detect::DetectionView) -> Result<
    Seq<StepView>,
    errors::CallFault,
> {
    match node_steps_found(args, chosen_manager(project.package_manager), project.scripts) {
        Some(steps) => Ok(steps),
        None => Err(
            errors::CallFault::RespondToModel(
                "run_project_checks could not find a matching script for "@
                    + project_checks::task_word(args.task) + " in package.json"@,
            ),
        ),
    }
}

fn has_script(scripts: &[String], name: &str) -> (r: bool)
    ensures
        r == text::texts(scripts@).contains(name@),
{
    let ghost all = text::texts(scripts@);
    let mut i: usize = 0;
    while i < scripts.len()
        invariant
            i <= scripts@.len(),
            all == text::texts(scripts@),
            forall|k: int| 0 <= k < i ==> (#[trigger] all[k]) != name@,
        decreases scripts@.len() - i,
    {
        proof {
            assert(all[i as int] == scripts@[i as int]@);
        }
        if text::same_text(scripts[i].as_str(), name) {
            return true;
        }
        i += 1;
    }
    false
}

fn find_script<'a>(candidates: &[&'a str], scripts: &[String]) -> (r: Option<&'a str>)
    ensures
        text::opt_str(r) == first_script(candidates@, text::texts(scripts@), 0),
{
    let mut i: usize = 0;
    while i < candidates.len()
        invariant
            i <= candidates@.len(),
            first_script(candidates@, text::texts(scripts@), 0) == first_script(
                candidates@,
                text::texts(scripts@),
                i as int,
            ),
        decreases candidates@.len() - i,
    {
        if has_script(scripts, candidates[i]) {
            return Some(candidates[i]);
        }
        i += 1;
    }
    None
}

fn new_script_step(manager: NodePackageManager, script: &str) -> (s: PlannedStep)
    ensures
        s@ == script_step(manager, script@),
{
    let mut label = script.to_string();
    label.append(" script");
    PlannedStep { label, command: manager.command_for_script(script) }
}

fn all_script_steps(candidates: &[&str], scripts: &[String], manager: NodePackageManager) -> (steps:
    Vec<PlannedStep>)
    ensures
        step_views(steps@) == script_steps(candidates@, text::texts(scripts@), manager),
{
    let mut steps: Vec<PlannedStep> = Vec::new();
    let ghost held = text::texts(scripts@);
    let mut i: usize = 0;
    proof {
        assert(step_views(steps@) =~= script_steps(candidates@.take(0), held, manager));
    }
    while i < candidates.len()
        invariant
            i <= candidates@.len(),
            held == text::texts(scripts@),
            step_views(steps@) == script_steps(candidates@.take(i as int), held, manager),
        decreases candidates@.len() - i,
    {
        let ghost before = step_views(steps@);
        proof {
            assert(candidates@.take(i + 1).drop_last() =~= candidates@.take(i as int));
        }
        if has_script(scripts, candidates[i]) {
            steps.push(new_script_step(manager, candidates[i]));
            proof {
                assert(step_views(steps@) =~= before.push(
                    script_step(manager, candidates@[i as int]@),
                ));
            }
        }
        i += 1;
    }
    proof {
        assert(candidates@.take(i as int) =~= candidates@);
    }
    steps
}

fn single_script(
    candidates: &[&str],
    scripts: &[String],
    manager: NodePackageManager,
) -> (steps: Option<Vec<PlannedStep>>)
    ensures
        match (steps, first_script(candidates@, text::texts(scripts@), 0)) {
            (Some(found), Some(script)) => step_views(found@) == seq![
                script_step(manager, script),
            ],
            (None, None) => true,
            _ => false,
        },
{
    match find_script(candidates, scripts) {
        Some(script) => Some(one_step(new_script_step(manager, script))),
        None => None,
    }
}

/// Plans the steps for a Node project.
pub fn plan_node_steps(args: &RunProjectChecksArgs, detection: &ProjectDetection) -> (r: Result<
    Vec<PlannedStep>,
    FunctionCallError,
>)
    ensures
        plan_outcome(r) == node_steps(*args, detection@),
{
    let manager = match &detection.package_manager {
        Some(value) => detect::parse_node_package_manager(value.as_str()),
        None => NodePackageManager::Npm,
    };
    let found = match args.task {
        ProjectChecksTask::Build => {
            let candidates: [&str; 3] = ["build", "typecheck", "check"];
            proof {
                assert(candidates@ =~= seq!["build", "typecheck", "check"]);
            }
            single_script(&candidates, &detection.scripts, manager)
        },
        ProjectChecksTask::Test => {
            let candidates: [&str; 1] = ["test"];
            proof {
                assert(candidates@ =~= seq!["test"]);
            }
            single_script(&candidates, &detection.scripts, manager)
        },
        ProjectChecksTask::Verify => {
            let steps = if args.quick {
                let candidates: [&str; 3] = ["typecheck", "lint", "test"];
                proof {
                    assert(candidates@ =~= verify_candidates(true));
                }
                all_script_steps(&candidates, &detection.scripts, manager)
            } else {
                let candidates: [&str; 4] = ["typecheck", "lint", "build", "test"];
                proof {
                    assert(candidates@ =~= verify_candidates(false));
                }
                all_script_steps(&candidates, &detection.scripts, manager)
            };
            proof {
                assert(step_views(steps@).len() == steps@.len());
            }
            if steps.len() > 0 {
                Some(steps)
            } else {
                None
            }
        },
        ProjectChecksTask::Detect => Some(no_steps()),
    };
    match found {
        Some(steps) => Ok(steps),
        None => {
            let mut message =
                "run_project_checks could not find a matching script for ".to_string();
            message.append(args.task.as_str());
            message.append(" in package.json");
            Err(FunctionCallError::RespondToModel(message))
        },
    }
}

// ---------------------------------------------------------------------------
// Python.

/// The words that a runner starts with.
pub open spec fn runner_words(runner: PythonRunner) -> Seq<Seq<char>> {
    match runner {
        PythonRunner::Uv => seq!["uv"@, "run"@],
        PythonRunner::Poetry => seq!["poetry"@, "run"@],
        PythonRunner::Python => seq!["python"@],
    }
}

impl PythonRunner {
    /// The command that a runner runs.
    pub fn command(self, args: &[String]) -> (out: String)
        ensures
            out@ == command(runner_words(self) + text::texts(args@)),
    {
        let mut tokens: Vec<String> = Vec::new();
        match self {
            PythonRunner::Uv => {
                push_word(&mut tokens, "uv");
                push_word(&mut tokens, "run");
            },
            PythonRunner::Poetry => {
                push_word(&mut tokens, "poetry");
                push_word(&mut tokens, "run");
            },
            PythonRunner::Python => {
                push_word(&mut tokens, "python");
            },
        }
        let ghost start = runner_words(self);
        let ghost more = text::texts(args@);
        let mut i: usize = 0;
        proof {
            assert(text::texts(tokens@) =~= start + more.take(0));
        }
        while i < args.len()
            invariant
                i <= args@.len(),
                more == text::texts(args@),
                text::texts(tokens@) == start + more.take(i as int),
            decreases args@.len() - i,
        {
            push_word(&mut tokens, args[i].as_str());
            proof {
                assert((start + more.take(i as int)).push(more[i as int]) =~= start + more.take(
                    i + 1,
                ));
            }
            i += 1;
        }
        proof {
            assert(more.take(i as int) =~= more);
        }
        shlex_join(&tokens)
    }
}

/// The arguments that compile a project.
pub open spec fn compile_args() -> Seq<Seq<char>> {
    seq!["-m"@, "compileall"@, "."@]
}

/// The arguments that test a project.
pub open spec fn pytest_args(filter: Option<Seq<char>>) -> Seq<Seq<char>> {
    with_option(seq!["-m"@, "pytest"@], "-k"@, filter)
}

/// The steps for a Python project.
pub open spec fn python_steps(args: RunProjectChecksArgs, runner: PythonRunner) -> Seq<StepView> {
    let compile = step("python compileall"@, runner_words(runner) + compile_args());
    let test = step(
        "pytest"@,
        runner_words(runner) + pytest_args(text::opt_text(args.test_filter)),
    );
    match args.task {
        ProjectChecksTask::Build => seq![compile],
        ProjectChecksTask::Test => seq![test],
        ProjectChecksTask::Verify => if args.quick {
            seq![test]
        } else {
            seq![compile, test]
        },
        ProjectChecksTask::Detect => seq![],
    }
}

fn compile_step(runner: PythonRunner) -> (s: PlannedStep)
    ensures
        s@ == step("python compileall"@, runner_words(runner) + compile_args()),
{
    let mut words: Vec<String> = Vec::new();
    push_word(&mut words, "-m");
    push_word(&mut words, "compileall");
    push_word(&mut words, ".");
    proof {
        assert(text::texts(words@) =~= compile_args());
    }
    PlannedStep { label: "python compileall".to_string(), command: runner.command(&words) }
}

/// Plans the steps for a Python project.
pub fn plan_python_steps(args: &RunProjectChecksArgs, runner: PythonRunner) -> (steps: Vec<
    PlannedStep,
>)
    ensures
        step_views(steps@) == python_steps(*args, runner),
{
    let mut words: Vec<String> = Vec::new();
    push_word(&mut words, "-m");
    push_word(&mut words, "pytest");
    proof {
        assert(text::texts(words@) =~= seq!["-m"@, "pytest"@]);
    }
    if let Some(filter) = &args.test_filter {
        push_word(&mut words, "-k");
        push_word(&mut words, filter.as_str());
    }
    let test = PlannedStep { label: "pytest".to_string(), command: runner.command(&words) };
    match args.task {
        ProjectChecksTask::Build => one_step(compile_step(runner)),
        ProjectChecksTask::Test => one_step(test),
        ProjectChecksTask::Verify => if args.quick {
            one_step(test)
        } else {
            two_steps(compile_step(runner), test)
        },
        ProjectChecksTask::Detect => no_steps(),
    }
}

// ---------------------------------------------------------------------------
// Any project.

/// The steps for a project.
pub open spec fn planned(args: RunProjectChecksArgs, project: detect::DetectionView) -> Result<
    Seq<StepView>,
    errors::CallFault,
> {
    match project.project_type {
        DetectedProjectType::Rust => Ok(rust_steps(args)),
        DetectedProjectType::Go => Ok(go_steps(args)),
        DetectedProjectType::Node => node_steps(args, project),
        DetectedProjectType::Python => Ok(python_steps(args, project.python_runner)),
        DetectedProjectType::Unknown => Err(
            errors::CallFault::RespondToModel(
                "run_project_checks could not detect a supported project type; use task=detect or set project_type explicitly"@,
            ),
        ),
    }
}

/// The warning about an argument that a kind of project does not use.
pub open spec fn ignored(argument: Seq<char>, kind: DetectedProjectType) -> Seq<char> {
    "Ignored `"@ + argument + "` for "@ + project_checks::detected_word(kind) + " projects."@
}

/// Whether a kind of project uses a target.
pub open spec fn uses_target(kind: DetectedProjectType) -> bool {
    kind is Rust || kind is Go
}

/// Whether a kind of project uses a test filter.
pub open spec fn uses_filter(kind: DetectedProjectType) -> bool {
    kind is Rust || kind is Go || kind is Python
}

/// The warnings about arguments that a kind of project does not use.
pub open spec fn ignored_arguments(args: RunProjectChecksArgs, kind: DetectedProjectType) -> Seq<
    Seq<char>,
> {
    (if args.target is Some && !uses_target(kind) {
        seq![ignored("target"@, kind)]
    } else {
        seq![]
    }) + (if args.test_filter is Some && !uses_filter(kind) {
        seq![ignored("test_filter"@, kind)]
    } else {
        seq![]
    })
}

fn ignored_message(argument: &str, kind: DetectedProjectType) -> (out: String)
    ensures
        out@ == ignored(argument@, kind),
{
    let mut out = "Ignored `".to_string();
    out.append(argument);
    out.append("` for ");
    out.append(kind.as_str());
    out.append(" projects.");
    out
}

/// Plans the steps for a project. Where that succeeds, the arguments that the
/// project does not use are warned about.
pub fn plan_steps(
    args: &RunProjectChecksArgs,
    detection: &ProjectDetection,
    warnings: &mut Vec<String>,
) -> (r: Result<Vec<PlannedStep>, FunctionCallError>)
    ensures
        plan_outcome(r) == planned(*args, detection@),
        text::texts(final(warnings)@) == text::texts(old(warnings)@) + if r is Ok {
            ignored_arguments(*args, detection.project_type)
        } else {
            seq![]
        },
{
    let kind = detection.project_type;
    let r = match kind {
        DetectedProjectType::Rust => Ok(plan_rust_steps(args)),
        DetectedProjectType::Go => Ok(plan_go_steps(args)),
        DetectedProjectType::Node => plan_node_steps(args, detection),
        DetectedProjectType::Python => Ok(plan_python_steps(args, detection.python_runner)),
        DetectedProjectType::Unknown => Err(
            errors::respond(
                "run_project_checks could not detect a supported project type; use task=detect or set project_type explicitly",
            ),
        ),
    };
    let ghost before = text::texts(warnings@);
    match r {
        Ok(_) => {
            if args.target.is_some() && kind != DetectedProjectType::Rust && kind
                != DetectedProjectType::Go {
                push_word(warnings, ignored_message("target", kind).as_str());
            }
            if args.test_filter.is_some() && kind != DetectedProjectType::Rust && kind
                != DetectedProjectType::Go && kind != DetectedProjectType::Python {
                push_word(warnings, ignored_message("test_filter", kind).as_str());
            }
            proof {
                assert(text::texts(warnings@) =~= before + ignored_arguments(*args, kind));
            }
        },
        Err(_) => {
            proof {
                assert(text::texts(warnings@) =~= before + seq![]);
            }
        },
    }
    r
}

/// Where a plan is made for a task other than detection, it has a step.
pub proof fn plans_have_steps(args: RunProjectChecksArgs, project: detect::DetectionView)
    requires
        !(args.task is Detect),
    ensures
        planned(args, project) matches Ok(steps) ==> steps.len() > 0,
{
}

// ---------------------------------------------------------------------------
// What plans run.

/// The words of an option with its value, where there is one.
pub open spec fn option_words(option: Seq<char>, value: Option<String>) -> Seq<Seq<char>> {
    match value {
        Some(v) => seq![option, v@],
        None => seq![],
    }
}

/// A value as a word, where there is one.
pub open spec fn lone_word(value: Option<String>) -> Seq<Seq<char>> {
    match value {
        Some(v) => seq![v@],
        None => seq![],
    }
}

/// Whether a step is the one with a label that runs the given words.
pub open spec fn runs(made: StepView, label: Seq<char>, words: Seq<Seq<char>>) -> bool {
    made.label == label && made.command == command(words)
}

/// What is run for a Rust project: `cargo` with the package behind `-p`, short
/// messages wherever nothing is tested, and the filter as the last word of
/// every command that builds or runs tests.
pub proof fn rust_plans_run_cargo(args: RunProjectChecksArgs, project: detect::DetectionView)
    requires
        project.project_type is Rust,
    ensures
        ({
            let package = option_words("-p"@, args.target);
            let filter = lone_word(args.test_filter);
            let short = seq!["--message-format"@, "short"@];
            let check = seq!["cargo"@, "check"@] + package + short;
            let build = seq!["cargo"@, "build"@] + package + short;
            let test = seq!["cargo"@, "test"@] + package + filter;
            let compile_tests = seq!["cargo"@, "test"@] + package + seq!["--no-run"@] + short
                + filter;
            &&& planned(args, project) is Ok
            &&& {
                let steps = planned(args, project)->Ok_0;
                match (args.task, args.quick) {
                    (ProjectChecksTask::Build, true) => steps.len() == 1 && runs(
                        steps[0],
                        "cargo check"@,
                        check,
                    ),
                    (ProjectChecksTask::Build, false) => steps.len() == 1 && runs(
                        steps[0],
                        "cargo build"@,
                        build,
                    ),
                    (ProjectChecksTask::Test, _) => steps.len() == 1 && runs(
                        steps[0],
                        "cargo test"@,
                        test,
                    ),
                    (ProjectChecksTask::Verify, true) => steps.len() == 2 && runs(
                        steps[0],
                        "cargo check"@,
                        check,
                    ) && runs(steps[1], "cargo test --no-run"@, compile_tests),
                    (ProjectChecksTask::Verify, false) => steps.len() == 2 && runs(
                        steps[0],
                        "cargo check"@,
                        check,
                    ) && runs(steps[1], "cargo test"@, test),
                    (ProjectChecksTask::Detect, _) => steps.len() == 0,
                }
            }
        }),
{
    let target = text::opt_text(args.target);
    let given = text::opt_text(args.test_filter);
    let package = option_words("-p"@, args.target);
    let filter = lone_word(args.test_filter);
    let short = seq!["--message-format"@, "short"@];
    let no_filter: Option<Seq<char>> = None;
    let two = seq!["--message-format", "short"];
    let three = seq!["--no-run", "--message-format", "short"];
    let none = Seq::<&str>::empty();
    assert(cargo_words("check"@, target, no_filter, two) =~= seq!["cargo"@, "check"@] + package
        + short);
    assert(cargo_words("build"@, target, no_filter, two) =~= seq!["cargo"@, "build"@] + package
        + short);
    assert(cargo_words("test"@, target, given, none) =~= seq!["cargo"@, "test"@] + package
        + filter);
    assert(cargo_words("test"@, target, given, three) =~= seq!["cargo"@, "test"@] + package + seq![
        "--no-run"@,
    ] + short + filter);
}

/// What is run for a Go project: `go` on the target or else on everything, with
/// the filter behind `-run`, which comes last.
pub proof fn go_plans_run_go(args: RunProjectChecksArgs, project: detect::DetectionView)
    requires
        project.project_type is Go,
    ensures
        ({
            let target = if args.target is Some {
                args.target->Some_0@
            } else {
                "./..."@
            };
            let build = seq!["go"@, "build"@, target];
            let test = seq!["go"@, "test"@, target] + option_words("-run"@, args.test_filter);
            &&& planned(args, project) is Ok
            &&& {
                let steps = planned(args, project)->Ok_0;
                match (args.task, args.quick) {
                    (ProjectChecksTask::Build, _) => steps.len() == 1 && runs(
                        steps[0],
                        "go build"@,
                        build,
                    ),
                    (ProjectChecksTask::Test, _) => steps.len() == 1 && runs(
                        steps[0],
                        "go test"@,
                        test,
                    ),
                    (ProjectChecksTask::Verify, true) => steps.len() == 1 && runs(
                        steps[0],
                        "go test"@,
                        test,
                    ),
                    (ProjectChecksTask::Verify, false) => steps.len() == 2 && runs(
                        steps[0],
                        "go build"@,
                        build,
                    ) && runs(steps[1], "go test"@, test),
                    (ProjectChecksTask::Detect, _) => steps.len() == 0,
                }
            }
        }),
{
    let target = if args.target is Some {
        args.target->Some_0@
    } else {
        "./..."@
    };
    assert(go_test_words(target, text::opt_text(args.test_filter)) =~= seq![
        "go"@,
        "test"@,
        target,
    ] + option_words("-run"@, args.test_filter));
}

/// What is run for a Python project: the project's runner, which compiles
/// everything and tests with `pytest`, with the filter behind `-k`, which comes
/// last.
pub proof fn python_plans_run_pytest(args: RunProjectChecksArgs, project: detect::DetectionView)
    requires
        project.project_type is Python,
    ensures
        ({
            let runner = match project.python_runner {
                PythonRunner::Uv => seq!["uv"@, "run"@],
                PythonRunner::Poetry => seq!["poetry"@, "run"@],
                PythonRunner::Python => seq!["python"@],
            };
            let compile = runner + seq!["-m"@, "compileall"@, "."@];
            let test = runner + seq!["-m"@, "pytest"@] + option_words("-k"@, args.test_filter);
            &&& planned(args, project) is Ok
            &&& {
                let steps = planned(args, project)->Ok_0;
                match (args.task, args.quick) {
                    (ProjectChecksTask::Build, _) => steps.len() == 1 && runs(
                        steps[0],
                        "python compileall"@,
                        compile,
                    ),
                    (ProjectChecksTask::Test, _) => steps.len() == 1 && runs(
                        steps[0],
                        "pytest"@,
                        test,
                    ),
                    (ProjectChecksTask::Verify, true) => steps.len() == 1 && runs(
                        steps[0],
                        "pytest"@,
                        test,
                    ),
                    (ProjectChecksTask::Verify, false) => steps.len() == 2 && runs(
                        steps[0],
                        "python compileall"@,
                        compile,
                    ) && runs(steps[1], "pytest"@, test),
                    (ProjectChecksTask::Detect, _) => steps.len() == 0,
                }
            }
        }),
{
    let runner = match project.python_runner {
        PythonRunner::Uv => seq!["uv"@, "run"@],
        PythonRunner::Poetry => seq!["poetry"@, "run"@],
        PythonRunner::Python => seq!["python"@],
    };
    assert(runner_words(project.python_runner) == runner);
    assert(runner + pytest_args(text::opt_text(args.test_filter)) =~= runner + seq![
        "-m"@,
        "pytest"@,
    ] + option_words("-k"@, args.test_filter));
}

/// A filter that is given is the last word of the test command, which is the
/// last step of every plan that tests, for every kind of project that filters;
/// and a target is among its words for every kind that has targets. A plan that
/// leaves one of them out says so.
pub proof fn filters_and_targets_are_not_lost(
    args: RunProjectChecksArgs,
    project: detect::DetectionView,
    steps: Seq<StepView>,
)
    requires
        args.task is Test || args.task is Verify,
        planned(args, project) == Ok::<_, errors::CallFault>(steps),
    ensures
        !(project.project_type is Node) && args.test_filter is Some ==> exists|
            words: Seq<Seq<char>>,
        |
            steps.last().command == #[trigger] command(words) && words.len() > 2
                && words.last() == args.test_filter->Some_0@ && (project.project_type is Rust
                && args.target is Some ==> words.len() > 4 && words[2] == "-p"@ && words[3]
                == args.target->Some_0@) && (project.project_type is Go && args.target is Some
                ==> words[2] == args.target->Some_0@),
        project.project_type is Node && args.test_filter is Some ==> ignored_arguments(
            args,
            project.project_type,
        ).contains("Ignored `"@ + "test_filter"@ + "` for "@ + "node"@ + " projects."@),
        (project.project_type is Node || project.project_type is Python) && args.target is Some
            ==> ignored_arguments(args, project.project_type).contains(
            "Ignored `"@ + "target"@ + "` for "@ + (if project.project_type is Node {
                "node"@
            } else {
                "python"@
            }) + " projects."@,
        ),
{
    rust_or_other_words(args, project, steps);
    let kind = project.project_type;
    let warnings = ignored_arguments(args, kind);
    if kind is Node && args.test_filter is Some {
        assert(warnings.last() == ignored("test_filter"@, kind));
        assert(warnings.contains(warnings.last()));
    }
    if (kind is Node || kind is Python) && args.target is Some {
        assert(warnings[0] == ignored("target"@, kind));
        assert(warnings.contains(warnings[0]));
    }
}

proof fn rust_or_other_words(
    args: RunProjectChecksArgs,
    project: detect::DetectionView,
    steps: Seq<StepView>,
)
    requires
        args.task is Test || args.task is Verify,
        planned(args, project) == Ok::<_, errors::CallFault>(steps),
    ensures
        !(project.project_type is Node) && args.test_filter is Some ==> exists|
            words: Seq<Seq<char>>,
        |
            steps.last().command == #[trigger] command(words) && words.len() > 2
                && words.last() == args.test_filter->Some_0@ && (project.project_type is Rust
                && args.target is Some ==> words.len() > 4 && words[2] == "-p"@ && words[3]
                == args.target->Some_0@) && (project.project_type is Go && args.target is Some
                ==> words[2] == args.target->Some_0@),
{
    if !(project.project_type is Node) && args.test_filter is Some {
        let package = option_words("-p"@, args.target);
        let filter = lone_word(args.test_filter);
        match project.project_type {
            DetectedProjectType::Rust => {
                rust_plans_run_cargo(args, project);
                let test = seq!["cargo"@, "test"@] + package + filter;
                let compile_tests = seq!["cargo"@, "test"@] + package + seq!["--no-run"@] + seq![
                    "--message-format"@,
                    "short"@,
                ] + filter;
                if args.task is Verify && args.quick {
                    assert(steps.last().command == command(compile_tests));
                    assert(compile_tests.last() == args.test_filter->Some_0@);
                } else {
                    assert(steps.last().command == command(test));
                    assert(test.last() == args.test_filter->Some_0@);
                }
            },
            DetectedProjectType::Go => {
                go_plans_run_go(args, project);
                let target = if args.target is Some {
                    args.target->Some_0@
                } else {
                    "./..."@
                };
                let test = seq!["go"@, "test"@, target] + option_words("-run"@, args.test_filter);
                assert(steps.last().command == command(test));
                assert(test.last() == args.test_filter->Some_0@);
            },
            DetectedProjectType::Python => {
                python_plans_run_pytest(args, project);
                let runner = runner_words(project.python_runner);
                let test = runner + seq!["-m"@, "pytest"@] + option_words("-k"@, args.test_filter);
                assert(steps.last().command == command(test));
                assert(test.last() == args.test_filter->Some_0@);
            },
            _ => {},
        }
    }
}

/// No argument is warned about that is not given, or that the kind of project
/// uses.
pub proof fn only_unused_arguments_are_warned_about(
    args: RunProjectChecksArgs,
    kind: DetectedProjectType,
)
    ensures
        args.target is None && args.test_filter is None ==> ignored_arguments(args, kind).len()
            == 0,
        kind is Rust || kind is Go ==> ignored_arguments(args, kind).len() == 0,
        kind is Python ==> ignored_arguments(args, kind).len() == if args.target is Some {
            1int
        } else {
            0
        },
        kind is Node ==> ignored_arguments(args, kind).len() == (if args.target is Some {
            1int
        } else {
            0
        }) + (if args.test_filter is Some {
            1int
        } else {
            0
        }),
{
}

/// The words that run a script of a Node project with each package manager.
pub open spec fn words_for_script(manager: NodePackageManager, script: Seq<char>) -> Seq<Seq<char>> {
    match manager {
        NodePackageManager::Npm => seq!["npm"@, "run"@, script],
        NodePackageManager::Pnpm => seq!["pnpm"@, "run"@, script],
        NodePackageManager::Yarn => seq!["yarn"@, script],
        NodePackageManager::Bun => seq!["bun"@, "run"@, script],
    }
}

/// The one step that runs a script, or none where the project has no such
/// script.
pub open spec fn step_for_script(
    project: detect::DetectionView,
    manager: NodePackageManager,
    script: Seq<char>,
) -> Seq<StepView> {
    if project.scripts.contains(script) {
        seq![
            (StepView {
                label: script + " script"@,
                command: command(words_for_script(manager, script)),
            }),
        ]
    } else {
        seq![]
    }
}

/// What is run for a Node project: for a build the first script of `build`,
/// `typecheck` and `check`, for a test `test`, and for a check all of
/// `typecheck`, `lint`, `build` and `test` that there are, without `build` where
/// it is to be quick. Without a script that fits the plan fails.
pub proof fn node_plans_run_scripts(
    args: RunProjectChecksArgs,
    project: detect::DetectionView,
    manager: NodePackageManager,
)
    requires
        project.project_type is Node,
        match project.package_manager {
            Some(name) => manager == detect::named_manager(name),
            None => manager is Npm,
        },
    ensures
        ({
            let holds = |script: &str| project.scripts.contains(script@);
            let runs_script = |script: &str| step_for_script(project, manager, script@);
            let missing = |task: Seq<char>|
                Err::<Seq<StepView>, _>(
                    errors::CallFault::RespondToModel(
                        "run_project_checks could not find a matching script for "@ + task
                            + " in package.json"@,
                    ),
                );
            match args.task {
                ProjectChecksTask::Build => planned(args, project) == if holds("build") {
                    Ok(runs_script("build"))
                } else if holds("typecheck") {
                    Ok(runs_script("typecheck"))
                } else if holds("check") {
                    Ok(runs_script("check"))
                } else {
                    missing("build"@)
                },
                ProjectChecksTask::Test => planned(args, project) == if holds("test") {
                    Ok(runs_script("test"))
                } else {
                    missing("test"@)
                },
                ProjectChecksTask::Verify => {
                    let all = runs_script("typecheck") + runs_script("lint") + (if args.quick {
                        seq![]
                    } else {
                        runs_script("build")
                    }) + runs_script("test");
                    planned(args, project) == if all.len() > 0 {
                        Ok(all)
                    } else {
                        missing("verify"@)
                    }
                },
                ProjectChecksTask::Detect => planned(args, project) == Ok::<_, errors::CallFault>(
                    Seq::<StepView>::empty(),
                ),
            }
        }),
{
    let scripts = project.scripts;
    reveal_with_fuel(first_script, 4);
    let one = |script: &str| step_for_script(project, manager, script@);
    assert forall|script: &str| scripts.contains(script@) implies #[trigger] one(script) == seq![
        script_step(manager, script@),
    ] by {
        assert(script_words(manager, script@) == words_for_script(manager, script@));
    }
    let a = seq!["typecheck"];
    let b = seq!["typecheck", "lint"];
    let c = seq!["typecheck", "lint", "build"];
    let d = seq!["typecheck", "lint", "build", "test"];
    let e = seq!["typecheck", "lint", "test"];
    let none = Seq::<&str>::empty();
    assert(a.drop_last() =~= none);
    assert(b.drop_last() =~= a);
    assert(c.drop_last() =~= b);
    assert(d.drop_last() =~= c);
    assert(e.drop_last() =~= b);
    assert(script_steps(none, scripts, manager) =~= Seq::<StepView>::empty());
    assert(script_steps(a, scripts, manager) =~= one("typecheck"));
    assert(script_steps(b, scripts, manager) =~= one("typecheck") + one("lint"));
    assert(script_steps(c, scripts, manager) =~= one("typecheck") + one("lint") + one("build"));
    assert(script_steps(d, scripts, manager) =~= one("typecheck") + one("lint") + one("build")
        + one("test"));
    assert(script_steps(e, scripts, manager) =~= one("typecheck") + one("lint") + Seq::<
        StepView,
    >::empty() + one("test"));
}

/// A project of no known kind has no plan, whatever is asked.
pub proof fn unknown_projects_have_no_plan(
    args: RunProjectChecksArgs,
    project: detect::DetectionView,
)
    requires
        project.project_type is Unknown,
    ensures
        planned(args, project) == Err::<Seq<StepView>, _>(
            errors::CallFault::RespondToModel(
                "run_project_checks could not detect a supported project type; use task=detect or set project_type explicitly"@,
            ),
        ),
{
}

} // verus!
