//! Running the steps of a plan: what each one runs with, what comes of it, and
//! when the run ends.

use vstd::prelude::*;

use crate::project_checks::plan;
use crate::project_checks::plan::PlannedStep;
use crate::text;
use crate::text_map::TextMap;

verus! {

/// How long a step may take where nothing is said.
pub const DEFAULT_STEP_TIMEOUT_MS: u64 = 900_000;

// ---------------------------------------------------------------------------
// What a step runs with.

/// What a step runs with.
pub struct StepRequest {
    pub cwd: String,
    pub timeout_ms: u64,
    pub justification: String,
    pub env: TextMap<String>,
    pub explicit_env_overrides: TextMap<String>,
}

fn extend_map(base: &mut TextMap<String>, more: &TextMap<String>)
    ensures
        final(base)@ == old(base)@.union_prefer_right(more@),
{
    let keys = more.keys();
    let ghost all = text::texts(keys@);
    let ghost start = base@;
    let mut i: usize = 0;
    proof {
        assert(base@ =~= start.union_prefer_right(more@.restrict(all.take(0).to_set())));
    }
    while i < keys.len()
        invariant
            i <= keys@.len(),
            all == text::texts(keys@),
            all.to_set() == more@.dom(),
            base@ == start.union_prefer_right(more@.restrict(all.take(i as int).to_set())),
        decreases keys@.len() - i,
    {
        let key = keys[i].as_str();
        proof {
            assert(all[i as int] == key@);
            assert(all.to_set().contains(key@));
        }
        if let Some(value) = more.get(key) {
            base.insert(key, value.clone());
        }
        proof {
            let before = all.take(i as int);
            let after = all.take(i + 1);
            assert forall|k: Seq<char>| after.to_set().contains(k) <==> before.to_set().contains(k)
                || k == key@ by {
                if before.contains(k) {
                    let n = choose|n: int| 0 <= n < before.len() && before[n] == k;
                    assert(after[n] == k);
                }
                if k == key@ {
                    assert(after[i as int] == k);
                }
                if after.contains(k) {
                    let n = choose|n: int| 0 <= n < after.len() && after[n] == k;
                    if n < i {
                        assert(before[n] == k);
                    }
                }
            }
            assert(after.to_set() =~= before.to_set().insert(key@));
            assert(base@ =~= start.union_prefer_right(more@.restrict(after.to_set())));
        }
        i += 1;
    }
    proof {
        assert(all.take(i as int) =~= all);
        assert(more@.restrict(more@.dom()) =~= more@);
        assert(base@ =~= start.union_prefer_right(more@));
    }
}

/// Decides what a step runs with: the variables that its dependencies need go
/// before those of the environment and before those that are set.
pub fn step_request(
    project_root: &str,
    step: &PlannedStep,
    timeout_ms: Option<u64>,
    env: TextMap<String>,
    assigned: TextMap<String>,
    dependency_env: &TextMap<String>,
) -> (request: StepRequest)
    ensures
        request.cwd@ == project_root@,
        request.timeout_ms == match timeout_ms {
            Some(ms) => ms,
            None => DEFAULT_STEP_TIMEOUT_MS,
        },
        request.justification@ == "Runs project checks step: "@ + step.label@,
        request.env@ == env@.union_prefer_right(dependency_env@),
        request.explicit_env_overrides@ == assigned@.union_prefer_right(dependency_env@),
{
    let mut justification = "Runs project checks step: ".to_string();
    justification.append(step.label.as_str());
    let mut all = env;
    extend_map(&mut all, dependency_env);
    let mut overrides = assigned;
    extend_map(&mut overrides, dependency_env);
    StepRequest {
        cwd: project_root.to_string(),
        timeout_ms: match timeout_ms {
            Some(ms) => ms,
            None => DEFAULT_STEP_TIMEOUT_MS,
        },
        justification,
        env: all,
        explicit_env_overrides: overrides,
    }
}

/// The identifier of the call that a step makes.
pub fn step_call_id(call_id: &str, index: usize) -> (out: String)
    requires
        index < usize::MAX,
    ensures
        out@ == call_id@ + ":step:"@ + text::decimal(index as nat + 1),
{
    let mut out = call_id.to_string();
    out.append(":step:");
    out.append(text::render_usize(index + 1).as_str());
    out
}

// ---------------------------------------------------------------------------
// What comes of a step.

/// How a step ended.
#[derive(Clone, Copy, Debug, PartialEq, Eq, Structural)]
pub enum StepStatus {
    Passed,
    Failed,
    TimedOut,
    Rejected,
    Error,
}

/// The word for how a step ended.
pub open spec fn status_word(status: StepStatus) -> Seq<char> {
    match status {
        StepStatus::Passed => "passed"@,
        StepStatus::Failed => "failed"@,
        StepStatus::TimedOut => "timed_out"@,
        StepStatus::Rejected => "rejected"@,
        StepStatus::Error => "error"@,
    }
}

/// The name of how a step ended.
pub open spec fn status_name(status: StepStatus) -> Seq<char> {
    match status {
        StepStatus::Passed => "Passed"@,
        StepStatus::Failed => "Failed"@,
        StepStatus::TimedOut => "TimedOut"@,
        StepStatus::Rejected => "Rejected"@,
        StepStatus::Error => "Error"@,
    }
}

impl StepStatus {
    /// The word for how a step ended.
    pub fn as_str(self) -> (word: &'static str)
        ensures
            word@ == status_word(self),
    {
        match self {
            StepStatus::Passed => "passed",
            StepStatus::Failed => "failed",
            StepStatus::TimedOut => "timed_out",
            StepStatus::Rejected => "rejected",
            StepStatus::Error => "error",
        }
    }

    /// The name of how a step ended.
    pub fn name(self) -> (name: &'static str)
        ensures
            name@ == status_name(self),
    {
        match self {
            StepStatus::Passed => "Passed",
            StepStatus::Failed => "Failed",
            StepStatus::TimedOut => "TimedOut",
            StepStatus::Rejected => "Rejected",
            StepStatus::Error => "Error",
        }
    }
}

/// What a command gave: all of its output, an excerpt of that, and how long it
/// took, as a numeral of seconds in tenths.
#[derive(Clone, Debug)]
pub struct ExecOutput {
    pub exit_code: i32,
    pub text: String,
    pub excerpt: String,
    pub duration_seconds: String,
    pub timed_out: bool,
}

/// What came of a command.
#[derive(Debug)]
pub enum StepOutcome {
    /// It ran to its end.
    Finished(ExecOutput),
    /// It took too long.
    TimedOut(ExecOutput),
    /// The sandbox stopped it.
    Denied(ExecOutput),
    /// It could not be run, for this reason.
    Broken(String),
    /// It was not allowed, for this reason.
    Rejected(String),
}

/// What is told about a command that has ended.
#[derive(Debug, PartialEq, Eq)]
pub enum EventStage {
    Success,
    FailedWithOutput,
    FailedWithMessage(String),
    Rejected(String),
}

/// What an [`EventStage`] stands for.
#[verifier::ext_equal]
pub ghost enum StageView {
    Success,
    FailedWithOutput,
    FailedWithMessage(Seq<char>),
    Rejected(Seq<char>),
}

impl View for EventStage {
    type V = StageView;

    open spec fn view(&self) -> StageView {
        match self {
            EventStage::Success => StageView::Success,
            EventStage::FailedWithOutput => StageView::FailedWithOutput,
            EventStage::FailedWithMessage(message) => StageView::FailedWithMessage(message@),
            EventStage::Rejected(message) => StageView::Rejected(message@),
        }
    }
}

/// What came of a step.
#[derive(Clone, Debug)]
pub struct StepResult {
    pub label: String,
    pub command: String,
    pub status: StepStatus,
    pub exit_code: Option<i32>,
    pub duration_seconds: Option<String>,
    pub timed_out: bool,
    pub lock_wait_count: usize,
    pub output_excerpt: Option<String>,
    pub error: Option<String>,
}

/// What a [`StepResult`] stands for.
#[verifier::ext_equal]
pub ghost struct ResultView {
    pub label: Seq<char>,
    pub command: Seq<char>,
    pub status: StepStatus,
    pub exit_code: Option<i32>,
    pub duration_seconds: Option<Seq<char>>,
    pub timed_out: bool,
    pub lock_wait_count: nat,
    pub output_excerpt: Option<Seq<char>>,
    pub error: Option<Seq<char>>,
}

impl View for StepResult {
    type V = ResultView;

    open spec fn view(&self) -> ResultView {
        ResultView {
            label: self.label@,
            command: self.command@,
            status: self.status,
            exit_code: self.exit_code,
            duration_seconds: text::opt_text(self.duration_seconds),
            timed_out: self.timed_out,
            lock_wait_count: self.lock_wait_count as nat,
            output_excerpt: text::opt_text(self.output_excerpt),
            error: text::opt_text(self.error),
        }
    }
}

/// The result of a command that was run.
pub open spec fn run_result(
    step: plan::StepView,
    status: StepStatus,
    output: ExecOutput,
    error: Option<Seq<char>>,
) -> ResultView {
    ResultView {
        label: step.label,
        command: step.command,
        status,
        exit_code: Some(output.exit_code),
        duration_seconds: Some(output.duration_seconds@),
        timed_out: output.timed_out,
        lock_wait_count: text::match_starts(
            output.text@,
            "Blocking waiting for file lock"@,
            0,
        ).len(),
        output_excerpt: if output.excerpt@.len() == 0 {
            None
        } else {
            Some(output.excerpt@)
        },
        error,
    }
}

/// The result of a command that was not run.
pub open spec fn missed_result(
    step: plan::StepView,
    status: StepStatus,
    error: Seq<char>,
) -> ResultView {
    ResultView {
        label: step.label,
        command: step.command,
        status,
        exit_code: None,
        duration_seconds: None,
        timed_out: false,
        lock_wait_count: 0,
        output_excerpt: None,
        error: Some(error),
    }
}

/// Why a command was not allowed, in words for the model.
pub open spec fn rejection(message: Seq<char>) -> Seq<char> {
    if message == "rejected by user"@ {
        "exec command rejected by user"@
    } else {
        message
    }
}

/// What is told about a step, and its result.
pub open spec fn outcome_of(step: plan::StepView, outcome: StepOutcome) -> (StageView, ResultView) {
    match outcome {
        StepOutcome::Finished(output) => (
            StageView::Success,
            run_result(
                step,
                if output.exit_code == 0 {
                    StepStatus::Passed
                } else {
                    StepStatus::Failed
                },
                output,
                None,
            ),
        ),
        StepOutcome::TimedOut(output) => (
            StageView::FailedWithOutput,
            run_result(step, StepStatus::TimedOut, output, None),
        ),
        StepOutcome::Denied(output) => (
            StageView::FailedWithOutput,
            run_result(step, StepStatus::Failed, output, None),
        ),
        StepOutcome::Broken(reason) => {
            let message = "execution error: "@ + reason@;
            (
                StageView::FailedWithMessage(message),
                missed_result(step, StepStatus::Error, message),
            )
        },
        StepOutcome::Rejected(message) => (
            StageView::Rejected(rejection(message@)),
            missed_result(step, StepStatus::Rejected, rejection(message@)),
        ),
    }
}

/// The result of a command that was run.
pub fn step_result_from_exec_output(
    step: &PlannedStep,
    status: StepStatus,
    output: &ExecOutput,
    error: Option<String>,
) -> (result: StepResult)
    ensures
        result@ == run_result(step@, status, *output, text::opt_text(error)),
{
    proof {
        reveal_strlit("Blocking waiting for file lock");
    }
    let waits = text::match_positions(
        &text::chars_of(output.text.as_str()),
        &text::chars_of("Blocking waiting for file lock"),
    );
    let ghost starts = waits@.map_values(|i: usize| i as int);
    proof {
        assert(starts.len() == waits@.len());
    }
    let excerpt = text::chars_of(output.excerpt.as_str());
    StepResult {
        label: step.label.clone(),
        command: step.command.clone(),
        status,
        exit_code: Some(output.exit_code),
        duration_seconds: Some(output.duration_seconds.clone()),
        timed_out: output.timed_out,
        lock_wait_count: waits.len(),
        output_excerpt: if excerpt.len() == 0 {
            None
        } else {
            Some(output.excerpt.clone())
        },
        error,
    }
}

fn missed(step: &PlannedStep, status: StepStatus, error: &str) -> (result: StepResult)
    ensures
        result@ == missed_result(step@, status, error@),
{
    StepResult {
        label: step.label.clone(),
        command: step.command.clone(),
        status,
        exit_code: None,
        duration_seconds: None,
        timed_out: false,
        lock_wait_count: 0,
        output_excerpt: None,
        error: Some(error.to_string()),
    }
}

/// Decides what is told about a step, and what its result is.
pub fn step_result_from_outcome(step: &PlannedStep, outcome: &StepOutcome) -> (r: (
    EventStage,
    StepResult,
))
    ensures
        (r.0@, r.1@) == outcome_of(step@, *outcome),
{
    match outcome {
        StepOutcome::Finished(output) => {
            let status = if output.exit_code == 0 {
                StepStatus::Passed
            } else {
                StepStatus::Failed
            };
            (EventStage::Success, step_result_from_exec_output(step, status, output, None))
        },
        StepOutcome::TimedOut(output) => (
            EventStage::FailedWithOutput,
            step_result_from_exec_output(step, StepStatus::TimedOut, output, None),
        ),
        StepOutcome::Denied(output) => (
            EventStage::FailedWithOutput,
            step_result_from_exec_output(step, StepStatus::Failed, output, None),
        ),
        StepOutcome::Broken(reason) => {
            let mut message = "execution error: ".to_string();
            message.append(reason.as_str());
            let result = missed(step, StepStatus::Error, message.as_str());
            (EventStage::FailedWithMessage(message), result)
        },
        StepOutcome::Rejected(message) => {
            let said = if text::same_text(message.as_str(), "rejected by user") {
                "exec command rejected by user".to_string()
            } else {
                message.clone()
            };
            let result = missed(step, StepStatus::Rejected, said.as_str());
            (EventStage::Rejected(said), result)
        },
    }
}

// ---------------------------------------------------------------------------
// The run.

/// The views of a list of results.
pub open spec fn result_views(results: Seq<StepResult>) -> Seq<ResultView> {
    Seq::new(results.len(), |i: int| results[i]@)
}

/// Whether every result is a pass.
pub open spec fn all_passed(results: Seq<StepResult>) -> bool {
    forall|i: int| 0 <= i < results.len() ==> (#[trigger] results[i]).status is Passed
}

/// A run of the steps of a plan.
pub struct CheckRun {
    pub steps: Vec<PlannedStep>,
    pub continue_on_error: bool,
    pub results: Vec<StepResult>,
    pub success: bool,
    pub ended: bool,
    pub stopped_after_failure: bool,
}

impl CheckRun {
    /// What holds of every run: it is a success as long as every step passes;
    /// it ends with the first step that does not, unless it goes on.
    pub open spec fn wf(&self) -> bool {
        &&& self.results@.len() <= self.steps@.len()
        &&& self.success == all_passed(self.results@)
        &&& self.ended <==> (!self.continue_on_error && !all_passed(self.results@))
        &&& self.ended ==> all_passed(self.results@.drop_last())
        &&& self.stopped_after_failure == (self.ended && self.results@.len() < self.steps@.len())
    }

    /// Whether a step is still to be run.
    pub open spec fn goes_on(&self) -> bool {
        !self.ended && self.results@.len() < self.steps@.len()
    }

    /// A run that has not started.
    pub fn new(steps: Vec<PlannedStep>, continue_on_error: bool) -> (run: Self)
        ensures
            run.wf(),
            run.steps@ == steps@,
            run.continue_on_error == continue_on_error,
            run.results@.len() == 0,
    {
        CheckRun {
            steps,
            continue_on_error,
            results: Vec::new(),
            success: true,
            ended: false,
            stopped_after_failure: false,
        }
    }

    /// The place of the next step.
    pub fn next_step(&self) -> (r: Option<usize>)
        requires
            self.wf(),
        ensures
            match r {
                Some(i) => self.goes_on() && i == self.results@.len() && i < self.steps@.len(),
                None => !self.goes_on(),
            },
    {
        if !self.ended && self.results.len() < self.steps.len() {
            Some(self.results.len())
        } else {
            None
        }
    }

    /// Notes the result of the step that was run.
    pub fn record(&mut self, result: StepResult)
        requires
            old(self).wf(),
            old(self).goes_on(),
        ensures
            final(self).wf(),
            final(self).steps@ == old(self).steps@,
            final(self).continue_on_error == old(self).continue_on_error,
            final(self).results@ == old(self).results@.push(result),
    {
        let ghost before = self.results@;
        let passed: bool = result.status == StepStatus::Passed;
        if !passed {
            self.success = false;
        }
        self.results.push(result);
        proof {
            assert(self.results@.drop_last() =~= before);
            assert(passed && all_passed(before) ==> all_passed(self.results@));
            if !passed {
                assert(self.results@[before.len() as int].status == result.status);
                assert(!all_passed(self.results@));
            }
            if !all_passed(before) {
                let i = choose|i: int|
                    0 <= i < before.len() && !((#[trigger] before[i]).status is Passed);
                assert(self.results@[i] == before[i]);
                assert(!all_passed(self.results@));
            }
        }
        if !passed && !self.continue_on_error {
            self.ended = true;
            self.stopped_after_failure = self.results.len() < self.steps.len();
        }
    }
}

/// A run that goes on after failures runs every step; another one runs every
/// step or ends with the only one that did not pass.
pub proof fn runs_cover_their_steps(run: CheckRun)
    requires
        run.wf(),
        !run.goes_on(),
    ensures
        run.continue_on_error ==> run.results@.len() == run.steps@.len(),
        run.success ==> run.results@.len() == run.steps@.len(),
        !run.continue_on_error && !run.success ==> {
            &&& all_passed(run.results@.drop_last())
            &&& run.results@.len() > 0
            &&& !(run.results@.last().status is Passed)
        },
{
    if !run.continue_on_error && !run.success {
        let i = choose|i: int|
            0 <= i < run.results@.len() && !((#[trigger] run.results@[i]).status is Passed);
        if i < run.results@.len() - 1 {
            assert(run.results@.drop_last()[i] == run.results@[i]);
        }
    }
}

// ---------------------------------------------------------------------------
// The summary.

/// The place of the first result, from the `i`-th on, that is no pass.
pub open spec fn first_failure(results: Seq<ResultView>, i: int) -> Option<int>
    decreases results.len() - i,
{
    if i < 0 || i >= results.len() {
        None
    } else if !(results[i].status is Passed) {
        Some(i)
    } else {
        first_failure(results, i + 1)
    }
}

/// What came of a run, in a sentence.
pub open spec fn summary(results: Seq<ResultView>, success: bool, stopped: bool) -> Seq<char> {
    if results.len() == 0 {
        "No steps were executed."@
    } else if success {
        "Ran "@ + text::decimal(results.len()) + " step(s) successfully."@
    } else {
        match first_failure(results, 0) {
            Some(i) => if stopped {
                "Stopped after "@ + results[i].label + " failed with "@ + status_name(
                    results[i].status,
                ) + "."@
            } else {
                results[i].label + " finished with "@ + status_name(results[i].status) + "."@
            },
            None => "One or more project check steps failed."@,
        }
    }
}

/// Says what came of a run.
pub fn build_summary(results: &[StepResult], success: bool, stopped_after_failure: bool) -> (out:
    String)
    ensures
        out@ == summary(result_views(results@), success, stopped_after_failure),
{
    let ghost all = result_views(results@);
    if results.len() == 0 {
        return "No steps were executed.".to_string();
    }
    if success {
        let mut out = "Ran ".to_string();
        out.append(text::render_usize(results.len()).as_str());
        out.append(" step(s) successfully.");
        return out;
    }
    let mut i: usize = 0;
    while i < results.len()
        invariant
            i <= results@.len(),
            all == result_views(results@),
            results@.len() > 0,
            !success,
            first_failure(all, 0) == first_failure(all, i as int),
        decreases results@.len() - i,
    {
        let step = &results[i];
        proof {
            assert(all[i as int] == step@);
        }
        if step.status != StepStatus::Passed {
            if stopped_after_failure {
                let mut out = "Stopped after ".to_string();
                out.append(step.label.as_str());
                out.append(" failed with ");
                out.append(step.status.name());
                out.append(".");
                return out;
            }
            let mut out = step.label.clone();
            out.append(" finished with ");
            out.append(step.status.name());
            out.append(".");
            return out;
        }
        i += 1;
    }
    "One or more project check steps failed.".to_string()
}

// ---------------------------------------------------------------------------
// What comes of steps.

/// What comes of a step: it passed where it ended with zero and failed
/// otherwise, and it did not pass where it took too long, was stopped, could not
/// be run or was not allowed.
pub proof fn only_steps_that_end_well_pass(
    step: plan::StepView,
    output: ExecOutput,
    reason: String,
)
    ensures
        ({
            let finished = outcome_of(step, StepOutcome::Finished(output));
            let late = outcome_of(step, StepOutcome::TimedOut(output));
            let denied = outcome_of(step, StepOutcome::Denied(output));
            let broken = outcome_of(step, StepOutcome::Broken(reason));
            let rejected = outcome_of(step, StepOutcome::Rejected(reason));
            let why = if reason@ == "rejected by user"@ {
                "exec command rejected by user"@
            } else {
                reason@
            };
            &&& finished.0 is Success
            &&& output.exit_code == 0 ==> finished.1.status is Passed
            &&& output.exit_code != 0 ==> finished.1.status is Failed
            &&& late.0 is FailedWithOutput && late.1.status is TimedOut
            &&& denied.0 is FailedWithOutput && denied.1.status is Failed
            &&& broken.0 == StageView::FailedWithMessage("execution error: "@ + reason@)
            &&& broken.1.status is Error && broken.1.error == Some("execution error: "@ + reason@)
            &&& rejected.0 == StageView::Rejected(why)
            &&& rejected.1.status is Rejected && rejected.1.error == Some(why)
            &&& finished.1.error is None && late.1.error is None && denied.1.error is None
            &&& broken.1.exit_code is None && rejected.1.exit_code is None
            &&& broken.1.output_excerpt is None && rejected.1.output_excerpt is None
            &&& broken.1.label == step.label && broken.1.command == step.command
            &&& rejected.1.label == step.label && rejected.1.command == step.command
        }),
{
}

/// A result tells the step, how it ended, how long it took, how often it waited
/// for a lock, and what it wrote, where it wrote something.
pub proof fn results_tell_how_steps_ended(
    step: plan::StepView,
    status: StepStatus,
    output: ExecOutput,
    error: Option<Seq<char>>,
)
    ensures
        ({
            let result = run_result(step, status, output, error);
            &&& result.label == step.label
            &&& result.command == step.command
            &&& result.status == status
            &&& result.exit_code == Some(output.exit_code)
            &&& result.duration_seconds == Some(output.duration_seconds@)
            &&& result.timed_out == output.timed_out
            &&& result.error == error
            &&& output.excerpt@.len() == 0 ==> result.output_excerpt is None
            &&& output.excerpt@.len() > 0 ==> result.output_excerpt == Some(output.excerpt@)
            &&& result.lock_wait_count == text::match_starts(
                output.text@,
                "Blocking waiting for file lock"@,
                0,
            ).len()
        }),
{
}

proof fn lemma_first_failure(results: Seq<ResultView>, from: int)
    requires
        0 <= from <= results.len(),
    ensures
        match first_failure(results, from) {
            Some(i) => from <= i < results.len() && !(results[i].status is Passed) && forall|j: int|
                from <= j < i ==> (#[trigger] results[j]).status is Passed,
            None => forall|j: int|
                from <= j < results.len() ==> (#[trigger] results[j]).status is Passed,
        },
    decreases results.len() - from,
{
    if from < results.len() && results[from].status is Passed {
        lemma_first_failure(results, from + 1);
    }
}

/// A summary counts the steps where all went well, and otherwise names the first
/// that did not, and how it ended.
pub proof fn summaries_name_the_first_failure(results: Seq<ResultView>, k: int, stopped: bool)
    ensures
        summary(Seq::empty(), true, stopped) == "No steps were executed."@,
        summary(Seq::empty(), false, stopped) == "No steps were executed."@,
        results.len() > 0 ==> summary(results, true, stopped) == "Ran "@ + text::decimal(
            results.len(),
        ) + " step(s) successfully."@,
        0 <= k < results.len() && !(results[k].status is Passed) && (forall|j: int|
            0 <= j < k ==> (#[trigger] results[j]).status is Passed) ==> {
            &&& summary(results, false, true) == "Stopped after "@ + results[k].label
                + " failed with "@ + status_name(results[k].status) + "."@
            &&& summary(results, false, false) == results[k].label + " finished with "@
                + status_name(results[k].status) + "."@
        },
{
    lemma_first_failure(results, 0);
}

/// The words and the names of how steps end, and how long they may take.
pub proof fn ends_have_their_words()
    ensures
        status_word(StepStatus::Passed) == "passed"@,
        status_word(StepStatus::Failed) == "failed"@,
        status_word(StepStatus::TimedOut) == "timed_out"@,
        status_word(StepStatus::Rejected) == "rejected"@,
        status_word(StepStatus::Error) == "error"@,
        status_name(StepStatus::Passed) == "Passed"@,
        status_name(StepStatus::Failed) == "Failed"@,
        status_name(StepStatus::TimedOut) == "TimedOut"@,
        status_name(StepStatus::Rejected) == "Rejected"@,
        status_name(StepStatus::Error) == "Error"@,
        DEFAULT_STEP_TIMEOUT_MS == 900_000,
{
}

} // verus!
