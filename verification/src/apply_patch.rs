//! Applying patches: what is run for them, what comes of that, and who has to
//! approve it.

use vstd::prelude::*;

use crate::text;
use crate::text_map::TextMap;

verus! {

/// Whether approvals of one kind or another are refused without asking.
#[derive(Clone, Copy, Debug, PartialEq, Eq, Structural)]
pub struct RejectConfig {
    pub sandbox_approval: bool,
    pub rules: bool,
    pub mcp_elicitations: bool,
}

/// When the user is asked for approval.
#[derive(Clone, Copy, Debug, PartialEq, Eq, Structural)]
pub enum AskForApproval {
    Never,
    Reject(RejectConfig),
    OnFailure,
    OnRequest,
    UnlessTrusted,
}

/// A patch that is to be applied.
#[derive(Clone, Debug)]
pub struct ApplyPatchRequest {
    pub cwd: String,
    pub patch: String,
    pub file_paths: Vec<String>,
    pub timeout_ms: Option<u64>,
    pub codex_exe: Option<String>,
}

/// A command that is to be run.
pub struct CommandSpec {
    pub program: String,
    pub args: Vec<String>,
    pub cwd: String,
    pub timeout_ms: Option<u64>,
    /// All that the command gets of an environment.
    pub env: TextMap<String>,
}

/// What came of a command; it took so many nanoseconds.
#[derive(Clone, Debug)]
pub struct ExecToolCallOutput {
    pub exit_code: i32,
    pub stdout: String,
    pub stderr: String,
    pub aggregated_output: String,
    pub duration: u128,
    pub timed_out: bool,
}

/// What came of applying a patch: what it wrote, or why it failed and what it
/// wrote before.
#[derive(Debug)]
pub enum ApplyOutcome {
    Applied { stdout: String },
    Failed { error: String, stderr: String },
}

/// How a patch is applied.
#[derive(Clone, Copy, Debug, PartialEq, Eq, Structural)]
pub enum ApplyMode {
    /// By this program itself.
    InProcess,
    /// By a command in a sandbox.
    Sandboxed,
}

/// How approval for a patch is sought.
#[derive(Debug)]
pub enum ApprovalStep {
    /// By asking, with this reason.
    AskAgain { reason: String },
    /// By asking, unless all of these files were approved before.
    AskOnce { keys: Vec<String> },
}

/// Applies patches.
pub struct ApplyPatchRuntime;

/// Whether approval to run without a sandbox is sought.
pub open spec fn seeks_approval(policy: AskForApproval) -> bool {
    match policy {
        AskForApproval::Never => false,
        AskForApproval::Reject(config) => !config.sandbox_approval,
        _ => true,
    }
}

/// A text with a newline at its end.
pub open spec fn with_newline(s: Seq<char>) -> Seq<char> {
    if s.len() > 0 && s.last() == '\n' {
        s
    } else {
        s + "\n"@
    }
}

impl ApplyPatchRuntime {
    /// Nothing is needed to apply patches.
    pub fn new() -> (r: Self)
        ensures
            r == ApplyPatchRuntime,
    {
        ApplyPatchRuntime
    }

    /// The command that applies a patch that is in a file, in an empty
    /// environment. `file_argument` is the argument under which the program
    /// does that, and `current_exe` is this program, or why that is not known.
    pub fn build_command_spec(
        req: &ApplyPatchRequest,
        file_argument: &str,
        manifest_path: &str,
        current_exe: Result<&str, &str>,
    ) -> (r: Result<CommandSpec, String>)
        ensures
            match r {
                Ok(spec) => {
                    &&& match (req.codex_exe, current_exe) {
                        (Some(exe), _) => spec.program@ == exe@,
                        (None, Ok(exe)) => spec.program@ == exe@,
                        (None, Err(_)) => false,
                    }
                    &&& text::texts(spec.args@) == seq![file_argument@, manifest_path@]
                    &&& spec.cwd@ == req.cwd@
                    &&& spec.timeout_ms == req.timeout_ms
                    &&& spec.env@ == Map::<Seq<char>, String>::empty()
                },
                Err(message) => match (req.codex_exe, current_exe) {
                    (None, Err(reason)) => message@ == "failed to determine codex exe: "@
                        + reason@,
                    _ => false,
                },
            },
    {
        let program = match &req.codex_exe {
            Some(exe) => exe.clone(),
            None => match current_exe {
                Ok(exe) => exe.to_string(),
                Err(reason) => {
                    let mut message = "failed to determine codex exe: ".to_string();
                    message.append(reason);
                    return Err(message);
                },
            },
        };
        let mut args: Vec<String> = Vec::new();
        args.push(file_argument.to_string());
        args.push(manifest_path.to_string());
        proof {
            assert(text::texts(args@) =~= seq![file_argument@, manifest_path@]);
        }
        Ok(
            CommandSpec {
                program,
                args,
                cwd: req.cwd.clone(),
                timeout_ms: req.timeout_ms,
                env: TextMap::new(),
            },
        )
    }

    /// The output of a patch that failed.
    pub fn failed_output(duration: u128, message: &str) -> (out: ExecToolCallOutput)
        ensures
            out.exit_code == 1,
            out.stdout@ == ""@,
            out.stderr@ == with_newline(message@),
            out.aggregated_output@ == with_newline(message@),
            out.duration == duration,
            !out.timed_out,
    {
        let chars = text::chars_of(message);
        let mut stderr = message.to_string();
        if chars.len() == 0 || chars[chars.len() - 1] != '\n' {
            stderr.append("\n");
        }
        ExecToolCallOutput {
            exit_code: 1,
            stdout: "".to_string(),
            stderr: stderr.clone(),
            aggregated_output: stderr,
            duration,
            timed_out: false,
        }
    }

    /// The output of a patch that this program applied itself. A failure is
    /// told in the words that were written or, where there are none, in those
    /// of the error.
    pub fn in_process_output(outcome: &ApplyOutcome, duration: u128) -> (out: ExecToolCallOutput)
        ensures
            out.duration == duration,
            !out.timed_out,
            match outcome {
                ApplyOutcome::Applied { stdout } => {
                    &&& out.exit_code == 0
                    &&& out.stdout@ == stdout@
                    &&& out.stderr@ == ""@
                    &&& out.aggregated_output@ == stdout@
                },
                ApplyOutcome::Failed { error, stderr } => {
                    let told = if stderr@.len() == 0 {
                        error@
                    } else {
                        stderr@
                    };
                    &&& out.exit_code == 1
                    &&& out.stdout@ == ""@
                    &&& out.stderr@ == with_newline(told)
                    &&& out.aggregated_output@ == with_newline(told)
                },
            },
    {
        match outcome {
            ApplyOutcome::Applied { stdout } => ExecToolCallOutput {
                exit_code: 0,
                stdout: stdout.clone(),
                stderr: "".to_string(),
                aggregated_output: stdout.clone(),
                duration,
                timed_out: false,
            },
            ApplyOutcome::Failed { error, stderr } => if text::chars_of(stderr.as_str()).len()
                == 0 {
                Self::failed_output(duration, error.as_str())
            } else {
                Self::failed_output(duration, stderr.as_str())
            },
        }
    }

    /// Whether a patch that failed in the sandbox is tried without one.
    pub fn escalate_on_failure(&self) -> (r: bool)
        ensures
            r,
    {
        true
    }

    /// What an approval is for: the files that the patch touches.
    pub fn approval_keys(&self, req: &ApplyPatchRequest) -> (keys: Vec<String>)
        ensures
            text::texts(keys@) == text::texts(req.file_paths@),
    {
        text::clone_texts(&req.file_paths)
    }

    /// Decides how approval is sought. A patch that is tried again is always
    /// asked about.
    pub fn start_approval(&self, req: &ApplyPatchRequest, retry_reason: Option<&str>) -> (step:
        ApprovalStep)
        ensures
            match (retry_reason, step) {
                (Some(why), ApprovalStep::AskAgain { reason }) => reason@ == why@,
                (None, ApprovalStep::AskOnce { keys }) => text::texts(keys@) == text::texts(
                    req.file_paths@,
                ),
                _ => false,
            },
    {
        match retry_reason {
            Some(why) => ApprovalStep::AskAgain { reason: why.to_string() },
            None => ApprovalStep::AskOnce { keys: self.approval_keys(req) },
        }
    }

    /// Whether approval to run without a sandbox is sought.
    pub fn wants_no_sandbox_approval(&self, policy: AskForApproval) -> (r: bool)
        ensures
            r == seeks_approval(policy),
    {
        match policy {
            AskForApproval::Never => false,
            AskForApproval::Reject(config) => !config.sandbox_approval,
            AskForApproval::OnFailure => true,
            AskForApproval::OnRequest => true,
            AskForApproval::UnlessTrusted => true,
        }
    }

    /// Decides how a patch is applied. Without a sandbox no command is needed,
    /// however long the patch is.
    pub fn apply_mode(&self, sandboxed: bool) -> (mode: ApplyMode)
        ensures
            mode == if sandboxed {
                ApplyMode::Sandboxed
            } else {
                ApplyMode::InProcess
            },
    {
        if sandboxed {
            ApplyMode::Sandboxed
        } else {
            ApplyMode::InProcess
        }
    }
}

impl Default for ApplyPatchRuntime {
    fn default() -> (r: Self)
        ensures
            r == ApplyPatchRuntime,
    {
        ApplyPatchRuntime
    }
}

/// Output ends with a newline and is otherwise what it was.
pub proof fn output_ends_with_a_newline(s: Seq<char>)
    ensures
        with_newline(s).len() > 0,
        with_newline(s).last() == '\n',
        with_newline(s).len() <= s.len() + 1,
        with_newline(s).take(s.len() as int) == s,
        with_newline(s).len() == s.len() <==> s.len() > 0 && s.last() == '\n',
{
    reveal_strlit("\n");
    assert(with_newline(s).take(s.len() as int) =~= s);
}

/// To run without a sandbox is asked for unless nothing is ever asked or asking
/// for just that is refused.
pub proof fn running_without_a_sandbox_is_asked_for(config: RejectConfig)
    ensures
        !seeks_approval(AskForApproval::Never),
        config.sandbox_approval ==> !seeks_approval(AskForApproval::Reject(config)),
        !config.sandbox_approval ==> seeks_approval(AskForApproval::Reject(config)),
        seeks_approval(AskForApproval::OnFailure),
        seeks_approval(AskForApproval::OnRequest),
        seeks_approval(AskForApproval::UnlessTrusted),
{
}

} // verus!
