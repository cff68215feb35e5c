//! Project checks: finding out what kind of project a directory holds, planning
//! the commands that build and test it, and reporting on them.

use vstd::prelude::*;

pub mod detect;
pub mod fallback;
pub mod plan;
pub mod report;
pub mod run;

verus! {

/// What is asked of a project.
#[derive(Clone, Copy, Debug, PartialEq, Eq, Structural)]
pub enum ProjectChecksTask {
    Detect,
    Build,
    Test,
    Verify,
}

/// The kind of project that is asked for.
#[derive(Clone, Copy, Debug, PartialEq, Eq, Structural)]
pub enum RequestedProjectType {
    Auto,
    Rust,
    Node,
    Python,
    Go,
}

/// The kind of project that was found.
#[derive(Clone, Copy, Debug, PartialEq, Eq, Structural)]
pub enum DetectedProjectType {
    Rust,
    Node,
    Python,
    Go,
    Unknown,
}

/// The word for a task.
pub open spec fn task_word(task: ProjectChecksTask) -> Seq<char> {
    match task {
        ProjectChecksTask::Detect => "detect"@,
        ProjectChecksTask::Build => "build"@,
        ProjectChecksTask::Test => "test"@,
        ProjectChecksTask::Verify => "verify"@,
    }
}

/// The word for the kind of project that is asked for.
pub open spec fn requested_word(kind: RequestedProjectType) -> Seq<char> {
    match kind {
        RequestedProjectType::Auto => "auto"@,
        RequestedProjectType::Rust => "rust"@,
        RequestedProjectType::Node => "node"@,
        RequestedProjectType::Python => "python"@,
        RequestedProjectType::Go => "go"@,
    }
}

/// The word for the kind of project that was found.
pub open spec fn detected_word(kind: DetectedProjectType) -> Seq<char> {
    match kind {
        DetectedProjectType::Rust => "rust"@,
        DetectedProjectType::Node => "node"@,
        DetectedProjectType::Python => "python"@,
        DetectedProjectType::Go => "go"@,
        DetectedProjectType::Unknown => "unknown"@,
    }
}

impl ProjectChecksTask {
    /// The word for the task.
    pub fn as_str(self) -> (word: &'static str)
        ensures
            word@ == task_word(self),
    {
        match self {
            ProjectChecksTask::Detect => "detect",
            ProjectChecksTask::Build => "build",
            ProjectChecksTask::Test => "test",
            ProjectChecksTask::Verify => "verify",
        }
    }
}

impl RequestedProjectType {
    /// The word for the kind.
    pub fn as_str(self) -> (word: &'static str)
        ensures
            word@ == requested_word(self),
    {
        match self {
            RequestedProjectType::Auto => "auto",
            RequestedProjectType::Rust => "rust",
            RequestedProjectType::Node => "node",
            RequestedProjectType::Python => "python",
            RequestedProjectType::Go => "go",
        }
    }
}

impl DetectedProjectType {
    /// The word for the kind.
    pub fn as_str(self) -> (word: &'static str)
        ensures
            word@ == detected_word(self),
    {
        match self {
            DetectedProjectType::Rust => "rust",
            DetectedProjectType::Node => "node",
            DetectedProjectType::Python => "python",
            DetectedProjectType::Go => "go",
            DetectedProjectType::Unknown => "unknown",
        }
    }
}

/// What the tool is asked.
#[derive(Clone, Debug)]
pub struct RunProjectChecksArgs {
    pub task: ProjectChecksTask,
    pub project_type: RequestedProjectType,
    pub target: Option<String>,
    pub test_filter: Option<String>,
    pub quick: bool,
    pub continue_on_error: bool,
    pub timeout_ms: Option<u64>,
}

/// Whether checks are quick where nothing is said.
pub fn default_quick() -> (quick: bool)
    ensures
        quick,
{
    true
}

/// Describes the tool.
pub fn run_project_checks_tool_description() -> (out: String)
    ensures
        out@
            == "Detects common project types (Rust, Node, Python, Go), plans build/test commands, executes them through the normal shell approval+sandbox pipeline, and returns a structured JSON summary for each step."@,
{
    "Detects common project types (Rust, Node, Python, Go), plans build/test commands, executes them through the normal shell approval+sandbox pipeline, and returns a structured JSON summary for each step.".to_string()
}

} // verus!
