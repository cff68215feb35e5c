//! What kind of project a directory holds.

use vstd::prelude::*;

use crate::errors;
use crate::errors::FunctionCallError;
use crate::paths;
use crate::project_checks;
use crate::project_checks::DetectedProjectType;
use crate::project_checks::RequestedProjectType;
use crate::text;
use crate::text_order;

verus! {

// ---------------------------------------------------------------------------
// What is known of a directory.

/// What a `package.json` says, as far as it can be understood.
#[derive(Clone, Debug)]
pub struct PackageJsonFile {
    pub package_manager: Option<String>,
    pub scripts: Vec<String>,
}

/// What is known of a directory: the files in it, and what its `package.json`
/// says or why that cannot be read.
#[derive(Debug)]
pub struct ProjectDir {
    pub path: String,
    pub files: Vec<String>,
    pub package_json: Result<PackageJsonFile, String>,
}

/// What a [`ProjectDir`] stands for.
#[verifier::ext_equal]
pub ghost struct DirView {
    pub path: Seq<char>,
    pub files: Seq<Seq<char>>,
    pub package_json: Result<(Option<Seq<char>>, Seq<Seq<char>>), Seq<char>>,
}

impl View for ProjectDir {
    type V = DirView;

    open spec fn view(&self) -> DirView {
        DirView {
            path: self.path@,
            files: text::texts(self.files@),
            package_json: match self.package_json {
                Ok(file) => Ok((text::opt_text(file.package_manager), text::texts(file.scripts@))),
                Err(message) => Err(message@),
            },
        }
    }
}

impl DirView {
    /// Whether the directory holds a file.
    pub open spec fn has(self, name: Seq<char>) -> bool {
        self.files.contains(name)
    }
}

impl ProjectDir {
    /// Whether the directory holds a file.
    pub fn has_file(&self, name: &str) -> (r: bool)
        ensures
            r == self@.has(name@),
    {
        let ghost all = text::texts(self.files@);
        let mut i: usize = 0;
        while i < self.files.len()
            invariant
                i <= self.files@.len(),
                all == text::texts(self.files@),
                forall|k: int| 0 <= k < i ==> (#[trigger] all[k]) != name@,
            decreases self.files@.len() - i,
        {
            proof {
                assert(all[i as int] == self.files@[i as int]@);
            }
            if text::same_text(self.files[i].as_str(), name) {
                return true;
            }
            i += 1;
        }
        false
    }
}

// ---------------------------------------------------------------------------
// Package managers and runners.

/// The program that runs the scripts of a Node project.
#[derive(Clone, Copy, Debug, PartialEq, Eq, Structural)]
pub enum NodePackageManager {
    Npm,
    Pnpm,
    Yarn,
    Bun,
}

/// The name of a package manager.
pub open spec fn manager_name(manager: NodePackageManager) -> Seq<char> {
    match manager {
        NodePackageManager::Npm => "npm"@,
        NodePackageManager::Pnpm => "pnpm"@,
        NodePackageManager::Yarn => "yarn"@,
        NodePackageManager::Bun => "bun"@,
    }
}

impl NodePackageManager {
    /// The name of the package manager.
    pub fn as_str(self) -> (name: &'static str)
        ensures
            name@ == manager_name(self),
    {
        match self {
            NodePackageManager::Npm => "npm",
            NodePackageManager::Pnpm => "pnpm",
            NodePackageManager::Yarn => "yarn",
            NodePackageManager::Bun => "bun",
        }
    }
}

/// The package manager that is named with a version.
pub open spec fn named_manager(value: Seq<char>) -> NodePackageManager {
    if text::begins(value, "pnpm@"@) {
        NodePackageManager::Pnpm
    } else if text::begins(value, "yarn@"@) {
        NodePackageManager::Yarn
    } else if text::begins(value, "bun@"@) {
        NodePackageManager::Bun
    } else {
        NodePackageManager::Npm
    }
}

/// The package manager that is named with a version.
pub fn parse_node_package_manager(value: &str) -> (manager: NodePackageManager)
    ensures
        manager == named_manager(value@),
{
    let chars = text::chars_of(value);
    if text::starts_with(&chars, &text::chars_of("pnpm@")) {
        NodePackageManager::Pnpm
    } else if text::starts_with(&chars, &text::chars_of("yarn@")) {
        NodePackageManager::Yarn
    } else if text::starts_with(&chars, &text::chars_of("bun@")) {
        NodePackageManager::Bun
    } else {
        NodePackageManager::Npm
    }
}

/// The package manager that the lock files of a directory tell of.
pub open spec fn locked_manager(dir: DirView) -> NodePackageManager {
    if dir.has("pnpm-lock.yaml"@) {
        NodePackageManager::Pnpm
    } else if dir.has("yarn.lock"@) {
        NodePackageManager::Yarn
    } else if dir.has("bun.lock"@) || dir.has("bun.lockb"@) {
        NodePackageManager::Bun
    } else {
        NodePackageManager::Npm
    }
}

/// The package manager that the lock files of a directory tell of.
pub fn detect_node_package_manager_from_lockfiles(dir: &ProjectDir) -> (manager: NodePackageManager)
    ensures
        manager == locked_manager(dir@),
{
    if dir.has_file("pnpm-lock.yaml") {
        NodePackageManager::Pnpm
    } else if dir.has_file("yarn.lock") {
        NodePackageManager::Yarn
    } else if dir.has_file("bun.lock") || dir.has_file("bun.lockb") {
        NodePackageManager::Bun
    } else {
        NodePackageManager::Npm
    }
}

/// The program that runs the modules of a Python project.
#[derive(Clone, Copy, Debug, PartialEq, Eq, Structural)]
pub enum PythonRunner {
    Uv,
    Poetry,
    Python,
}

/// The name of a runner.
pub open spec fn runner_name(runner: PythonRunner) -> Seq<char> {
    match runner {
        PythonRunner::Uv => "uv"@,
        PythonRunner::Poetry => "poetry"@,
        PythonRunner::Python => "python"@,
    }
}

impl PythonRunner {
    /// The name of the runner.
    pub fn to_string(self) -> (name: String)
        ensures
            name@ == runner_name(self),
    {
        match self {
            PythonRunner::Uv => "uv".to_string(),
            PythonRunner::Poetry => "poetry".to_string(),
            PythonRunner::Python => "python".to_string(),
        }
    }
}

/// The runner that the lock files of a directory tell of.
pub open spec fn locked_runner(dir: DirView) -> PythonRunner {
    if dir.has("uv.lock"@) {
        PythonRunner::Uv
    } else if dir.has("poetry.lock"@) {
        PythonRunner::Poetry
    } else {
        PythonRunner::Python
    }
}

/// The runner that the lock files of a directory tell of.
pub fn detect_python_runner(dir: &ProjectDir) -> (runner: PythonRunner)
    ensures
        runner == locked_runner(dir@),
{
    if dir.has_file("uv.lock") {
        PythonRunner::Uv
    } else if dir.has_file("poetry.lock") {
        PythonRunner::Poetry
    } else {
        PythonRunner::Python
    }
}

// ---------------------------------------------------------------------------
// The project in a directory.

/// What was found. The scripts are in order, each once.
#[derive(Clone, Debug)]
pub struct ProjectDetection {
    pub project_type: DetectedProjectType,
    pub project_root: String,
    pub package_manager: Option<String>,
    pub scripts: Vec<String>,
    pub warnings: Vec<String>,
    pub python_runner: PythonRunner,
}

/// What a [`ProjectDetection`] stands for.
#[verifier::ext_equal]
pub ghost struct DetectionView {
    pub project_type: DetectedProjectType,
    pub project_root: Seq<char>,
    pub package_manager: Option<Seq<char>>,
    pub scripts: Seq<Seq<char>>,
    pub warnings: Seq<Seq<char>>,
    pub python_runner: PythonRunner,
}

impl View for ProjectDetection {
    type V = DetectionView;

    open spec fn view(&self) -> DetectionView {
        DetectionView {
            project_type: self.project_type,
            project_root: self.project_root@,
            package_manager: text::opt_text(self.package_manager),
            scripts: text::texts(self.scripts@),
            warnings: text::texts(self.warnings@),
            python_runner: self.python_runner,
        }
    }
}

/// A project without scripts.
pub open spec fn plain_project(dir: DirView, kind: DetectedProjectType, manager: Seq<char>) -> DetectionView {
    DetectionView {
        project_type: kind,
        project_root: dir.path,
        package_manager: Some(manager),
        scripts: seq![],
        warnings: seq![],
        python_runner: locked_runner(dir),
    }
}

/// A Node project. The package manager is the one that `package.json` names or
/// else the one that the lock files tell of.
pub open spec fn node_project(dir: DirView) -> Result<DetectionView, errors::CallFault> {
    match dir.package_json {
        Err(message) => Err(
            errors::CallFault::RespondToModel(
                "failed to read "@ + paths::joined(dir.path, "package.json"@) + ": "@ + message,
            ),
        ),
        Ok((manager, scripts)) => Ok(
            DetectionView {
                project_type: DetectedProjectType::Node,
                project_root: dir.path,
                package_manager: Some(
                    manager_name(
                        match manager {
                            Some(value) => named_manager(value),
                            None => locked_manager(dir),
                        },
                    ),
                ),
                scripts: text_order::sorted_set(scripts),
                warnings: seq![],
                python_runner: locked_runner(dir),
            },
        ),
    }
}

/// Whether a directory holds a Go project.
pub open spec fn is_go(dir: DirView) -> bool {
    dir.has("go.mod"@) || dir.has("go.work"@)
}

/// Whether a directory holds a Python project.
pub open spec fn is_python(dir: DirView) -> bool {
    dir.has("pyproject.toml"@) || dir.has("setup.py"@) || dir.has("setup.cfg"@) || dir.has(
        "requirements.txt"@,
    )
}

/// Whether a kind of project is among those that are asked for.
pub open spec fn wanted(requested: RequestedProjectType, kind: RequestedProjectType) -> bool {
    requested is Auto || requested == kind
}

/// The project that a directory holds: of the kinds that are asked for the
/// first that its files tell of, in the order Rust, Go, Node, Python.
pub open spec fn project_in(dir: DirView, requested: RequestedProjectType) -> Result<
    Option<DetectionView>,
    errors::CallFault,
> {
    if wanted(requested, RequestedProjectType::Rust) && dir.has("Cargo.toml"@) {
        Ok(Some(plain_project(dir, DetectedProjectType::Rust, "cargo"@)))
    } else if wanted(requested, RequestedProjectType::Go) && is_go(dir) {
        Ok(Some(plain_project(dir, DetectedProjectType::Go, "go"@)))
    } else if wanted(requested, RequestedProjectType::Node) && dir.has("package.json"@) {
        match node_project(dir) {
            Ok(project) => Ok(Some(project)),
            Err(fault) => Err(fault),
        }
    } else if wanted(requested, RequestedProjectType::Python) && is_python(dir) {
        Ok(
            Some(
                plain_project(
                    dir,
                    DetectedProjectType::Python,
                    runner_name(locked_runner(dir)),
                ),
            ),
        )
    } else {
        Ok(None)
    }
}

/// The names of the files that tell of a project.
pub open spec fn telling_files() -> Seq<Seq<char>> {
    seq![
        "Cargo.toml"@,
        "go.mod"@,
        "go.work"@,
        "package.json"@,
        "pnpm-lock.yaml"@,
        "yarn.lock"@,
        "bun.lock"@,
        "bun.lockb"@,
        "pyproject.toml"@,
        "setup.py"@,
        "setup.cfg"@,
        "requirements.txt"@,
        "uv.lock"@,
        "poetry.lock"@,
    ]
}

/// Names the files that tell of a project.
pub fn project_files() -> (out: Vec<String>)
    ensures
        text::texts(out@) == telling_files(),
{
    let mut out: Vec<String> = Vec::new();
    out.push("Cargo.toml".to_string());
    out.push("go.mod".to_string());
    out.push("go.work".to_string());
    out.push("package.json".to_string());
    out.push("pnpm-lock.yaml".to_string());
    out.push("yarn.lock".to_string());
    out.push("bun.lock".to_string());
    out.push("bun.lockb".to_string());
    out.push("pyproject.toml".to_string());
    out.push("setup.py".to_string());
    out.push("setup.cfg".to_string());
    out.push("requirements.txt".to_string());
    out.push("uv.lock".to_string());
    out.push("poetry.lock".to_string());
    proof {
        assert(text::texts(out@) =~= telling_files());
    }
    out
}

/// No other files matter: directories that agree in those hold the same
/// project.
pub proof fn other_files_do_not_matter(a: DirView, b: DirView, requested: RequestedProjectType)
    requires
        a.path == b.path,
        a.package_json == b.package_json,
        forall|name: Seq<char>| #[trigger]
            telling_files().contains(name) ==> a.has(name) == b.has(name),
    ensures
        project_in(a, requested) == project_in(b, requested),
{
    let files = telling_files();
    assert(files[0] == "Cargo.toml"@);
    assert(files[1] == "go.mod"@);
    assert(files[2] == "go.work"@);
    assert(files[3] == "package.json"@);
    assert(files[4] == "pnpm-lock.yaml"@);
    assert(files[5] == "yarn.lock"@);
    assert(files[6] == "bun.lock"@);
    assert(files[7] == "bun.lockb"@);
    assert(files[8] == "pyproject.toml"@);
    assert(files[9] == "setup.py"@);
    assert(files[10] == "setup.cfg"@);
    assert(files[11] == "requirements.txt"@);
    assert(files[12] == "uv.lock"@);
    assert(files[13] == "poetry.lock"@);
    assert forall|i: int| 0 <= i < files.len() implies a.has(#[trigger] files[i]) == b.has(
        files[i],
    ) by {
        assert(files.contains(files[i]));
    }
}

/// The outcome of looking into a directory.
pub open spec fn found_outcome(r: Result<Option<ProjectDetection>, FunctionCallError>) -> Result<
    Option<DetectionView>,
    errors::CallFault,
> {
    match r {
        Ok(Some(project)) => Ok(Some(project@)),
        Ok(None) => Ok(None),
        Err(fault) => Err(fault@),
    }
}

fn plain_detection(dir: &ProjectDir, kind: DetectedProjectType, manager: String) -> (project:
    ProjectDetection)
    ensures
        project@ == plain_project(dir@, kind, manager@),
{
    let project = ProjectDetection {
        project_type: kind,
        project_root: dir.path.clone(),
        package_manager: Some(manager),
        scripts: Vec::new(),
        warnings: Vec::new(),
        python_runner: detect_python_runner(dir),
    };
    proof {
        assert(project@ =~= plain_project(dir@, kind, manager@));
    }
    project
}

/// Reads what the files of a Node project tell.
pub fn read_node_project_info(dir: &ProjectDir) -> (r: Result<ProjectDetection, FunctionCallError>)
    ensures
        (match r {
            Ok(project) => Ok(project@),
            Err(fault) => Err(fault@),
        }) == node_project(dir@),
{
    match &dir.package_json {
        Err(message) => {
            let mut out = "failed to read ".to_string();
            out.append(paths::join(dir.path.as_str(), "package.json").as_str());
            out.append(": ");
            out.append(message.as_str());
            Err(FunctionCallError::RespondToModel(out))
        },
        Ok(file) => {
            let manager = match &file.package_manager {
                Some(value) => parse_node_package_manager(value.as_str()),
                None => detect_node_package_manager_from_lockfiles(dir),
            };
            let project = ProjectDetection {
                project_type: DetectedProjectType::Node,
                project_root: dir.path.clone(),
                package_manager: Some(manager.as_str().to_string()),
                scripts: text_order::sort_set(&file.scripts),
                warnings: Vec::new(),
                python_runner: detect_python_runner(dir),
            };
            proof {
                assert(project@ =~= node_project(dir@)->Ok_0);
            }
            Ok(project)
        },
    }
}

fn is_wanted(requested: RequestedProjectType, kind: RequestedProjectType) -> (r: bool)
    ensures
        r == wanted(requested, kind),
{
    requested == RequestedProjectType::Auto || requested == kind
}

/// Looks for a project in a directory.
pub fn detect_at_ancestor(dir: &ProjectDir, requested: RequestedProjectType) -> (r: Result<
    Option<ProjectDetection>,
    FunctionCallError,
>)
    ensures
        found_outcome(r) == project_in(dir@, requested),
{
    if is_wanted(requested, RequestedProjectType::Rust) && dir.has_file("Cargo.toml") {
        return Ok(Some(plain_detection(dir, DetectedProjectType::Rust, "cargo".to_string())));
    }
    if is_wanted(requested, RequestedProjectType::Go) && (dir.has_file("go.mod") || dir.has_file(
        "go.work",
    )) {
        return Ok(Some(plain_detection(dir, DetectedProjectType::Go, "go".to_string())));
    }
    if is_wanted(requested, RequestedProjectType::Node) && dir.has_file("package.json") {
        return match read_node_project_info(dir) {
            Ok(project) => Ok(Some(project)),
            Err(fault) => Err(fault),
        };
    }
    if is_wanted(requested, RequestedProjectType::Python) && (dir.has_file("pyproject.toml")
        || dir.has_file("setup.py") || dir.has_file("setup.cfg") || dir.has_file(
        "requirements.txt",
    )) {
        let runner = detect_python_runner(dir).to_string();
        return Ok(Some(plain_detection(dir, DetectedProjectType::Python, runner)));
    }
    Ok(None)
}

// ---------------------------------------------------------------------------
// The project above a directory.

/// The views of a list of directories.
pub open spec fn dir_views(dirs: Seq<ProjectDir>) -> Seq<DirView> {
    Seq::new(dirs.len(), |i: int| dirs[i]@)
}

/// Whether a directory is inside the boundary of the search.
pub open spec fn inside(path: Seq<char>, boundary: Option<Seq<char>>) -> bool {
    match boundary {
        Some(b) => paths::below(path, b),
        None => true,
    }
}

/// Whether a directory is the boundary of the search.
pub open spec fn at_boundary(path: Seq<char>, boundary: Option<Seq<char>>) -> bool {
    match boundary {
        Some(b) => paths::same(path, b),
        None => false,
    }
}

/// The first project in a list of directories, from the `i`-th on; the search
/// stops at the boundary.
pub open spec fn first_project(
    dirs: Seq<DirView>,
    i: int,
    boundary: Option<Seq<char>>,
    requested: RequestedProjectType,
) -> Result<Option<DetectionView>, errors::CallFault>
    decreases dirs.len() - i,
{
    if i < 0 || i >= dirs.len() || !inside(dirs[i].path, boundary) {
        Ok(None)
    } else {
        match project_in(dirs[i], requested) {
            Err(fault) => Err(fault),
            Ok(Some(project)) => Ok(Some(project)),
            Ok(None) => if at_boundary(dirs[i].path, boundary) {
                Ok(None)
            } else {
                first_project(dirs, i + 1, boundary, requested)
            },
        }
    }
}

/// The project of an unknown kind.
pub open spec fn unknown_project(root: Seq<char>) -> DetectionView {
    DetectionView {
        project_type: DetectedProjectType::Unknown,
        project_root: root,
        package_manager: None,
        scripts: seq![],
        warnings: seq!["Could not detect a supported project type automatically."@],
        python_runner: PythonRunner::Python,
    }
}

/// A path, or another where there is none.
pub open spec fn or_path(path: Option<Seq<char>>, other: Seq<char>) -> Seq<char> {
    match path {
        Some(p) => p,
        None => other,
    }
}

/// The project above a directory.
pub open spec fn project_above(
    dirs: Seq<DirView>,
    boundary: Option<Seq<char>>,
    requested: RequestedProjectType,
    start: Seq<char>,
    repo_root: Option<Seq<char>>,
) -> Result<DetectionView, errors::CallFault> {
    match first_project(dirs, 0, boundary, requested) {
        Err(fault) => Err(fault),
        Ok(Some(project)) => Ok(project),
        Ok(None) => if requested is Auto {
            Ok(unknown_project(or_path(repo_root, start)))
        } else {
            Err(
                errors::CallFault::RespondToModel(
                    "run_project_checks could not find a "@ + project_checks::requested_word(
                        requested,
                    ) + " project above "@ + start,
                ),
            )
        },
    }
}

fn find_first(
    dirs: &[ProjectDir],
    boundary: Option<&str>,
    requested: RequestedProjectType,
) -> (r: Result<Option<ProjectDetection>, FunctionCallError>)
    ensures
        found_outcome(r) == first_project(
            dir_views(dirs@),
            0,
            text::opt_str(boundary),
            requested,
        ),
{
    let ghost all = dir_views(dirs@);
    let mut i: usize = 0;
    while i < dirs.len()
        invariant
            i <= dirs@.len(),
            all == dir_views(dirs@),
            first_project(all, 0, text::opt_str(boundary), requested) == first_project(
                all,
                i as int,
                text::opt_str(boundary),
                requested,
            ),
        decreases dirs@.len() - i,
    {
        proof {
            assert(all[i as int] == dirs@[i as int]@);
        }
        if let Some(b) = boundary {
            if !paths::starts_with(dirs[i].path.as_str(), b) {
                return Ok(None);
            }
        }
        match detect_at_ancestor(&dirs[i], requested) {
            Err(fault) => {
                return Err(fault);
            },
            Ok(Some(project)) => {
                return Ok(Some(project));
            },
            Ok(None) => {},
        }
        if let Some(b) = boundary {
            if paths::same_path(dirs[i].path.as_str(), b) {
                return Ok(None);
            }
        }
        i += 1;
    }
    Ok(None)
}

/// Looks for a project in a directory and those above it. `dirs` are these
/// directories, nearest first; `start` is the first of them, and `repo_root`
/// the root of the repository around it.
pub fn detect_project(
    dirs: &[ProjectDir],
    boundary: Option<&str>,
    requested: RequestedProjectType,
    start: &str,
    repo_root: Option<&str>,
) -> (r: Result<ProjectDetection, FunctionCallError>)
    ensures
        (match r {
            Ok(project) => Ok(project@),
            Err(fault) => Err(fault@),
        }) == project_above(
            dir_views(dirs@),
            text::opt_str(boundary),
            requested,
            start@,
            text::opt_str(repo_root),
        ),
{
    match find_first(dirs, boundary, requested) {
        Err(fault) => {
            return Err(fault);
        },
        Ok(Some(project)) => {
            return Ok(project);
        },
        Ok(None) => {},
    }
    if requested != RequestedProjectType::Auto {
        let mut out = "run_project_checks could not find a ".to_string();
        out.append(requested.as_str());
        out.append(" project above ");
        out.append(start);
        return Err(FunctionCallError::RespondToModel(out));
    }
    let root = match repo_root {
        Some(path) => path.to_string(),
        None => start.to_string(),
    };
    let mut warnings: Vec<String> = Vec::new();
    warnings.push("Could not detect a supported project type automatically.".to_string());
    let project = ProjectDetection {
        project_type: DetectedProjectType::Unknown,
        project_root: root,
        package_manager: None,
        scripts: Vec::new(),
        warnings,
        python_runner: PythonRunner::Python,
    };
    proof {
        assert(project@ =~= unknown_project(or_path(text::opt_str(repo_root), start@)));
    }
    Ok(project)
}

/// The directory that a search starts in: the one given, or that of the file
/// given.
pub open spec fn search_start(start: Seq<char>, is_dir: bool) -> Seq<char> {
    if is_dir {
        start
    } else {
        or_path(paths::parent_of(start), start)
    }
}

/// The directory that a search starts in.
pub fn normalize_project_search_start(start: &str, is_dir: bool) -> (out: String)
    ensures
        out@ == search_start(start@, is_dir),
{
    if is_dir {
        start.to_string()
    } else {
        match paths::parent(start) {
            Some(up) => up,
            None => start.to_string(),
        }
    }
}

/// The root that an error is reported for, given the root of the repository
/// around the directory that the search started in.
pub fn error_project_root(start: &str, is_dir: bool, repo_root: Option<&str>) -> (out: String)
    ensures
        out@ == or_path(text::opt_str(repo_root), search_start(start@, is_dir)),
{
    match repo_root {
        Some(path) => path.to_string(),
        None => normalize_project_search_start(start, is_dir),
    }
}

proof fn lemma_nearest(
    dirs: Seq<DirView>,
    boundary: Option<Seq<char>>,
    requested: RequestedProjectType,
    i: int,
    k: int,
)
    requires
        0 <= i <= k < dirs.len(),
        forall|j: int| i <= j <= k ==> inside((#[trigger] dirs[j]).path, boundary),
        forall|j: int|
            i <= j < k ==> project_in(#[trigger] dirs[j], requested) == Ok::<
                Option<DetectionView>,
                errors::CallFault,
            >(None) && !at_boundary(dirs[j].path, boundary),
        project_in(dirs[k], requested) matches Ok(Some(_)),
    ensures
        first_project(dirs, i, boundary, requested) == project_in(dirs[k], requested),
    decreases k - i,
{
    assert(inside(dirs[i].path, boundary));
    if i < k {
        assert(project_in(dirs[i], requested) == Ok::<Option<DetectionView>, errors::CallFault>(None));
        lemma_nearest(dirs, boundary, requested, i + 1, k);
    }
}

/// The nearest project is found: where a directory inside the boundary holds a
/// project and none of those nearer does, that is the one.
pub proof fn nearest_project_is_found(
    dirs: Seq<DirView>,
    boundary: Option<Seq<char>>,
    requested: RequestedProjectType,
    start: Seq<char>,
    repo_root: Option<Seq<char>>,
    k: int,
)
    requires
        0 <= k < dirs.len(),
        forall|j: int| 0 <= j <= k ==> inside((#[trigger] dirs[j]).path, boundary),
        forall|j: int|
            0 <= j < k ==> project_in(#[trigger] dirs[j], requested) == Ok::<
                Option<DetectionView>,
                errors::CallFault,
            >(None) && !at_boundary(dirs[j].path, boundary),
        project_in(dirs[k], requested) matches Ok(Some(_)),
    ensures
        project_in(dirs[k], requested) matches Ok(Some(project)) && project_above(
            dirs,
            boundary,
            requested,
            start,
            repo_root,
        ) == Ok::<_, errors::CallFault>(project),
{
    lemma_nearest(dirs, boundary, requested, 0, k);
}

// ---------------------------------------------------------------------------
// What tells of a project.

/// The package manager that a version names, and the name of each.
pub proof fn managers_are_named_with_their_version(version: Seq<char>, value: Seq<char>)
    ensures
        named_manager("pnpm@"@ + version) == NodePackageManager::Pnpm,
        named_manager("yarn@"@ + version) == NodePackageManager::Yarn,
        named_manager("bun@"@ + version) == NodePackageManager::Bun,
        !text::begins(value, "pnpm@"@) && !text::begins(value, "yarn@"@) && !text::begins(
            value,
            "bun@"@,
        ) ==> named_manager(value) == NodePackageManager::Npm,
        manager_name(NodePackageManager::Npm) == "npm"@,
        manager_name(NodePackageManager::Pnpm) == "pnpm"@,
        manager_name(NodePackageManager::Yarn) == "yarn"@,
        manager_name(NodePackageManager::Bun) == "bun"@,
        runner_name(PythonRunner::Uv) == "uv"@,
        runner_name(PythonRunner::Poetry) == "poetry"@,
        runner_name(PythonRunner::Python) == "python"@,
{
    reveal_strlit("pnpm@");
    reveal_strlit("yarn@");
    reveal_strlit("bun@");
    let a = "pnpm@"@ + version;
    let b = "yarn@"@ + version;
    let c = "bun@"@ + version;
    assert(a.subrange(0, 5) =~= "pnpm@"@);
    assert(b.subrange(0, 5) =~= "yarn@"@);
    assert(c.subrange(0, 4) =~= "bun@"@);
    assert(b[0] == 'y' && "pnpm@"@[0] == 'p');
    assert(c[0] == 'b' && "yarn@"@[0] == 'y');
    if text::begins(b, "pnpm@"@) {
        assert(b.subrange(0, 5)[0] == 'y');
    }
    if text::begins(c, "pnpm@"@) {
        assert(c.subrange(0, 5)[0] == 'b');
    }
    if text::begins(c, "yarn@"@) {
        assert(c.subrange(0, 5)[0] == 'b');
    }
}

/// What a lock file tells: which package manager or runner made it.
pub proof fn lock_files_tell_who_made_them(dir: DirView)
    ensures
        ({
            let holds = |name: &str| dir.files.contains(name@);
            &&& holds("pnpm-lock.yaml") ==> locked_manager(dir) == NodePackageManager::Pnpm
            &&& !holds("pnpm-lock.yaml") && holds("yarn.lock") ==> locked_manager(dir)
                == NodePackageManager::Yarn
            &&& !holds("pnpm-lock.yaml") && !holds("yarn.lock") && (holds("bun.lock") || holds("bun.lockb"))
                ==> locked_manager(dir) == NodePackageManager::Bun
            &&& !holds("pnpm-lock.yaml") && !holds("yarn.lock") && !holds("bun.lock") && !holds("bun.lockb")
                ==> locked_manager(dir) == NodePackageManager::Npm
            &&& holds("uv.lock") ==> locked_runner(dir) == PythonRunner::Uv
            &&& !holds("uv.lock") && holds("poetry.lock") ==> locked_runner(dir) == PythonRunner::Poetry
            &&& !holds("uv.lock") && !holds("poetry.lock") ==> locked_runner(dir)
                == PythonRunner::Python
        }),
{
}

/// What kind of project a directory holds where nothing is asked for: the first
/// of Rust, Go, Node and Python whose files are there.
pub proof fn files_tell_the_kind_of_project(dir: DirView)
    ensures
        ({
            let holds = |name: &str| dir.files.contains(name@);
            let rust = holds("Cargo.toml");
            let go = holds("go.mod") || holds("go.work");
            let node = holds("package.json");
            let python = holds("pyproject.toml") || holds("setup.py") || holds("setup.cfg") || holds(
                "requirements.txt",
            );
            let found = project_in(dir, RequestedProjectType::Auto);
            let kind = |wanted: DetectedProjectType|
                found is Ok && found->Ok_0 is Some && found->Ok_0->Some_0.project_type == wanted
                    && found->Ok_0->Some_0.project_root == dir.path;
            &&& rust ==> kind(DetectedProjectType::Rust)
                && found->Ok_0->Some_0.package_manager == Some("cargo"@)
            &&& !rust && go ==> kind(DetectedProjectType::Go)
                && found->Ok_0->Some_0.package_manager == Some("go"@)
            &&& !rust && !go && node && dir.package_json is Ok ==> kind(DetectedProjectType::Node)
            &&& !rust && !go && node && dir.package_json is Err ==> found is Err
            &&& !rust && !go && !node && python ==> kind(DetectedProjectType::Python)
                && found->Ok_0->Some_0.package_manager == Some(runner_name(locked_runner(dir)))
            &&& !rust && !go && !node && !python ==> found == Ok::<_, errors::CallFault>(
                None::<DetectionView>,
            )
        }),
{
}

/// A kind of project that is asked for is found by its own files, whatever else
/// is there.
pub proof fn kinds_that_are_asked_for_are_found(dir: DirView)
    ensures
        ({
            let holds = |name: &str| dir.files.contains(name@);
            let found = |requested: RequestedProjectType| project_in(dir, requested);
            let none = Ok::<_, errors::CallFault>(None::<DetectionView>);
            &&& holds("Cargo.toml") ==> found(RequestedProjectType::Rust) is Ok
                && found(RequestedProjectType::Rust)->Ok_0 is Some
                && found(RequestedProjectType::Rust)->Ok_0->Some_0.project_type is Rust
            &&& !holds("Cargo.toml") ==> found(RequestedProjectType::Rust) == none
            &&& holds("go.mod") || holds("go.work") ==> found(RequestedProjectType::Go) is Ok
                && found(RequestedProjectType::Go)->Ok_0 is Some
                && found(RequestedProjectType::Go)->Ok_0->Some_0.project_type is Go
            &&& !holds("go.mod") && !holds("go.work") ==> found(RequestedProjectType::Go) == none
            &&& holds("package.json") && dir.package_json is Ok
                ==> found(RequestedProjectType::Node) is Ok
                && found(RequestedProjectType::Node)->Ok_0 is Some
                && found(RequestedProjectType::Node)->Ok_0->Some_0.project_type is Node
            &&& !holds("package.json") ==> found(RequestedProjectType::Node) == none
            &&& holds("pyproject.toml") || holds("setup.py") || holds("setup.cfg") || holds(
                "requirements.txt",
            ) ==> found(RequestedProjectType::Python) is Ok
                && found(RequestedProjectType::Python)->Ok_0 is Some
                && found(RequestedProjectType::Python)->Ok_0->Some_0.project_type is Python
            &&& !holds("pyproject.toml") && !holds("setup.py") && !holds("setup.cfg") && !holds(
                "requirements.txt",
            ) ==> found(RequestedProjectType::Python) == none
        }),
{
}

/// What is known of a Node project: the package manager that its file names, or
/// else its lock file, and its scripts in order.
pub proof fn node_projects_name_their_scripts(
    dir: DirView,
    manager: Option<Seq<char>>,
    scripts: Seq<Seq<char>>,
    message: Seq<char>,
)
    ensures
        dir.package_json == Err::<(Option<Seq<char>>, Seq<Seq<char>>), _>(message)
            ==> node_project(dir) == Err::<DetectionView, _>(
            errors::CallFault::RespondToModel(
                "failed to read "@ + paths::joined(dir.path, "package.json"@) + ": "@ + message,
            ),
        ),
        dir.package_json == Ok::<_, Seq<char>>((manager, scripts)) ==> {
            let project = node_project(dir);
            &&& project is Ok
            &&& project->Ok_0.project_type is Node
            &&& project->Ok_0.project_root == dir.path
            &&& project->Ok_0.scripts == text_order::sorted_set(scripts)
            &&& project->Ok_0.warnings.len() == 0
            &&& manager is Some ==> project->Ok_0.package_manager == Some(
                manager_name(named_manager(manager->Some_0)),
            )
            &&& manager is None ==> project->Ok_0.package_manager == Some(
                manager_name(locked_manager(dir)),
            )
        },
{
}

/// Where there is no project up to the boundary, a kind that was asked for is
/// missed, and otherwise the project is unknown, at the root of the repository or
/// where the search started.
pub proof fn missing_projects_are_told(
    dirs: Seq<DirView>,
    boundary: Option<Seq<char>>,
    requested: RequestedProjectType,
    start: Seq<char>,
    repo_root: Option<Seq<char>>,
)
    requires
        first_project(dirs, 0, boundary, requested) == Ok::<_, errors::CallFault>(
            None::<DetectionView>,
        ),
    ensures
        ({
            let outcome = project_above(dirs, boundary, requested, start, repo_root);
            let missed = |word: Seq<char>|
                Err::<DetectionView, _>(
                    errors::CallFault::RespondToModel(
                        "run_project_checks could not find a "@ + word + " project above "@ + start,
                    ),
                );
            &&& requested is Auto ==> outcome is Ok && outcome->Ok_0.project_type is Unknown
                && outcome->Ok_0.warnings == seq![
                "Could not detect a supported project type automatically."@,
            ] && outcome->Ok_0.project_root == if repo_root is Some {
                repo_root->Some_0
            } else {
                start
            }
            &&& requested is Rust ==> outcome == missed("rust"@)
            &&& requested is Go ==> outcome == missed("go"@)
            &&& requested is Node ==> outcome == missed("node"@)
            &&& requested is Python ==> outcome == missed("python"@)
        }),
{
}

/// The search goes no further than the boundary, which is the last directory
/// that is looked at, and ends where a directory cannot be read.
pub proof fn the_search_stays_within_the_boundary(
    dirs: Seq<DirView>,
    boundary: Seq<char>,
    requested: RequestedProjectType,
    i: int,
)
    requires
        0 <= i < dirs.len(),
    ensures
        !paths::below(dirs[i].path, boundary) ==> first_project(dirs, i, Some(boundary), requested)
            == Ok::<_, errors::CallFault>(None::<DetectionView>),
        paths::below(dirs[i].path, boundary) && project_in(dirs[i], requested) == Ok::<
            _,
            errors::CallFault,
        >(None::<DetectionView>) && paths::same(dirs[i].path, boundary) ==> first_project(
            dirs,
            i,
            Some(boundary),
            requested,
        ) == Ok::<_, errors::CallFault>(None::<DetectionView>),
        project_in(dirs[i], requested) is Err ==> first_project(dirs, i, None, requested) is Err,
        project_in(dirs[i], requested) == Ok::<_, errors::CallFault>(None::<DetectionView>)
            ==> first_project(dirs, i, None, requested) == first_project(
            dirs,
            i + 1,
            None,
            requested,
        ),
{
}

/// The search starts in the directory that is named, or in that of the file that
/// is.
pub proof fn the_search_starts_in_a_directory(start: Seq<char>)
    ensures
        search_start(start, true) == start,
        paths::parent_of(start) is Some ==> search_start(start, false) == paths::parent_of(
            start,
        )->Some_0,
        paths::parent_of(start) is None ==> search_start(start, false) == start,
{
}

} // verus!
