//! Falling back to a project further down, where the one that was found cannot
//! do what is asked.

use vstd::prelude::*;

use crate::errors;
use crate::errors::FunctionCallError;
use crate::paths;
use crate::project_checks;
use crate::project_checks::detect;
use crate::project_checks::detect::ProjectDetection;
use crate::project_checks::detect::ProjectDir;
use crate::project_checks::plan;
use crate::project_checks::plan::PlannedStep;
use crate::project_checks::DetectedProjectType;
use crate::project_checks::ProjectChecksTask;
use crate::project_checks::RequestedProjectType;
use crate::project_checks::RunProjectChecksArgs;
use crate::text;
use crate::text_order;

verus! {

/// How far down projects are looked for.
pub const DESCENDANT_SEARCH_MAX_DEPTH: usize = 3;

// ---------------------------------------------------------------------------
// Which directories are looked into.

/// Whether a directory of that name is passed over.
pub open spec fn passed_over(name: Seq<char>) -> bool {
    ||| name == ".git"@
    ||| name == ".hg"@
    ||| name == ".svn"@
    ||| name == ".venv"@
    ||| name == "__pycache__"@
    ||| name == "build"@
    ||| name == "dist"@
    ||| name == "node_modules"@
    ||| name == "target"@
    ||| name == "vendor"@
}

/// Whether a directory of that name is passed over.
pub fn skip_descendant_search_dir(name: &str) -> (r: bool)
    ensures
        r == passed_over(name@),
{
    text::same_text(name, ".git") || text::same_text(name, ".hg") || text::same_text(name, ".svn")
        || text::same_text(name, ".venv") || text::same_text(name, "__pycache__")
        || text::same_text(name, "build") || text::same_text(name, "dist") || text::same_text(
        name,
        "node_modules",
    ) || text::same_text(name, "target") || text::same_text(name, "vendor")
}

/// The names that are not passed over, in their order.
pub open spec fn searched(names: Seq<Seq<char>>) -> Seq<Seq<char>>
    decreases names.len(),
{
    if names.len() == 0 {
        seq![]
    } else {
        let earlier = searched(names.drop_last());
        if passed_over(names.last()) {
            earlier
        } else {
            earlier.push(names.last())
        }
    }
}

/// The directories in a directory that are looked into, by name.
pub open spec fn children(dir: Seq<char>, names: Seq<Seq<char>>) -> Seq<Seq<char>> {
    let kept = text_order::sorted_set(searched(names));
    Seq::new(kept.len(), |i: int| paths::joined(dir, kept[i]))
}

/// Directories that are still to be looked into, with their depth.
pub struct DescendantSearch {
    pub queue: Vec<(String, usize)>,
}

/// The queue without the directories at its front that are too deep.
pub open spec fn without_deep(queue: Seq<(Seq<char>, int)>) -> Seq<(Seq<char>, int)>
    decreases queue.len(),
{
    if queue.len() > 0 && queue[0].1 >= DESCENDANT_SEARCH_MAX_DEPTH {
        without_deep(queue.skip(1))
    } else {
        queue
    }
}

impl View for DescendantSearch {
    type V = Seq<(Seq<char>, int)>;

    open spec fn view(&self) -> Seq<(Seq<char>, int)> {
        Seq::new(self.queue@.len(), |i: int| (self.queue@[i].0@, self.queue@[i].1 as int))
    }
}

impl DescendantSearch {
    /// A search below a directory.
    pub fn new(start: &str) -> (s: Self)
        ensures
            s@ == seq![(start@, 0int)],
    {
        let mut queue: Vec<(String, usize)> = Vec::new();
        queue.push((start.to_string(), 0));
        let s = DescendantSearch { queue };
        proof {
            assert(s@ =~= seq![(start@, 0int)]);
        }
        s
    }

    /// The next directory to look into, and its depth.
    pub fn next_dir(&mut self) -> (r: Option<(String, usize)>)
        ensures
            match r {
                Some((dir, depth)) => {
                    &&& without_deep(old(self)@).len() > 0
                    &&& without_deep(old(self)@)[0] == (dir@, depth as int)
                    &&& final(self)@ == without_deep(old(self)@).skip(1)
                    &&& depth < DESCENDANT_SEARCH_MAX_DEPTH
                },
                None => {
                    &&& without_deep(old(self)@).len() == 0
                    &&& final(self)@.len() == 0
                },
            },
    {
        let ghost all = self@;
        while self.queue.len() > 0
            invariant
                without_deep(self@) == without_deep(all),
                all == old(self)@,
            decreases self.queue@.len(),
        {
            let ghost queue = self@;
            let ghost held = self.queue@;
            let (dir, depth) = self.queue.remove(0);
            proof {
                assert(queue[0] == (dir@, depth as int));
                assert(self@ =~= queue.skip(1)) by {
                    assert forall|k: int| 0 <= k < self.queue@.len() implies self@[k]
                        == queue.skip(1)[k] by {
                        assert(self.queue@[k] == held[k + 1]);
                    }
                }
            }
            if depth < DESCENDANT_SEARCH_MAX_DEPTH {
                return Some((dir, depth));
            }
        }
        None
    }

    /// Notes the directories in a directory, given their names, and names those
    /// that are looked into.
    pub fn visit(&mut self, dir: &str, depth: usize, names: &[String]) -> (out: Vec<String>)
        requires
            depth < DESCENDANT_SEARCH_MAX_DEPTH,
        ensures
            text::texts(out@) == children(dir@, text::texts(names@)),
            final(self)@ == old(self)@ + Seq::new(
                out@.len(),
                |i: int| (children(dir@, text::texts(names@))[i], depth + 1),
            ),
    {
        let ghost all = text::texts(names@);
        let mut kept: Vec<String> = Vec::new();
        let mut i: usize = 0;
        proof {
            assert(text::texts(kept@) =~= searched(all.take(0)));
        }
        while i < names.len()
            invariant
                i <= names@.len(),
                all == text::texts(names@),
                text::texts(kept@) == searched(all.take(i as int)),
                self@ == old(self)@,
            decreases names@.len() - i,
        {
            let ghost before = text::texts(kept@);
            proof {
                assert(all.take(i + 1).drop_last() =~= all.take(i as int));
                assert(all.take(i + 1).last() == names@[i as int]@);
            }
            if !skip_descendant_search_dir(names[i].as_str()) {
                kept.push(names[i].clone());
                proof {
                    assert(text::texts(kept@) =~= before.push(names@[i as int]@));
                }
            }
            i += 1;
        }
        proof {
            assert(all.take(i as int) =~= all);
        }
        let sorted = text_order::sort_set(&kept);
        let ghost paths_of = children(dir@, all);
        let ghost start = self@;
        let mut out: Vec<String> = Vec::new();
        let mut k: usize = 0;
        proof {
            assert(text::texts(out@) =~= paths_of.take(0));
            assert(self@ =~= start + Seq::new(0, |i: int| (paths_of[i], depth + 1)));
        }
        while k < sorted.len()
            invariant
                k <= sorted@.len(),
                text::texts(sorted@) == text_order::sorted_set(searched(all)),
                paths_of == children(dir@, all),
                depth < DESCENDANT_SEARCH_MAX_DEPTH,
                text::texts(out@) == paths_of.take(k as int),
                self@ == start + Seq::new(k as nat, |i: int| (paths_of[i], depth + 1)),
            decreases sorted@.len() - k,
        {
            let ghost before = text::texts(out@);
            let ghost queued = self@;
            let path = paths::join(dir, sorted[k].as_str());
            proof {
                assert(text::texts(sorted@)[k as int] == sorted@[k as int]@);
                assert(path@ == paths_of[k as int]);
            }
            self.queue.push((path.clone(), depth + 1));
            proof {
                assert(self@ =~= queued.push((path@, depth + 1)));
                assert(self@ =~= start + Seq::new(
                    (k + 1) as nat,
                    |i: int| (paths_of[i], depth + 1),
                ));
            }
            out.push(path);
            proof {
                assert(text::texts(out@) =~= before.push(path@));
                assert(text::texts(out@) =~= paths_of.take(k + 1));
            }
            k += 1;
        }
        proof {
            assert(text::texts(sorted@).len() == sorted@.len());
            assert(paths_of.take(k as int) =~= paths_of);
            assert(text::texts(out@).len() == out@.len());
        }
        out
    }
}

// ---------------------------------------------------------------------------
// Which project is taken.

/// A project that can do what is asked, with its plan.
#[derive(Debug)]
pub struct Candidate {
    pub detection: ProjectDetection,
    pub steps: Vec<PlannedStep>,
    pub warnings: Vec<String>,
    pub depth: usize,
}

/// What a [`Candidate`] stands for.
#[verifier::ext_equal]
pub ghost struct CandidateView {
    pub detection: detect::DetectionView,
    pub steps: Seq<plan::StepView>,
    pub warnings: Seq<Seq<char>>,
    pub depth: int,
}

impl View for Candidate {
    type V = CandidateView;

    open spec fn view(&self) -> CandidateView {
        CandidateView {
            detection: self.detection@,
            steps: plan::step_views(self.steps@),
            warnings: text::texts(self.warnings@),
            depth: self.depth as int,
        }
    }
}

/// The rank of a kind of project; the lowest is taken.
pub open spec fn rank(kind: DetectedProjectType) -> int {
    match kind {
        DetectedProjectType::Rust => 0,
        DetectedProjectType::Go => 1,
        DetectedProjectType::Node => 2,
        DetectedProjectType::Python => 3,
        DetectedProjectType::Unknown => 4,
    }
}

/// The rank of a kind of project.
pub fn detected_project_type_rank(kind: DetectedProjectType) -> (r: usize)
    ensures
        r == rank(kind),
{
    match kind {
        DetectedProjectType::Rust => 0,
        DetectedProjectType::Go => 1,
        DetectedProjectType::Node => 2,
        DetectedProjectType::Python => 3,
        DetectedProjectType::Unknown => 4,
    }
}

/// Whether one project is taken rather than another: by kind, then by depth,
/// then by path.
pub open spec fn better(a: CandidateView, b: CandidateView) -> bool {
    let ra = rank(a.detection.project_type);
    let rb = rank(b.detection.project_type);
    if ra != rb {
        ra < rb
    } else if a.depth != b.depth {
        a.depth < b.depth
    } else {
        text_order::before(a.detection.project_root, b.detection.project_root)
    }
}

/// The candidate in a directory, where there is one.
pub open spec fn candidate_in(
    args: RunProjectChecksArgs,
    dir: detect::DirView,
    depth: int,
    current_root: Seq<char>,
) -> Option<CandidateView> {
    match detect::project_in(dir, RequestedProjectType::Auto) {
        Ok(Some(project)) => if paths::same(project.project_root, current_root) {
            None
        } else {
            match plan::planned(args, project) {
                Ok(steps) => Some(
                    CandidateView {
                        detection: project,
                        steps,
                        warnings: project.warnings + plan::ignored_arguments(
                            args,
                            project.project_type,
                        ),
                        depth,
                    },
                ),
                Err(_) => None,
            }
        },
        _ => None,
    }
}

/// The candidate that is taken of those in the first directories.
pub open spec fn best_candidate(
    args: RunProjectChecksArgs,
    dirs: Seq<(detect::DirView, int)>,
    current_root: Seq<char>,
) -> Option<CandidateView>
    decreases dirs.len(),
{
    if dirs.len() == 0 {
        None
    } else {
        let earlier = best_candidate(args, dirs.drop_last(), current_root);
        match candidate_in(args, dirs.last().0, dirs.last().1, current_root) {
            None => earlier,
            Some(candidate) => match earlier {
                None => Some(candidate),
                Some(best) => if better(candidate, best) {
                    Some(candidate)
                } else {
                    Some(best)
                },
            },
        }
    }
}

/// The views of directories with their depth.
pub open spec fn deep_views(dirs: Seq<(ProjectDir, usize)>) -> Seq<(detect::DirView, int)> {
    Seq::new(dirs.len(), |i: int| (dirs[i].0@, dirs[i].1 as int))
}

fn is_better(a: &Candidate, b: &Candidate) -> (r: bool)
    ensures
        r == better(a@, b@),
{
    let ra: usize = detected_project_type_rank(a.detection.project_type);
    let rb: usize = detected_project_type_rank(b.detection.project_type);
    if ra != rb {
        ra < rb
    } else if a.depth != b.depth {
        a.depth < b.depth
    } else {
        let x = a.detection.project_root.as_str();
        let y = b.detection.project_root.as_str();
        text_order::text_not_after(x, y) && !text::same_text(x, y)
    }
}

fn find_candidate(
    args: &RunProjectChecksArgs,
    dir: &ProjectDir,
    depth: usize,
    current_root: &str,
) -> (r: Option<Candidate>)
    ensures
        match r {
            Some(c) => candidate_in(*args, dir@, depth as int, current_root@) == Some(c@),
            None => candidate_in(*args, dir@, depth as int, current_root@) is None,
        },
{
    match detect::detect_at_ancestor(dir, RequestedProjectType::Auto) {
        Ok(Some(detection)) => {
            if paths::same_path(detection.project_root.as_str(), current_root) {
                return None;
            }
            let mut warnings = text::clone_texts(&detection.warnings);
            match plan::plan_steps(args, &detection, &mut warnings) {
                Ok(steps) => {
                    let c = Candidate { detection, steps, warnings, depth };
                    proof {
                        assert(c@ =~= candidate_in(
                            *args,
                            dir@,
                            depth as int,
                            current_root@,
                        )->Some_0);
                    }
                    Some(c)
                },
                Err(_) => None,
            }
        },
        _ => None,
    }
}

/// Takes a project among those further down.
pub fn find_descendant_project_fallback(
    args: &RunProjectChecksArgs,
    dirs: &[(ProjectDir, usize)],
    current_root: &str,
) -> (r: Option<Candidate>)
    ensures
        match r {
            Some(c) => best_candidate(*args, deep_views(dirs@), current_root@) == Some(c@),
            None => best_candidate(*args, deep_views(dirs@), current_root@) is None,
        },
{
    let ghost all = deep_views(dirs@);
    let mut best: Option<Candidate> = None;
    let mut i: usize = 0;
    while i < dirs.len()
        invariant
            i <= dirs@.len(),
            all == deep_views(dirs@),
            match best {
                Some(c) => best_candidate(*args, all.take(i as int), current_root@) == Some(c@),
                None => best_candidate(*args, all.take(i as int), current_root@) is None,
            },
        decreases dirs@.len() - i,
    {
        proof {
            assert(all.take(i + 1).drop_last() =~= all.take(i as int));
            assert(all.take(i + 1).last() == (dirs@[i as int].0@, dirs@[i as int].1 as int));
        }
        if let Some(candidate) = find_candidate(args, &dirs[i].0, dirs[i].1, current_root) {
            let replace: bool = match &best {
                Some(held) => is_better(&candidate, held),
                None => true,
            };
            if replace {
                best = Some(candidate);
            }
        }
        i += 1;
    }
    proof {
        assert(all.take(i as int) =~= all);
    }
    best
}

// ---------------------------------------------------------------------------
// Planning with a fallback.

/// Why no plan could be made, with the project that it was for.
#[derive(Debug)]
pub struct PlanningFailure {
    pub detection: ProjectDetection,
    pub warnings: Vec<String>,
    pub message: String,
}

/// The message of a fault.
pub open spec fn fault_text(fault: errors::CallFault) -> Seq<char> {
    match fault {
        errors::CallFault::RespondToModel(message) => message,
        errors::CallFault::Fatal(message) => message,
    }
}

/// Whether a project further down may be taken instead.
pub open spec fn may_fall_back(args: RunProjectChecksArgs, project: detect::DetectionView) -> bool {
    &&& plan::planned(args, project) matches Err(fault) && fault is RespondToModel
    &&& args.project_type is Auto
    &&& !(args.task is Detect)
}

/// The warning that a project further down was taken.
pub open spec fn fallback_note(
    args: RunProjectChecksArgs,
    project: detect::DetectionView,
    taken: detect::DetectionView,
) -> Seq<char> {
    "Auto-detected "@ + project_checks::detected_word(project.project_type) + " project at "@
        + project.project_root + " but it could not satisfy task "@ + project_checks::task_word(
        args.task,
    ) + "; using descendant "@ + project_checks::detected_word(taken.project_type)
        + " project at "@ + taken.project_root + " instead."@
}

/// The plan for a project or, where it cannot do what is asked, for one
/// further down: the project, the steps and the warnings.
pub open spec fn plan_with_fallback(
    args: RunProjectChecksArgs,
    project: detect::DetectionView,
    dirs: Seq<(detect::DirView, int)>,
) -> Result<
    (detect::DetectionView, Seq<plan::StepView>, Seq<Seq<char>>),
    (detect::DetectionView, Seq<Seq<char>>, Seq<char>),
> {
    match plan::planned(args, project) {
        Ok(steps) => Ok(
            (
                project,
                steps,
                project.warnings + plan::ignored_arguments(args, project.project_type),
            ),
        ),
        Err(fault) => {
            let best = best_candidate(args, dirs, project.project_root);
            if may_fall_back(args, project) && best is Some {
                let taken = best->Some_0;
                Ok(
                    (
                        taken.detection,
                        taken.steps,
                        taken.warnings.push(fallback_note(args, project, taken.detection)),
                    ),
                )
            } else {
                Err((project, project.warnings, fault_text(fault)))
            }
        },
    }
}

/// The outcome of planning with a fallback.
pub open spec fn fallback_outcome(
    r: Result<(ProjectDetection, Vec<PlannedStep>, Vec<String>), PlanningFailure>,
) -> Result<
    (detect::DetectionView, Seq<plan::StepView>, Seq<Seq<char>>),
    (detect::DetectionView, Seq<Seq<char>>, Seq<char>),
> {
    match r {
        Ok((project, steps, warnings)) => Ok(
            (project@, plan::step_views(steps@), text::texts(warnings@)),
        ),
        Err(failure) => Err(
            (failure.detection@, text::texts(failure.warnings@), failure.message@),
        ),
    }
}

fn note_text(args: &RunProjectChecksArgs, project: &ProjectDetection, taken: &ProjectDetection) -> (
out: String)
    ensures
        out@ == fallback_note(*args, project@, taken@),
{
    let mut out = "Auto-detected ".to_string();
    out.append(project.project_type.as_str());
    out.append(" project at ");
    out.append(project.project_root.as_str());
    out.append(" but it could not satisfy task ");
    out.append(args.task.as_str());
    out.append("; using descendant ");
    out.append(taken.project_type.as_str());
    out.append(" project at ");
    out.append(taken.project_root.as_str());
    out.append(" instead.");
    out
}

/// Tells whether the directories further down have to be looked into.
pub fn needs_descendants(args: &RunProjectChecksArgs, detection: &ProjectDetection) -> (r: bool)
    ensures
        r == may_fall_back(*args, detection@),
{
    let mut warnings: Vec<String> = Vec::new();
    match plan::plan_steps(args, detection, &mut warnings) {
        Err(FunctionCallError::RespondToModel(_)) => args.project_type
            == RequestedProjectType::Auto && args.task != ProjectChecksTask::Detect,
        _ => false,
    }
}

/// Plans the steps for a project or, where it cannot do what is asked, for one
/// further down. `dirs` are the directories further down, with their depth.
pub fn plan_steps_with_fallback(
    args: &RunProjectChecksArgs,
    detection: ProjectDetection,
    dirs: &[(ProjectDir, usize)],
) -> (r: Result<(ProjectDetection, Vec<PlannedStep>, Vec<String>), PlanningFailure>)
    ensures
        fallback_outcome(r) == plan_with_fallback(*args, detection@, deep_views(dirs@)),
{
    let mut warnings = text::clone_texts(&detection.warnings);
    let fault = match plan::plan_steps(args, &detection, &mut warnings) {
        Ok(steps) => {
            return Ok((detection, steps, warnings));
        },
        Err(fault) => fault,
    };
    proof {
        assert(text::texts(warnings@) =~= detection@.warnings);
    }
    match fault {
        FunctionCallError::RespondToModel(message) => {
            if args.project_type == RequestedProjectType::Auto && args.task
                != ProjectChecksTask::Detect {
                if let Some(taken) = find_descendant_project_fallback(
                    args,
                    dirs,
                    detection.project_root.as_str(),
                ) {
                    let note = note_text(args, &detection, &taken.detection);
                    let mut out = taken.warnings;
                    let ghost before = text::texts(out@);
                    let ghost note_view = note@;
                    out.push(note);
                    proof {
                        assert(text::texts(out@) =~= before.push(note_view));
                    }
                    return Ok((taken.detection, taken.steps, out));
                }
            }
            Err(PlanningFailure { detection, warnings, message })
        },
        FunctionCallError::Fatal(message) => Err(PlanningFailure { detection, warnings, message }),
    }
}

// ---------------------------------------------------------------------------
// What holds of the fallback.

proof fn lemma_better_transitive(a: CandidateView, b: CandidateView, c: CandidateView)
    requires
        better(a, b),
        !better(c, b),
    ensures
        !better(c, a),
{
    let (ra, rb, rc) = (
        rank(a.detection.project_type),
        rank(b.detection.project_type),
        rank(c.detection.project_type),
    );
    if better(c, a) {
        if rc == ra && ra == rb && a.depth == b.depth && c.depth == a.depth {
            text_order::lemma_before_transitive(
                c.detection.project_root,
                a.detection.project_root,
                b.detection.project_root,
            );
        }
    }
}

/// No project further down that can do what is asked would be taken rather
/// than the one that is taken.
pub proof fn fallback_is_the_best(
    args: RunProjectChecksArgs,
    dirs: Seq<(detect::DirView, int)>,
    current_root: Seq<char>,
    i: int,
)
    requires
        0 <= i < dirs.len(),
        candidate_in(args, dirs[i].0, dirs[i].1, current_root) is Some,
    ensures
        best_candidate(args, dirs, current_root) matches Some(best) && !better(
            candidate_in(args, dirs[i].0, dirs[i].1, current_root)->Some_0,
            best,
        ),
    decreases dirs.len(),
{
    let front = dirs.drop_last();
    let last = candidate_in(args, dirs.last().0, dirs.last().1, current_root);
    if i == dirs.len() - 1 {
        let c = last->Some_0;
        lemma_not_better_than_itself(c);
    } else {
        assert(front[i] == dirs[i]);
        fallback_is_the_best(args, front, current_root, i);
        let earlier = best_candidate(args, front, current_root)->Some_0;
        let c = candidate_in(args, dirs[i].0, dirs[i].1, current_root)->Some_0;
        if last is Some && better(last->Some_0, earlier) {
            lemma_better_transitive(last->Some_0, earlier, c);
        }
    }
}

proof fn lemma_not_better_than_itself(c: CandidateView)
    ensures
        !better(c, c),
{
}

/// A fallback is never the project that was found at first.
pub proof fn fallback_is_another_project(
    args: RunProjectChecksArgs,
    dirs: Seq<(detect::DirView, int)>,
    current_root: Seq<char>,
)
    ensures
        best_candidate(args, dirs, current_root) matches Some(best) ==> !paths::same(
            best.detection.project_root,
            current_root,
        ),
    decreases dirs.len(),
{
    if dirs.len() > 0 {
        fallback_is_another_project(args, dirs.drop_last(), current_root);
    }
}

// ---------------------------------------------------------------------------
// Which project stands in.

/// The directories that are not searched: those of version control, of
/// environments, and of what was built or installed. The others are, in order.
pub proof fn built_and_hidden_directories_are_passed_over(
    dir: Seq<char>,
    names: Seq<Seq<char>>,
    name: Seq<char>,
    i: int,
)
    ensures
        passed_over(name) <==> {
            ||| name == ".git"@
            ||| name == ".hg"@
            ||| name == ".svn"@
            ||| name == ".venv"@
            ||| name == "__pycache__"@
            ||| name == "build"@
            ||| name == "dist"@
            ||| name == "node_modules"@
            ||| name == "target"@
            ||| name == "vendor"@
        },
        searched(Seq::empty()).len() == 0,
        passed_over(name) ==> searched(names.push(name)) == searched(names),
        !passed_over(name) ==> searched(names.push(name)) == searched(names).push(name),
        children(dir, names).len() == text_order::sorted_set(searched(names)).len(),
        0 <= i < children(dir, names).len() ==> children(dir, names)[i] == paths::joined(
            dir,
            text_order::sorted_set(searched(names))[i],
        ),
        DESCENDANT_SEARCH_MAX_DEPTH == 3,
{
    assert(names.push(name).drop_last() =~= names);
}

/// A candidate is better by its kind, in the order Rust, Go, Node, Python, then
/// by being less deep, then by its path; and of two different ones at most one is
/// better.
pub proof fn candidates_are_compared_by_kind_depth_and_path(a: CandidateView, b: CandidateView)
    ensures
        ({
            let x = a.detection.project_type;
            let y = b.detection.project_type;
            &&& x is Rust && !(y is Rust) ==> better(a, b) && !better(b, a)
            &&& x is Go && (y is Node || y is Python) ==> better(a, b) && !better(b, a)
            &&& x is Node && y is Python ==> better(a, b) && !better(b, a)
            &&& x == y && a.depth < b.depth ==> better(a, b) && !better(b, a)
            &&& x == y && a.depth == b.depth ==> better(a, b) == text_order::before(
                a.detection.project_root,
                b.detection.project_root,
            )
        }),
{
}

/// A directory is a candidate where it holds a project, another one than the one
/// at hand, that the task can be planned for; its steps are the plan and its
/// warnings those of the plan.
pub proof fn candidates_can_be_planned(
    args: RunProjectChecksArgs,
    dir: detect::DirView,
    depth: int,
    current_root: Seq<char>,
    project: detect::DetectionView,
    steps: Seq<plan::StepView>,
)
    ensures
        ({
            let found = detect::project_in(dir, RequestedProjectType::Auto);
            let candidate = candidate_in(args, dir, depth, current_root);
            let here = found == Ok::<_, errors::CallFault>(Some(project));
            &&& found is Err ==> candidate is None
            &&& found == Ok::<_, errors::CallFault>(None::<detect::DetectionView>) ==> candidate
                is None
            &&& here && paths::same(project.project_root, current_root) ==> candidate is None
            &&& here && plan::planned(args, project) is Err ==> candidate is None
            &&& here && !paths::same(project.project_root, current_root) && plan::planned(
                args,
                project,
            ) == Ok::<_, errors::CallFault>(steps) ==> candidate is Some
                && candidate->Some_0.detection == project && candidate->Some_0.steps == steps
                && candidate->Some_0.depth == depth && candidate->Some_0.warnings
                == project.warnings + plan::ignored_arguments(args, project.project_type)
        }),
{
}

/// A plan is used where there is one. Where there is none, another project
/// stands in only where no kind was asked for and something is to be run, and
/// that is told; otherwise the failure is.
pub proof fn other_projects_stand_in_only_unasked(
    args: RunProjectChecksArgs,
    project: detect::DetectionView,
    dirs: Seq<(detect::DirView, int)>,
    steps: Seq<plan::StepView>,
    message: Seq<char>,
    taken: CandidateView,
)
    ensures
        ({
            let plan = plan::planned(args, project);
            let outcome = plan_with_fallback(args, project, dirs);
            let best = best_candidate(args, dirs, project.project_root);
            let fails = plan == Err::<Seq<plan::StepView>, _>(
                errors::CallFault::RespondToModel(message),
            );
            let failure = Err::<
                (detect::DetectionView, Seq<plan::StepView>, Seq<Seq<char>>),
                _,
            >((project, project.warnings, message));
            &&& plan == Ok::<_, errors::CallFault>(steps) ==> outcome == Ok::<
                _,
                (detect::DetectionView, Seq<Seq<char>>, Seq<char>),
            >(
                (
                    project,
                    steps,
                    project.warnings + plan::ignored_arguments(args, project.project_type),
                ),
            )
            &&& fails && !(args.project_type is Auto) ==> outcome == failure
            &&& fails && args.task is Detect ==> outcome == failure
            &&& fails && best is None ==> outcome == failure
            &&& fails && args.project_type is Auto && !(args.task is Detect) && best == Some(taken)
                ==> outcome == Ok::<_, (detect::DetectionView, Seq<Seq<char>>, Seq<char>)>(
                (
                    taken.detection,
                    taken.steps,
                    taken.warnings.push(
                        "Auto-detected "@ + project_checks::detected_word(project.project_type)
                            + " project at "@ + project.project_root
                            + " but it could not satisfy task "@ + project_checks::task_word(
                            args.task,
                        ) + "; using descendant "@ + project_checks::detected_word(
                            taken.detection.project_type,
                        ) + " project at "@ + taken.detection.project_root + " instead."@,
                    ),
                ),
            )
        }),
{
}

/// Directories that are too deep are not searched.
pub proof fn deep_directories_are_left_out(queue: Seq<(Seq<char>, int)>)
    ensures
        queue.len() > 0 && queue[0].1 >= 3 ==> without_deep(queue) == without_deep(queue.skip(1)),
        queue.len() > 0 && queue[0].1 < 3 ==> without_deep(queue) == queue,
        queue.len() == 0 ==> without_deep(queue) == queue,
{
}

} // verus!
