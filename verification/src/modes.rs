//! Collaboration modes: what they allow, how presets of them are chosen and
//! described, and when the user may be asked for input.

use vstd::prelude::*;

use crate::errors;
use crate::errors::FunctionCallError;
use crate::text;

verus! {

/// The kind of a collaboration mode.
#[derive(Clone, Copy, Debug, PartialEq, Eq, Structural)]
pub enum ModeKind {
    Plan,
    Default,
    PairProgramming,
    Execute,
}

/// How a mode is called.
pub open spec fn mode_name(mode: ModeKind) -> Seq<char> {
    match mode {
        ModeKind::Plan => "Plan"@,
        ModeKind::Default => "Default"@,
        ModeKind::PairProgramming => "Pair Programming"@,
        ModeKind::Execute => "Execute"@,
    }
}

/// Whether the user may be asked for input in a mode. In the default mode that
/// has to be switched on.
pub open spec fn may_ask(mode: ModeKind, default_mode_enabled: bool) -> bool {
    mode is Plan || (default_mode_enabled && mode is Default)
}

impl ModeKind {
    /// How the mode is called.
    pub fn display_name(self) -> (name: &'static str)
        ensures
            name@ == mode_name(self),
    {
        match self {
            ModeKind::Plan => "Plan",
            ModeKind::Default => "Default",
            ModeKind::PairProgramming => "Pair Programming",
            ModeKind::Execute => "Execute",
        }
    }

    /// Whether the user may be asked for input where nothing is switched on.
    pub fn allows_request_user_input(self) -> (r: bool)
        ensures
            r == may_ask(self, false),
    {
        match self {
            ModeKind::Plan => true,
            _ => false,
        }
    }

    /// Whether the mode ends in a plan that is proposed in a block of its own.
    pub fn requires_proposed_plan_block(self) -> (r: bool)
        ensures
            r == (self is Plan),
    {
        match self {
            ModeKind::Plan => true,
            _ => false,
        }
    }

    /// Whether the proposed plan is shown while it is written.
    pub fn streams_proposed_plan(self) -> (r: bool)
        ensures
            r == (self is Plan),
    {
        match self {
            ModeKind::Plan => true,
            _ => false,
        }
    }
}

/// Whether the user may be asked for input in a mode.
pub fn request_user_input_is_available(mode: ModeKind, default_mode_enabled: bool) -> (r: bool)
    ensures
        r == may_ask(mode, default_mode_enabled),
{
    match mode {
        ModeKind::Plan => true,
        ModeKind::Default => default_mode_enabled,
        _ => false,
    }
}

/// The modes in which the user may be asked for input.
pub open spec fn allowed_modes(default_mode_enabled: bool) -> Seq<char> {
    if default_mode_enabled {
        "Default or Plan mode"@
    } else {
        "Plan mode"@
    }
}

/// Names the modes in which the user may be asked for input.
pub fn request_user_input_allowed_modes_message(default_mode_enabled: bool) -> (message: String)
    ensures
        message@ == allowed_modes(default_mode_enabled),
{
    if default_mode_enabled {
        "Default or Plan mode".to_string()
    } else {
        "Plan mode".to_string()
    }
}

// ---------------------------------------------------------------------------
// Asking the user for input.

/// Whether and when the user may be asked for input.
#[derive(Clone, Copy, Debug, PartialEq, Eq, Structural)]
pub struct RuntimeRequestUserInputPolicy {
    pub tool_enabled: bool,
    pub available: bool,
    pub default_mode_enabled: bool,
}

/// Why the user may not be asked for input.
pub open spec fn refusal(available: bool, mode: ModeKind) -> Option<Seq<char>> {
    if available {
        None
    } else {
        Some("request_user_input is unavailable in "@ + mode_name(mode) + " mode"@)
    }
}

impl RuntimeRequestUserInputPolicy {
    /// Says why the user may not be asked for input, where that is so.
    pub fn unavailable_message(&self, mode: ModeKind) -> (message: Option<String>)
        ensures
            text::opt_text(message) == refusal(self.available, mode),
    {
        if self.available {
            None
        } else {
            let mut message = "request_user_input is unavailable in ".to_string();
            message.append(mode.display_name());
            message.append(" mode");
            Some(message)
        }
    }
}

/// Says why the user may not be asked for input in a mode, where the tool
/// itself is there.
pub fn request_user_input_unavailable_message(mode: ModeKind, default_mode_enabled: bool) -> (
message: Option<String>)
    ensures
        text::opt_text(message) == refusal(may_ask(mode, default_mode_enabled), mode),
{
    let policy = RuntimeRequestUserInputPolicy {
        tool_enabled: true,
        available: request_user_input_is_available(mode, default_mode_enabled),
        default_mode_enabled,
    };
    policy.unavailable_message(mode)
}

/// Describes the tool that asks the user for input.
pub fn request_user_input_tool_description(default_mode_enabled: bool) -> (out: String)
    ensures
        out@
            == "Request user input for one to three short questions and wait for the response. This tool is only available in "@
            + allowed_modes(default_mode_enabled) + "."@,
{
    let mut out =
        "Request user input for one to three short questions and wait for the response. This tool is only available in ".to_string();
    out.append(request_user_input_allowed_modes_message(default_mode_enabled).as_str());
    out.append(".");
    out
}

/// An answer that the user can choose.
#[derive(Clone, Debug, PartialEq, Eq)]
pub struct QuestionOption {
    pub label: String,
    pub description: String,
}

/// A question to the user.
#[derive(Clone, Debug, PartialEq, Eq)]
pub struct UserQuestion {
    pub id: String,
    pub header: String,
    pub question: String,
    pub is_other: bool,
    pub options: Option<Vec<QuestionOption>>,
}

/// Whether a question has something to choose from.
pub open spec fn has_options(question: UserQuestion) -> bool {
    question.options is Some && question.options->Some_0@.len() > 0
}

/// The question with room for another answer.
pub open spec fn open_question(question: UserQuestion) -> UserQuestion {
    UserQuestion { is_other: true, ..question }
}

/// The tool that asks the user for input.
pub struct RequestUserInputHandler;

impl RequestUserInputHandler {
    /// Checks whether the tool may be used. `is_function` tells whether it was
    /// called as a function.
    pub fn check_use(is_function: bool, policy: &RuntimeRequestUserInputPolicy, mode: ModeKind) -> (r:
        Result<(), FunctionCallError>)
        ensures
            match r {
                Ok(_) => is_function && policy.available,
                Err(fault) => if !is_function {
                    fault@ == errors::CallFault::RespondToModel(
                        "request_user_input handler received unsupported payload"@,
                    )
                } else {
                    &&& !policy.available
                    &&& fault@ == errors::CallFault::RespondToModel(
                        refusal(false, mode)->Some_0,
                    )
                },
            },
    {
        if !is_function {
            return Err(
                errors::respond("request_user_input handler received unsupported payload"),
            );
        }
        match policy.unavailable_message(mode) {
            Some(message) => Err(FunctionCallError::RespondToModel(message)),
            None => Ok(()),
        }
    }

    /// Prepares the questions: every one needs options, and every one gets
    /// room for another answer.
    pub fn prepare(questions: Vec<UserQuestion>) -> (r: Result<
        Vec<UserQuestion>,
        FunctionCallError,
    >)
        ensures
            match r {
                Ok(out) => {
                    &&& forall|i: int|
                        0 <= i < questions@.len() ==> has_options(#[trigger] questions@[i])
                    &&& out@ == Seq::new(
                        questions@.len(),
                        |i: int| open_question(questions@[i]),
                    )
                },
                Err(fault) => {
                    &&& exists|i: int|
                        0 <= i < questions@.len() && !has_options(#[trigger] questions@[i])
                    &&& fault@ == errors::CallFault::RespondToModel(
                        "request_user_input requires non-empty options for every question"@,
                    )
                },
            },
    {
        let mut i: usize = 0;
        while i < questions.len()
            invariant
                i <= questions@.len(),
                forall|k: int| 0 <= k < i ==> has_options(#[trigger] questions@[k]),
            decreases questions@.len() - i,
        {
            let chosen: bool = match &questions[i].options {
                Some(options) => options.len() > 0,
                None => false,
            };
            if !chosen {
                proof {
                    assert(!has_options(questions@[i as int]));
                }
                return Err(
                    errors::respond(
                        "request_user_input requires non-empty options for every question",
                    ),
                );
            }
            i += 1;
        }
        let ghost all = questions@;
        let mut left = questions;
        let mut out: Vec<UserQuestion> = Vec::new();
        while left.len() > 0
            invariant
                out@.len() + left@.len() == all.len(),
                left@ == all.skip(out@.len() as int),
                forall|k: int|
                    0 <= k < out@.len() ==> #[trigger] out@[k] == open_question(all[k]),
            decreases left@.len(),
        {
            let ghost ahead = left@;
            let question = left.remove(0);
            proof {
                assert(question == all[out@.len() as int]);
                assert(left@ =~= ahead.skip(1));
                assert(ahead.skip(1) =~= all.skip(out@.len() as int + 1));
            }
            out.push(
                UserQuestion {
                    id: question.id,
                    header: question.header,
                    question: question.question,
                    is_other: true,
                    options: question.options,
                },
            );
        }
        proof {
            assert(out@ =~= Seq::new(all.len(), |i: int| open_question(all[i])));
        }
        Ok(out)
    }

    /// What the tool answers where the user gave no response.
    pub fn cancelled() -> (fault: FunctionCallError)
        ensures
            fault@ == errors::CallFault::RespondToModel(
                "request_user_input was cancelled before receiving a response"@,
            ),
    {
        errors::respond("request_user_input was cancelled before receiving a response")
    }
}

// ---------------------------------------------------------------------------
// Presets.

/// A preset of a collaboration mode; what it leaves open stays as it is.
#[derive(Clone, Debug, PartialEq, Eq)]
pub struct CollaborationModeMask {
    pub name: String,
    pub mode: Option<ModeKind>,
    pub model: Option<String>,
    pub reasoning_effort: Option<Option<String>>,
    pub developer_instructions: Option<Option<String>>,
}

/// What is told about a preset.
#[derive(Clone, Debug, PartialEq, Eq)]
pub struct CollaborationModeMetadata {
    pub description: String,
    pub tui_visible: bool,
    pub allows_repo_mutation: bool,
    pub update_plan_available: bool,
    pub request_user_input_available: bool,
    pub requires_proposed_plan_block: bool,
    pub streams_proposed_plan: bool,
}

/// A preset with what is told about it.
#[derive(Clone, Debug, PartialEq, Eq)]
pub struct TuiCollaborationModePreset {
    pub mask: CollaborationModeMask,
    pub metadata: CollaborationModeMetadata,
}

/// What a preset allows, in words.
pub open spec fn capabilities(metadata: CollaborationModeMetadata) -> Seq<char> {
    let edits = if metadata.allows_repo_mutation {
        "repo edits allowed"@
    } else {
        "repo edits blocked"@
    };
    let plan = if metadata.update_plan_available {
        "`update_plan` available"@
    } else {
        "`update_plan` unavailable"@
    };
    let input = if metadata.request_user_input_available {
        "`request_user_input` available"@
    } else {
        "`request_user_input` unavailable"@
    };
    let told = edits + " · "@ + plan + " · "@ + input;
    if metadata.streams_proposed_plan {
        told + " · "@ + "streams proposed plan"@
    } else {
        told
    }
}

/// Says what a preset allows.
pub fn capability_summary(metadata: &CollaborationModeMetadata) -> (out: String)
    ensures
        out@ == capabilities(*metadata),
{
    let mut out = if metadata.allows_repo_mutation {
        "repo edits allowed".to_string()
    } else {
        "repo edits blocked".to_string()
    };
    out.append(" · ");
    out.append(
        if metadata.update_plan_available {
            "`update_plan` available"
        } else {
            "`update_plan` unavailable"
        },
    );
    out.append(" · ");
    out.append(
        if metadata.request_user_input_available {
            "`request_user_input` available"
        } else {
            "`request_user_input` unavailable"
        },
    );
    if metadata.streams_proposed_plan {
        out.append(" · ");
        out.append("streams proposed plan");
    }
    out
}

impl TuiCollaborationModePreset {
    /// What the preset allows.
    pub fn popup_description(&self) -> (out: String)
        ensures
            out@ == capabilities(self.metadata),
    {
        capability_summary(&self.metadata)
    }

    /// The description of the preset, and what it allows.
    pub fn popup_selected_description(&self) -> (out: String)
        ensures
            out@ == self.metadata.description@ + " "@ + capabilities(self.metadata),
    {
        let mut out = self.metadata.description.clone();
        out.append(" ");
        out.append(self.popup_description().as_str());
        out
    }

    /// What the preset can be searched by.
    pub fn popup_search_value(&self) -> (out: String)
        ensures
            out@ == self.mask.name@ + " "@ + self.metadata.description@ + " "@ + capabilities(
                self.metadata,
            ),
    {
        let mut out = self.mask.name.clone();
        out.append(" ");
        out.append(self.metadata.description.as_str());
        out.append(" ");
        out.append(self.popup_description().as_str());
        out
    }
}

/// Whether two masks are of the same preset, whatever was overridden in them.
pub open spec fn same_identity(left: CollaborationModeMask, right: CollaborationModeMask) -> bool {
    left.mode == right.mode && left.name@ == right.name@
}

fn same_mode(left: Option<ModeKind>, right: Option<ModeKind>) -> (r: bool)
    ensures
        r == (left == right),
{
    match (left, right) {
        (Some(a), Some(b)) => a == b,
        (None, None) => true,
        _ => false,
    }
}

/// Whether two masks are of the same preset, whatever was overridden in them.
pub fn same_preset_identity(left: &CollaborationModeMask, right: &CollaborationModeMask) -> (r:
    bool)
    ensures
        r == same_identity(*left, *right),
{
    same_mode(left.mode, right.mode) && text::same_text(left.name.as_str(), right.name.as_str())
}

/// The visible presets, in their order.
pub open spec fn visible(presets: Seq<TuiCollaborationModePreset>) -> Seq<
    TuiCollaborationModePreset,
>
    decreases presets.len(),
{
    if presets.len() == 0 {
        seq![]
    } else {
        let earlier = visible(presets.drop_last());
        if presets.last().metadata.tui_visible {
            earlier.push(presets.last())
        } else {
            earlier
        }
    }
}

/// Keeps the presets that are shown.
pub fn filtered_presets(presets: Vec<TuiCollaborationModePreset>) -> (out: Vec<
    TuiCollaborationModePreset,
>)
    ensures
        out@ == visible(presets@),
{
    let ghost all = presets@;
    let mut left = presets;
    let mut out: Vec<TuiCollaborationModePreset> = Vec::new();
    let ghost mut done: int = 0;
    proof {
        assert(all.skip(0) =~= all);
        assert(out@ =~= visible(all.take(0)));
    }
    while left.len() > 0
        invariant
            0 <= done <= all.len(),
            left@ == all.skip(done),
            out@ == visible(all.take(done)),
        decreases left@.len(),
    {
        let ghost ahead = left@;
        let preset = left.remove(0);
        proof {
            assert(preset == all[done]);
            assert(left@ =~= ahead.skip(1));
            assert(ahead.skip(1) =~= all.skip(done + 1));
            assert(all.take(done + 1).drop_last() =~= all.take(done));
            assert(all.take(done + 1).last() == preset);
            done = done + 1;
        }
        if preset.metadata.tui_visible {
            out.push(preset);
        }
    }
    proof {
        assert(all.take(done) =~= all);
    }
    out
}

/// The place of the first preset of a mode, from the `i`-th on.
pub open spec fn preset_of_mode(
    presets: Seq<TuiCollaborationModePreset>,
    kind: ModeKind,
    i: int,
) -> Option<int>
    decreases presets.len() - i,
{
    if i < 0 || i >= presets.len() {
        None
    } else if presets[i].mask.mode == Some(kind) {
        Some(i)
    } else {
        preset_of_mode(presets, kind, i + 1)
    }
}

fn first_of_kind(presets: &[TuiCollaborationModePreset], kind: ModeKind) -> (r: Option<usize>)
    ensures
        match r {
            Some(i) => preset_of_mode(presets@, kind, 0) == Some(i as int) && i < presets@.len(),
            None => preset_of_mode(presets@, kind, 0) is None,
        },
{
    let mut i: usize = 0;
    while i < presets.len()
        invariant
            i <= presets@.len(),
            preset_of_mode(presets@, kind, 0) == preset_of_mode(presets@, kind, i as int),
        decreases presets@.len() - i,
    {
        if same_mode(presets[i].mask.mode, Some(kind)) {
            return Some(i);
        }
        i += 1;
    }
    None
}

/// The place of the first preset of a mode, where that mode is shown at all.
pub fn mask_for_kind(
    presets: &[TuiCollaborationModePreset],
    kind: ModeKind,
    kind_is_visible: bool,
) -> (r: Option<usize>)
    ensures
        match r {
            Some(i) => kind_is_visible && preset_of_mode(presets@, kind, 0) == Some(i as int)
                && i < presets@.len(),
            None => !kind_is_visible || preset_of_mode(presets@, kind, 0) is None,
        },
{
    if !kind_is_visible {
        return None;
    }
    first_of_kind(presets, kind)
}

/// The place of the preset to start with: the first of the default mode, or
/// the first of all.
pub fn default_mask(presets: &[TuiCollaborationModePreset]) -> (r: Option<usize>)
    ensures
        match (r, preset_of_mode(presets@, ModeKind::Default, 0)) {
            (Some(i), Some(k)) => i == k,
            (Some(i), None) => i == 0 && presets@.len() > 0,
            (None, Some(_)) => false,
            (None, None) => presets@.len() == 0,
        },
{
    match first_of_kind(presets, ModeKind::Default) {
        Some(i) => Some(i),
        None => if presets.len() > 0 {
            Some(0)
        } else {
            None
        },
    }
}

/// The place of the first preset that a mask is of, from the `i`-th on.
pub open spec fn place_of(
    presets: Seq<TuiCollaborationModePreset>,
    current: CollaborationModeMask,
    i: int,
) -> Option<int>
    decreases presets.len() - i,
{
    if i < 0 || i >= presets.len() {
        None
    } else if same_identity(current, presets[i].mask) {
        Some(i)
    } else {
        place_of(presets, current, i + 1)
    }
}

/// The place of the preset after the current one, in a circle. Where there is
/// no current one among them, that is the first.
pub open spec fn next_place(
    presets: Seq<TuiCollaborationModePreset>,
    current: Option<CollaborationModeMask>,
) -> Option<int> {
    if presets.len() == 0 {
        None
    } else {
        match current {
            None => Some(0),
            Some(mask) => match place_of(presets, mask, 0) {
                None => Some(0),
                Some(i) => Some((i + 1) % presets.len() as int),
            },
        }
    }
}

/// The place of the next preset.
pub fn next_mask_from_presets(
    presets: &[TuiCollaborationModePreset],
    current: Option<&CollaborationModeMask>,
) -> (r: Option<usize>)
    ensures
        match r {
            Some(i) => next_place(
                presets@,
                match current {
                    Some(mask) => Some(*mask),
                    None => None,
                },
            ) == Some(i as int) && i < presets@.len(),
            None => presets@.len() == 0,
        },
{
    if presets.len() == 0 {
        return None;
    }
    let mask = match current {
        None => {
            return Some(0);
        },
        Some(mask) => mask,
    };
    let mut i: usize = 0;
    while i < presets.len()
        invariant
            i <= presets@.len(),
            presets@.len() > 0,
            current == Some(mask),
            place_of(presets@, *mask, 0) == place_of(presets@, *mask, i as int),
        decreases presets@.len() - i,
    {
        if same_preset_identity(mask, &presets[i].mask) {
            let next: usize = if i + 1 < presets.len() {
                i + 1
            } else {
                0
            };
            proof {
                let n = presets@.len() as int;
                if i + 1 < n {
                    vstd::arithmetic::div_mod::lemma_small_mod((i + 1) as nat, n as nat);
                } else {
                    assert(n % n == 0) by (nonlinear_arith)
                        requires
                            n > 0,
                    ;
                }
            }
            return Some(next);
        }
        i += 1;
    }
    Some(0)
}

proof fn lemma_place_of_first(
    presets: Seq<TuiCollaborationModePreset>,
    mask: CollaborationModeMask,
    k: int,
    i: int,
)
    requires
        0 <= i <= k < presets.len(),
        same_identity(mask, presets[k].mask),
        forall|j: int| 0 <= j < k ==> !same_identity(mask, (#[trigger] presets[j]).mask),
    ensures
        place_of(presets, mask, i) == Some(k),
    decreases k - i,
{
    if i < k {
        assert(!same_identity(mask, presets[i].mask));
        lemma_place_of_first(presets, mask, k, i + 1);
    }
}

/// Going on from preset to preset passes through all of them: where no two
/// presets are the same, the one at a place is followed by the one at the next
/// place, and the last one by the first.
pub proof fn presets_are_passed_in_a_circle(presets: Seq<TuiCollaborationModePreset>, k: int)
    requires
        0 <= k < presets.len(),
        forall|i: int, j: int|
            0 <= i < presets.len() && 0 <= j < presets.len() && i != j ==> !same_identity(
                (#[trigger] presets[i]).mask,
                (#[trigger] presets[j]).mask,
            ),
    ensures
        next_place(presets, Some(presets[k].mask)) == Some(
            if k + 1 < presets.len() {
                k + 1
            } else {
                0
            },
        ),
{
    assert forall|j: int| 0 <= j < k implies !same_identity(
        presets[k].mask,
        (#[trigger] presets[j]).mask,
    ) by {
        assert(!same_identity(presets[k].mask, presets[j].mask));
    }
    lemma_place_of_first(presets, presets[k].mask, k, 0);
    let n = presets.len() as int;
    if k + 1 < n {
        vstd::arithmetic::div_mod::lemma_small_mod((k + 1) as nat, n as nat);
    } else {
        assert(n % n == 0) by (nonlinear_arith)
            requires
                n > 0,
        ;
    }
}

/// The user may be asked in plan mode always, in the default mode where that is
/// switched on, and never while pairing or executing; a refusal names the mode.
pub proof fn asking_depends_on_the_mode(switched_on: bool)
    ensures
        may_ask(ModeKind::Plan, switched_on),
        may_ask(ModeKind::Default, switched_on) == switched_on,
        !may_ask(ModeKind::PairProgramming, switched_on),
        !may_ask(ModeKind::Execute, switched_on),
        refusal(may_ask(ModeKind::Plan, switched_on), ModeKind::Plan) is None,
        switched_on ==> refusal(may_ask(ModeKind::Default, switched_on), ModeKind::Default) is None,
        !switched_on ==> refusal(may_ask(ModeKind::Default, switched_on), ModeKind::Default)
            == Some("request_user_input is unavailable in "@ + "Default"@ + " mode"@),
        refusal(may_ask(ModeKind::PairProgramming, switched_on), ModeKind::PairProgramming) == Some(
            "request_user_input is unavailable in "@ + "Pair Programming"@ + " mode"@,
        ),
        refusal(may_ask(ModeKind::Execute, switched_on), ModeKind::Execute) == Some(
            "request_user_input is unavailable in "@ + "Execute"@ + " mode"@,
        ),
        mode_name(ModeKind::Plan) == "Plan"@,
        allowed_modes(true) == "Default or Plan mode"@,
        allowed_modes(false) == "Plan mode"@,
{
}

/// A summary tells in turn whether the repository may be changed, whether the
/// plan may be updated and whether the user may be asked, and then that the plan
/// is streamed where it is.
pub proof fn summaries_tell_what_is_allowed(metadata: CollaborationModeMetadata)
    ensures
        capabilities(metadata) == text::joined(
            seq![
                if metadata.allows_repo_mutation {
                    "repo edits allowed"@
                } else {
                    "repo edits blocked"@
                },
                if metadata.update_plan_available {
                    "`update_plan` available"@
                } else {
                    "`update_plan` unavailable"@
                },
                if metadata.request_user_input_available {
                    "`request_user_input` available"@
                } else {
                    "`request_user_input` unavailable"@
                },
            ] + if metadata.streams_proposed_plan {
                seq!["streams proposed plan"@]
            } else {
                seq![]
            },
            " · "@,
        ),
{
    let edits = if metadata.allows_repo_mutation {
        "repo edits allowed"@
    } else {
        "repo edits blocked"@
    };
    let plan = if metadata.update_plan_available {
        "`update_plan` available"@
    } else {
        "`update_plan` unavailable"@
    };
    let input = if metadata.request_user_input_available {
        "`request_user_input` available"@
    } else {
        "`request_user_input` unavailable"@
    };
    let three = seq![edits, plan, input];
    let all = three + if metadata.streams_proposed_plan {
        seq!["streams proposed plan"@]
    } else {
        seq![]
    };
    assert(three.drop_last() =~= seq![edits, plan]);
    assert(seq![edits, plan].drop_last() =~= seq![edits]);
    assert(text::joined(seq![edits], " · "@) == edits);
    assert(text::joined(seq![edits, plan], " · "@) == edits + " · "@ + plan);
    assert(text::joined(three, " · "@) == edits + " · "@ + plan + " · "@ + input);
    if metadata.streams_proposed_plan {
        assert(all.drop_last() =~= three);
    } else {
        assert(all =~= three);
    }
}

/// Just the presets that are visible are kept, in their order.
pub proof fn visible_presets_are_kept(presets: Seq<TuiCollaborationModePreset>)
    ensures
        visible(presets) == presets.filter(
            |preset: TuiCollaborationModePreset| preset.metadata.tui_visible,
        ),
    decreases presets.len(),
{
    reveal(Seq::filter);
    let shown = |preset: TuiCollaborationModePreset| preset.metadata.tui_visible;
    if presets.len() > 0 {
        visible_presets_are_kept(presets.drop_last());
        assert(visible(presets.drop_last()) == presets.drop_last().filter(shown));
    } else {
        assert(visible(presets) =~= presets.filter(shown));
    }
}

/// The preset of a mode is the first one of that mode, and there is none only
/// where no preset is of it.
pub proof fn presets_are_found_by_their_mode(
    presets: Seq<TuiCollaborationModePreset>,
    kind: ModeKind,
    from: int,
)
    requires
        0 <= from <= presets.len(),
    ensures
        match preset_of_mode(presets, kind, from) {
            Some(k) => from <= k < presets.len() && presets[k].mask.mode == Some(kind)
                && forall|j: int| from <= j < k ==> (#[trigger] presets[j]).mask.mode != Some(kind),
            None => forall|j: int|
                from <= j < presets.len() ==> (#[trigger] presets[j]).mask.mode != Some(kind),
        },
    decreases presets.len() - from,
{
    if from < presets.len() && presets[from].mask.mode != Some(kind) {
        presets_are_found_by_their_mode(presets, kind, from + 1);
    }
}

proof fn lemma_no_place(
    presets: Seq<TuiCollaborationModePreset>,
    mask: CollaborationModeMask,
    from: int,
)
    requires
        0 <= from <= presets.len(),
        forall|j: int|
            0 <= j < presets.len() ==> (#[trigger] presets[j]).mask.mode != mask.mode
                || presets[j].mask.name@ != mask.name@,
    ensures
        place_of(presets, mask, from) is None,
    decreases presets.len() - from,
{
    if from < presets.len() {
        lemma_no_place(presets, mask, from + 1);
    }
}

/// Where no preset has the mode and the name of the current one, or there is no
/// current one, the first preset is next; and there is no next one among none.
/// What was overridden in a preset does not matter for which one it is.
pub proof fn unknown_presets_are_followed_by_the_first(
    presets: Seq<TuiCollaborationModePreset>,
    mask: CollaborationModeMask,
    other: CollaborationModeMask,
)
    ensures
        presets.len() > 0 ==> next_place(presets, None) == Some(0int),
        presets.len() == 0 ==> next_place(presets, Some(mask)) is None,
        presets.len() > 0 && (forall|j: int|
            0 <= j < presets.len() ==> (#[trigger] presets[j]).mask.mode != mask.mode
                || presets[j].mask.name@ != mask.name@) ==> next_place(presets, Some(mask)) == Some(
            0int,
        ),
        mask.mode == other.mode && mask.name@ == other.name@ ==> next_place(presets, Some(mask))
            == next_place(presets, Some(other)),
{
    if forall|j: int|
        0 <= j < presets.len() ==> (#[trigger] presets[j]).mask.mode != mask.mode
            || presets[j].mask.name@ != mask.name@ {
        lemma_no_place(presets, mask, 0);
    }
    if mask.mode == other.mode && mask.name@ == other.name@ {
        lemma_same_place(presets, mask, other, 0);
    }
}

proof fn lemma_same_place(
    presets: Seq<TuiCollaborationModePreset>,
    mask: CollaborationModeMask,
    other: CollaborationModeMask,
    from: int,
)
    requires
        0 <= from <= presets.len(),
        mask.mode == other.mode,
        mask.name@ == other.name@,
    ensures
        place_of(presets, mask, from) == place_of(presets, other, from),
    decreases presets.len() - from,
{
    if from < presets.len() {
        lemma_same_place(presets, mask, other, from + 1);
    }
}

/// A question needs at least one option; room for another answer is all that is
/// added to it.
pub proof fn questions_keep_what_they_ask(question: UserQuestion)
    ensures
        question.options is None ==> !has_options(question),
        question.options is Some ==> has_options(question) == (question.options->Some_0@.len() > 0),
        open_question(question).is_other,
        open_question(question).id == question.id,
        open_question(question).header == question.header,
        open_question(question).question == question.question,
        open_question(question).options == question.options,
{
}

} // verus!
