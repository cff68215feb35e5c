use codex_toolkit::errors::FunctionCallError;
use codex_toolkit::modes::default_mask;
use codex_toolkit::modes::filtered_presets;
use codex_toolkit::modes::mask_for_kind;
use codex_toolkit::modes::next_mask_from_presets;
use codex_toolkit::modes::request_user_input_tool_description;
use codex_toolkit::modes::request_user_input_unavailable_message;
use codex_toolkit::modes::same_preset_identity;
use codex_toolkit::modes::CollaborationModeMask;
use codex_toolkit::modes::CollaborationModeMetadata;
use codex_toolkit::modes::ModeKind;
use codex_toolkit::modes::QuestionOption;
use codex_toolkit::modes::RequestUserInputHandler;
use codex_toolkit::modes::RuntimeRequestUserInputPolicy;
use codex_toolkit::modes::TuiCollaborationModePreset;
use codex_toolkit::modes::UserQuestion;

fn preset(name: &str, mode: ModeKind, model: Option<&str>) -> TuiCollaborationModePreset {
    TuiCollaborationModePreset {
        mask: CollaborationModeMask {
            name: name.to_string(),
            mode: Some(mode),
            model: model.map(ToString::to_string),
            reasoning_effort: Some(Some("medium".to_string())),
            developer_instructions: Some(Some(format!("{name} instructions"))),
        },
        metadata: CollaborationModeMetadata {
            description: format!("About {name}."),
            tui_visible: mode != ModeKind::Execute,
            allows_repo_mutation: mode != ModeKind::Plan,
            update_plan_available: mode != ModeKind::Plan,
            request_user_input_available: mode.allows_request_user_input(),
            requires_proposed_plan_block: mode.requires_proposed_plan_block(),
            streams_proposed_plan: mode.streams_proposed_plan(),
        },
    }
}

fn question(options: Option<Vec<QuestionOption>>) -> UserQuestion {
    UserQuestion {
        id: "q".to_string(),
        header: "h".to_string(),
        question: "why?".to_string(),
        is_other: false,
        options,
    }
}

#[test]
fn request_user_input_mode_availability_defaults_to_plan_only() {
    assert!(ModeKind::Plan.allows_request_user_input());
    assert!(!ModeKind::Default.allows_request_user_input());
    assert!(!ModeKind::Execute.allows_request_user_input());
    assert!(!ModeKind::PairProgramming.allows_request_user_input());
}

#[test]
fn request_user_input_unavailable_messages_respect_default_mode_feature_flag() {
    assert_eq!(
        request_user_input_unavailable_message(ModeKind::Plan, false),
        None
    );
    assert_eq!(
        request_user_input_unavailable_message(ModeKind::Default, false),
        Some("request_user_input is unavailable in Default mode".to_string())
    );
    assert_eq!(
        request_user_input_unavailable_message(ModeKind::Default, true),
        None
    );
    assert_eq!(
        request_user_input_unavailable_message(ModeKind::Execute, false),
        Some("request_user_input is unavailable in Execute mode".to_string())
    );
    assert_eq!(
        request_user_input_unavailable_message(ModeKind::PairProgramming, false),
        Some("request_user_input is unavailable in Pair Programming mode".to_string())
    );
}

#[test]
fn request_user_input_tool_description_mentions_available_modes() {
    assert_eq!(
        request_user_input_tool_description(false),
        "Request user input for one to three short questions and wait for the response. This tool is only available in Plan mode.".to_string()
    );
    assert_eq!(
        request_user_input_tool_description(true),
        "Request user input for one to three short questions and wait for the response. This tool is only available in Default or Plan mode.".to_string()
    );
}

#[test]
fn same_preset_identity_ignores_runtime_mask_overrides() {
    let mut left = preset("Design Review", ModeKind::Plan, Some("gpt-5.1-codex-mini")).mask;
    let right = preset("Design Review", ModeKind::Plan, None).mask;
    left.reasoning_effort = Some(Some("high".to_string()));

    assert!(same_preset_identity(&left, &right));
}

#[test]
fn next_mask_tracks_exact_preset_identity_instead_of_mode_kind() {
    let presets = vec![
        preset("Default", ModeKind::Default, None),
        preset(
            "Default Fast",
            ModeKind::Default,
            Some("gpt-5.1-codex-mini"),
        ),
        preset("Plan", ModeKind::Plan, None),
    ];
    let current = CollaborationModeMask {
        name: "Default Fast".to_string(),
        mode: Some(ModeKind::Default),
        model: Some("gpt-5.1-codex".to_string()),
        reasoning_effort: Some(Some("high".to_string())),
        developer_instructions: Some(Some("override".to_string())),
    };

    let next = next_mask_from_presets(&presets, Some(&current))
        .map(|i| &presets[i].mask)
        .expect("expected next collaboration preset");

    assert_eq!(next.name, "Plan");
    assert_eq!(next.mode, Some(ModeKind::Plan));
}

#[test]
fn proposed_plan_helpers_follow_metadata_shape() {
    let plan = preset("Plan", ModeKind::Plan, None).metadata;
    let default = preset("Default", ModeKind::Default, None).metadata;

    assert!(plan.requires_proposed_plan_block);
    assert!(plan.streams_proposed_plan);
    assert!(!default.requires_proposed_plan_block);
    assert!(!default.streams_proposed_plan);
}

#[test]
fn presets_are_chosen_by_their_kind() {
    let presets = filtered_presets(vec![
        preset("Execute", ModeKind::Execute, None),
        preset("Plan", ModeKind::Plan, None),
        preset("Default", ModeKind::Default, None),
    ]);
    assert_eq!(presets.len(), 2);
    assert_eq!(default_mask(&presets), Some(1));
    assert_eq!(default_mask(&presets[..1]), Some(0));
    assert_eq!(default_mask(&[]), None);
    assert_eq!(mask_for_kind(&presets, ModeKind::Plan, true), Some(0));
    assert_eq!(mask_for_kind(&presets, ModeKind::Plan, false), None);
    assert_eq!(mask_for_kind(&presets, ModeKind::Execute, true), None);
    assert_eq!(next_mask_from_presets(&presets, None), Some(0));
    assert_eq!(next_mask_from_presets(&presets, Some(&presets[1].mask)), Some(0));
}

#[test]
fn presets_are_described() {
    let plan = preset("Plan", ModeKind::Plan, None);
    assert_eq!(
        plan.popup_description(),
        "repo edits blocked · `update_plan` unavailable · `request_user_input` available · streams proposed plan"
    );
    let default = preset("Default", ModeKind::Default, None);
    assert_eq!(
        default.popup_search_value(),
        "Default About Default. repo edits allowed · `update_plan` available · `request_user_input` unavailable"
    );
    assert!(default
        .popup_selected_description()
        .starts_with("About Default. repo edits allowed"));
}

#[test]
fn questions_need_options() {
    let option = QuestionOption {
        label: "yes".to_string(),
        description: "so it is".to_string(),
    };
    let ready = RequestUserInputHandler::prepare(vec![question(Some(vec![option]))])
        .expect("prepared questions");
    assert!(ready[0].is_other);
    for bad in [question(None), question(Some(vec![]))] {
        assert_eq!(
            RequestUserInputHandler::prepare(vec![bad]),
            Err(FunctionCallError::RespondToModel(
                "request_user_input requires non-empty options for every question".to_string()
            ))
        );
    }
    let mut policy = RuntimeRequestUserInputPolicy {
        tool_enabled: true,
        available: true,
        default_mode_enabled: false,
    };
    assert_eq!(
        RequestUserInputHandler::check_use(true, &policy, ModeKind::Plan),
        Ok(())
    );
    assert_eq!(
        RequestUserInputHandler::check_use(false, &policy, ModeKind::Plan),
        Err(FunctionCallError::RespondToModel(
            "request_user_input handler received unsupported payload".to_string()
        ))
    );
    policy.available = false;
    assert_eq!(
        RequestUserInputHandler::check_use(true, &policy, ModeKind::Execute),
        Err(FunctionCallError::RespondToModel(
            "request_user_input is unavailable in Execute mode".to_string()
        ))
    );
    assert_eq!(
        RequestUserInputHandler::cancelled(),
        FunctionCallError::RespondToModel(
            "request_user_input was cancelled before receiving a response".to_string()
        )
    );
}
