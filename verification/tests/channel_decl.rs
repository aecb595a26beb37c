use nexus_chat::channel::{
    cast, channels_casting, commissioned_names, compose_rework_notice, compose_step_input,
    fan_out_targets, validate_channel_for_use, ChannelDecl, ChannelKind, Consolidation,
    ConsolidatorOutput, Expects, Flow, FlowStep, OnComplete, Visibility, CollectedReply,
    DEFAULT_CONSOLIDATOR_STAGE, INPUT_REQUEST,
};
use nexus_chat::role::{Model, WorkingTree};

fn decl(name: &str, members: &[&str], expects: Expects) -> ChannelDecl {
    ChannelDecl {
        name: name.to_string(),
        members: members.iter().map(|s| s.to_string()).collect(),
        kind: ChannelKind::Group,
        description: None,
        expects,
        timeout: None,
        on_complete: OnComplete::PassThrough,
        summary_prompt: None,
        summary_model: None,
        visibility: Visibility::RequesterOnly,
        working_tree: WorkingTree::Shared,
        flow: Flow::Parallel,
        preconditions: Vec::new(),
        steps: Vec::new(),
        rework_notice: None,
    }
}

fn step(id: &str, target: &str) -> FlowStep {
    FlowStep {
        id: id.to_string(),
        target: target.to_string(),
        ..FlowStep::default()
    }
}

fn coding() -> ChannelDecl {
    let mut ch = decl("coding", &["coder", "review", "finisher"], Expects::All);
    ch.steps = vec![
        FlowStep {
            next: Some("check".into()),
            ..step("build", "coder")
        },
        FlowStep {
            next: Some("ship".into()),
            on_needs_rework: Some("build".into()),
            max_passes: Some(3),
            ..step("check", "review")
        },
        step("ship", "finisher"),
    ];
    ch
}

#[test]
fn a_stepped_channels_cast_is_its_step_targets_without_a_member_list() {
    let mut ch = decl("coding", &[], Expects::All);
    ch.steps = vec![step("implement", "coder"), step("review", "inspector")];
    assert_eq!(cast(&ch), ["coder", "inspector"]);
}

#[test]
fn members_still_add_seats_a_step_never_names() {
    let mut ch = decl("coding", &["ckoch"], Expects::All);
    ch.steps = vec![step("implement", "coder")];
    assert_eq!(cast(&ch), ["coder", "ckoch"]);
}

#[test]
fn naming_a_step_target_in_members_too_is_redundant_and_not_an_error() {
    let mut ch = decl("coding", &["coder", "inspector"], Expects::All);
    ch.steps = vec![step("implement", "coder"), step("review", "inspector")];
    assert_eq!(cast(&ch), ["coder", "inspector"]);
}

#[test]
fn an_unstepped_channels_cast_is_its_members() {
    let ch = decl("review", &["code-quality", "integrity"], Expects::All);
    assert_eq!(cast(&ch), ["code-quality", "integrity"]);
}

#[test]
fn the_channels_casting_a_persona_are_the_route_in() {
    let mut coding = decl("coding", &[], Expects::All);
    coding.steps = vec![step("implement", "coder")];
    let review = decl("review", &["coder", "integrity"], Expects::All);
    let elsewhere = decl("marketing", &["writer"], Expects::All);
    let channels = vec![coding, review, elsewhere];
    assert_eq!(channels_casting(&channels, "coder"), ["coding", "review"]);
    assert!(channels_casting(&channels, "nobody").is_empty());
}

#[test]
fn fan_out_targets_over_expects_all_excludes_only_the_sender() {
    let ch = decl("review", &["alice", "bob", "carol"], Expects::All);
    assert_eq!(
        fan_out_targets(&ch, "alice"),
        vec!["bob".to_string(), "carol".to_string()]
    );
}

#[test]
fn fan_out_targets_over_a_subset_ignores_declared_members_outside_the_subset() {
    let ch = decl(
        "review",
        &["alice", "bob", "carol", "dave"],
        Expects::Subset(vec!["bob".to_string(), "dave".to_string()]),
    );
    assert_eq!(
        fan_out_targets(&ch, "alice"),
        vec!["bob".to_string(), "dave".to_string()]
    );
}

#[test]
fn fan_out_targets_removes_the_sender_even_when_a_subset_names_it_explicitly() {
    let ch = decl(
        "review",
        &["alice", "bob"],
        Expects::Subset(vec!["alice".to_string(), "bob".to_string()]),
    );
    assert_eq!(fan_out_targets(&ch, "alice"), vec!["bob".to_string()]);
}

#[test]
fn fan_out_targets_when_sender_is_not_declared_returns_the_whole_set_unchanged() {
    let ch = decl("review", &["bob", "carol"], Expects::All);
    assert_eq!(
        fan_out_targets(&ch, "alice"),
        vec!["bob".to_string(), "carol".to_string()]
    );
}

#[test]
fn validate_channel_for_use_flags_summarize_with_no_summary_prompt() {
    let mut ch = decl("review", &["bob"], Expects::All);
    ch.on_complete = OnComplete::Summarize;
    ch.summary_prompt = None;
    let err = validate_channel_for_use(&ch).expect("must flag a missing summary_prompt");
    assert!(err.what.contains("summary_prompt"), "{err:?}");
}

#[test]
fn validate_channel_for_use_accepts_summarize_with_a_summary_prompt() {
    let mut ch = decl("review", &["bob"], Expects::All);
    ch.on_complete = OnComplete::Summarize;
    ch.summary_prompt = Some("Summarize the replies.".to_string());
    assert_eq!(validate_channel_for_use(&ch), None);
}

#[test]
fn validate_channel_for_use_accepts_pass_through_with_no_summary_prompt() {
    let ch = decl("review", &["bob"], Expects::All);
    assert_eq!(validate_channel_for_use(&ch), None);
}

#[test]
fn every_channel_has_a_consolidator_and_an_undeclared_one_is_pass_through() {
    let ch = decl("review", &["bob"], Expects::All);
    assert_eq!(ch.consolidator(), ConsolidatorOutput::PassThrough);
}

#[test]
fn the_declaration_is_what_decides_which_output_form_runs() {
    let mut ch = decl("review", &["bob"], Expects::All);
    ch.on_complete = OnComplete::Summarize;
    ch.summary_prompt = Some("Fold them.".to_string());
    ch.summary_model = Some(Model::Opus);
    assert_eq!(
        ch.consolidator(),
        ConsolidatorOutput::Fold {
            model: Model::Opus,
            prompt: "Fold them.".to_string(),
        }
    );
}

#[test]
fn a_fold_with_no_declared_model_falls_back_to_the_documented_band_not_to_silence() {
    let mut ch = decl("review", &["bob"], Expects::All);
    ch.on_complete = OnComplete::Summarize;
    ch.summary_prompt = Some("Fold them.".to_string());
    assert_eq!(
        ch.consolidator(),
        ConsolidatorOutput::Fold {
            model: DEFAULT_CONSOLIDATOR_STAGE.model(),
            prompt: "Fold them.".to_string(),
        }
    );
    assert_eq!(DEFAULT_CONSOLIDATOR_STAGE.model(), Model::Sonnet);
}

#[test]
fn an_escalating_set_is_never_folded_whatever_the_channel_declares() {
    let mut ch = decl("review", &["bob"], Expects::All);
    ch.on_complete = OnComplete::Summarize;
    ch.summary_prompt = Some("Fold them.".to_string());
    ch.summary_model = Some(Model::Opus);
    assert_eq!(
        ch.consolidation(false),
        Consolidation {
            output: ConsolidatorOutput::Fold {
                model: Model::Opus,
                prompt: "Fold them.".to_string(),
            },
            escalated: false,
        },
        "no escalation: the declared fold runs"
    );
    assert_eq!(
        ch.consolidation(true),
        Consolidation {
            output: ConsolidatorOutput::PassThrough,
            escalated: true,
        },
        "an escalation: the fold is not run at all and the answers go through as they stand"
    );
}

#[test]
fn a_pass_through_channel_consolidates_the_same_way_either_way() {
    let ch = decl("review", &["bob"], Expects::All);
    assert_eq!(ch.consolidation(false).output, ConsolidatorOutput::PassThrough);
    assert_eq!(ch.consolidation(true).output, ConsolidatorOutput::PassThrough);
    assert!(ch.consolidation(true).escalated);
}

#[test]
fn validate_channel_for_use_stays_silent_about_a_stray_fold_model() {
    let mut ch = decl("review", &["bob"], Expects::All);
    ch.summary_model = Some(Model::Opus);
    assert_eq!(validate_channel_for_use(&ch), None);
}

#[test]
fn two_steps_may_share_one_target_because_the_id_is_what_tells_them_apart() {
    let mut ch = decl("writing", &["writer", "editor"], Expects::All);
    ch.steps = vec![
        FlowStep {
            next: Some("review".into()),
            ..step("draft", "writer")
        },
        FlowStep {
            next: Some("polish".into()),
            ..step("review", "editor")
        },
        step("polish", "writer"),
    ];
    assert_eq!(validate_channel_for_use(&ch), None);
}

#[test]
fn two_steps_under_one_id_are_refused_by_the_check_that_used_to_refuse_a_repeated_target() {
    let mut ch = coding();
    ch.steps.push(step("build", "finisher"));
    let err = validate_channel_for_use(&ch).expect("a duplicate step id must be refused");
    assert!(
        err.what.contains("step id \"build\" is declared twice"),
        "{}",
        err.what
    );
}

#[test]
fn a_back_edge_without_a_ceiling_is_refused_and_so_is_a_ceiling_without_an_edge() {
    let mut ch = coding();
    ch.steps[1].max_passes = None;
    let err = validate_channel_for_use(&ch).expect("an uncapped back edge must be refused");
    assert!(err.what.contains("max_passes"), "{}", err.what);

    let mut ch = coding();
    ch.steps[1].on_needs_rework = None;
    let err = validate_channel_for_use(&ch).expect("a ceiling with no edge must be refused");
    assert!(err.what.contains("on_needs_rework"), "{}", err.what);

    for dead in [0, 1] {
        let mut ch = coding();
        ch.steps[1].max_passes = Some(dead);
        let err = validate_channel_for_use(&ch)
            .unwrap_or_else(|| panic!("max_passes: {dead} must be refused"));
        assert!(
            err.what.contains(&format!("max_passes: {dead}")),
            "{}",
            err.what
        );
        assert!(
            err.what.contains("pass 1") && err.what.contains("below 2"),
            "the message has to say WHY, or the author just tries 1 next: {}",
            err.what
        );
    }
    let mut ch = coding();
    ch.steps[1].max_passes = Some(2);
    assert_eq!(validate_channel_for_use(&ch), None);
}

#[test]
fn a_step_with_no_id_or_no_target_is_refused_by_name() {
    let mut ch = coding();
    ch.steps[0].id = "  ".into();
    let err = validate_channel_for_use(&ch).expect("an empty step id must be refused");
    assert!(err.what.contains("no `id`"), "{}", err.what);

    let mut ch = coding();
    ch.steps[0].target = String::new();
    let err = validate_channel_for_use(&ch).expect("an empty step target must be refused");
    assert!(err.what.contains("no `target`"), "{}", err.what);
}

#[test]
fn a_next_or_back_edge_naming_no_declared_step_is_refused() {
    for (field, mutate) in [
        (
            "next",
            (|s: &mut FlowStep| s.next = Some("nowhere".into())) as fn(&mut FlowStep),
        ),
        ("on_needs_rework", |s: &mut FlowStep| {
            s.on_needs_rework = Some("nowhere".into())
        }),
    ] {
        let mut ch = coding();
        mutate(&mut ch.steps[1]);
        let err = validate_channel_for_use(&ch)
            .unwrap_or_else(|| panic!("a dangling {field} must be refused"));
        assert!(err.what.contains("nowhere"), "{}", err.what);
        assert!(err.what.contains(field), "{}", err.what);
    }
}

#[test]
fn an_input_naming_no_declared_step_is_refused_and_says_the_name() {
    let mut ch = coding();
    ch.steps[2].input = Some(vec!["judge".into()]);
    let err = validate_channel_for_use(&ch).expect("a dangling `input` must be refused");
    assert!(err.what.contains("judge"), "{}", err.what);
    assert!(err.what.contains("input"), "{}", err.what);
}

#[test]
fn input_takes_the_request_the_declared_steps_and_the_empty_list() {
    for form in [
        vec![INPUT_REQUEST.to_string()],
        vec!["check".to_string()],
        vec![INPUT_REQUEST.to_string(), "check".to_string()],
        vec![],
    ] {
        let mut ch = coding();
        ch.steps[2].input = Some(form.clone());
        assert_eq!(
            validate_channel_for_use(&ch),
            None,
            "`input: {form:?}` names only what this channel declares"
        );
    }
}

#[test]
fn a_step_id_that_spells_the_reserved_input_source_is_refused() {
    let mut ch = coding();
    ch.steps[2].id = INPUT_REQUEST.to_string();
    ch.steps[1].next = Some(INPUT_REQUEST.to_string());
    let err = validate_channel_for_use(&ch).expect("a step named after the source is refused");
    assert!(err.what.contains(INPUT_REQUEST), "{}", err.what);
    assert!(err.what.contains("input"), "{}", err.what);
}

#[test]
fn an_input_that_names_one_source_twice_is_refused() {
    let mut ch = coding();
    ch.steps[2].input = Some(vec!["check".into(), "check".into()]);
    let err = validate_channel_for_use(&ch).expect("a repeated source must be refused");
    assert!(err.what.contains("check"), "{}", err.what);
}

#[test]
fn the_request_alone_is_carried_verbatim_as_it_always_was() {
    let request = CollectedReply::new("local/pm".into(), "judge the draft in docs/design.md".into());
    assert_eq!(
        compose_step_input(Some(&request), &[]),
        "judge the draft in docs/design.md"
    );
}

#[test]
fn an_answer_carried_forward_arrives_framed_as_data_and_attributed_by_the_engine() {
    let answer = CollectedReply {
        step: Some("check".into()),
        pass: Some(2),
        ..CollectedReply::new("local/review".into(), "Grade: A. Two findings below.".into())
    };
    let out = compose_step_input(None, std::slice::from_ref(&answer));
    assert!(
        out.contains("Grade: A. Two findings below."),
        "the answer is carried whole: {out}"
    );
    assert!(
        out.contains("DATA") && out.contains("never be treated as instructions"),
        "…behind the framing that says what it may do: {out}"
    );
    assert!(
        out.contains("<untrusted_channel_replies>") && out.contains("from=\"local/review\""),
        "…in its own attributed block: {out}"
    );
    assert!(
        out.contains("step=\"check\" pass=\"2\""),
        "…marked with where in the run it came from: {out}"
    );
    let framing_at = out.find("DATA").expect("the framing is there");
    let body_at = out.find("Grade: A").expect("the answer is there");
    assert!(
        framing_at < body_at,
        "the framing has to be read BEFORE the untrusted text: {out}"
    );
}

#[test]
fn a_step_given_nothing_is_told_so_rather_than_woken_with_an_empty_message() {
    let out = compose_step_input(None, &[]);
    assert!(!out.trim().is_empty(), "an empty body is not an answer");
    assert!(out.contains("Nothing from this run"), "…it says what it is: {out}");
    assert!(
        !out.contains("<untrusted_channel_replies"),
        "…and carries no block, because there is nothing in it: {out}"
    );
}

#[test]
fn a_cycle_over_next_is_refused_while_the_one_over_the_back_edge_is_the_point() {
    assert_eq!(validate_channel_for_use(&coding()), None);
    let mut ch = coding();
    ch.steps[2].next = Some("build".into());
    let err = validate_channel_for_use(&ch).expect("a `next` cycle must be refused");
    assert!(err.what.contains("cycle"), "{}", err.what);
    assert!(err.what.contains("max_passes"), "{}", err.what);
}

#[test]
fn a_step_that_points_next_at_itself_is_the_shortest_such_cycle() {
    let mut ch = coding();
    ch.steps[2].next = Some("ship".into());
    assert!(validate_channel_for_use(&ch).is_some());
}

#[test]
fn steps_and_flow_sequential_are_two_answers_to_one_question_and_the_pair_is_refused() {
    let mut ch = coding();
    ch.flow = Flow::Sequential;
    let err = validate_channel_for_use(&ch).expect("the pair must be refused");
    assert!(err.what.contains("flow=sequential"), "{}", err.what);
    assert!(err.what.contains("steps"), "{}", err.what);
}

#[test]
fn a_stepped_channel_commissions_its_step_targets_and_not_its_members() {
    let mut ch = coding();
    ch.members.push("observer".into());
    assert_eq!(commissioned_names(&ch), vec!["coder", "review", "finisher"]);
    let plain = decl("standup", &["pm", "coder"], Expects::All);
    assert_eq!(commissioned_names(&plain), vec!["pm", "coder"]);
}

#[test]
fn the_rework_notice_carries_the_counter_and_the_three_things_that_go_wrong_without_it() {
    let msg = compose_rework_notice(&coding(), 2, 3, "the lock order is still wrong");
    assert!(msg.contains("This is pass 2 of 3."), "{msg}");
    assert!(msg.ends_with("the lock order is still wrong"), "{msg}");
    assert!(msg.contains("What you handed over"), "{msg}");
    assert!(
        !msg.contains("the party you commissioned"),
        "that is ESCALATION_NOTICE's perspective, and it is the wrong way round here: {msg}"
    );
    assert!(msg.contains("STILL YOURS"), "{msg}");
    assert!(msg.contains("the standard of the party that reviewed it"), "{msg}");
    for role_word in ["coder", "Coder"] {
        assert!(!msg.contains(role_word), "{role_word} in: {msg}");
    }
}

#[test]
fn a_channel_may_override_the_rework_notice_and_the_counter_is_still_substituted() {
    let mut ch = coding();
    ch.rework_notice = Some("Zurueck an dich — Durchgang {pass} von {max}.".into());
    let msg = compose_rework_notice(&ch, 1, 2, "findings");
    assert_eq!(msg, "Zurueck an dich — Durchgang 1 von 2.\n\nfindings");
}

#[test]
fn an_invented_on_key_on_a_step_is_refused_by_name_and_pointed_at_on_needs_rework() {
    for key in ["on_escalate", "on_blocked", "on_insufficient"] {
        let mut ch = decl("coding", &["coder", "review"], Expects::All);
        ch.steps = vec![
            FlowStep {
                next: Some("check".into()),
                ..step("build", "coder")
            },
            FlowStep {
                unknown_keys: vec![key.to_string()],
                ..step("check", "review")
            },
        ];
        let err = validate_channel_for_use(&ch).unwrap_or_else(|| panic!("{key} must be refused"));
        assert!(err.what.contains(key), "{}", err.what);
        assert!(err.what.contains("on_needs_rework"), "{}", err.what);
    }
}

#[test]
fn a_step_carrying_a_model_key_is_refused_and_pointed_at_the_stage() {
    let mut ch = decl("coding", &["coder", "review"], Expects::All);
    ch.steps = vec![
        FlowStep {
            next: Some("check".into()),
            ..step("build", "coder")
        },
        FlowStep {
            unknown_keys: vec!["model".to_string()],
            ..step("check", "review")
        },
    ];
    let err = validate_channel_for_use(&ch).expect("`model:` on a step must be refused");
    assert!(err.what.contains("model"), "{}", err.what);
    assert!(err.what.contains("stage"), "{}", err.what);
}

#[test]
fn any_other_unknown_step_key_is_left_alone() {
    let mut ch = decl("coding", &["coder"], Expects::All);
    ch.steps = vec![FlowStep {
        unknown_keys: vec!["note".to_string()],
        ..step("build", "coder")
    }];
    assert_eq!(validate_channel_for_use(&ch), None);
}

#[test]
fn the_owners_example_as_values_is_usable_and_answers_by_step_id() {
    let mut ch = coding();
    ch.working_tree = WorkingTree::Exclusive;
    assert!(ch.is_stepped());
    assert_eq!(ch.first_step().map(|s| s.id.as_str()), Some("build"));
    let check = ch.step("check").expect("the middle step");
    assert_eq!(check.target, "review");
    assert_eq!(check.on_needs_rework.as_deref(), Some("build"));
    assert_eq!(check.max_passes, Some(3));
    assert_eq!(check.next.as_deref(), Some("ship"));
    assert_eq!(ch.step("ship").and_then(|s| s.next.clone()), None);
    assert!(ch.step("nowhere").is_none());
    assert_eq!(ch.members, vec!["coder", "review", "finisher"]);
    assert_eq!(validate_channel_for_use(&ch), None);
}

#[test]
fn a_step_with_a_band_and_a_task_is_usable() {
    let mut ch = decl("coding", &["coder", "review"], Expects::All);
    ch.steps = vec![
        FlowStep {
            next: Some("check".into()),
            ..step("build", "coder")
        },
        FlowStep {
            stage: Some(nexus_chat::role::Stage::Senior),
            task: Some("Judge the SPECIFICATION, not a diff.\n".to_string()),
            ..step("check", "review")
        },
    ];
    assert_eq!(validate_channel_for_use(&ch), None);
    assert!(!decl("standup", &["pm"], Expects::All).is_stepped());
}

#[test]
fn every_enum_of_a_declaration_defaults_to_what_an_older_file_meant() {
    assert_eq!(OnComplete::default(), OnComplete::PassThrough);
    assert_eq!(Visibility::default(), Visibility::RequesterOnly);
    assert_eq!(ChannelKind::default(), ChannelKind::Group);
    assert_eq!(Flow::default(), Flow::Parallel);
    assert_eq!(Expects::default(), Expects::All);
    assert_eq!(WorkingTree::default(), WorkingTree::Shared);
}
