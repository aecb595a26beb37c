use nexus_chat::anchor::{anchor_for, fingerprint_of, hex_lower, AnchorRefusal, GitReads, WorkingCopy};
use nexus_chat::channel::{
    compose_accepted_notice, flow_cycles, flow_step_target, validate_channel_for_use,
    validate_channels, ChannelDecl, ChannelKind, Expects, Flow, FlowStep, FlowStepTarget,
    OnComplete, Precondition, Visibility, ACCEPTED_NOTICE, CHANNELS_FILE,
};
use nexus_chat::error::ErrorKind;
use nexus_chat::quorum::is_engine_identity;
use nexus_chat::reach::channels_on_a_flow_cycle;
use nexus_chat::refs::parse_refs;
use nexus_chat::review::{channel_findings, Finding};
use nexus_chat::role::{RoleDecl, WorkingTree};
use nexus_chat::validate::{channel_problem, ChannelProblem, Edge};

fn decl(name: &str, members: &[&str]) -> ChannelDecl {
    ChannelDecl {
        name: name.to_string(),
        members: members.iter().map(|s| s.to_string()).collect(),
        kind: ChannelKind::Group,
        description: None,
        expects: Expects::All,
        timeout: None,
        on_complete: OnComplete::PassThrough,
        summary_prompt: None,
        summary_model: None,
        visibility: Visibility::RequesterOnly,
        working_tree: WorkingTree::Shared,
        flow: Flow::Parallel,
        preconditions: Vec::new(),
        steps: Vec::new(),
        rework_notice: None,
    }
}

fn role(handle: &str) -> RoleDecl {
    RoleDecl {
        handle: handle.to_string(),
        system_prompt: String::new(),
    }
}

fn step(id: &str, target: &str) -> FlowStep {
    FlowStep {
        id: id.to_string(),
        target: target.to_string(),
        ..FlowStep::default()
    }
}

// ---- the flow reaching itself --------------------------------------------------------------

#[test]
fn a_role_wins_a_name_a_channel_also_declares_so_a_member_is_no_cycle() {
    let roles = [role("pm")];
    let channels = [decl("pm", &["pm"])];
    assert!(matches!(
        flow_step_target(&roles, &channels, "pm"),
        Some(FlowStepTarget::Role(_))
    ));
    assert_eq!(flow_cycles(&roles, &channels), vec![]);
    let cycles = flow_cycles(&[], &channels);
    assert_eq!(cycles.len(), 1, "{cycles:?}");
    assert_eq!(cycles[0].file, CHANNELS_FILE);
    assert_eq!(
        cycles[0].what,
        "channel \"pm\": its flow reaches itself through its members — such a flow would never end"
    );
}

#[test]
fn a_cycle_two_channels_long_is_reported_for_both_and_a_channel_leading_into_it_is_not() {
    let channels = [
        decl("entry", &["a"]),
        decl("a", &["b", "writer"]),
        decl("b", &["a"]),
        decl("leaf", &["writer"]),
    ];
    let roles = [role("writer")];
    assert_eq!(channels_on_a_flow_cycle(&roles, &channels), vec![1, 2]);
    let cycles = flow_cycles(&roles, &channels);
    assert_eq!(cycles.len(), 2);
    assert!(cycles[0].what.starts_with("channel \"a\":"));
    assert!(cycles[1].what.starts_with("channel \"b\":"));
}

#[test]
fn a_stepped_channel_reaches_through_its_step_targets() {
    let mut outer = decl("outer", &[]);
    outer.steps = vec![step("go", "inner")];
    let mut inner = decl("inner", &[]);
    inner.steps = vec![step("back", "outer")];
    assert_eq!(channels_on_a_flow_cycle(&[], &[outer, inner]), vec![0, 1]);
}

// ---- the catalogue review ------------------------------------------------------------------

#[test]
fn the_review_reports_each_channel_in_order_then_duplicate_names_then_cycles() {
    let roles = [role("coder"), role("inspector")];
    let mut first = decl("review", &["coder", "ghost"]);
    first.expects = Expects::Subset(vec!["phantom".to_string()]);
    first.summary_model = Some(nexus_chat::role::Model::Opus);
    first.flow = Flow::Sequential;
    first.members.push("coder".to_string());
    let mut second = decl("review", &["inspector"]);
    second.preconditions = vec![
        Precondition { name: " ".to_string(), run: "true".to_string() },
        Precondition { name: "tests".to_string(), run: "cargo test".to_string() },
        Precondition { name: "tests".to_string(), run: "".to_string() },
    ];
    let findings = channel_findings(&roles, &[first.clone(), second.clone()]);
    assert_eq!(
        findings,
        vec![
            Finding::UnknownMember { channel: "review".into(), handle: "ghost".into() },
            Finding::UnknownExpects { channel: "review".into(), handle: "phantom".into() },
            Finding::Unusable {
                channel: "review".into(),
                problem: ChannelProblem::SubsetBesideSequentialFlow,
            },
            Finding::StrayFoldModel { channel: "review".into() },
            Finding::RepeatedFlowStep { channel: "review".into(), target: "coder".into() },
            Finding::UnnamedPrecondition { channel: "review".into() },
            Finding::DuplicatePrecondition { channel: "review".into(), name: "tests".into() },
            Finding::PreconditionWithoutRun { channel: "review".into(), name: "tests".into() },
            Finding::DuplicateChannelName { name: "review".into() },
        ]
    );
    let errors = validate_channels(&roles, &[first, second]);
    assert_eq!(errors.len(), 9);
    assert!(errors.iter().all(|e| e.file == "channels.yaml"));
    assert_eq!(
        errors[0].what,
        "channel \"review\": unknown member handle \"ghost\" — it names neither a declared role \
         nor a declared channel"
    );
    assert_eq!(errors[1].what, "channel \"review\": unknown expects handle \"phantom\"");
    assert!(errors[2].what.contains("flow=sequential cannot be combined with an `expects` subset"));
    assert_eq!(errors[8].what, "duplicate channel name \"review\"");
}

#[test]
fn a_step_that_resumes_a_channel_target_is_refused_and_a_role_target_is_not() {
    let mut coding = decl("coding", &[]);
    coding.steps = vec![
        FlowStep { resume: Some(true), ..step("ask", "panel") },
        FlowStep { resume: Some(true), ..step("fix", "coder") },
    ];
    let panel = decl("panel", &["coder"]);
    let findings = channel_findings(&[role("coder")], &[coding, panel]);
    assert_eq!(
        findings,
        vec![Finding::ResumeOnChannelTarget {
            channel: "coding".into(),
            step: "ask".into(),
            target: "panel".into(),
        }]
    );
}

#[test]
fn an_unknown_step_target_is_named_as_a_step_target() {
    let mut coding = decl("coding", &["observer"]);
    coding.steps = vec![step("build", "nobody")];
    let errors = validate_channels(&[], &[coding]);
    assert_eq!(errors.len(), 1);
    assert_eq!(
        errors[0].what,
        "channel \"coding\": unknown step target \"nobody\" — it names neither a declared role \
         nor a declared channel"
    );
}

// ---- the point-of-use check, problem by problem ---------------------------------------------

fn three_steps() -> ChannelDecl {
    let mut ch = decl("coding", &["coder"]);
    ch.steps = vec![
        FlowStep { next: Some("check".into()), ..step("build", "coder") },
        FlowStep {
            next: Some("ship".into()),
            on_needs_rework: Some("build".into()),
            max_passes: Some(3),
            ..step("check", "coder")
        },
        step("ship", "coder"),
    ];
    ch
}

#[test]
fn each_problem_is_found_as_itself() {
    assert_eq!(channel_problem(&three_steps()), None);

    let mut ch = three_steps();
    ch.steps[1].unknown_keys = vec!["note".into(), "on_escalate".into(), "model".into()];
    assert_eq!(
        channel_problem(&ch),
        Some(ChannelProblem::ForbiddenOnKey { step: "check".into(), key: "on_escalate".into() })
    );
    let what = validate_channel_for_use(&ch).unwrap().what;
    assert!(what.starts_with("channel \"coding\": step \"check\" declares \"on_escalate\" — "), "{what}");

    let mut ch = three_steps();
    ch.steps[1].unknown_keys = vec!["model".into()];
    assert_eq!(channel_problem(&ch), Some(ChannelProblem::ModelOnStep { step: "check".into() }));

    let mut ch = three_steps();
    ch.steps[0].next = Some("nowhere".into());
    assert_eq!(
        channel_problem(&ch),
        Some(ChannelProblem::DanglingEdge {
            step: "build".into(),
            edge: Edge::Next,
            target: "nowhere".into(),
        })
    );

    let mut ch = three_steps();
    ch.steps[2].input = Some(vec!["request".into(), "request".into()]);
    assert_eq!(
        channel_problem(&ch),
        Some(ChannelProblem::RepeatedInputSource { step: "ship".into(), source: "request".into() })
    );

    let mut ch = three_steps();
    ch.steps[1].max_passes = Some(1);
    assert_eq!(
        channel_problem(&ch),
        Some(ChannelProblem::CeilingBelowTwo { step: "check".into(), ceiling: 1 })
    );

    let mut ch = three_steps();
    ch.steps[0].next = Some("ship".into());
    ch.steps[2].next = Some("check".into());
    assert_eq!(channel_problem(&ch), Some(ChannelProblem::NextCycle { step: "build".into() }));
}

#[test]
fn the_first_problem_wins_when_there_are_several() {
    let mut ch = three_steps();
    ch.on_complete = OnComplete::Summarize;
    ch.flow = Flow::Sequential;
    ch.steps[0].target = String::new();
    assert_eq!(channel_problem(&ch), Some(ChannelProblem::SummarizeWithoutPrompt));
    ch.summary_prompt = Some("fold".into());
    assert_eq!(channel_problem(&ch), Some(ChannelProblem::StepsBesideSequentialFlow));
    ch.flow = Flow::Parallel;
    assert_eq!(channel_problem(&ch), Some(ChannelProblem::StepWithoutTarget { step: "build".into() }));
}

#[test]
fn a_name_with_a_quote_in_it_is_quoted_with_its_escape() {
    let mut ch = decl("re\"view", &["bob"]);
    ch.on_complete = OnComplete::Summarize;
    let err = validate_channel_for_use(&ch).unwrap();
    assert_eq!(err.what, "channel \"re\\\"view\": on_complete=summarize requires summary_prompt");
}

#[test]
fn the_accepted_notice_quotes_the_step_and_keeps_the_verdict_after_the_override() {
    let msg = compose_accepted_notice("local/pm", "check", "ship it as is", "needs more tests");
    assert_eq!(
        msg,
        format!(
            "{ACCEPTED_NOTICE}\n\n--- local/pm accepted, and this round goes on ---\nship it as \
             is\n\n--- the verdict of step \"check\", which no longer stands ---\nneeds more tests"
        )
    );
}

// ---- the anchor ----------------------------------------------------------------------------

#[test]
fn the_fingerprint_is_the_hex_sha256_of_the_length_prefixed_inputs() {
    assert_eq!(
        fingerprint_of("abc", b"", b""),
        "126da044ae5834ecc5d38d7c1c22a07d24691df724e959820a16b0a0d146fc77"
    );
    assert_eq!(
        fingerprint_of("abc", b" M src.txt\n", b"@@ -1 +1 @@\n"),
        "f93495cc9ac9ce6d47dca25c7977ae3824582ab643c777a1dca80b917f5bb2d5"
    );
    assert_eq!(hex_lower(&[0x00, 0x0f, 0xa0, 0xff]), "000fa0ff");
}

fn reads(porcelain: &[u8]) -> GitReads {
    GitReads {
        git_dir: Ok(".git".to_string()),
        head: Ok("9f2c1ab4e7d0c5b3a1f8e6d4c2b0a9f8e7d6c5b4".to_string()),
        branch: Ok("main".to_string()),
        porcelain: Ok(porcelain.to_vec()),
        diff: Ok(Vec::new()),
    }
}

#[test]
fn an_anchor_is_taken_from_the_reads_and_says_whether_the_tree_was_dirty() {
    let wc = WorkingCopy::at("/work".to_string());
    let clean = wc.anchor(&reads(b"\n")).unwrap();
    assert_eq!(clean.commit, "9f2c1ab4e7d0c5b3a1f8e6d4c2b0a9f8e7d6c5b4");
    assert_eq!(clean.branch, "main");
    assert!(!clean.dirty, "a lone newline is not work");
    assert_eq!(
        clean.fingerprint,
        fingerprint_of("9f2c1ab4e7d0c5b3a1f8e6d4c2b0a9f8e7d6c5b4", b"\n", b"")
    );
    let dirty = wc.anchor(&reads(b"?? new.txt\n")).unwrap();
    assert!(dirty.dirty);
    assert!(clean.drift_from(&dirty).uncommitted_now);

    let mut detached = reads(b"");
    detached.branch = Err("not a symbolic ref".to_string());
    assert_eq!(wc.anchor(&detached).unwrap().branch, "");
}

#[test]
fn every_refusal_names_the_read_that_failed() {
    let wc = WorkingCopy::at("/work".to_string());
    let mut r = reads(b"");
    r.git_dir = Err("fatal: not a git repository".to_string());
    assert_eq!(
        wc.anchor(&r),
        Err(AnchorRefusal::NotARepository(
            "the working copy at /work is not a git repository, so this handover cannot record \
             where the tree stood — the message is posted either way"
                .to_string()
        ))
    );
    let mut r = reads(b"");
    r.head = Err("fatal: ambiguous argument 'HEAD'".to_string());
    assert_eq!(
        wc.anchor(&r),
        Err(AnchorRefusal::Git("fatal: ambiguous argument 'HEAD'".to_string()))
    );
    let mut r = reads(b"");
    r.diff = Err("diff failed".to_string());
    assert_eq!(wc.anchor(&r).unwrap_err().detail(), "diff failed");
    let none = anchor_for(None, &reads(b"")).unwrap_err();
    assert!(matches!(none, AnchorRefusal::NoWorkingCopy(_)));
    assert!(none.detail().contains("does not run its sessions in a directory"));
    assert!(anchor_for(Some("/work"), &reads(b"")).is_ok());
}

// ---- identities and pointers ---------------------------------------------------------------

#[test]
fn an_engine_identity_is_a_bare_handle_under_the_reserved_prefix() {
    assert!(is_engine_identity("local/__channel__"));
    assert!(is_engine_identity("__synth__"));
    assert!(!is_engine_identity("local/coder"));
    assert!(!is_engine_identity("__org/coder"));
}

#[test]
fn a_pair_without_an_equals_sign_is_refused_by_name_and_the_last_scalar_wins() {
    let err = parse_refs(&["branch".into()]).unwrap_err();
    assert_eq!(err.kind, ErrorKind::Validation);
    assert_eq!(err.msg, "--ref expects k=v, got: branch");
    let err = parse_refs(&["mystery=x".into()]).unwrap_err();
    assert_eq!(err.msg, "unknown --ref key: mystery");
    let r = parse_refs(&[
        "branch=a".into(),
        "branch=b=c".into(),
        "pr=7".into(),
        "nxf_id=x".into(),
    ])
    .unwrap();
    assert_eq!(r.branch.as_deref(), Some("b=c"));
    assert_eq!(r.pr.as_deref(), Some("7"));
    assert_eq!(r.nxf_ids, vec!["x"]);
}
