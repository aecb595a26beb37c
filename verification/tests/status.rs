use nexus_chat::anchor::Anchor;
use nexus_chat::report::{
    operation_detail_lines, park_refused_line, parked_line, ParkRefusalNote, Parked, ParkedWork,
    StatusOperation, WithdrawnHolderStatus,
};
use nexus_chat::status::{
    interruption_suffix, says_why, session_suffix, status_line, working_tree_suffix, Interruption,
    SessionState, StatusThread, ThreadState, WorkingTreeStatus,
};
use nexus_chat::tick::{
    changes_the_exit_code, promotion_lines, sweep_headline, ConsequenceClass, FailedConsequence, PromotedTrigger,
    Promotions, WakeSkipReason, WorkingTreeSweep,
};

#[test]
fn a_park_that_was_refused_is_reported_without_failing_the_verb() {
    let held = FailedConsequence::work_not_parked(Some("t1"), "a merge is in progress");
    let unparked =
        FailedConsequence::work_handed_on_unparked(Some("t1"), "this is not a git repository");
    assert_eq!(held.class, ConsequenceClass::WorkNotParked);
    assert_eq!(unparked.class, ConsequenceClass::WorkHandedOnUnparked);
    assert!(
        !changes_the_exit_code(std::slice::from_ref(&held)),
        "the claim stayed and the retry is armed — the verb did what it was asked"
    );
    assert!(
        !changes_the_exit_code(std::slice::from_ref(&unparked)),
        "the copy went on and the finding is the whole of what went differently"
    );
    assert!(!changes_the_exit_code(&[held.clone(), unparked.clone()]));
    assert!(changes_the_exit_code(&[
        held,
        unparked,
        FailedConsequence::step_skipped(
            Some("t1"),
            Some("s1"),
            WakeSkipReason::Unresolved,
            "nobody was put to work",
        ),
    ]));
}

/// A sweep as a tick reports one: `started` empty means the reclaim behind the park matched
/// nothing, so the lease never moved.
fn a_sweep(started: bool, parked: bool) -> WorkingTreeSweep {
    WorkingTreeSweep {
        scope: "thread:t1".to_string(),
        expired: "2026-09-08T11:00:00Z".to_string(),
        parked: if parked {
            Some(Parked {
                branch: "nxs/park/t1".to_string(),
                commit: "abc1234".to_string(),
                base_branch: "release/1.2".to_string(),
                base_commit: "def5678".to_string(),
                created_branch: true,
                committed: true,
            })
        } else {
            None
        },
        unparked: None,
        promotions: Promotions {
            started: if started {
                vec![PromotedTrigger {
                    thread: "t2".to_string(),
                    role: "solo".to_string(),
                    session: "s2".to_string(),
                }]
            } else {
                Vec::new()
            },
            ..Default::default()
        },
    }
}

#[test]
fn a_sweep_that_saved_the_work_but_moved_nothing_does_not_claim_a_reclaim() {
    assert_eq!(
        sweep_headline(&a_sweep(true, true)),
        "reclaimed this workspace's working copy from thread:t1 (its lease ran out at \
         2026-09-08T11:00:00Z)"
    );
    let stayed = sweep_headline(&a_sweep(false, true));
    assert!(
        !stayed.contains("reclaimed"),
        "nothing was reclaimed: {stayed}"
    );
    assert!(
        stayed.contains("thread:t1") && stayed.contains("2026-09-08T11:00:00Z"),
        "it still names the operation and the bound it ran past: {stayed}"
    );
    assert!(
        stayed.contains("still holds") || stayed.contains("keeps"),
        "…and says the copy stayed with it: {stayed}"
    );
}

#[test]
fn every_class_but_the_reports_turns_the_exit_code_red() {
    assert!(!changes_the_exit_code(&[]));
    let step_unanswered = FailedConsequence {
        class: ConsequenceClass::StepUnanswered,
        thread_id: None,
        session_id: None,
        reason: None,
        detail: "the round settled without it".to_string(),
    };
    assert!(changes_the_exit_code(&[step_unanswered]));
    for class in [
        ConsequenceClass::TickUnscheduled,
        ConsequenceClass::ServiceNotRunning,
        ConsequenceClass::DeclarationChanged,
    ] {
        let report = FailedConsequence {
            class,
            thread_id: None,
            session_id: None,
            reason: None,
            detail: String::new(),
        };
        assert!(!changes_the_exit_code(&[report]));
    }
}

#[test]
fn a_consequence_keeps_the_thread_session_and_words_it_was_made_with() {
    let c = FailedConsequence::step_skipped(None, Some("s9"), WakeSkipReason::Unresolved, "why");
    assert_eq!(c.class, ConsequenceClass::StepSkipped);
    assert_eq!(c.thread_id, None);
    assert_eq!(c.session_id.as_deref(), Some("s9"));
    assert_eq!(c.reason, Some(WakeSkipReason::Unresolved));
    assert_eq!(c.detail, "why");
}

#[test]
fn a_sweep_that_moved_only_a_requeued_commission_is_still_a_reclaim() {
    let mut swept = a_sweep(false, false);
    swept.promotions.requeued.push(PromotedTrigger {
        thread: "t3".to_string(),
        role: "solo".to_string(),
        session: "s3".to_string(),
    });
    assert!(!swept.promotions.nothing_moved());
    assert!(sweep_headline(&swept).starts_with("reclaimed this workspace's working copy from"));
}

fn a_thread() -> StatusThread {
    StatusThread {
        thread_id: "t1".to_string(),
        depth: 0,
        name: None,
        channel_id: Some("review".to_string()),
        state: ThreadState::Open,
        stale: false,
        escalated: false,
        substituted: false,
        awaiting_human: false,
        expects: vec!["local/coder".to_string()],
        outstanding: vec!["local/coder".to_string(), "local/tester".to_string()],
        waiting_on_sub_round: Vec::new(),
        session_state: None,
        interrupted: None,
        working_copy: None,
        working_tree: None,
    }
}

#[test]
fn an_open_thread_names_who_it_is_waiting_on() {
    assert_eq!(
        status_line(&a_thread()),
        "  t1  review  waiting on local/coder, local/tester"
    );
    let mut late = a_thread();
    late.stale = true;
    late.depth = 2;
    late.name = Some("the release".to_string());
    assert_eq!(
        status_line(&late),
        "      t1  the release  waiting on local/coder, local/tester (overdue)"
    );
}

#[test]
fn an_escalated_thread_is_handed_back_and_never_merely_answered() {
    let mut t = a_thread();
    t.escalated = true;
    t.state = ThreadState::Answered;
    assert_eq!(status_line(&t), "  t1  review  handed back by local/coder (escalation)");
    t.awaiting_human = true;
    assert_eq!(
        status_line(&t),
        "  t1  review  awaiting you — HANDED BACK by local/coder"
    );
    t.expects = Vec::new();
    assert_eq!(status_line(&t), "  t1  review  awaiting you — HANDED BACK");
    for awaiting in [false, true] {
        t.awaiting_human = awaiting;
        assert!(!status_line(&t).contains("answered"), "{}", status_line(&t));
    }
}

#[test]
fn an_answered_root_is_with_the_human_and_a_substituted_answer_says_who_wrote_it() {
    let mut t = a_thread();
    t.state = ThreadState::Answered;
    t.awaiting_human = true;
    t.substituted = true;
    assert_eq!(
        status_line(&t),
        "  t1  review  awaiting you (answered by local/coder) — posted BY THE RUNTIME, not by the agent"
    );
    t.awaiting_human = false;
    t.substituted = false;
    assert_eq!(status_line(&t), "  t1  review  answered");
    t.state = ThreadState::Orphaned;
    t.channel_id = None;
    assert_eq!(status_line(&t), "  t1    ORPHANED (answered, nothing follows)");
}

#[test]
fn a_row_carries_its_sub_round_session_hold_and_anchor_in_that_order() {
    let mut t = a_thread();
    t.waiting_on_sub_round = vec!["t7".to_string(), "t8".to_string()];
    t.session_state = Some(SessionState::Running);
    t.working_copy = Some(Anchor {
        commit: "9f2c1ab4e7d0aa11".to_string(),
        branch: "main".to_string(),
        dirty: true,
        fingerprint: String::new(),
    });
    assert_eq!(
        status_line(&t),
        "  t1  review  waiting on local/coder, local/tester — waiting on its own sub-round (2 open) \
         (its session is running)  · tree 9f2c1ab4e7d0 on main, uncommitted work NOT saved"
    );
    t.interrupted = Some(Interruption { limit: "usage".to_string(), until: None });
    assert_eq!(
        status_line(&t),
        "  t1  review  waiting on local/coder, local/tester — waiting on its own sub-round (2 open) \
         — ON HOLD, the model is not available to it (usage, and NOTHING will take it up on its own)  \
         · tree 9f2c1ab4e7d0 on main, uncommitted work NOT saved"
    );
}

#[test]
fn an_ended_session_is_nothing_coming_only_when_it_waits_on_nothing_of_its_own() {
    let mut t = a_thread();
    t.session_state = Some(SessionState::Ended);
    assert_eq!(session_suffix(&t), " — ITS SESSION HAS ENDED, nothing is coming");
    t.waiting_on_sub_round = vec!["t7".to_string()];
    assert_eq!(session_suffix(&t), "");
    t.waiting_on_sub_round = Vec::new();
    t.interrupted = Some(Interruption {
        limit: "usage".to_string(),
        until: Some("2026-09-08T12:00:00Z".to_string()),
    });
    assert_eq!(session_suffix(&t), "");
    t.interrupted = None;
    t.state = ThreadState::Answered;
    assert_eq!(session_suffix(&t), "");
    t.state = ThreadState::Open;
    t.session_state = Some(SessionState::Unknown);
    assert_eq!(session_suffix(&t), "");
}

#[test]
fn a_hold_says_when_the_model_is_back() {
    let hold = Interruption {
        limit: "five-hour limit".to_string(),
        until: Some("2026-09-08T12:00:00Z".to_string()),
    };
    assert_eq!(
        interruption_suffix(Some(&hold)),
        " — ON HOLD, the model is not available to it (five-hour limit, back at 2026-09-08T12:00:00Z)"
    );
    assert_eq!(interruption_suffix(None), "");
}

#[test]
fn a_listing_keeps_every_row_that_says_why() {
    let mut t = a_thread();
    t.depth = 1;
    t.state = ThreadState::Answered;
    assert!(!says_why(&t), "the answered middle of a chain is folded away");
    t.depth = 0;
    assert!(says_why(&t), "the root always has its row");
    t.depth = 1;
    t.escalated = true;
    assert!(says_why(&t));
    t.escalated = false;
    t.substituted = true;
    assert!(says_why(&t));
    t.substituted = false;
    t.working_tree = Some(WorkingTreeStatus::Waiting);
    assert!(says_why(&t));
    t.working_tree = None;
    t.interrupted = Some(Interruption { limit: "usage".to_string(), until: None });
    assert!(says_why(&t));
    t.interrupted = None;
    t.state = ThreadState::Orphaned;
    assert!(says_why(&t));
}

#[test]
fn the_working_tree_suffix_names_the_place_in_line_where_it_is_known() {
    assert_eq!(working_tree_suffix(Some(WorkingTreeStatus::Holding), Some(3)), "  · holding working tree");
    assert_eq!(
        working_tree_suffix(Some(WorkingTreeStatus::Waiting), Some(12)),
        "  · waiting for working tree (#12)"
    );
    assert_eq!(
        working_tree_suffix(Some(WorkingTreeStatus::Waiting), Some(-4)),
        "  · waiting for working tree (#-4)"
    );
    assert_eq!(
        working_tree_suffix(Some(WorkingTreeStatus::Waiting), None),
        "  · waiting for working tree"
    );
    assert_eq!(working_tree_suffix(None, Some(1)), "");
}

fn parked(commit: &str, committed: bool) -> ParkedWork {
    ParkedWork {
        parked: Parked {
            branch: "nxs/park/t1".to_string(),
            commit: commit.to_string(),
            base_branch: "main".to_string(),
            base_commit: "def5678".to_string(),
            created_branch: true,
            committed,
        },
        parked_at: "2026-09-08T11:00:00Z".to_string(),
    }
}

#[test]
fn a_parked_line_prints_seven_characters_of_the_commit_and_says_when_nothing_was_saved() {
    assert_eq!(
        parked_line(&parked("abc1234def5678", true)),
        "  parked on nxs/park/t1 at abc1234 since 2026-09-08T11:00:00Z"
    );
    assert_eq!(
        parked_line(&parked("abc", false)),
        "  parked on nxs/park/t1 at abc since 2026-09-08T11:00:00Z, nothing was uncommitted"
    );
}

#[test]
fn an_operation_lists_withdrawn_then_refused_then_parked() {
    let op = StatusOperation {
        withdrawn: vec![WithdrawnHolderStatus {
            withdrawn_at: "2026-09-19T09:10:00Z".to_string(),
            by: "local/carsten".to_string(),
            pinned_by: Vec::new(),
        }],
        park_refused: Some(ParkRefusalNote {
            refusal: "merge_in_progress".to_string(),
            detail: "finish the merge first".to_string(),
            since: "2026-09-19T09:11:00Z".to_string(),
        }),
        parked: vec![parked("abc1234def", true), parked("0123456789", false)],
    };
    assert_eq!(
        operation_detail_lines(&op),
        vec![
            "  withdrawn by local/carsten at 2026-09-19T09:10:00Z — waiting to park; nothing is \
             pinning it any more, the next tick parks it"
                .to_string(),
            "  park refused (merge_in_progress): finish the merge first — retrying since \
             2026-09-19T09:11:00Z"
                .to_string(),
            "  parked on nxs/park/t1 at abc1234 since 2026-09-08T11:00:00Z".to_string(),
            "  parked on nxs/park/t1 at 0123456 since 2026-09-08T11:00:00Z, nothing was uncommitted"
                .to_string(),
        ]
    );
    let quiet = StatusOperation { withdrawn: Vec::new(), park_refused: None, parked: Vec::new() };
    assert!(operation_detail_lines(&quiet).is_empty());
    assert_eq!(
        park_refused_line(op.park_refused.as_ref().unwrap()),
        "  park refused (merge_in_progress): finish the merge first — retrying since 2026-09-19T09:11:00Z"
    );
}

#[test]
fn a_hand_off_accounts_for_started_requeued_failed_and_noticed_in_that_order() {
    let t = |thread: &str| PromotedTrigger {
        thread: thread.to_string(),
        role: "solo".to_string(),
        session: format!("s-{thread}"),
    };
    let p = Promotions {
        started: vec![t("t1")],
        requeued: vec![t("t2")],
        failed: vec![t("t3")],
        warnings: vec!["the queue was empty".to_string()],
    };
    assert_eq!(
        promotion_lines(&p),
        vec![
            "started solo on thread t1 (it had been waiting for it)".to_string(),
            "back in line: solo on thread t2 — the working copy had moved on again by the time it \
             was started, so it is waiting again, in the place it already had"
                .to_string(),
            "NOT started: solo on thread t3 — its message is persisted and session s-t3 is minted, \
             but nothing is running for it"
                .to_string(),
            "note: the queue was empty".to_string(),
        ]
    );
    assert!(promotion_lines(&Promotions::default()).is_empty());
}
