use nexus_chat::anchor::Drift;
use nexus_chat::error::ErrorKind;
use nexus_chat::report::Parked;
use nexus_chat::resume::{resume_lines, resume_scope, ResumeOutcome, ResumeReceipt, ResumeScope};
use nexus_chat::tick::{
    tick_lines, FailedConsequence, HandedOn, ParkOccasion, PromotedTrigger, Promotions, StrandedPark,
    TickOutcome, TickReceipt, WorkingTreeSweep,
};

fn parked(committed: bool, base_branch: &str) -> Parked {
    Parked {
        branch: "nxs/park/t1".to_string(),
        commit: "abc1234".to_string(),
        base_branch: base_branch.to_string(),
        base_commit: "def5678".to_string(),
        created_branch: true,
        committed,
    }
}

fn quiet_tick(outcome: TickOutcome) -> TickReceipt {
    TickReceipt {
        thread_id: "t9".to_string(),
        parked: None,
        handed_on: None,
        working_tree: None,
        outcome,
        warnings: Vec::new(),
    }
}

#[test]
fn a_tick_that_did_nothing_else_prints_only_its_outcome() {
    assert_eq!(
        tick_lines(&quiet_tick(TickOutcome::Acted { delivered: Some("2 answers".to_string()) })),
        vec!["tick acted on thread t9: 2 answers".to_string()]
    );
    assert_eq!(
        tick_lines(&quiet_tick(TickOutcome::Advanced { first_warning: None })),
        vec!["tick advanced the flow on thread t9".to_string()]
    );
    assert_eq!(
        tick_lines(&quiet_tick(TickOutcome::Advanced { first_warning: Some("late".to_string()) })),
        vec!["tick advanced the flow on thread t9: late".to_string()]
    );
    assert_eq!(
        tick_lines(&quiet_tick(TickOutcome::NothingToDo { reason: "not due".to_string() })),
        vec!["tick: nothing to do for thread t9 (not due)".to_string()]
    );
    assert_eq!(
        tick_lines(&quiet_tick(TickOutcome::WaitingForASession)),
        vec!["tick declined on thread t9: the set is settled, but a session behind it is still \
              running. It moves on when that session ends (the sidecar reports it) — or run this \
              again once it has."
            .to_string()]
    );
}

#[test]
fn a_tick_reports_each_hand_off_before_its_outcome() {
    let mut r = quiet_tick(TickOutcome::Acted { delivered: None });
    r.parked = Some(StrandedPark {
        scope: "thread:t1".to_string(),
        contended_since: "11:00".to_string(),
        parked: parked(false, ""),
        promotions: Promotions::default(),
    });
    r.handed_on = Some(HandedOn {
        scope: "thread:t2".to_string(),
        occasion: ParkOccasion::Withdrawn,
        parked: None,
        unparked: Some("not_a_repository".to_string()),
        promotions: Promotions {
            started: vec![PromotedTrigger {
                thread: "t3".to_string(),
                role: "solo".to_string(),
                session: "s3".to_string(),
            }],
            ..Default::default()
        },
    });
    r.working_tree = Some(WorkingTreeSweep {
        scope: "thread:t4".to_string(),
        expired: "12:00".to_string(),
        parked: Some(parked(true, "main")),
        unparked: None,
        promotions: Promotions::default(),
    });
    assert_eq!(
        tick_lines(&r),
        vec![
            "parked thread:t1: it escalated and nobody answered, and the working copy has been \
             contended since 11:00. Its work is committed on branch nxs/park/t1 at abc1234, and \
             the tree is back on def5678"
                .to_string(),
            "(there was nothing uncommitted to save — the tree was already clean)".to_string(),
            "handed on the working copy of thread:t2 WITHOUT parking its work (not_a_repository): \
             its running round was withdrawn and nothing in it is running any more, and its park \
             cannot happen — whatever it left uncommitted is still in the tree"
                .to_string(),
            "started solo on thread t3 (it had been waiting for it)".to_string(),
            "thread:t4 is past its bound (12:00) and its work was saved, but this workspace's \
             working copy did NOT move: that operation renewed its claim while its work was being \
             parked, so it still holds the copy — and its own next trigger is told where the work \
             is"
                .to_string(),
            "its work is committed on branch nxs/park/t1 at abc1234, and the tree is back on main"
                .to_string(),
            "tick acted on thread t9: ".to_string(),
        ]
    );
}

#[test]
fn a_resume_names_its_operation_by_thread_first() {
    assert_eq!(resume_scope(Some("t1"), Some("s1")), Ok(ResumeScope::Thread("t1".to_string())));
    assert_eq!(resume_scope(None, Some("s1")), Ok(ResumeScope::Session("s1".to_string())));
    let e = resume_scope(None, None).unwrap_err();
    assert_eq!(e.kind, ErrorKind::Validation);
    assert!(e.msg.contains("--thread <id>") && e.msg.contains("--session <id>"), "{}", e.msg);
}

fn receipt(outcome: ResumeOutcome) -> ResumeReceipt {
    ResumeReceipt {
        thread: Some("t1".to_string()),
        session: None,
        outcome,
        armed_for: None,
        warnings: Vec::new(),
    }
}

#[test]
fn a_resume_that_must_wait_says_where_the_copy_is_and_when_it_is_armed() {
    let mut r = receipt(ResumeOutcome::NotYet { until: Some("13:00".to_string()) });
    r.armed_for = Some("13:00".to_string());
    r.warnings = vec![FailedConsequence::work_not_parked(Some("t1"), "a merge is in progress")];
    assert_eq!(
        resume_lines(&r),
        vec![
            "not yet: the model is not available to this operation until 13:00. Its working copy \
             is still held — its park was refused (see below) and is retried on every tick, and \
             it is taken up on its own once the window lifts. `--force` starts it now — with \
             another account, say"
                .to_string(),
            "  · armed to be taken up at 13:00".to_string(),
            "  ! a merge is in progress".to_string(),
        ]
    );
    let r = receipt(ResumeOutcome::NotYet { until: None });
    assert_eq!(
        resume_lines(&r),
        vec!["on hold, and the runtime stated no reset instant — so NOTHING will take this up on \
              its own. Its working copy has been handed on. Run this again with `--force` when \
              you know the model is available again"
            .to_string()]
    );
}

#[test]
fn a_resume_over_a_moved_tree_says_what_moved() {
    let r = receipt(ResumeOutcome::TreeMoved {
        drift: Drift {
            commit_now: Some("0123abc".to_string()),
            branch_now: Some(String::new()),
            uncommitted_now: true,
        },
    });
    assert_eq!(
        resume_lines(&r),
        vec![
            "NOT resumed: the working copy has moved since this operation was interrupted, so a \
             question went back to the thread that started it"
                .to_string(),
            "  · HEAD is a different commit now: 0123abc".to_string(),
            "  · the working copy is on a detached HEAD now".to_string(),
            "  · the commit is where it was and the uncommitted work is not".to_string(),
        ]
    );
}

#[test]
fn a_resume_names_the_session_or_a_dash() {
    assert_eq!(
        resume_lines(&receipt(ResumeOutcome::Resumed)),
        vec!["resumed - on thread t1, with its own transcript in front of it".to_string()]
    );
    let mut r = receipt(ResumeOutcome::AlreadyRunning);
    r.session = Some("s7".to_string());
    assert_eq!(
        resume_lines(&r),
        vec!["already running: a process is working for session s7 right now, so nothing was \
              started — one session, one process"
            .to_string()]
    );
    r.thread = None;
    r.outcome = ResumeOutcome::AlreadyAnswered;
    assert_eq!(
        resume_lines(&r),
        vec!["nothing to continue: thread - was already answered before the interruption, so the \
              round is finished and the hold is closed"
            .to_string()]
    );
}
