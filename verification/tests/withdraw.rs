use nexus_chat::withdraw::{withdraw_lines, StoppedSession, WithdrawReceipt, WithdrawnCommission};

fn receipt() -> WithdrawReceipt {
    WithdrawReceipt {
        thread_id: "t0".to_string(),
        withdrawn: vec![WithdrawnCommission { role: "coder".to_string(), thread: "t1".to_string() }],
        stopped: vec![
            StoppedSession {
                role: "tester".to_string(),
                thread: "t2".to_string(),
                session: "s2".to_string(),
                already_gone: None,
            },
            StoppedSession {
                role: "writer".to_string(),
                thread: "t3".to_string(),
                session: "s3".to_string(),
                already_gone: Some("it exited".to_string()),
            },
        ],
        started_meanwhile: Vec::new(),
        will_park: true,
        cannot_park: None,
        warnings: Vec::new(),
    }
}

#[test]
fn a_withdrawal_reports_what_it_took_back_and_where_the_work_goes() {
    assert_eq!(
        withdraw_lines(&receipt()),
        vec![
            "withdrew coder on thread t1 (never started)".to_string(),
            "stopped tester on thread t2 (session s2 was asked to end)".to_string(),
            "withdrew writer on thread t3 — session s3 had already ended, so there was nothing to \
             stop (it exited)"
                .to_string(),
            "its work will be parked on a branch once nothing in this operation is still running \
             (nothing is rolled back): `nxc status` lists the branch under the operation, and the \
             next commission into the same thread — `nxc reply --thread t0` — brings it back. `nxc \
             tick --thread t0` does the park by hand if no background service is running"
                .to_string(),
            "operation t0 is interrupted: nothing below it is commissioned or consolidated any more"
                .to_string(),
        ]
    );
}

#[test]
fn a_withdrawal_that_cannot_park_says_why_and_names_what_started_meanwhile() {
    let mut r = receipt();
    r.will_park = false;
    r.cannot_park = Some("this is not a git repository".to_string());
    r.started_meanwhile = vec!["t4".to_string()];
    let lines = withdraw_lines(&r);
    assert_eq!(lines[3], "NOT withdrawn: thread t4 started while this ran — it has a session now");
    assert_eq!(
        lines[4],
        "its work is in this workspace's working copy and CANNOT be parked on a branch here (this \
         is not a git repository) — the copy is handed on as it stands once nothing in this \
         operation is still running, with the work left in the tree. `nxc tick --thread t0` does \
         that hand-off by hand if no background service is running"
    );
    assert_eq!(
        lines[5],
        "operation t0 is interrupted, except for what started while this ran — `nxc withdraw \
         --thread t0` again stops that too"
    );
    assert_eq!(lines.len(), 6);
}

#[test]
fn a_withdrawal_that_took_nothing_back_says_nothing_of_the_operation() {
    let mut r = receipt();
    r.withdrawn = Vec::new();
    r.will_park = false;
    assert_eq!(
        withdraw_lines(&r)[2],
        "nothing of it is in this workspace's working copy, so there is nothing to park"
    );
    r.stopped = Vec::new();
    assert!(withdraw_lines(&r).is_empty());
}
