use nexus_chat::anchor::{fingerprint_of, trim_ascii, Anchor};
use nexus_chat::refs::parse_refs;
use nexus_chat::report::{anchor_line, anchor_suffix, withdrawn_line, WithdrawnHolderStatus};

#[test]
fn the_fingerprint_is_a_pure_function_of_its_three_inputs() {
    let a = fingerprint_of("abc", b" M src.txt\n", b"@@ -1 +1 @@\n");
    let b = fingerprint_of("abc", b" M src.txt\n", b"@@ -1 +1 @@\n");
    assert_eq!(a, b);
    assert_eq!(a.len(), 64, "sha256, hex");
}

#[test]
fn each_of_the_three_inputs_moves_the_fingerprint_on_its_own() {
    let base = fingerprint_of("abc", b"", b"");
    assert_ne!(base, fingerprint_of("abd", b"", b""), "the commit");
    assert_ne!(base, fingerprint_of("abc", b"?? new.txt\n", b""), "untracked");
    assert_ne!(base, fingerprint_of("abc", b"", b"@@ -1 +1 @@\n"), "the diff");
}

#[test]
fn the_three_inputs_cannot_bleed_into_each_other() {
    assert_ne!(
        fingerprint_of("abc", b"?? a\n", b""),
        fingerprint_of("abc", b"", b"?? a\n")
    );
}

#[test]
fn a_diff_that_is_not_valid_utf8_still_fingerprints_and_still_differs() {
    let one = fingerprint_of("abc", b" M latin.txt\n", b"+Gr\xe4\xdfe\n");
    let two = fingerprint_of("abc", b" M latin.txt\n", b"+Gr\xe4\xdfer\n");
    assert_ne!(one, two);
    assert_eq!(one.len(), 64);
}

#[test]
fn trimming_is_ascii_only_and_survives_bytes_that_are_not_text() {
    assert_eq!(trim_ascii(b"  \n"), b"");
    assert_eq!(trim_ascii(b""), b"");
    assert_eq!(trim_ascii(b"\n M a\n"), b"M a");
    assert_eq!(trim_ascii(b"\xff\xfe"), b"\xff\xfe");
}

fn at(commit: &str, branch: &str, dirty: bool, print: &str) -> Anchor {
    Anchor {
        commit: commit.to_string(),
        branch: branch.to_string(),
        dirty,
        fingerprint: print.to_string(),
    }
}

#[test]
fn an_unmoved_tree_has_no_drift() {
    let then = at("aaa", "main", false, "f1");
    assert!(!then.drift_from(&then).any());
}

#[test]
fn a_moved_commit_is_reported_and_the_uncommitted_question_is_not_asked() {
    let then = at("aaa", "main", false, "f1");
    let now = at("bbb", "main", false, "f2");
    let d = now.drift_from(&then);
    assert_eq!(d.commit_now.as_deref(), Some("bbb"));
    assert_eq!(d.branch_now, None);
    assert!(!d.uncommitted_now);
    assert!(d.any());
}

#[test]
fn uncommitted_work_that_moved_under_a_standing_commit_is_the_whole_finding() {
    let then = at("aaa", "main", true, "f1");
    let now = at("aaa", "main", true, "f2");
    let d = now.drift_from(&then);
    assert_eq!(d.commit_now, None);
    assert!(d.uncommitted_now);
    assert!(d.any());
}

#[test]
fn a_tree_that_switched_branch_at_the_same_commit_still_reports_a_drift() {
    let then = at("aaa", "main", false, "f1");
    let now = at("aaa", "release/1.2", false, "f1");
    let d = now.drift_from(&then);
    assert_eq!(d.branch_now.as_deref(), Some("release/1.2"));
    assert!(!d.uncommitted_now);
    assert!(d.any());
}

#[test]
fn a_tree_that_went_detached_says_so_with_an_empty_branch() {
    let then = at("aaa", "main", false, "f1");
    let now = at("aaa", "", false, "f1");
    assert_eq!(now.drift_from(&then).branch_now.as_deref(), Some(""));
}

#[test]
fn the_short_form_is_twelve_digits_and_never_panics_on_a_shorter_one() {
    assert_eq!(at("0123456789abcdef", "main", false, "f").short(), "0123456789ab");
    assert_eq!(at("abc", "main", false, "f").short(), "abc");
}

fn anchored(branch: &str, dirty: bool) -> Anchor {
    Anchor {
        commit: "9f2c1ab4e7d0c5b3a1f8e6d4c2b0a9f8e7d6c5b4".to_string(),
        branch: branch.to_string(),
        dirty,
        fingerprint: "f".repeat(64),
    }
}

#[test]
fn the_two_anchor_renderings_say_the_same_four_things() {
    assert_eq!(
        anchor_suffix(Some(&anchored("feat/parser", true))),
        "  · tree 9f2c1ab4e7d0 on feat/parser, uncommitted work NOT saved"
    );
    assert_eq!(
        anchor_line(&anchored("feat/parser", true)),
        "working copy: 9f2c1ab4e7d0 on feat/parser · uncommitted work NOT saved anywhere"
    );
    assert_eq!(
        anchor_suffix(Some(&anchored("main", false))),
        "  · tree 9f2c1ab4e7d0 on main"
    );
    assert_eq!(
        anchor_line(&anchored("main", false)),
        "working copy: 9f2c1ab4e7d0 on main · clean"
    );
}

#[test]
fn a_thread_with_no_anchor_adds_nothing_at_all_to_its_status_line() {
    assert_eq!(anchor_suffix(None), "");
}

#[test]
fn a_detached_head_is_rendered_as_the_state_it_is_and_not_as_a_branch() {
    assert_eq!(
        anchor_suffix(Some(&anchored("", false))),
        "  · tree 9f2c1ab4e7d0 (detached)"
    );
    assert_eq!(
        anchor_line(&anchored("", true)),
        "working copy: 9f2c1ab4e7d0 detached HEAD · uncommitted work NOT saved anywhere"
    );
}

#[test]
fn the_withdrawn_line_names_who_withdrew_it_and_who_still_pins_it() {
    let pinned = WithdrawnHolderStatus {
        withdrawn_at: "2026-09-19T09:10:00Z".to_string(),
        by: "local/carsten".to_string(),
        pinned_by: vec!["s-1".to_string()],
    };
    assert_eq!(
        withdrawn_line(&pinned),
        "  withdrawn by local/carsten at 2026-09-19T09:10:00Z — waiting to park; still \
         pinned by session(s) s-1"
    );
    let clear = WithdrawnHolderStatus {
        withdrawn_at: "2026-09-19T09:10:00Z".to_string(),
        by: "local/carsten".to_string(),
        pinned_by: Vec::new(),
    };
    assert_eq!(
        withdrawn_line(&clear),
        "  withdrawn by local/carsten at 2026-09-19T09:10:00Z — waiting to park; nothing is \
         pinning it any more, the next tick parks it"
    );
    let both = WithdrawnHolderStatus {
        withdrawn_at: "2026-09-19T09:10:00Z".to_string(),
        by: "local/carsten".to_string(),
        pinned_by: vec!["s-1".to_string(), "s-2".to_string()],
    };
    assert!(withdrawn_line(&both).ends_with("session(s) s-1, s-2"));
}

#[test]
fn parse_refs_builds_scalars_and_repeated_nxf_ids() {
    let r = parse_refs(&[
        "session_id=s1".into(),
        "nxf_ids=6j6v.a".into(),
        "nxf_ids=6j6v.b".into(),
    ])
    .unwrap();
    assert_eq!(r.session_id.as_deref(), Some("s1"));
    assert_eq!(r.nxf_ids, vec!["6j6v.a", "6j6v.b"]);
}

#[test]
fn parse_refs_rejects_an_unknown_key() {
    assert!(parse_refs(&["mystery=x".into()]).is_err());
}
