use nexus_chat::awaiting::{deadline_of, own_open_sub_round, own_open_sub_round_of, Await, AwaitHow};
use nexus_chat::quorum::ThreadQuorum;

#[test]
fn the_two_readers_differ_in_exactly_one_field_and_agree_on_the_predicates() {
    let polling = Await::poll("m-1", None);
    let resumed = Await::resumed(None);
    assert_eq!(polling.how, AwaitHow::Poll);
    assert_eq!(resumed.how, AwaitHow::Resume);
    assert_eq!(
        polling.poll.as_deref(),
        Some(
            ["nxc", "threads", "show", "m-1", "--json"]
                .map(str::to_string)
                .as_slice()
        )
    );
    assert_eq!(resumed.poll, None, "a persona is resumed, so it must not poll");
    assert_eq!(polling.done_when, resumed.done_when);
    assert_eq!(polling.stopped_when, resumed.stopped_when);
    assert_eq!(polling.answer_at, resumed.answer_at);
}

#[test]
fn the_human_block_names_no_direct_channel_hash_and_offers_stream_only_where_it_is_allowed() {
    let polling = Await::poll("m-1", None).render_human("m-1");
    assert!(polling.contains("nxc threads show    m-1"), "{polling}");
    assert!(polling.contains("nxc status --thread m-1"), "{polling}");
    assert!(polling.contains("--stream"), "{polling}");
    assert!(!polling.contains("dm:"), "{polling}");
    let resumed = Await::resumed(None).render_human("m-1");
    assert!(resumed.contains("do not poll"), "{resumed}");
    assert!(!resumed.contains("--stream"), "{resumed}");
}

fn child(id: &str, opener: &str, owed: &[&str]) -> ThreadQuorum {
    ThreadQuorum {
        thread_id: id.into(),
        channel_id: None,
        opener: Some(opener.into()),
        expects: owed.iter().map(|h| (*h).to_string()).collect(),
        replied: Vec::new(),
        outstanding: owed.iter().map(|h| (*h).to_string()).collect(),
        complete: owed.is_empty(),
        deadline: None,
        stale: false,
        name: None,
        held: false,
    }
}

fn quorum(owed: &[&str]) -> ThreadQuorum {
    ThreadQuorum {
        thread_id: "m-1".into(),
        channel_id: None,
        opener: None,
        expects: vec!["local/coder".into()],
        replied: Vec::new(),
        outstanding: owed.iter().map(|h| (*h).to_string()).collect(),
        complete: owed.is_empty(),
        deadline: Some("2026-09-08T22:41:34Z".into()),
        stale: false,
        name: None,
        held: false,
    }
}

#[test]
fn a_caller_that_commissioned_its_own_round_is_waiting_on_exactly_those_threads() {
    let root = quorum(&["47jy/head-of-marketing"]);
    let kids = [
        child("m-c", "47jy/head-of-marketing", &["47jy/mkt-preis"]),
        child("m-b", "47jy/head-of-marketing", &[]),
        child("m-a", "47jy/head-of-marketing", &["47jy/mkt-positionierung"]),
    ];
    assert_eq!(
        own_open_sub_round(&root, &kids),
        vec!["m-a".to_string(), "m-c".to_string()],
        "the open ones, and only those, oldest first"
    );
}

#[test]
fn the_caller_scoped_form_answers_about_that_caller_and_nobody_else() {
    let mut board = quorum(&["47jy/a", "47jy/b"]);
    board.expects = vec!["47jy/a".into(), "47jy/b".into()];
    let kids = [child("m-b1", "47jy/b", &["47jy/specialist"])];
    assert_eq!(own_open_sub_round(&board, &kids), vec!["m-b1".to_string()]);
    assert!(own_open_sub_round_of("47jy/a", &board, &kids).is_empty());
    assert_eq!(
        own_open_sub_round_of("47jy/b", &board, &kids),
        vec!["m-b1".to_string()]
    );
}

#[test]
fn a_caller_the_thread_is_not_waiting_for_is_waiting_on_nothing_here() {
    let board = quorum(&["47jy/a"]);
    let kids = [child("m-x", "47jy/somebody-else", &["47jy/specialist"])];
    assert!(own_open_sub_round_of("47jy/somebody-else", &board, &kids).is_empty());
}

#[test]
fn a_thread_nobody_owes_an_answer_on_is_waiting_on_nothing() {
    let root = quorum(&[]);
    let kids = [child("m-a", "47jy/head-of-marketing", &["47jy/mkt-preis"])];
    assert!(own_open_sub_round(&root, &kids).is_empty());
}

#[test]
fn a_round_somebody_else_commissioned_is_not_this_callers_waiting() {
    let root = quorum(&["47jy/head-of-marketing"]);
    let kids = [child("m-a", "47jy/somebody-else", &["47jy/mkt-preis"])];
    assert!(own_open_sub_round(&root, &kids).is_empty());
}

#[test]
fn the_channel_supervisors_own_fan_out_is_not_a_role_waiting_on_a_sub_round() {
    let root = quorum(&["local/__channel__"]);
    let kids = [child("m-a", "local/__channel__", &["local/coder"])];
    assert!(own_open_sub_round(&root, &kids).is_empty());
}

#[test]
fn a_window_is_reported_only_while_somebody_still_owes_an_answer_against_it() {
    assert_eq!(
        deadline_of(Some(&quorum(&["local/coder"]))).as_deref(),
        Some("2026-09-08T22:41:34Z")
    );
    assert_eq!(deadline_of(Some(&quorum(&[]))), None);
    assert_eq!(deadline_of(None), None);
}

#[test]
fn a_declared_window_says_how_patient_to_be_in_both_renderings() {
    let a = Await::poll("m-1", Some("2026-09-07T12:00:00Z".to_string()));
    assert_eq!(a.deadline.as_deref(), Some("2026-09-07T12:00:00Z"));
    assert!(a.render_human("m-1").contains("due by 2026-09-07T12:00:00Z"));
    assert!(Await::resumed(Some("2026-09-07T12:00:00Z".to_string()))
        .render_human("m-1")
        .contains("due by 2026-09-07T12:00:00Z"));
}
