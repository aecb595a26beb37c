use nexus_chat::addressees::{open_for, render_for_a_wake, sole_open_thread, Relation};
use nexus_chat::quorum::ThreadQuorum;

fn quorum(id: &str, opener: &str, expects: &[&str], outstanding: &[&str]) -> ThreadQuorum {
    ThreadQuorum {
        thread_id: id.to_string(),
        channel_id: None,
        opener: Some(opener.to_string()),
        expects: expects.iter().map(|h| h.to_string()).collect(),
        replied: expects
            .iter()
            .filter(|h| !outstanding.contains(h))
            .map(|h| h.to_string())
            .collect(),
        outstanding: outstanding.iter().map(|h| h.to_string()).collect(),
        complete: !expects.is_empty() && outstanding.is_empty(),
        deadline: None,
        stale: false,
        name: None,
        held: false,
    }
}

/// The pm commissioned the coder (the coder owes an answer on `t-owed`), and the coder consulted
/// the frontend engineer (still waiting on `t-consulted`).
fn two_open_conversations() -> Vec<ThreadQuorum> {
    vec![
        quorum("t-owed", "local/pm", &["local/coder"], &["local/coder"]),
        quorum("t-consulted", "local/coder", &["local/frontend"], &["local/frontend"]),
    ]
}

/// The same two threads after the frontend engineer answered the consultation.
fn consultation_answered() -> Vec<ThreadQuorum> {
    vec![
        quorum("t-owed", "local/pm", &["local/coder"], &["local/coder"]),
        quorum("t-consulted", "local/coder", &["local/frontend"], &[]),
    ]
}

#[test]
fn one_obligation_is_one_addressee_and_resolves_without_an_id() {
    let qs = vec![quorum("t-1", "local/pm", &["local/coder"], &["local/coder"])];
    let open = open_for(&qs, "local/coder", None);
    assert_eq!(open.len(), 1);
    assert_eq!(open[0].relation, Relation::Owed);
    assert_eq!(open[0].who, vec!["local/pm"], "whoever is waiting is named");
    assert_eq!(sole_open_thread(&qs, "local/coder", None).unwrap(), "t-1");
}

#[test]
fn the_owners_own_case_has_two_open_and_refuses_the_id_free_form() {
    let qs = two_open_conversations();
    let open = open_for(&qs, "local/coder", None);
    assert_eq!(
        open.iter()
            .map(|a| (a.thread_id.as_str(), a.relation))
            .collect::<Vec<_>>(),
        vec![("t-owed", Relation::Owed), ("t-consulted", Relation::Consulted)],
        "the obligation comes first"
    );
    let err = sole_open_thread(&qs, "local/coder", None).unwrap_err();
    assert!(err.msg.contains("2 conversations are open"), "{}", err.msg);
    assert!(err.msg.contains("--thread t-owed"), "{}", err.msg);
    assert!(err.msg.contains("--thread t-consulted"), "{}", err.msg);
}

#[test]
fn an_answered_conversation_stops_being_open() {
    let qs = consultation_answered();
    let open = open_for(&qs, "local/coder", None);
    assert_eq!(
        open.iter().map(|a| a.thread_id.as_str()).collect::<Vec<_>>(),
        vec!["t-owed"],
        "the consultation came back, so only the obligation is left"
    );
    assert_eq!(
        sole_open_thread(&qs, "local/coder", None).unwrap(),
        "t-owed",
        "and the id-free form works again"
    );
}

#[test]
fn the_wake_says_the_id_may_be_left_out_only_while_one_is_open() {
    let qs = two_open_conversations();
    let one = open_for(&qs, "local/frontend", None);
    let block = render_for_a_wake(&one);
    assert!(block.contains("needs no thread id"), "{block}");
    assert!(block.contains("nxc reply --thread t-consulted"), "{block}");
    assert!(block.contains("local/coder"), "the caller is NAMED: {block}");

    let two = open_for(&qs, "local/coder", None);
    let block = render_for_a_wake(&two);
    assert!(block.contains("2 conversations are open"), "{block}");
    assert!(!block.contains("needs no thread id"), "{block}");
    assert!(block.contains("ask local/frontend back"), "{block}");
    assert!(block.contains("the answer goes to local/pm"), "{block}");
    assert!(block.contains("--escalate"), "{block}");
}

#[test]
fn every_wake_line_takes_its_body_from_stdin_like_the_obligation_does() {
    let qs = two_open_conversations();
    let two = open_for(&qs, "local/coder", None);
    let block = render_for_a_wake(&two);
    assert!(block.contains("`nxc reply --thread t-owed -`"), "{block}");
    assert!(block.contains("`nxc reply --thread t-consulted -`"), "{block}");
    assert!(!block.contains("\"<your result>\""), "{block}");
    assert!(block.contains("<<'EOF'"), "{block}");
}

#[test]
fn the_conversation_you_are_standing_in_counts_even_once_it_has_answered() {
    let qs = consultation_answered();
    let open = open_for(&qs, "local/coder", Some("t-consulted"));
    assert_eq!(
        open.iter()
            .map(|a| (a.thread_id.as_str(), a.relation))
            .collect::<Vec<_>>(),
        vec![("t-owed", Relation::Owed), ("t-consulted", Relation::Standing)]
    );
    let block = render_for_a_wake(&open);
    assert!(block.contains("2 conversations are open"), "{block}");
    assert!(block.contains("goes back to local/frontend"), "{block}");
    assert!(block.contains("the answer goes to local/pm"), "{block}");
    assert!(sole_open_thread(&qs, "local/coder", Some("t-consulted")).is_err());
}

#[test]
fn standing_in_the_thread_you_owe_is_still_one_conversation() {
    let qs = two_open_conversations();
    let open = open_for(&qs, "local/coder", Some("t-owed"));
    assert_eq!(
        open.iter()
            .map(|a| (a.thread_id.as_str(), a.relation))
            .collect::<Vec<_>>(),
        vec![("t-owed", Relation::Owed), ("t-consulted", Relation::Consulted)],
        "the position is the obligation, counted once"
    );
}

#[test]
fn nothing_open_says_nothing_at_all() {
    let qs: Vec<ThreadQuorum> = Vec::new();
    let open = open_for(&qs, "local/nobody", None);
    assert!(open.is_empty());
    assert_eq!(render_for_a_wake(&open), "");
    let err = sole_open_thread(&qs, "local/nobody", None).unwrap_err();
    assert!(err.msg.contains("no conversation is waiting"), "{}", err.msg);
}

#[test]
fn a_named_conversation_is_named_in_the_block() {
    let mut qs = two_open_conversations();
    qs[0].name = Some("Fix the login redirect".to_string());
    let open = open_for(&qs, "local/coder", None);
    assert_eq!(open[0].name.as_deref(), Some("Fix the login redirect"));
    let one = vec![open[0].clone()];
    assert!(
        render_for_a_wake(&one).contains("\"Fix the login redirect\" (t-owed)"),
        "{}",
        render_for_a_wake(&one)
    );
    assert!(
        render_for_a_wake(&one).contains("not an instruction to you"),
        "{}",
        render_for_a_wake(&one)
    );
    let mut unnamed = open[0].clone();
    unnamed.name = None;
    assert!(!render_for_a_wake(&[unnamed]).contains("not an instruction to you"));
}
