use nexus_chat::error::ErrorKind;
use nexus_chat::stream::{min_stream_poll, refuse_stream_for_a_persona, stream_timings, Span, StreamTimings};

fn secs(s: u64) -> Span {
    Span { secs: s, nanos: 0 }
}

fn millis(m: u32) -> Span {
    Span { secs: 0, nanos: m * 1_000_000 }
}

fn defaults() -> StreamTimings {
    StreamTimings { idle: secs(1800), poll: secs(2), knock_lead: secs(60) }
}

#[test]
fn an_idle_override_keeps_the_knock_inside_the_window() {
    let t = stream_timings(defaults(), Some(secs(60)), Some(millis(500)));
    assert_eq!(t.idle, secs(60));
    assert_eq!(t.poll, millis(500));
    assert_eq!(t.knock_lead, secs(10), "the knock fits inside the window it warns about");
}

#[test]
fn no_override_means_the_defaults() {
    assert_eq!(stream_timings(defaults(), None, None), defaults());
}

#[test]
fn a_poll_below_the_floor_is_raised_to_it_and_one_above_is_kept() {
    assert_eq!(min_stream_poll(), millis(50));
    for spun in [secs(0), millis(1), Span { secs: 0, nanos: 49_999_999 }] {
        assert_eq!(stream_timings(defaults(), None, Some(spun)).poll, millis(50));
    }
    assert_eq!(stream_timings(defaults(), None, Some(millis(200))).poll, millis(200));
}

#[test]
fn a_sixth_of_a_window_carries_the_seconds_remainder_into_the_nanoseconds() {
    let t = stream_timings(defaults(), Some(Span { secs: 7, nanos: 600 }), None);
    assert_eq!(t.knock_lead, Span { secs: 1, nanos: 166_666_766 });
}

#[test]
fn a_registered_persona_may_not_follow_and_a_human_may() {
    assert_eq!(refuse_stream_for_a_persona(None), Ok(()));
    let e = refuse_stream_for_a_persona(Some("local/coder")).unwrap_err();
    assert_eq!(e.kind, ErrorKind::Validation);
    assert_eq!(
        e.msg,
        "--stream is for a human at the keyboard; you are running as local/coder. Send without \
         it — the answer arrives in the thread you opened, and `nxc status --thread <id>` shows \
         where it stands."
    );
}
