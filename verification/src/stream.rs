//! **Following a conversation from the terminal**: who may follow at all, and the timings a
//! follow runs on once the operator's overrides are read.
use vstd::prelude::*;
use crate::error::{ErrorKind, NxfError};

verus! {

/// A span of time as whole seconds and the nanoseconds past them.
#[derive(Debug, Clone, Copy, PartialEq, Eq, Structural)]
pub struct Span {
    pub secs: u64,
    pub nanos: u32,
}

/// The nanoseconds of a span never make a whole second.
pub open spec fn span_ok(s: Span) -> bool {
    s.nanos < 1_000_000_000
}

/// A span's length in nanoseconds.
pub open spec fn span_nanos(s: Span) -> int {
    s.secs * 1_000_000_000 + s.nanos
}

/// The shorter of two spans, the first where they are equal.
pub open spec fn span_min(a: Span, b: Span) -> Span {
    if span_nanos(b) < span_nanos(a) {
        b
    } else {
        a
    }
}

/// The longer of two spans, the second where they are equal.
pub open spec fn span_max(a: Span, b: Span) -> Span {
    if span_nanos(b) < span_nanos(a) {
        a
    } else {
        b
    }
}

/// A sixth of a span, as a duration divides: the seconds divided, and the nanoseconds divided
/// with the seconds' remainder carried into them.
pub open spec fn span_sixth(s: Span) -> Span {
    Span {
        secs: s.secs / 6,
        nanos: (s.nanos / 6 + (s.secs % 6) * 1_000_000_000 / 6) as u32,
    }
}

/// Is `b` shorter than `a`?
fn shorter(b: Span, a: Span) -> (r: bool)
    requires
        span_ok(a),
        span_ok(b),
    ensures
        r == (span_nanos(b) < span_nanos(a)),
{
    b.secs < a.secs || (b.secs == a.secs && b.nanos < a.nanos)
}

/// A sixth of a span.
fn sixth(s: Span) -> (r: Span)
    requires
        span_ok(s),
    ensures
        r == span_sixth(s),
        span_ok(r),
{
    let carry: u64 = (s.secs % 6) * 1_000_000_000 / 6;
    Span { secs: s.secs / 6, nanos: (s.nanos / 6) + (carry as u32) }
}

/// The shortest poll interval a follow honours, whatever it is asked for: 50 milliseconds.
pub open spec fn min_stream_poll_spec() -> Span {
    Span { secs: 0, nanos: 50_000_000 }
}

/// The shortest poll interval a follow honours.
pub fn min_stream_poll() -> (s: Span)
    ensures
        s == min_stream_poll_spec(),
{
    Span { secs: 0, nanos: 50_000_000 }
}

/// How long a follow waits in silence, how often it looks, and how long before giving up it
/// knocks.
#[derive(Debug, Clone, Copy, PartialEq, Eq, Structural)]
pub struct StreamTimings {
    pub idle: Span,
    pub poll: Span,
    pub knock_lead: Span,
}

/// All three spans are spans.
pub open spec fn timings_ok(t: StreamTimings) -> bool {
    span_ok(t.idle) && span_ok(t.poll) && span_ok(t.knock_lead)
}

/// **The timings a follow runs on**: the defaults, with the idle window the operator gave, the
/// poll interval the operator gave raised to the floor, and the knock shortened to fit a sixth of
/// the window it warns about.
pub open spec fn stream_timings_of(defaults: StreamTimings, idle: Option<Span>, poll: Option<Span>) -> StreamTimings {
    let w = match idle {
        Some(i) => i,
        None => defaults.idle,
    };
    StreamTimings {
        idle: w,
        poll: match poll {
            Some(p) => span_max(min_stream_poll_spec(), p),
            None => defaults.poll,
        },
        knock_lead: span_min(defaults.knock_lead, span_sixth(w)),
    }
}

/// The timings a follow runs on, from the defaults and the overrides that were given.
pub fn stream_timings(defaults: StreamTimings, idle: Option<Span>, poll: Option<Span>) -> (t: StreamTimings)
    requires
        timings_ok(defaults),
        idle matches Some(i) ==> span_ok(i),
        poll matches Some(p) ==> span_ok(p),
    ensures
        t == stream_timings_of(defaults, idle, poll),
        timings_ok(t),
{
    let w = match idle {
        Some(i) => i,
        None => defaults.idle,
    };
    let floor = min_stream_poll();
    let p = match poll {
        Some(p) => if shorter(p, floor) {
            floor
        } else {
            p
        },
        None => defaults.poll,
    };
    let six = sixth(w);
    let knock = if shorter(six, defaults.knock_lead) {
        six
    } else {
        defaults.knock_lead
    };
    StreamTimings { idle: w, poll: p, knock_lead: knock }
}

/// The knock always fits inside the window it warns about: it is never longer than a sixth of it
/// (nor than the default knock), and a poll interval is never below the floor.
pub proof fn lemma_the_knock_fits_the_window(defaults: StreamTimings, idle: Option<Span>, poll: Option<Span>)
    requires
        timings_ok(defaults),
        idle matches Some(i) ==> span_ok(i),
        poll matches Some(p) ==> span_ok(p),
    ensures
        ({
            let t = stream_timings_of(defaults, idle, poll);
            &&& span_nanos(t.knock_lead) <= span_nanos(span_sixth(t.idle))
            &&& span_nanos(t.knock_lead) <= span_nanos(defaults.knock_lead)
            &&& poll is Some ==> span_nanos(min_stream_poll_spec()) <= span_nanos(t.poll)
        }),
{
}

/// Why a registered persona may not follow: it would block on a conversation it is part of.
pub open spec fn persona_stream_msg(handle: Seq<char>) -> Seq<char> {
    "--stream is for a human at the keyboard; you are running as "@ + handle
        + ". Send without it — the answer arrives in the thread you opened, and `nxc status --thread <id>` shows where it stands."@
}

/// **`--stream` is refused to a registered persona** and allowed to anyone else — a validation
/// error naming the persona and what it should do instead.
pub fn refuse_stream_for_a_persona(persona: Option<&str>) -> (r: Result<(), NxfError>)
    ensures
        match persona {
            None => r is Ok,
            Some(h) => r matches Err(e) && e.kind == ErrorKind::Validation && e.msg@ == persona_stream_msg(h@),
        },
{
    match persona {
        None => Ok(()),
        Some(handle) => {
            let mut m = String::new();
            m.append("--stream is for a human at the keyboard; you are running as ");
            m.append(handle);
            m.append(
                ". Send without it — the answer arrives in the thread you opened, and `nxc status --thread <id>` shows where it stands.",
            );
            Err(NxfError::validation(m))
        },
    }
}

} // verus!
