//! **Taking an interrupted operation up again**: which operation a request names, and what the
//! person who asked is told about the outcome.
use vstd::prelude::*;
use crate::anchor::Drift;
use crate::error::{ErrorKind, NxfError};
use crate::text::views;
use crate::tick::{ConsequenceClass, FailedConsequence};

verus! {

/// Which operation a resume names: by its thread, or by its session.
#[derive(Debug, Clone, PartialEq, Eq)]
pub enum ResumeScope {
    Thread(String),
    Session(String),
}

/// Why a resume names nothing.
pub const NAME_THE_OPERATION: &'static str = "name the operation to take up: `--thread <id>` (what `nxc status` shows) or `--session <id>`";

/// **The operation a resume names**: the thread where one is given, else the session; a
/// validation error where neither is.
pub fn resume_scope(thread: Option<&str>, session: Option<&str>) -> (r: Result<ResumeScope, NxfError>)
    ensures
        match (thread, session) {
            (Some(t), _) => r matches Ok(ResumeScope::Thread(x)) && x@ == t@,
            (None, Some(s)) => r matches Ok(ResumeScope::Session(x)) && x@ == s@,
            (None, None) => r matches Err(e) && e.kind == ErrorKind::Validation && e.msg@ == NAME_THE_OPERATION@,
        },
{
    match (thread, session) {
        (Some(t), _) => Ok(ResumeScope::Thread(t.to_string())),
        (None, Some(s)) => Ok(ResumeScope::Session(s.to_string())),
        (None, None) => Err(NxfError::validation(NAME_THE_OPERATION.to_string())),
    }
}

/// What came of a resume.
#[derive(Debug, Clone, PartialEq, Eq)]
pub enum ResumeOutcome {
    /// Nothing was on hold.
    NothingOnHold,
    /// The model is not available yet; until when, where the runtime said.
    NotYet { until: Option<String> },
    /// The thread was answered before the interruption.
    AlreadyAnswered,
    /// A process is already working for the session.
    AlreadyRunning,
    /// The working copy moved since the interruption.
    TreeMoved { drift: Drift },
    /// The runtime cannot continue a conversation it began.
    ProviderCannotResume,
    /// The session was started again with its own transcript.
    Resumed,
}

/// **What one resume did**: the thread and session it is about, the outcome, when it is armed to
/// be taken up, and what went differently.
#[derive(Debug, Clone, PartialEq, Eq)]
pub struct ResumeReceipt {
    pub thread: Option<String>,
    pub session: Option<String>,
    pub outcome: ResumeOutcome,
    pub armed_for: Option<String>,
    pub warnings: Vec<FailedConsequence>,
}

/// A name, or `-` for none.
pub open spec fn or_dash(s: Option<String>) -> Seq<char> {
    match s {
        Some(x) => x@,
        None => "-"@,
    }
}

/// A park was refused among the warnings, so the working copy is still held.
pub open spec fn park_refused_among(ws: Seq<FailedConsequence>) -> bool {
    exists|i: int| 0 <= i < ws.len() && #[trigger] ws[i].class == ConsequenceClass::WorkNotParked
}

/// Where the working copy is while the operation waits.
pub open spec fn copy_text(r: ResumeReceipt) -> Seq<char> {
    if park_refused_among(r.warnings@) {
        "Its working copy is still held — its park was refused (see below) and is retried on every tick"@
    } else {
        "Its working copy has been handed on"@
    }
}

/// The lines that say how the working copy moved.
pub open spec fn drift_lines_of(d: Drift) -> Seq<Seq<char>> {
    (match d.commit_now {
        Some(c) => seq!["  · HEAD is a different commit now: "@ + c@],
        None => Seq::empty(),
    }) + (match d.branch_now {
        Some(b) => if b@.len() == 0 {
            seq!["  · the working copy is on a detached HEAD now"@]
        } else {
            seq!["  · the working copy is on branch "@ + b@ + " now"@]
        },
        None => Seq::empty(),
    }) + (if d.uncommitted_now {
        seq!["  · the commit is where it was and the uncommitted work is not"@]
    } else {
        Seq::empty()
    })
}

/// The lines for a resume's outcome.
pub open spec fn outcome_lines_of(r: ResumeReceipt) -> Seq<Seq<char>> {
    match r.outcome {
        ResumeOutcome::NothingOnHold => seq![
            "nothing is on hold here — this operation was never interrupted, or it has already been taken up"@,
        ],
        ResumeOutcome::NotYet { until } => seq![
            match until {
                Some(u) => "not yet: the model is not available to this operation until "@ + u@ + ". "@
                    + copy_text(r)
                    + ", and it is taken up on its own once the window lifts. `--force` starts it now — with another account, say"@,
                None => "on hold, and the runtime stated no reset instant — so NOTHING will take this up on its own. "@
                    + copy_text(r)
                    + ". Run this again with `--force` when you know the model is available again"@,
            },
        ] + match r.armed_for {
            Some(a) => seq!["  · armed to be taken up at "@ + a@],
            None => Seq::empty(),
        },
        ResumeOutcome::AlreadyAnswered => seq![
            "nothing to continue: thread "@ + or_dash(r.thread)
                + " was already answered before the interruption, so the round is finished and the hold is closed"@,
        ],
        ResumeOutcome::AlreadyRunning => seq![
            "already running: a process is working for session "@ + or_dash(r.session)
                + " right now, so nothing was started — one session, one process"@,
        ],
        ResumeOutcome::TreeMoved { drift } => seq![
            "NOT resumed: the working copy has moved since this operation was interrupted, so a question went back to the thread that started it"@,
        ] + drift_lines_of(drift),
        ResumeOutcome::ProviderCannotResume => seq![
            "NOT resumed: this workspace's runtime cannot continue a conversation it began, so continuing would start a fresh session with none of this one's history — which is exactly what stops the work being done twice"@,
        ],
        ResumeOutcome::Resumed => seq![
            "resumed "@ + or_dash(r.session) + " on thread "@ + or_dash(r.thread)
                + ", with its own transcript in front of it"@,
        ],
    }
}

/// **What a resume prints**: the outcome, then one line per warning.
pub open spec fn resume_lines_of(r: ResumeReceipt) -> Seq<Seq<char>> {
    outcome_lines_of(r) + r.warnings@.map_values(|w: FailedConsequence| "  ! "@ + w.detail@)
}

/// A one-line list.
fn single(l: String) -> (v: Vec<String>)
    ensures
        views(v@) == seq![l@],
{
    let mut v: Vec<String> = Vec::new();
    v.push(l);
    assert(views(v@) =~= seq![l@]);
    v
}

/// A name, or `-` for none.
fn or_dash_exec(s: &Option<String>) -> (r: &str)
    ensures
        r@ == or_dash(*s),
{
    match s {
        Some(x) => x.as_str(),
        None => "-",
    }
}

/// Whether a park was refused among the warnings.
fn park_refused_in(ws: &Vec<FailedConsequence>) -> (r: bool)
    ensures
        r == park_refused_among(ws@),
{
    let mut i: usize = 0;
    while i < ws.len()
        invariant
            i <= ws@.len(),
            forall|k: int| 0 <= k < i ==> #[trigger] ws@[k].class != ConsequenceClass::WorkNotParked,
        decreases ws@.len() - i,
    {
        if matches!(ws[i].class, ConsequenceClass::WorkNotParked) {
            return true;
        }
        i += 1;
    }
    false
}

/// The lines that say how the working copy moved.
fn drift_lines(d: &Drift) -> (v: Vec<String>)
    ensures
        views(v@) == drift_lines_of(*d),
{
    let mut v: Vec<String> = Vec::new();
    if let Some(c) = &d.commit_now {
        let mut l = String::new();
        l.append("  · HEAD is a different commit now: ");
        l.append(c.as_str());
        v.push(l);
    }
    if let Some(b) = &d.branch_now {
        let mut l = String::new();
        if b.as_str().is_empty() {
            l.append("  · the working copy is on a detached HEAD now");
        } else {
            l.append("  · the working copy is on branch ");
            l.append(b.as_str());
            l.append(" now");
        }
        v.push(l);
    }
    if d.uncommitted_now {
        let mut l = String::new();
        l.append("  · the commit is where it was and the uncommitted work is not");
        v.push(l);
    }
    assert(views(v@) =~= drift_lines_of(*d));
    v
}

/// The lines for a resume's outcome.
fn outcome_lines(r: &ResumeReceipt) -> (v: Vec<String>)
    ensures
        views(v@) == outcome_lines_of(*r),
{
    let mut l = String::new();
    match &r.outcome {
        ResumeOutcome::NothingOnHold => {
            l.append("nothing is on hold here — this operation was never interrupted, or it has already been taken up");
            single(l)
        },
        ResumeOutcome::NotYet { until } => {
            let held = park_refused_in(&r.warnings);
            let copy = if held {
                "Its working copy is still held — its park was refused (see below) and is retried on every tick"
            } else {
                "Its working copy has been handed on"
            };
            match until {
                Some(u) => {
                    l.append("not yet: the model is not available to this operation until ");
                    l.append(u.as_str());
                    l.append(". ");
                    l.append(copy);
                    l.append(
                        ", and it is taken up on its own once the window lifts. `--force` starts it now — with another account, say",
                    );
                },
                None => {
                    l.append("on hold, and the runtime stated no reset instant — so NOTHING will take this up on its own. ");
                    l.append(copy);
                    l.append(". Run this again with `--force` when you know the model is available again");
                },
            }
            let mut v = single(l);
            if let Some(a) = &r.armed_for {
                let mut m = String::new();
                m.append("  · armed to be taken up at ");
                m.append(a.as_str());
                v.push(m);
            }
            assert(views(v@) =~= outcome_lines_of(*r));
            v
        },
        ResumeOutcome::AlreadyAnswered => {
            l.append("nothing to continue: thread ");
            l.append(or_dash_exec(&r.thread));
            l.append(" was already answered before the interruption, so the round is finished and the hold is closed");
            single(l)
        },
        ResumeOutcome::AlreadyRunning => {
            l.append("already running: a process is working for session ");
            l.append(or_dash_exec(&r.session));
            l.append(" right now, so nothing was started — one session, one process");
            single(l)
        },
        ResumeOutcome::TreeMoved { drift } => {
            l.append(
                "NOT resumed: the working copy has moved since this operation was interrupted, so a question went back to the thread that started it",
            );
            let mut v = single(l);
            let ghost h = views(v@);
            let mut rest = drift_lines(drift);
            v.append(&mut rest);
            assert(views(v@) =~= h + drift_lines_of(*drift));
            v
        },
        ResumeOutcome::ProviderCannotResume => {
            l.append(
                "NOT resumed: this workspace's runtime cannot continue a conversation it began, so continuing would start a fresh session with none of this one's history — which is exactly what stops the work being done twice",
            );
            single(l)
        },
        ResumeOutcome::Resumed => {
            l.append("resumed ");
            l.append(or_dash_exec(&r.session));
            l.append(" on thread ");
            l.append(or_dash_exec(&r.thread));
            l.append(", with its own transcript in front of it");
            single(l)
        },
    }
}

/// What a resume prints.
pub fn resume_lines(r: &ResumeReceipt) -> (v: Vec<String>)
    ensures
        views(v@) == resume_lines_of(*r),
{
    let mut v = outcome_lines(r);
    let ghost head = views(v@);
    let mut i: usize = 0;
    while i < r.warnings.len()
        invariant
            i <= r.warnings@.len(),
            views(v@) == head + r.warnings@.take(i as int).map_values(|w: FailedConsequence| "  ! "@ + w.detail@),
        decreases r.warnings@.len() - i,
    {
        let mut l = String::new();
        l.append("  ! ");
        l.append(r.warnings[i].detail.as_str());
        let ghost before = v@;
        v.push(l);
        assert(views(v@) =~= views(before).push("  ! "@ + r.warnings@[i as int].detail@));
        assert(r.warnings@.take(i + 1) =~= r.warnings@.take(i as int).push(r.warnings@[i as int]));
        i += 1;
    }
    assert(r.warnings@.take(i as int) =~= r.warnings@);
    v
}

} // verus!
