//! **What a verb's receipt claims about the call**: which failed consequences turn its exit code
//! red, and the headline a tick opens its working-copy sweep with.
use vstd::prelude::*;
use crate::report::Parked;
use crate::text::views;

verus! {

/// The kind of a consequence of a verb that did not happen as it should have.
#[derive(Debug, Clone, Copy, PartialEq, Eq, Structural)]
pub enum ConsequenceClass {
    /// The background tick could not be scheduled.
    TickUnscheduled,
    /// The background service is not running.
    ServiceNotRunning,
    /// A declaration changed under a running operation.
    DeclarationChanged,
    /// A park was refused; the claim stays and the retry is armed.
    WorkNotParked,
    /// The working copy went on without its work being parked.
    WorkHandedOnUnparked,
    /// A step that should have been woken was not.
    StepSkipped,
    /// A step's round settled without its answer.
    StepUnanswered,
}

/// Why a wake was skipped.
#[derive(Debug, Clone, Copy, PartialEq, Eq, Structural)]
pub enum WakeSkipReason {
    /// Nobody could be resolved to wake.
    Unresolved,
}

/// **One consequence of a verb that did not happen as it should have**: its kind, the thread and
/// session it concerns where there is one, why a wake was skipped, and what happened instead.
#[derive(Debug, Clone, PartialEq, Eq)]
pub struct FailedConsequence {
    pub class: ConsequenceClass,
    pub thread_id: Option<String>,
    pub session_id: Option<String>,
    pub reason: Option<WakeSkipReason>,
    pub detail: String,
}

/// An optional borrowed string, owned.
fn owned_opt(s: Option<&str>) -> (r: Option<String>)
    ensures
        match s {
            Some(x) => r matches Some(y) && y@ == x@,
            None => r is None,
        },
{
    match s {
        Some(x) => Some(x.to_string()),
        None => None,
    }
}

/// The consequence as plain values: its class, thread, session, reason and detail.
pub open spec fn consequence_is(
    c: FailedConsequence,
    class: ConsequenceClass,
    thread: Option<&str>,
    session: Option<&str>,
    reason: Option<WakeSkipReason>,
    detail: &str,
) -> bool {
    &&& c.class == class
    &&& match thread {
        Some(t) => c.thread_id matches Some(x) && x@ == t@,
        None => c.thread_id is None,
    }
    &&& match session {
        Some(t) => c.session_id matches Some(x) && x@ == t@,
        None => c.session_id is None,
    }
    &&& c.reason == reason
    &&& c.detail@ == detail@
}

impl FailedConsequence {
    /// A park that was refused: the claim stays where it is and the retry is armed.
    pub fn work_not_parked(thread: Option<&str>, detail: &str) -> (c: FailedConsequence)
        ensures
            consequence_is(c, ConsequenceClass::WorkNotParked, thread, None, None, detail),
    {
        FailedConsequence {
            class: ConsequenceClass::WorkNotParked,
            thread_id: owned_opt(thread),
            session_id: None,
            reason: None,
            detail: detail.to_string(),
        }
    }

    /// The working copy went on to its next holder without the work being parked.
    pub fn work_handed_on_unparked(thread: Option<&str>, detail: &str) -> (c: FailedConsequence)
        ensures
            consequence_is(c, ConsequenceClass::WorkHandedOnUnparked, thread, None, None, detail),
    {
        FailedConsequence {
            class: ConsequenceClass::WorkHandedOnUnparked,
            thread_id: owned_opt(thread),
            session_id: None,
            reason: None,
            detail: detail.to_string(),
        }
    }

    /// A step that should have been woken was not, and why.
    pub fn step_skipped(
        thread: Option<&str>,
        session: Option<&str>,
        reason: WakeSkipReason,
        detail: &str,
    ) -> (c: FailedConsequence)
        ensures
            consequence_is(c, ConsequenceClass::StepSkipped, thread, session, Some(reason), detail),
    {
        FailedConsequence {
            class: ConsequenceClass::StepSkipped,
            thread_id: owned_opt(thread),
            session_id: owned_opt(session),
            reason: Some(reason),
            detail: detail.to_string(),
        }
    }
}

/// **A class that is a report, not a failure of the call**: the background tick or service, a
/// changed declaration, and the two park classes. Each stays on the receipt without saying that a
/// step of the call did not happen.
pub open spec fn is_a_report(c: ConsequenceClass) -> bool {
    ||| c == ConsequenceClass::TickUnscheduled
    ||| c == ConsequenceClass::ServiceNotRunning
    ||| c == ConsequenceClass::DeclarationChanged
    ||| c == ConsequenceClass::WorkNotParked
    ||| c == ConsequenceClass::WorkHandedOnUnparked
}

/// Whether a class is a report rather than a failure.
fn is_a_report_exec(c: ConsequenceClass) -> (r: bool)
    ensures
        r == is_a_report(c),
{
    match c {
        ConsequenceClass::TickUnscheduled => true,
        ConsequenceClass::ServiceNotRunning => true,
        ConsequenceClass::DeclarationChanged => true,
        ConsequenceClass::WorkNotParked => true,
        ConsequenceClass::WorkHandedOnUnparked => true,
        _ => false,
    }
}

/// **Whether a verb's warnings turn its exit code red**: exactly when one of them is not a report.
pub fn changes_the_exit_code(warnings: &[FailedConsequence]) -> (r: bool)
    ensures
        r == exists|i: int| 0 <= i < warnings@.len() && !is_a_report(#[trigger] warnings@[i].class),
{
    let mut i: usize = 0;
    while i < warnings.len()
        invariant
            i <= warnings@.len(),
            forall|k: int| 0 <= k < i ==> is_a_report(#[trigger] warnings@[k].class),
        decreases warnings@.len() - i,
    {
        if !is_a_report_exec(warnings[i].class) {
            return true;
        }
        i += 1;
    }
    false
}

/// A queued commission that a hand-off of the working copy started, put back, or failed to start.
#[derive(Debug, Clone, PartialEq, Eq)]
pub struct PromotedTrigger {
    pub thread: String,
    pub role: String,
    pub session: String,
}

/// **What a hand-off of the working copy started**: the commissions started, those back in line,
/// those that failed to start, and what starting them noticed.
#[derive(Debug, Clone, PartialEq, Eq)]
pub struct Promotions {
    pub started: Vec<PromotedTrigger>,
    pub requeued: Vec<PromotedTrigger>,
    pub failed: Vec<PromotedTrigger>,
    pub warnings: Vec<String>,
}

impl Default for Promotions {
    fn default() -> (p: Promotions)
        ensures
            p.started@.len() == 0,
            p.requeued@.len() == 0,
            p.failed@.len() == 0,
            p.warnings@.len() == 0,
    {
        Promotions {
            started: Vec::new(),
            requeued: Vec::new(),
            failed: Vec::new(),
            warnings: Vec::new(),
        }
    }
}

/// Nothing was started, put back in line, or failed to start: the copy stayed where it was.
pub open spec fn nothing_moved_of(p: Promotions) -> bool {
    p.started@.len() == 0 && p.requeued@.len() == 0 && p.failed@.len() == 0
}

impl Promotions {
    /// Whether the hand-off moved nothing.
    pub fn nothing_moved(&self) -> (r: bool)
        ensures
            r == nothing_moved_of(*self),
    {
        self.started.len() == 0 && self.requeued.len() == 0 && self.failed.len() == 0
    }
}

/// **A tick's sweep of an expired working-copy lease**: whose it was, the bound it ran past, where
/// its work was parked or why it was not, and what the hand-off started.
#[derive(Debug, Clone, PartialEq, Eq)]
pub struct WorkingTreeSweep {
    pub scope: String,
    pub expired: String,
    pub parked: Option<Parked>,
    /// The kind of refusal that kept the work from being parked.
    pub unparked: Option<String>,
    pub promotions: Promotions,
}

/// **The line a sweep block opens with.** A reclaim only where the hand-off moved something;
/// otherwise the operation is past its bound and its work saved, but it still holds the copy.
pub open spec fn sweep_headline_of(swept: WorkingTreeSweep) -> Seq<char> {
    if !nothing_moved_of(swept.promotions) {
        "reclaimed this workspace's working copy from "@ + swept.scope@ + " (its lease ran out at "@
            + swept.expired@ + ")"@
    } else {
        swept.scope@ + " is past its bound ("@ + swept.expired@
            + ") and its work was saved, but this workspace's working copy did NOT move: that operation renewed its claim while its work was being parked, so it still holds the copy — and its own next trigger is told where the work is"@
    }
}

/// The line a sweep block opens with.
pub fn sweep_headline(swept: &WorkingTreeSweep) -> (s: String)
    ensures
        s@ == sweep_headline_of(*swept),
{
    let mut s = String::new();
    if !swept.promotions.nothing_moved() {
        s.append("reclaimed this workspace's working copy from ");
        s.append(swept.scope.as_str());
        s.append(" (its lease ran out at ");
        s.append(swept.expired.as_str());
        s.append(")");
    } else {
        s.append(swept.scope.as_str());
        s.append(" is past its bound (");
        s.append(swept.expired.as_str());
        s.append(
            ") and its work was saved, but this workspace's working copy did NOT move: that operation renewed its claim while its work was being parked, so it still holds the copy — and its own next trigger is told where the work is",
        );
    }
    s
}

/// The account of one commission a hand-off started.
pub open spec fn started_line_of(p: PromotedTrigger) -> Seq<char> {
    "started "@ + p.role@ + " on thread "@ + p.thread@ + " (it had been waiting for it)"@
}

/// The account of one commission a hand-off put back in line.
pub open spec fn requeued_line_of(p: PromotedTrigger) -> Seq<char> {
    "back in line: "@ + p.role@ + " on thread "@ + p.thread@
        + " — the working copy had moved on again by the time it was started, so it is waiting again, in the place it already had"@
}

/// The account of one commission a hand-off failed to start.
pub open spec fn failed_line_of(p: PromotedTrigger) -> Seq<char> {
    "NOT started: "@ + p.role@ + " on thread "@ + p.thread@ + " — its message is persisted and session "@
        + p.session@ + " is minted, but nothing is running for it"@
}

/// **What a hand-off of the working copy started, in words**: one line per commission started,
/// then per commission back in line, then per one that failed to start, then what starting them
/// noticed.
pub open spec fn promotion_lines_of(p: Promotions) -> Seq<Seq<char>> {
    p.started@.map_values(|t: PromotedTrigger| started_line_of(t)) + p.requeued@.map_values(
        |t: PromotedTrigger| requeued_line_of(t),
    ) + p.failed@.map_values(|t: PromotedTrigger| failed_line_of(t)) + views(p.warnings@).map_values(
        |w: Seq<char>| "note: "@ + w,
    )
}

/// The account of one commission a hand-off started.
fn started_line(p: &PromotedTrigger) -> (l: String)
    ensures
        l@ == started_line_of(*p),
{
    let mut l = String::new();
    l.append("started ");
    l.append(p.role.as_str());
    l.append(" on thread ");
    l.append(p.thread.as_str());
    l.append(" (it had been waiting for it)");
    l
}

/// The account of one commission a hand-off put back in line.
fn requeued_line(p: &PromotedTrigger) -> (l: String)
    ensures
        l@ == requeued_line_of(*p),
{
    let mut l = String::new();
    l.append("back in line: ");
    l.append(p.role.as_str());
    l.append(" on thread ");
    l.append(p.thread.as_str());
    l.append(
        " — the working copy had moved on again by the time it was started, so it is waiting again, in the place it already had",
    );
    l
}

/// The account of one commission a hand-off failed to start.
fn failed_line(p: &PromotedTrigger) -> (l: String)
    ensures
        l@ == failed_line_of(*p),
{
    let mut l = String::new();
    l.append("NOT started: ");
    l.append(p.role.as_str());
    l.append(" on thread ");
    l.append(p.thread.as_str());
    l.append(" — its message is persisted and session ");
    l.append(p.session.as_str());
    l.append(" is minted, but nothing is running for it");
    l
}

/// What a hand-off of the working copy started, in words.
pub fn promotion_lines(p: &Promotions) -> (lines: Vec<String>)
    ensures
        views(lines@) == promotion_lines_of(*p),
{
    let mut lines: Vec<String> = Vec::new();
    let mut i: usize = 0;
    while i < p.started.len()
        invariant
            i <= p.started@.len(),
            views(lines@) == p.started@.take(i as int).map_values(|t: PromotedTrigger| started_line_of(t)),
        decreases p.started@.len() - i,
    {
        let l = started_line(&p.started[i]);
        let ghost before = lines@;
        lines.push(l);
        assert(views(lines@) =~= views(before).push(started_line_of(p.started@[i as int])));
        assert(p.started@.take(i + 1) =~= p.started@.take(i as int).push(p.started@[i as int]));
        i += 1;
    }
    assert(p.started@.take(i as int) =~= p.started@);
    let ghost a = views(lines@);
    let mut i: usize = 0;
    while i < p.requeued.len()
        invariant
            i <= p.requeued@.len(),
            views(lines@) == a + p.requeued@.take(i as int).map_values(|t: PromotedTrigger| requeued_line_of(t)),
        decreases p.requeued@.len() - i,
    {
        let l = requeued_line(&p.requeued[i]);
        let ghost before = lines@;
        lines.push(l);
        assert(views(lines@) =~= views(before).push(requeued_line_of(p.requeued@[i as int])));
        assert(p.requeued@.take(i + 1) =~= p.requeued@.take(i as int).push(p.requeued@[i as int]));
        i += 1;
    }
    assert(p.requeued@.take(i as int) =~= p.requeued@);
    let ghost b = views(lines@);
    let mut i: usize = 0;
    while i < p.failed.len()
        invariant
            i <= p.failed@.len(),
            views(lines@) == b + p.failed@.take(i as int).map_values(|t: PromotedTrigger| failed_line_of(t)),
        decreases p.failed@.len() - i,
    {
        let l = failed_line(&p.failed[i]);
        let ghost before = lines@;
        lines.push(l);
        assert(views(lines@) =~= views(before).push(failed_line_of(p.failed@[i as int])));
        assert(p.failed@.take(i + 1) =~= p.failed@.take(i as int).push(p.failed@[i as int]));
        i += 1;
    }
    assert(p.failed@.take(i as int) =~= p.failed@);
    let ghost c = views(lines@);
    let mut i: usize = 0;
    while i < p.warnings.len()
        invariant
            i <= p.warnings@.len(),
            views(lines@) == c + views(p.warnings@).take(i as int).map_values(|w: Seq<char>| "note: "@ + w),
        decreases p.warnings@.len() - i,
    {
        let mut l = String::new();
        l.append("note: ");
        l.append(p.warnings[i].as_str());
        let ghost before = lines@;
        lines.push(l);
        assert(views(lines@) =~= views(before).push("note: "@ + p.warnings@[i as int]@));
        assert(views(p.warnings@).take(i + 1) =~= views(p.warnings@).take(i as int).push(p.warnings@[i as int]@));
        i += 1;
    }
    assert(views(p.warnings@).take(i as int) =~= views(p.warnings@));
    assert(views(lines@) =~= promotion_lines_of(*p));
    lines
}

// ---- a tick's receipt, in words -------------------------------------------------------------

/// Why a working copy was handed on by a tick.
#[derive(Debug, Clone, Copy, PartialEq, Eq, Structural)]
pub enum ParkOccasion {
    StrandedEscalation,
    AvailabilityBoundary,
    PastItsBound,
    DiedInsideItsBound,
    Withdrawn,
}

/// A stranded escalation a tick parked: whose, contended since when, where its work went, and what
/// the hand-off started.
#[derive(Debug, Clone, PartialEq, Eq)]
pub struct StrandedPark {
    pub scope: String,
    pub contended_since: String,
    pub parked: Parked,
    pub promotions: Promotions,
}

/// A working copy a tick handed on: whose, on which occasion, where its work went or the kind of
/// refusal that kept it from being parked, and what the hand-off started.
#[derive(Debug, Clone, PartialEq, Eq)]
pub struct HandedOn {
    pub scope: String,
    pub occasion: ParkOccasion,
    pub parked: Option<Parked>,
    pub unparked: Option<String>,
    pub promotions: Promotions,
}

/// What a tick did about the thread it was asked about.
#[derive(Debug, Clone, PartialEq, Eq)]
pub enum TickOutcome {
    /// It acted, delivering what it says.
    Acted { delivered: Option<String> },
    /// The set is settled and a session behind it is still running.
    WaitingForASession,
    /// It advanced the flow, with the first of its warnings where there is one.
    Advanced { first_warning: Option<String> },
    /// Nothing was due, and why.
    NothingToDo { reason: String },
}

/// **What one tick did**: a stranded escalation it parked, a working copy it handed on, a lease
/// it swept, and what it did about the thread.
#[derive(Debug, Clone, PartialEq, Eq)]
pub struct TickReceipt {
    pub thread_id: String,
    pub parked: Option<StrandedPark>,
    pub handed_on: Option<HandedOn>,
    pub working_tree: Option<WorkingTreeSweep>,
    pub outcome: TickOutcome,
    pub warnings: Vec<FailedConsequence>,
}

/// What the tree went back on: the base branch, or the base commit where there was none.
pub open spec fn base_of(p: Parked) -> Seq<char> {
    if p.base_branch@.len() == 0 {
        p.base_commit@
    } else {
        p.base_branch@
    }
}

/// The lines for a parked stranded escalation.
pub open spec fn stranded_lines_of(s: StrandedPark) -> Seq<Seq<char>> {
    seq![
        "parked "@ + s.scope@
            + ": it escalated and nobody answered, and the working copy has been contended since "@
            + s.contended_since@ + ". Its work is committed on branch "@ + s.parked.branch@ + " at "@
            + s.parked.commit@ + ", and the tree is back on "@ + base_of(s.parked),
    ] + (if s.parked.committed {
        Seq::empty()
    } else {
        seq!["(there was nothing uncommitted to save — the tree was already clean)"@]
    }) + promotion_lines_of(s.promotions)
}

/// Why a working copy was handed on, in words.
pub open spec fn occasion_text(o: ParkOccasion) -> Seq<char> {
    match o {
        ParkOccasion::StrandedEscalation => "it escalated and nobody answered while another operation waited"@,
        ParkOccasion::AvailabilityBoundary => "it is on hold at an availability boundary while another operation waits"@,
        ParkOccasion::PastItsBound => "its lease ran out with nothing running behind it while another operation waits"@,
        ParkOccasion::DiedInsideItsBound => "nothing in it is running any more and it never answered what it owed, so it died holding the copy while another operation waits"@,
        ParkOccasion::Withdrawn => "its running round was withdrawn and nothing in it is running any more"@,
    }
}

/// The lines for a working copy handed on.
pub open spec fn handed_on_lines_of(h: HandedOn) -> Seq<Seq<char>> {
    seq![
        match (h.parked, h.unparked) {
            (Some(p), _) => "handed on the working copy of "@ + h.scope@ + ": "@ + occasion_text(h.occasion)
                + ". Its work is committed on branch "@ + p.branch@ + " at "@ + p.commit@,
            (None, Some(k)) => "handed on the working copy of "@ + h.scope@ + " WITHOUT parking its work ("@ + k@
                + "): "@ + occasion_text(h.occasion)
                + ", and its park cannot happen — whatever it left uncommitted is still in the tree"@,
            (None, None) => "handed on the working copy of "@ + h.scope@ + ": "@ + occasion_text(h.occasion),
        },
    ] + promotion_lines_of(h.promotions)
}

/// The lines for a swept lease: the headline, where the work went, and what the hand-off started.
pub open spec fn swept_lines_of(w: WorkingTreeSweep) -> Seq<Seq<char>> {
    seq![sweep_headline_of(w)] + (match (w.parked, w.unparked) {
        (Some(p), _) => if p.committed {
            seq![
                "its work is committed on branch "@ + p.branch@ + " at "@ + p.commit@ + ", and the tree is back on "@
                    + base_of(p),
            ]
        } else {
            seq![
                "it had nothing uncommitted to save — its working copy is safe at "@ + p.commit@ + " on "@
                    + p.branch@,
            ]
        },
        (None, Some(k)) => seq![
            "its work was NOT parked ("@ + k@
                + ") — whatever it left uncommitted is still in the tree, where the next holder will find it"@,
        ],
        (None, None) => Seq::empty(),
    }) + promotion_lines_of(w.promotions)
}

/// The line for what the tick did about its thread.
pub open spec fn outcome_line_of(thread_id: Seq<char>, o: TickOutcome) -> Seq<char> {
    match o {
        TickOutcome::Acted { delivered } => "tick acted on thread "@ + thread_id + ": "@ + match delivered {
            Some(d) => d@,
            None => Seq::empty(),
        },
        TickOutcome::WaitingForASession => "tick declined on thread "@ + thread_id
            + ": the set is settled, but a session behind it is still running. It moves on when that session ends (the sidecar reports it) — or run this again once it has."@,
        TickOutcome::Advanced { first_warning } => "tick advanced the flow on thread "@ + thread_id + match first_warning {
            Some(w) => ": "@ + w@,
            None => Seq::empty(),
        },
        TickOutcome::NothingToDo { reason } => "tick: nothing to do for thread "@ + thread_id + " ("@ + reason@ + ")"@,
    }
}

/// **What a tick prints**: a parked stranded escalation, a working copy handed on, a swept lease
/// — each with what its hand-off started — and last what it did about its thread.
pub open spec fn tick_lines_of(r: TickReceipt) -> Seq<Seq<char>> {
    (match r.parked {
        Some(s) => stranded_lines_of(s),
        None => Seq::empty(),
    }) + (match r.handed_on {
        Some(h) => handed_on_lines_of(h),
        None => Seq::empty(),
    }) + (match r.working_tree {
        Some(w) => swept_lines_of(w),
        None => Seq::empty(),
    }) + seq![outcome_line_of(r.thread_id@, r.outcome)]
}

/// A one-line list.
fn single(l: String) -> (v: Vec<String>)
    ensures
        views(v@) == seq![l@],
{
    let mut v: Vec<String> = Vec::new();
    v.push(l);
    assert(views(v@) =~= seq![l@]);
    v
}

/// `a` followed by `b`.
fn then_lines(a: Vec<String>, b: Vec<String>) -> (v: Vec<String>)
    ensures
        views(v@) == views(a@) + views(b@),
{
    let mut a = a;
    let mut b = b;
    let ghost va = views(a@);
    let ghost vb = views(b@);
    a.append(&mut b);
    assert(views(a@) =~= va + vb);
    a
}

/// What the tree went back on.
fn base(p: &Parked) -> (s: &str)
    ensures
        s@ == base_of(*p),
{
    if p.base_branch.as_str().is_empty() {
        p.base_commit.as_str()
    } else {
        p.base_branch.as_str()
    }
}

/// The lines for a parked stranded escalation.
fn stranded_lines(s: &StrandedPark) -> (v: Vec<String>)
    ensures
        views(v@) == stranded_lines_of(*s),
{
    let mut l = String::new();
    l.append("parked ");
    l.append(s.scope.as_str());
    l.append(": it escalated and nobody answered, and the working copy has been contended since ");
    l.append(s.contended_since.as_str());
    l.append(". Its work is committed on branch ");
    l.append(s.parked.branch.as_str());
    l.append(" at ");
    l.append(s.parked.commit.as_str());
    l.append(", and the tree is back on ");
    l.append(base(&s.parked));
    let head = single(l);
    let clean = if s.parked.committed {
        Vec::new()
    } else {
        let mut c = String::new();
        c.append("(there was nothing uncommitted to save — the tree was already clean)");
        single(c)
    };
    let v = then_lines(then_lines(head, clean), promotion_lines(&s.promotions));
    assert(views(v@) =~= stranded_lines_of(*s));
    v
}

/// Why a working copy was handed on, in words.
fn occasion(o: ParkOccasion) -> (s: &'static str)
    ensures
        s@ == occasion_text(o),
{
    match o {
        ParkOccasion::StrandedEscalation => "it escalated and nobody answered while another operation waited",
        ParkOccasion::AvailabilityBoundary => "it is on hold at an availability boundary while another operation waits",
        ParkOccasion::PastItsBound => "its lease ran out with nothing running behind it while another operation waits",
        ParkOccasion::DiedInsideItsBound => "nothing in it is running any more and it never answered what it owed, so it died holding the copy while another operation waits",
        ParkOccasion::Withdrawn => "its running round was withdrawn and nothing in it is running any more",
    }
}

/// The lines for a working copy handed on.
fn handed_on_lines(h: &HandedOn) -> (v: Vec<String>)
    ensures
        views(v@) == handed_on_lines_of(*h),
{
    let mut l = String::new();
    l.append("handed on the working copy of ");
    l.append(h.scope.as_str());
    match (&h.parked, &h.unparked) {
        (Some(p), _) => {
            l.append(": ");
            l.append(occasion(h.occasion));
            l.append(". Its work is committed on branch ");
            l.append(p.branch.as_str());
            l.append(" at ");
            l.append(p.commit.as_str());
        },
        (None, Some(k)) => {
            l.append(" WITHOUT parking its work (");
            l.append(k.as_str());
            l.append("): ");
            l.append(occasion(h.occasion));
            l.append(", and its park cannot happen — whatever it left uncommitted is still in the tree");
        },
        (None, None) => {
            l.append(": ");
            l.append(occasion(h.occasion));
        },
    }
    let v = then_lines(single(l), promotion_lines(&h.promotions));
    assert(views(v@) =~= handed_on_lines_of(*h));
    v
}

/// The lines for a swept lease.
fn swept_lines(w: &WorkingTreeSweep) -> (v: Vec<String>)
    ensures
        views(v@) == swept_lines_of(*w),
{
    let head = single(sweep_headline(w));
    let work: Vec<String> = match (&w.parked, &w.unparked) {
        (Some(p), _) => {
            let mut l = String::new();
            if p.committed {
                l.append("its work is committed on branch ");
                l.append(p.branch.as_str());
                l.append(" at ");
                l.append(p.commit.as_str());
                l.append(", and the tree is back on ");
                l.append(base(p));
            } else {
                l.append("it had nothing uncommitted to save — its working copy is safe at ");
                l.append(p.commit.as_str());
                l.append(" on ");
                l.append(p.branch.as_str());
            }
            single(l)
        },
        (None, Some(k)) => {
            let mut l = String::new();
            l.append("its work was NOT parked (");
            l.append(k.as_str());
            l.append(") — whatever it left uncommitted is still in the tree, where the next holder will find it");
            single(l)
        },
        (None, None) => Vec::new(),
    };
    let v = then_lines(then_lines(head, work), promotion_lines(&w.promotions));
    assert(views(v@) =~= swept_lines_of(*w));
    v
}

/// The line for what the tick did about its thread.
fn outcome_line(thread_id: &str, o: &TickOutcome) -> (l: String)
    ensures
        l@ == outcome_line_of(thread_id@, *o),
{
    let mut l = String::new();
    match o {
        TickOutcome::Acted { delivered } => {
            l.append("tick acted on thread ");
            l.append(thread_id);
            l.append(": ");
            if let Some(d) = delivered {
                l.append(d.as_str());
            }
        },
        TickOutcome::WaitingForASession => {
            l.append("tick declined on thread ");
            l.append(thread_id);
            l.append(
                ": the set is settled, but a session behind it is still running. It moves on when that session ends (the sidecar reports it) — or run this again once it has.",
            );
        },
        TickOutcome::Advanced { first_warning } => {
            l.append("tick advanced the flow on thread ");
            l.append(thread_id);
            if let Some(w) = first_warning {
                l.append(": ");
                l.append(w.as_str());
            }
        },
        TickOutcome::NothingToDo { reason } => {
            l.append("tick: nothing to do for thread ");
            l.append(thread_id);
            l.append(" (");
            l.append(reason.as_str());
            l.append(")");
        },
    }
    l
}

/// What a tick prints.
pub fn tick_lines(r: &TickReceipt) -> (v: Vec<String>)
    ensures
        views(v@) == tick_lines_of(*r),
{
    let a = match &r.parked {
        Some(s) => stranded_lines(s),
        None => Vec::new(),
    };
    let b = match &r.handed_on {
        Some(h) => handed_on_lines(h),
        None => Vec::new(),
    };
    let c = match &r.working_tree {
        Some(w) => swept_lines(w),
        None => Vec::new(),
    };
    let d = single(outcome_line(r.thread_id.as_str(), &r.outcome));
    let v = then_lines(then_lines(then_lines(a, b), c), d);
    assert(views(v@) =~= tick_lines_of(*r));
    v
}

} // verus!
