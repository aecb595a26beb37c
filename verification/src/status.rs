//! **One thread's row in the status view**: what is owed on it and by whom, what became of the
//! session that owes it, why nobody is working on it, and where its working copy stood — and the
//! filter that decides which rows a listing shows at all.
use vstd::prelude::*;
use crate::anchor::Anchor;
use crate::report::{anchor_suffix, anchor_suffix_of, has_short_form};
use crate::text::{dec, join, join_strings, signed_dec, signed_decimal, views};

verus! {

/// Where a thread stands.
#[derive(Debug, Clone, Copy, PartialEq, Eq, Structural)]
pub enum ThreadState {
    /// An answer is still owed.
    Open,
    /// The answer landed.
    Answered,
    /// Answered, and nothing follows from it where something should.
    Orphaned,
}

/// What became of the process behind a session.
#[derive(Debug, Clone, Copy, PartialEq, Eq, Structural)]
pub enum SessionState {
    Running,
    Ended,
    /// The worker cannot tell.
    Unknown,
}

/// A thread's relation to the working-copy lease.
#[derive(Debug, Clone, Copy, PartialEq, Eq, Structural)]
pub enum WorkingTreeStatus {
    Holding,
    Waiting,
}

/// **A session on hold because the model went away**: which limit it ran into, and when it is
/// back, if anybody knows.
#[derive(Debug, Clone, PartialEq, Eq)]
pub struct Interruption {
    pub limit: String,
    pub until: Option<String>,
}

/// One thread of an operation, as the status view reads it.
#[derive(Debug, Clone, PartialEq, Eq)]
pub struct StatusThread {
    pub thread_id: String,
    /// How deep in its operation's tree the thread sits; the root is at depth 0.
    pub depth: usize,
    /// What the conversation is called, when it has a name.
    pub name: Option<String>,
    pub channel_id: Option<String>,
    pub state: ThreadState,
    /// The answer is overdue.
    pub stale: bool,
    /// The round was handed back rather than answered.
    pub escalated: bool,
    /// The runtime wrote the answer, standing in for an agent that never spoke.
    pub substituted: bool,
    /// The root's answer is with the human who asked.
    pub awaiting_human: bool,
    /// Who the thread expects an answer from, qualified.
    pub expects: Vec<String>,
    /// Who still owes one.
    pub outstanding: Vec<String>,
    /// The open rounds the party that owes this answer is itself waiting on.
    pub waiting_on_sub_round: Vec<String>,
    pub session_state: Option<SessionState>,
    pub interrupted: Option<Interruption>,
    /// Where the working copy stood at the thread's last handover.
    pub working_copy: Option<Anchor>,
    pub working_tree: Option<WorkingTreeStatus>,
}

/// **The on-hold suffix of a row**: which limit the session hit and when it is back — or, with no
/// instant, that nothing will take it up on its own. Empty for a session not on hold.
pub open spec fn interruption_suffix_of(hold: Option<Interruption>) -> Seq<char> {
    match hold {
        None => Seq::empty(),
        Some(h) => " — ON HOLD, the model is not available to it ("@ + h.limit@ + (match h.until {
            Some(u) => ", back at "@ + u@,
            None => ", and NOTHING will take it up on its own"@,
        }) + ")"@,
    }
}

/// The on-hold suffix of a row.
pub fn interruption_suffix(hold: Option<&Interruption>) -> (s: String)
    ensures
        s@ == interruption_suffix_of(
            match hold {
                Some(h) => Some(*h),
                None => None,
            },
        ),
{
    match hold {
        None => String::new(),
        Some(h) => {
            let mut s = String::new();
            s.append(" — ON HOLD, the model is not available to it (");
            s.append(h.limit.as_str());
            match &h.until {
                Some(until) => {
                    s.append(", back at ");
                    s.append(until.as_str());
                },
                None => {
                    s.append(", and NOTHING will take it up on its own");
                },
            }
            s.append(")");
            s
        },
    }
}

/// **Does this row say why its operation is still listed?** The root always does; so does any
/// thread not answered, an escalated or a substituted one, one whose session is on hold, and one
/// with any relation to the working copy.
pub open spec fn says_why_of(t: StatusThread) -> bool {
    ||| t.depth == 0
    ||| t.state != ThreadState::Answered
    ||| t.escalated
    ||| t.substituted
    ||| t.interrupted is Some
    ||| t.working_tree is Some
}

/// Whether a listing shows this row.
pub fn says_why(t: &StatusThread) -> (r: bool)
    ensures
        r == says_why_of(*t),
{
    t.depth == 0 || !matches!(t.state, ThreadState::Answered) || t.escalated || t.substituted
        || t.interrupted.is_some() || t.working_tree.is_some()
}

/// **What became of the session that owes an open thread its answer.** Nothing on a thread that is
/// not open, on a session on hold, or where nobody can tell; that it is running; or — only when
/// it is not waiting on a round of its own — that it ended and nothing is coming.
pub open spec fn session_suffix_of(t: StatusThread) -> Seq<char> {
    if t.state != ThreadState::Open || t.interrupted is Some {
        Seq::empty()
    } else {
        match t.session_state {
            Some(SessionState::Ended) => if t.waiting_on_sub_round@.len() == 0 {
                " — ITS SESSION HAS ENDED, nothing is coming"@
            } else {
                Seq::empty()
            },
            Some(SessionState::Running) => " (its session is running)"@,
            _ => Seq::empty(),
        }
    }
}

/// The session suffix of a row.
pub fn session_suffix(t: &StatusThread) -> (s: &'static str)
    ensures
        s@ == session_suffix_of(*t),
{
    proof {
        reveal_strlit("");
    }
    if !matches!(t.state, ThreadState::Open) {
        return "";
    }
    if t.interrupted.is_some() {
        return "";
    }
    match t.session_state {
        Some(SessionState::Ended) => if t.waiting_on_sub_round.len() == 0 {
            " — ITS SESSION HAS ENDED, nothing is coming"
        } else {
            ""
        },
        Some(SessionState::Running) => " (its session is running)",
        _ => "",
    }
}

/// A session on hold, or one waiting on a round of its own, is never reported as ended with
/// nothing coming: its row says nothing of the session, or that it is running.
pub proof fn lemma_a_waiting_session_is_not_called_ended(t: StatusThread)
    requires
        t.interrupted is Some || t.waiting_on_sub_round@.len() > 0,
    ensures
        session_suffix_of(t) == Seq::<char>::empty() || session_suffix_of(t)
            == " (its session is running)"@,
{
}

/// **The working-tree suffix of a line**: holding the copy, or waiting for it (at a place in line,
/// where one is known). Empty for a thread with no relation to the lease.
pub open spec fn working_tree_suffix_of(status: Option<WorkingTreeStatus>, position: Option<i64>) -> Seq<char> {
    match status {
        Some(WorkingTreeStatus::Holding) => "  · holding working tree"@,
        Some(WorkingTreeStatus::Waiting) => match position {
            Some(p) => "  · waiting for working tree (#"@ + signed_dec(p as int) + ")"@,
            None => "  · waiting for working tree"@,
        },
        None => Seq::empty(),
    }
}

/// The working-tree suffix of a line.
pub fn working_tree_suffix(status: Option<WorkingTreeStatus>, position: Option<i64>) -> (s: String)
    ensures
        s@ == working_tree_suffix_of(status, position),
{
    match status {
        Some(WorkingTreeStatus::Holding) => {
            let mut s = String::new();
            s.append("  · holding working tree");
            s
        },
        Some(WorkingTreeStatus::Waiting) => match position {
            Some(p) => {
                let mut s = String::new();
                s.append("  · waiting for working tree (#");
                s.append(signed_decimal(p).as_str());
                s.append(")");
                s
            },
            None => {
                let mut s = String::new();
                s.append("  · waiting for working tree");
                s
            },
        },
        None => String::new(),
    }
}

/// Who a handed-back round was handed back by, when anybody is named.
pub open spec fn handed_back_by(t: StatusThread) -> Seq<char> {
    let handles = join(views(t.expects@), ", "@);
    if handles.len() == 0 {
        Seq::empty()
    } else {
        " by "@ + handles
    }
}

/// **The state clause of a row.** An escalated thread is handed back — never merely answered —
/// whether or not the human has it; an answered root is with the human; otherwise who it waits on
/// (and that it is overdue), answered, or orphaned.
pub open spec fn status_state_of(t: StatusThread) -> Seq<char> {
    if t.escalated {
        if t.awaiting_human {
            "awaiting you — HANDED BACK"@ + handed_back_by(t)
        } else {
            "handed back"@ + handed_back_by(t) + " (escalation)"@
        }
    } else if t.awaiting_human {
        "awaiting you (answered by "@ + join(views(t.expects@), ", "@) + ")"@
    } else {
        match t.state {
            ThreadState::Open => if t.stale {
                "waiting on "@ + join(views(t.outstanding@), ", "@) + " (overdue)"@
            } else {
                "waiting on "@ + join(views(t.outstanding@), ", "@)
            },
            ThreadState::Answered => "answered"@,
            ThreadState::Orphaned => "ORPHANED (answered, nothing follows)"@,
        }
    }
}

/// Two spaces per level of depth, the root's included.
pub open spec fn indent_of(depth: nat) -> Seq<char> {
    Seq::new(2 * (depth + 1), |i: int| ' ')
}

/// What a row calls its conversation: the name, else the channel, else nothing.
pub open spec fn what_of(t: StatusThread) -> Seq<char> {
    match t.name {
        Some(n) => n@,
        None => match t.channel_id {
            Some(c) => c@,
            None => Seq::empty(),
        },
    }
}

/// Who wrote a substituted answer.
pub open spec fn by_whom_of(t: StatusThread) -> Seq<char> {
    if t.substituted {
        " — posted BY THE RUNTIME, not by the agent"@
    } else {
        Seq::empty()
    }
}

/// That the party owing the answer is itself waiting, and on how many rounds.
pub open spec fn own_round_of(t: StatusThread) -> Seq<char> {
    if t.waiting_on_sub_round@.len() == 0 {
        Seq::empty()
    } else {
        " — waiting on its own sub-round ("@ + dec(t.waiting_on_sub_round@.len()) + " open)"@
    }
}

/// **One thread's row**: indented by depth, the thread id, what it is called, its state, who wrote
/// a substituted answer, a round of its own it waits on, its session, a hold, and its anchor.
pub open spec fn status_line_of(t: StatusThread) -> Seq<char> {
    indent_of(t.depth as nat) + t.thread_id@ + "  "@ + what_of(t) + "  "@ + status_state_of(t)
        + by_whom_of(t) + own_round_of(t) + session_suffix_of(t) + interruption_suffix_of(
        t.interrupted,
    ) + anchor_suffix_of(t.working_copy)
}

/// The state clause of a row.
fn status_state(t: &StatusThread) -> (s: String)
    ensures
        s@ == status_state_of(*t),
{
    let mut s = String::new();
    if t.escalated {
        let handles = join_strings(&t.expects, ", ");
        if t.awaiting_human {
            s.append("awaiting you — HANDED BACK");
        } else {
            s.append("handed back");
        }
        if !handles.as_str().is_empty() {
            s.append(" by ");
            s.append(handles.as_str());
        }
        if !t.awaiting_human {
            s.append(" (escalation)");
        }
    } else if t.awaiting_human {
        s.append("awaiting you (answered by ");
        s.append(join_strings(&t.expects, ", ").as_str());
        s.append(")");
    } else {
        match t.state {
            ThreadState::Open => {
                s.append("waiting on ");
                s.append(join_strings(&t.outstanding, ", ").as_str());
                if t.stale {
                    s.append(" (overdue)");
                }
            },
            ThreadState::Answered => {
                s.append("answered");
            },
            ThreadState::Orphaned => {
                s.append("ORPHANED (answered, nothing follows)");
            },
        }
    }
    s
}

/// Two spaces per level of depth, the root's included.
fn indent(depth: usize) -> (s: String)
    ensures
        s@ == indent_of(depth as nat),
{
    let mut s = String::new();
    s.push(' ');
    s.push(' ');
    let mut i: usize = 0;
    while i < depth
        invariant
            i <= depth,
            s@ == indent_of(i as nat),
        decreases depth - i,
    {
        s.push(' ');
        s.push(' ');
        i += 1;
        assert(s@ =~= indent_of(i as nat));
    }
    assert(s@ =~= indent_of(depth as nat));
    s
}

/// The head of a row: indent, thread id, and what the conversation is called.
fn row_head(t: &StatusThread) -> (s: String)
    ensures
        s@ == indent_of(t.depth as nat) + t.thread_id@ + "  "@ + what_of(*t) + "  "@,
{
    let mut s = indent(t.depth);
    s.append(t.thread_id.as_str());
    s.append("  ");
    match &t.name {
        Some(n) => s.append(n.as_str()),
        None => match &t.channel_id {
            Some(c) => s.append(c.as_str()),
            None => {},
        },
    }
    s.append("  ");
    s
}

/// Who wrote the answer, and a round of its own the owing party waits on.
fn row_middle(t: &StatusThread) -> (s: String)
    ensures
        s@ == by_whom_of(*t) + own_round_of(*t),
{
    let mut s = String::new();
    if t.substituted {
        s.append(" — posted BY THE RUNTIME, not by the agent");
    }
    let n = t.waiting_on_sub_round.len();
    if n != 0 {
        s.append(" — waiting on its own sub-round (");
        s.append(crate::text::decimal(n as u128).as_str());
        s.append(" open)");
    }
    s
}

/// One thread's row in the status view.
pub fn status_line(t: &StatusThread) -> (s: String)
    requires
        t.working_copy matches Some(a) ==> has_short_form(a),
    ensures
        s@ == status_line_of(*t),
{
    let mut s = row_head(t);
    let state = status_state(t);
    s.append(state.as_str());
    let middle = row_middle(t);
    s.append(middle.as_str());
    s.append(session_suffix(t));
    let hold = interruption_suffix(t.interrupted.as_ref());
    s.append(hold.as_str());
    let tree = anchor_suffix(t.working_copy.as_ref());
    s.append(tree.as_str());
    assert(s@ =~= status_line_of(*t));
    s
}

} // verus!
