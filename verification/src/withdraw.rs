//! **What a withdrawal tells the person who asked for it**: what was taken back before it started,
//! which sessions were asked to end, what started meanwhile, where the work goes, and what is left
//! of the operation.
use vstd::prelude::*;
use crate::text::views;
use crate::tick::FailedConsequence;

verus! {

/// A commission taken back before anything started for it.
#[derive(Debug, Clone, PartialEq, Eq)]
pub struct WithdrawnCommission {
    pub role: String,
    pub thread: String,
}

/// A session a withdrawal asked to end — or found already gone, and why.
#[derive(Debug, Clone, PartialEq, Eq)]
pub struct StoppedSession {
    pub role: String,
    pub thread: String,
    pub session: String,
    pub already_gone: Option<String>,
}

/// **What one withdrawal did**, as its receipt reports it.
#[derive(Debug, Clone, PartialEq, Eq)]
pub struct WithdrawReceipt {
    /// The thread the withdrawal was asked about.
    pub thread_id: String,
    pub withdrawn: Vec<WithdrawnCommission>,
    pub stopped: Vec<StoppedSession>,
    /// Threads whose commission started while the withdrawal ran.
    pub started_meanwhile: Vec<String>,
    /// The work will be parked on a branch once nothing is running.
    pub will_park: bool,
    /// Why the work cannot be parked here, where it cannot.
    pub cannot_park: Option<String>,
    pub warnings: Vec<FailedConsequence>,
}

/// The line for a commission taken back before it started.
pub open spec fn withdrew_line_of(w: WithdrawnCommission) -> Seq<char> {
    "withdrew "@ + w.role@ + " on thread "@ + w.thread@ + " (never started)"@
}

/// The line for a session asked to end, or found already ended.
pub open spec fn stopped_line_of(s: StoppedSession) -> Seq<char> {
    match s.already_gone {
        None => "stopped "@ + s.role@ + " on thread "@ + s.thread@ + " (session "@ + s.session@
            + " was asked to end)"@,
        Some(note) => "withdrew "@ + s.role@ + " on thread "@ + s.thread@ + " — session "@ + s.session@
            + " had already ended, so there was nothing to stop ("@ + note@ + ")"@,
    }
}

/// The line for a thread that started while the withdrawal ran.
pub open spec fn meanwhile_line_of(thread: Seq<char>) -> Seq<char> {
    "NOT withdrawn: thread "@ + thread + " started while this ran — it has a session now"@
}

/// Where the work goes: parked later, handed on unparked and why, or nowhere because none of it
/// is in the working copy — said only where a session was stopped.
pub open spec fn park_lines_of(r: WithdrawReceipt) -> Seq<Seq<char>> {
    if r.will_park {
        seq![
            "its work will be parked on a branch once nothing in this operation is still running (nothing is rolled back): `nxc status` lists the branch under the operation, and the next commission into the same thread — `nxc reply --thread "@
                + r.thread_id@ + "` — brings it back. `nxc tick --thread "@ + r.thread_id@
                + "` does the park by hand if no background service is running"@,
        ]
    } else if r.cannot_park is Some {
        seq![
            "its work is in this workspace's working copy and CANNOT be parked on a branch here ("@
                + r.cannot_park->0@
                + ") — the copy is handed on as it stands once nothing in this operation is still running, with the work left in the tree. `nxc tick --thread "@
                + r.thread_id@ + "` does that hand-off by hand if no background service is running"@,
        ]
    } else if r.stopped@.len() > 0 {
        seq!["nothing of it is in this workspace's working copy, so there is nothing to park"@]
    } else {
        Seq::empty()
    }
}

/// What is left of the operation, where anything was taken back: nothing below it, or nothing but
/// what started meanwhile.
pub open spec fn interrupted_lines_of(r: WithdrawReceipt) -> Seq<Seq<char>> {
    if r.withdrawn@.len() > 0 || r.stopped@.len() > 0 {
        if r.started_meanwhile@.len() == 0 {
            seq![
                "operation "@ + r.thread_id@
                    + " is interrupted: nothing below it is commissioned or consolidated any more"@,
            ]
        } else {
            seq![
                "operation "@ + r.thread_id@
                    + " is interrupted, except for what started while this ran — `nxc withdraw --thread "@
                    + r.thread_id@ + "` again stops that too"@,
            ]
        }
    } else {
        Seq::empty()
    }
}

/// **The lines a withdrawal prints**, in order: what was taken back, what was stopped, what
/// started meanwhile, where the work goes, and what is left of the operation.
pub open spec fn withdraw_lines_of(r: WithdrawReceipt) -> Seq<Seq<char>> {
    r.withdrawn@.map_values(|w: WithdrawnCommission| withdrew_line_of(w)) + r.stopped@.map_values(
        |s: StoppedSession| stopped_line_of(s),
    ) + views(r.started_meanwhile@).map_values(|t: Seq<char>| meanwhile_line_of(t)) + park_lines_of(r)
        + interrupted_lines_of(r)
}

/// The line for a commission taken back before it started.
fn withdrew_line(w: &WithdrawnCommission) -> (l: String)
    ensures
        l@ == withdrew_line_of(*w),
{
    let mut l = String::new();
    l.append("withdrew ");
    l.append(w.role.as_str());
    l.append(" on thread ");
    l.append(w.thread.as_str());
    l.append(" (never started)");
    l
}

/// The line for a session asked to end, or found already ended.
fn stopped_line(s: &StoppedSession) -> (l: String)
    ensures
        l@ == stopped_line_of(*s),
{
    let mut l = String::new();
    match &s.already_gone {
        None => {
            l.append("stopped ");
            l.append(s.role.as_str());
            l.append(" on thread ");
            l.append(s.thread.as_str());
            l.append(" (session ");
            l.append(s.session.as_str());
            l.append(" was asked to end)");
        },
        Some(note) => {
            l.append("withdrew ");
            l.append(s.role.as_str());
            l.append(" on thread ");
            l.append(s.thread.as_str());
            l.append(" — session ");
            l.append(s.session.as_str());
            l.append(" had already ended, so there was nothing to stop (");
            l.append(note.as_str());
            l.append(")");
        },
    }
    l
}

/// The line for a thread that started while the withdrawal ran.
fn meanwhile_line(thread: &str) -> (l: String)
    ensures
        l@ == meanwhile_line_of(thread@),
{
    let mut l = String::new();
    l.append("NOT withdrawn: thread ");
    l.append(thread);
    l.append(" started while this ran — it has a session now");
    l
}

/// The park line of a receipt, if it has one.
fn park_lines(r: &WithdrawReceipt) -> (ls: Vec<String>)
    ensures
        views(ls@) == park_lines_of(*r),
{
    let mut ls: Vec<String> = Vec::new();
    let mut l = String::new();
    if r.will_park {
        l.append(
            "its work will be parked on a branch once nothing in this operation is still running (nothing is rolled back): `nxc status` lists the branch under the operation, and the next commission into the same thread — `nxc reply --thread ",
        );
        l.append(r.thread_id.as_str());
        l.append("` — brings it back. `nxc tick --thread ");
        l.append(r.thread_id.as_str());
        l.append("` does the park by hand if no background service is running");
        ls.push(l);
    } else if let Some(why) = &r.cannot_park {
        l.append("its work is in this workspace's working copy and CANNOT be parked on a branch here (");
        l.append(why.as_str());
        l.append(
            ") — the copy is handed on as it stands once nothing in this operation is still running, with the work left in the tree. `nxc tick --thread ",
        );
        l.append(r.thread_id.as_str());
        l.append("` does that hand-off by hand if no background service is running");
        ls.push(l);
    } else if r.stopped.len() > 0 {
        l.append("nothing of it is in this workspace's working copy, so there is nothing to park");
        ls.push(l);
    }
    assert(views(ls@) =~= park_lines_of(*r));
    ls
}

/// The closing line of a receipt, if anything was taken back.
fn interrupted_lines(r: &WithdrawReceipt) -> (ls: Vec<String>)
    ensures
        views(ls@) == interrupted_lines_of(*r),
{
    let mut ls: Vec<String> = Vec::new();
    if r.withdrawn.len() > 0 || r.stopped.len() > 0 {
        let mut l = String::new();
        l.append("operation ");
        l.append(r.thread_id.as_str());
        if r.started_meanwhile.len() == 0 {
            l.append(" is interrupted: nothing below it is commissioned or consolidated any more");
        } else {
            l.append(" is interrupted, except for what started while this ran — `nxc withdraw --thread ");
            l.append(r.thread_id.as_str());
            l.append("` again stops that too");
        }
        ls.push(l);
    }
    assert(views(ls@) =~= interrupted_lines_of(*r));
    ls
}

/// The lines a withdrawal prints.
pub fn withdraw_lines(r: &WithdrawReceipt) -> (lines: Vec<String>)
    ensures
        views(lines@) == withdraw_lines_of(*r),
{
    let mut lines: Vec<String> = Vec::new();
    let mut i: usize = 0;
    while i < r.withdrawn.len()
        invariant
            i <= r.withdrawn@.len(),
            views(lines@) == r.withdrawn@.take(i as int).map_values(|w: WithdrawnCommission| withdrew_line_of(w)),
        decreases r.withdrawn@.len() - i,
    {
        let l = withdrew_line(&r.withdrawn[i]);
        let ghost before = lines@;
        lines.push(l);
        assert(views(lines@) =~= views(before).push(withdrew_line_of(r.withdrawn@[i as int])));
        assert(r.withdrawn@.take(i + 1) =~= r.withdrawn@.take(i as int).push(r.withdrawn@[i as int]));
        i += 1;
    }
    assert(r.withdrawn@.take(i as int) =~= r.withdrawn@);
    let ghost a = views(lines@);
    let mut i: usize = 0;
    while i < r.stopped.len()
        invariant
            i <= r.stopped@.len(),
            views(lines@) == a + r.stopped@.take(i as int).map_values(|s: StoppedSession| stopped_line_of(s)),
        decreases r.stopped@.len() - i,
    {
        let l = stopped_line(&r.stopped[i]);
        let ghost before = lines@;
        lines.push(l);
        assert(views(lines@) =~= views(before).push(stopped_line_of(r.stopped@[i as int])));
        assert(r.stopped@.take(i + 1) =~= r.stopped@.take(i as int).push(r.stopped@[i as int]));
        i += 1;
    }
    assert(r.stopped@.take(i as int) =~= r.stopped@);
    let ghost b = views(lines@);
    let mut i: usize = 0;
    while i < r.started_meanwhile.len()
        invariant
            i <= r.started_meanwhile@.len(),
            views(lines@) == b + views(r.started_meanwhile@).take(i as int).map_values(
                |t: Seq<char>| meanwhile_line_of(t),
            ),
        decreases r.started_meanwhile@.len() - i,
    {
        let l = meanwhile_line(r.started_meanwhile[i].as_str());
        let ghost before = lines@;
        lines.push(l);
        assert(views(lines@) =~= views(before).push(meanwhile_line_of(r.started_meanwhile@[i as int]@)));
        assert(views(r.started_meanwhile@).take(i + 1) =~= views(r.started_meanwhile@).take(i as int).push(
            r.started_meanwhile@[i as int]@,
        ));
        i += 1;
    }
    assert(views(r.started_meanwhile@).take(i as int) =~= views(r.started_meanwhile@));
    let ghost c = views(lines@);
    let mut park = park_lines(r);
    lines.append(&mut park);
    let ghost d = views(lines@);
    assert(d =~= c + park_lines_of(*r));
    let mut closing = interrupted_lines(r);
    lines.append(&mut closing);
    assert(views(lines@) =~= withdraw_lines_of(*r));
    lines
}

/// **A withdrawal that took anything back ends by saying the operation is interrupted** — except,
/// where something started meanwhile, for what started — and one that took nothing back says
/// nothing of the operation at all.
pub proof fn lemma_a_withdrawal_ends_with_the_interruption(r: WithdrawReceipt)
    ensures
        (r.withdrawn@.len() > 0 || r.stopped@.len() > 0) ==> {
            let ls = withdraw_lines_of(r);
            &&& ls.len() > 0
            &&& ls.last() == "operation "@ + r.thread_id@ + if r.started_meanwhile@.len() == 0 {
                " is interrupted: nothing below it is commissioned or consolidated any more"@
            } else {
                " is interrupted, except for what started while this ran — `nxc withdraw --thread "@
                    + r.thread_id@ + "` again stops that too"@
            }
        },
        (r.withdrawn@.len() == 0 && r.stopped@.len() == 0) ==> withdraw_lines_of(r).len()
            == r.started_meanwhile@.len() + (if r.will_park || r.cannot_park is Some {
            1int
        } else {
            0int
        }),
        withdraw_lines_of(r).len() >= r.withdrawn@.len() + r.stopped@.len() + r.started_meanwhile@.len(),
{
    let ls = withdraw_lines_of(r);
    if 0 < r.withdrawn@.len() + r.stopped@.len() {
        assert(ls.last() == interrupted_lines_of(r)[0]);
    }
}

} // verus!
