//! **How the requester learns the answer** — the block a send and a reply hand back, as fields
//! for a machine and in prose for a human: how to look (or that it will be handed the answer),
//! which state means finished, which means stopped, where the answer sits, and how long to wait.
use vstd::prelude::*;
use crate::order::{sort_indices_by_key, sorted_indices};
use crate::quorum::{ThreadQuorum, engine_identity, is_engine_identity};
use crate::text::{holds, views};

verus! {

/// **The window to report for a thread**: the declared one, and only while somebody still owes
/// an answer against it. `None` for a thread with no board at all.
pub fn deadline_of(quorum: Option<&ThreadQuorum>) -> (d: Option<String>)
    ensures
        d == match quorum {
            Some(q) => if q.outstanding@.len() > 0 {
                q.deadline
            } else {
                None
            },
            None => None,
        },
{
    match quorum {
        Some(q) => if q.outstanding.len() > 0 {
            match &q.deadline {
                Some(d) => Some(d.clone()),
                None => None,
            }
        } else {
            None
        },
        None => None,
    }
}

/// The ids of the children among the first `upto` that are still open and were opened, by no
/// engine identity, by one of `waiting_for`.
pub open spec fn waiting_ids(waiting_for: Seq<Seq<char>>, children: Seq<ThreadQuorum>, upto: int) -> Seq<Seq<char>>
    decreases upto,
{
    if upto <= 0 {
        Seq::empty()
    } else {
        let prev = waiting_ids(waiting_for, children, upto - 1);
        let c = children[upto - 1];
        if c.outstanding@.len() > 0 && c.opener is Some && !engine_identity(c.opener->0@)
            && waiting_for.contains(c.opener->0@) {
            prev.push(c.thread_id@)
        } else {
            prev
        }
    }
}

/// A list of strings in stable string order.
pub open spec fn in_string_order(s: Seq<Seq<char>>) -> Seq<Seq<char>> {
    sorted_indices(s, s.len() as int).map_values(|k: int| s[k])
}

/// The open sub-rounds `waiting_for` opened among `children`, thread-id sorted.
pub open spec fn opened_by_of(waiting_for: Seq<Seq<char>>, children: Seq<ThreadQuorum>) -> Seq<Seq<char>> {
    in_string_order(waiting_ids(waiting_for, children, children.len() as int))
}

/// The shared body: the open children `waiting_for` opened, thread-id sorted.
fn opened_by(waiting_for: &Vec<String>, children: &[ThreadQuorum]) -> (ids: Vec<String>)
    ensures
        views(ids@) == opened_by_of(views(waiting_for@), children@),
{
    let ghost wf = views(waiting_for@);
    let mut found: Vec<String> = Vec::new();
    let mut i: usize = 0;
    while i < children.len()
        invariant
            i <= children@.len(),
            wf == views(waiting_for@),
            views(found@) == waiting_ids(wf, children@, i as int),
        decreases children@.len() - i,
    {
        let c = &children[i];
        if c.outstanding.len() > 0 {
            if let Some(opener) = &c.opener {
                if !is_engine_identity(opener.as_str()) && holds(waiting_for, opener.as_str()) {
                    let ghost before = views(found@);
                    found.push(c.thread_id.clone());
                    assert(views(found@) =~= before.push(c.thread_id@));
                }
            }
        }
        i += 1;
    }
    let ghost w = views(found@);
    let order = sort_indices_by_key(&found);
    proof {
        crate::order::lemma_sorted_indices_range(w, w.len() as int);
        assert forall|k: int| 0 <= k < order@.len() implies #[trigger] order@[k] < found@.len() by {
            assert(order@.map_values(|x: usize| x as int)[k] == order@[k] as int);
        }
    }
    let ghost target = in_string_order(w);
    let mut ids: Vec<String> = Vec::new();
    let mut j: usize = 0;
    while j < order.len()
        invariant
            j <= order@.len(),
            order@.len() == found@.len(),
            w == views(found@),
            target == in_string_order(w),
            order@.map_values(|x: usize| x as int) == sorted_indices(w, w.len() as int),
            forall|k: int| 0 <= k < order@.len() ==> #[trigger] order@[k] < found@.len(),
            views(ids@) == target.take(j as int),
        decreases order@.len() - j,
    {
        let k = order[j];
        assert(order@.map_values(|x: usize| x as int)[j as int] == k as int);
        let ghost before = views(ids@);
        ids.push(found[k].clone());
        assert(views(ids@) =~= before.push(w[k as int]));
        assert(target.take(j + 1) =~= target.take(j as int).push(target[j as int]));
        j += 1;
    }
    assert(target.take(j as int) =~= target);
    ids
}

/// **The sub-round the party that owes `thread` an answer commissioned itself, and is waiting
/// on**: the open children opened by one of `thread`'s outstanding handles (no engine identity),
/// thread-id sorted. Empty when nobody here owes an answer.
pub open spec fn sub_round_of(thread: ThreadQuorum, children: Seq<ThreadQuorum>) -> Seq<Seq<char>> {
    if thread.outstanding@.len() == 0 {
        Seq::empty()
    } else {
        opened_by_of(views(thread.outstanding@), children)
    }
}

/// The sub-round of one party, `handle`, on `thread`: what it opened among `children`, if it owes
/// `thread` an answer at all.
pub open spec fn callers_sub_round_of(handle: Seq<char>, thread: ThreadQuorum, children: Seq<ThreadQuorum>) -> Seq<Seq<char>> {
    if !views(thread.outstanding@).contains(handle) {
        Seq::empty()
    } else {
        opened_by_of(seq![handle], children)
    }
}

/// The sub-round the party that owes `thread` an answer is waiting on.
pub fn own_open_sub_round(thread: &ThreadQuorum, children: &[ThreadQuorum]) -> (ids: Vec<String>)
    ensures
        views(ids@) == sub_round_of(*thread, children@),
{
    if thread.outstanding.len() == 0 {
        return Vec::new();
    }
    opened_by(&thread.outstanding, children)
}

/// **The same question asked of one party**: is `handle` waiting on a round it commissioned?
/// Empty when `handle` owes `thread` nothing.
pub fn own_open_sub_round_of(handle: &str, thread: &ThreadQuorum, children: &[ThreadQuorum]) -> (ids: Vec<String>)
    ensures
        views(ids@) == callers_sub_round_of(handle@, *thread, children@),
{
    if !holds(&thread.outstanding, handle) {
        return Vec::new();
    }
    let just: Vec<String> = vec![handle.to_string()];
    assert(views(just@) =~= seq![handle@]);
    opened_by(&just, children)
}

/// **Where the answer sits in the polled payload** — the newest message of the thread.
pub const ANSWER_AT: &'static str = "messages[-1]";

/// The read a polling caller runs, as argv.
pub open spec fn poll_argv_of(thread_id: Seq<char>) -> Seq<Seq<char>> {
    seq!["nxc"@, "threads"@, "show"@, thread_id, "--json"@]
}

/// The read a polling caller runs, as argv rather than as a command line.
fn poll_argv(thread_id: &str) -> (argv: Vec<String>)
    ensures
        views(argv@) == poll_argv_of(thread_id@),
{
    let argv = vec!["nxc".to_string(), "threads".to_string(), "show".to_string(), thread_id.to_string(), "--json".to_string()];
    assert(views(argv@) =~= poll_argv_of(thread_id@));
    argv
}

/// Whether this caller has to come back and look, or will be handed the answer.
#[derive(Debug, Clone, Copy, PartialEq, Eq, Structural)]
pub enum AwaitHow {
    /// Nobody will wake you: run the poll until the round reaches a terminal state.
    Poll,
    /// Do not poll — you are resumed with the answer.
    Resume,
}

/// **The round is finished — all of these hold at once**: `complete` is `true` and `outstanding`
/// is empty on the polled payload.
#[derive(Debug, Clone, PartialEq, Eq)]
pub struct DoneWhen {
    pub complete: bool,
    pub outstanding: Vec<String>,
}

/// **The round has stopped — any of these means no answer is coming**: `stale`, or `escalated`.
#[derive(Debug, Clone, PartialEq, Eq)]
pub struct StoppedWhen {
    pub stale: bool,
    pub escalated: bool,
}

/// **How to learn the answer to what was just sent**, as fields.
#[derive(Debug, Clone, PartialEq, Eq)]
pub struct Await {
    /// Which of the two readers this is.
    pub how: AwaitHow,
    /// The argv to run to see where the round stands; none for a resumed reader.
    pub poll: Option<Vec<String>>,
    pub done_when: DoneWhen,
    pub stopped_when: StoppedWhen,
    /// Where the answer sits in the polled payload.
    pub answer_at: &'static str,
    /// The instant the answer is due by, where a window was declared.
    pub deadline: Option<String>,
}

/// The promise both readers share: the predicates, where the answer sits, and the window.
pub open spec fn shares_the_promise(a: Await, deadline: Option<String>) -> bool {
    &&& a.done_when.complete
    &&& a.done_when.outstanding@.len() == 0
    &&& a.stopped_when.stale
    &&& a.stopped_when.escalated
    &&& a.answer_at@ == ANSWER_AT@
    &&& a.deadline == deadline
}

impl Await {
    /// The block for a caller that has to come back and look.
    pub fn poll(thread_id: &str, deadline: Option<String>) -> (a: Await)
        ensures
            a.how == AwaitHow::Poll,
            a.poll matches Some(argv) && views(argv@) == poll_argv_of(thread_id@),
            shares_the_promise(a, deadline),
    {
        let shared = Await::predicates(deadline);
        Await {
            how: AwaitHow::Poll,
            poll: Some(poll_argv(thread_id)),
            done_when: shared.done_when,
            stopped_when: shared.stopped_when,
            answer_at: shared.answer_at,
            deadline: shared.deadline,
        }
    }

    /// The block for a registered persona: the opposite advice in the same field.
    pub fn resumed(deadline: Option<String>) -> (a: Await)
        ensures
            a.how == AwaitHow::Resume,
            a.poll is None,
            shares_the_promise(a, deadline),
    {
        let shared = Await::predicates(deadline);
        Await {
            how: AwaitHow::Resume,
            poll: None,
            done_when: shared.done_when,
            stopped_when: shared.stopped_when,
            answer_at: shared.answer_at,
            deadline: shared.deadline,
        }
    }

    /// The half both readers share, in one place.
    fn predicates(deadline: Option<String>) -> (a: Await)
        ensures
            shares_the_promise(a, deadline),
    {
        Await {
            how: AwaitHow::Poll,
            poll: None,
            done_when: DoneWhen { complete: true, outstanding: Vec::new() },
            stopped_when: StoppedWhen { stale: true, escalated: true },
            answer_at: ANSWER_AT,
            deadline,
        }
    }

    /// Pick the reader: a registered persona is resumed, anybody else polls.
    pub fn for_caller(persona: bool, thread_id: &str, deadline: Option<String>) -> (a: Await)
        ensures
            a.how == (if persona {
                AwaitHow::Resume
            } else {
                AwaitHow::Poll
            }),
            persona ==> a.poll is None,
            !persona ==> (a.poll matches Some(argv) && views(argv@) == poll_argv_of(thread_id@)),
            shares_the_promise(a, deadline),
    {
        if persona {
            Await::resumed(deadline)
        } else {
            Await::poll(thread_id, deadline)
        }
    }

    /// **The same content, for the human** — the lines under the receipt's first line, indented,
    /// without a trailing newline.
    pub fn render_human(&self, thread_id: &str) -> (out: String)
        ensures
            out@ == human_of(*self, thread_id@),
    {
        let mut due = String::new();
        if let Some(d) = &self.deadline {
            due.append("\n  The answer is due by ");
            due.append(d.as_str());
            due.append(".");
        }
        let mut out = String::new();
        match self.how {
            AwaitHow::Poll => {
                out.append("\n  The answer lands in this thread.\n    nxc threads show    ");
                out.append(thread_id);
                out.append("    — the conversation\n    nxc status --thread ");
                out.append(thread_id);
                out.append("    — where it stands");
                out.append(due.as_str());
                out.append("\n\n  To watch instead of coming back: add --stream next time.");
            },
            AwaitHow::Resume => {
                out.append("\n  The answer lands in this thread. You are resumed with it when it arrives — do not poll for it.");
                out.append(due.as_str());
            },
        }
        out
    }
}

/// The due line, where a window was declared.
pub open spec fn due_of(a: Await) -> Seq<char> {
    match a.deadline {
        Some(d) => "\n  The answer is due by "@ + d@ + "."@,
        None => Seq::empty(),
    }
}

/// What a human reads under a receipt.
pub open spec fn human_of(a: Await, thread_id: Seq<char>) -> Seq<char> {
    match a.how {
        AwaitHow::Poll => "\n  The answer lands in this thread.\n    nxc threads show    "@ + thread_id
            + "    — the conversation\n    nxc status --thread "@ + thread_id + "    — where it stands"@
            + due_of(a) + "\n\n  To watch instead of coming back: add --stream next time."@,
        AwaitHow::Resume => "\n  The answer lands in this thread. You are resumed with it when it arrives — do not poll for it."@
            + due_of(a),
    }
}


/// **Both readers are made one promise**: the block a poller gets and the one a resumed persona
/// gets for the same window agree on what finished means, what stopped means, where the answer
/// sits and when it is due — they differ in how the answer is learned, and nothing else.
pub proof fn lemma_both_readers_share_one_promise(polled: Await, resumed: Await, deadline: Option<String>)
    requires
        shares_the_promise(polled, deadline),
        shares_the_promise(resumed, deadline),
    ensures
        polled.done_when.complete == resumed.done_when.complete,
        polled.done_when.outstanding@ == resumed.done_when.outstanding@,
        polled.stopped_when == resumed.stopped_when,
        polled.answer_at@ == resumed.answer_at@,
        polled.deadline == resumed.deadline,
{
}

/// **Sub-rounds are listed in thread-id order, each once**: what [`in_string_order`] yields is the
/// list it was given, rearranged, with no id coming after one it precedes in string order.
pub proof fn lemma_sub_rounds_in_thread_id_order(w: Seq<Seq<char>>)
    ensures
        in_string_order(w).len() == w.len(),
        forall|x: int, y: int|
            0 <= x < y < w.len() ==> !crate::order::precedes(#[trigger] in_string_order(w)[y], #[trigger] in_string_order(w)[x]),
        forall|x: int| 0 <= x < w.len() ==> exists|j: int| 0 <= j < w.len() && #[trigger] in_string_order(w)[x] == w[j],
        forall|j: int| 0 <= j < w.len() ==> exists|x: int| 0 <= x < w.len() && in_string_order(w)[x] == #[trigger] w[j],
{
    let n = w.len() as int;
    let ord = sorted_indices(w, n);
    crate::order::lemma_sorted_indices_sorted(w, n);
    let out = in_string_order(w);
    assert forall|x: int| 0 <= x < w.len() implies exists|j: int| 0 <= j < w.len() && #[trigger] out[x] == w[j] by {
        assert(ord.contains(ord[x]));
        assert(out[x] == w[ord[x]]);
    }
    assert forall|j: int| 0 <= j < w.len() implies exists|x: int| 0 <= x < w.len() && out[x] == #[trigger] w[j] by {
        assert(ord.contains(j));
        let x = choose|x: int| 0 <= x < ord.len() && ord[x] == j;
        assert(out[x] == w[j]);
    }
}

/// Children opened by anyone of `a` are opened by someone of `b`, where everyone of `a` is in `b`.
proof fn lemma_waiting_ids_grow(a: Seq<Seq<char>>, b: Seq<Seq<char>>, children: Seq<ThreadQuorum>, upto: int)
    requires
        forall|y: Seq<char>| #[trigger] a.contains(y) ==> b.contains(y),
        upto <= children.len(),
    ensures
        forall|x: Seq<char>| #[trigger] waiting_ids(a, children, upto).contains(x) ==> waiting_ids(b, children, upto).contains(x),
    decreases upto,
{
    if upto > 0 {
        lemma_waiting_ids_grow(a, b, children, upto - 1);
        let pa = waiting_ids(a, children, upto - 1);
        let pb = waiting_ids(b, children, upto - 1);
        let wa = waiting_ids(a, children, upto);
        let wb = waiting_ids(b, children, upto);
        assert forall|x: Seq<char>| #[trigger] wa.contains(x) implies wb.contains(x) by {
            let k = choose|k: int| 0 <= k < wa.len() && wa[k] == x;
            if k < pa.len() {
                assert(pa[k] == x);
                assert(pa.contains(x));
                assert(pb.contains(x));
                let m = choose|m: int| 0 <= m < pb.len() && pb[m] == x;
                assert(wb[m] == x);
            } else {
                let c = children[upto - 1];
                assert(a.contains(c.opener->0@));
                assert(wb[wb.len() - 1] == x);
            }
        }
    }
}

/// **A caller's own sub-round is part of its thread's**: every round one party is waiting on is
/// among the rounds the thread's owing parties are waiting on, in a thread-id order of its own.
pub proof fn lemma_a_callers_sub_round_is_part_of_the_threads(
    handle: Seq<char>,
    thread: ThreadQuorum,
    children: Seq<ThreadQuorum>,
)
    ensures
        forall|x: Seq<char>| #[trigger] callers_sub_round_of(handle, thread, children).contains(x)
            ==> sub_round_of(thread, children).contains(x),
{
    let out = views(thread.outstanding@);
    if out.contains(handle) {
        let one = seq![handle];
        let n = children.len() as int;
        lemma_waiting_ids_grow(one, out, children, n);
        let wo = waiting_ids(one, children, n);
        let wt = waiting_ids(out, children, n);
        lemma_sub_rounds_in_thread_id_order(wo);
        lemma_sub_rounds_in_thread_id_order(wt);
        assert(thread.outstanding@.len() > 0);
        assert forall|x: Seq<char>| #[trigger] callers_sub_round_of(handle, thread, children).contains(x)
            implies sub_round_of(thread, children).contains(x) by {
            let so = in_string_order(wo);
            let st = in_string_order(wt);
            let i = choose|i: int| 0 <= i < so.len() && so[i] == x;
            let j = choose|j: int| 0 <= j < wo.len() && so[i] == wo[j];
            assert(wo.contains(x));
            assert(wt.contains(x));
            let k = choose|k: int| 0 <= k < wt.len() && wt[k] == x;
            let m = choose|m: int| 0 <= m < wt.len() && st[m] == wt[k];
            assert(st[m] == x);
        }
    }
}

} // verus!
