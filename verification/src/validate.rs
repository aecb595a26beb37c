//! **Whether a channel declaration can be used as it stands**: the self-contained checks a
//! declared channel must pass at its point of use — its consolidator, its flow, and, for a channel
//! that declares `steps:`, the state machine those steps describe.
use vstd::prelude::*;
use crate::channel::{ChannelDecl, Expects, Flow, FlowStep, OnComplete, INPUT_REQUEST, ON_NEEDS_REWORK, step_ids, step_index};
use crate::text::{debug_quoted, debug_str, dec, decimal, is_blank, starts_with, views, blank, holds, str_eq, str_starts_with};

verus! {

/// The one declaration surface the channel validators report against.
pub const CHANNELS_FILE: &'static str = "channels.yaml";

/// A problem found in a channel declaration: the file it was read from and what is wrong, naming
/// the channel and the offending step or field.
#[derive(Debug, Clone, PartialEq, Eq)]
pub struct ValidationError {
    pub file: String,
    pub what: String,
}

/// Which of a step's two edges a name was given in.
#[derive(Debug, Clone, Copy, PartialEq, Eq, Structural)]
pub enum Edge {
    Next,
    OnNeedsRework,
}

impl Edge {
    /// The key the edge is declared under.
    pub fn field(&self) -> (f: &'static str)
        ensures
            f@ == edge_field(*self)@,
    {
        match self {
            Edge::Next => "next",
            Edge::OnNeedsRework => ON_NEEDS_REWORK,
        }
    }
}

/// The key an edge is declared under.
pub open spec fn edge_field(e: Edge) -> &'static str {
    match e {
        Edge::Next => "next",
        Edge::OnNeedsRework => ON_NEEDS_REWORK,
    }
}

/// **The first thing wrong with a channel declaration**, in the order the checks run. Each
/// variant carries the step it is about and the name it is about, where it has them.
#[derive(Debug, Clone, PartialEq, Eq)]
pub enum ChannelProblem {
    /// `on_complete: summarize` with no `summary_prompt`.
    SummarizeWithoutPrompt,
    /// `flow: sequential` beside an `expects` subset: two lists deciding one order.
    SubsetBesideSequentialFlow,
    /// `flow: sequential` beside `steps:`: two answers to one question.
    StepsBesideSequentialFlow,
    /// A step whose id is blank.
    StepWithoutId,
    /// A step whose target is blank.
    StepWithoutTarget { step: String },
    /// A second step under an id already declared.
    DuplicateStepId { step: String },
    /// An `on_*` key other than `on_needs_rework`.
    ForbiddenOnKey { step: String, key: String },
    /// A `model:` key on a step.
    ModelOnStep { step: String },
    /// A step declared under the name `input:` reserves for the request.
    ReservedStepId,
    /// An `input` source that is neither the request nor a declared step.
    UnknownInputSource { step: String, source: String },
    /// An `input` source named a second time.
    RepeatedInputSource { step: String, source: String },
    /// An edge naming no declared step.
    DanglingEdge { step: String, edge: Edge, target: String },
    /// A back edge with no ceiling.
    BackEdgeWithoutCeiling { step: String },
    /// A back edge whose ceiling is below two, so it can never be taken.
    CeilingBelowTwo { step: String, ceiling: u32 },
    /// A ceiling with no back edge to count.
    CeilingWithoutEdge { step: String },
    /// A step whose `next` chain runs into a cycle.
    NextCycle { step: String },
}

// ---- the model -----------------------------------------------------------------------------

/// Is `key` an `on_*` key a step may not declare?
pub open spec fn forbidden_on_key(key: Seq<char>) -> bool {
    starts_with(key, "on_"@) && key != ON_NEEDS_REWORK@
}

/// The first index at or after `j` of a forbidden `on_*` key.
pub open spec fn first_forbidden_from(keys: Seq<String>, j: int) -> Option<int>
    decreases keys.len() - j,
{
    if j < 0 || j >= keys.len() {
        None
    } else if forbidden_on_key(keys[j]@) {
        Some(j)
    } else {
        first_forbidden_from(keys, j + 1)
    }
}

/// Does some step of `c` declare `id`?
pub open spec fn declares_step(c: ChannelDecl, id: Seq<char>) -> bool {
    step_ids(c).contains(id)
}

/// The first problem with the `input` sources of step `s` of `c`, at or after source `j`.
pub open spec fn sources_problem_from(c: ChannelDecl, s: FlowStep, srcs: Seq<String>, j: int) -> Option<ChannelProblem>
    decreases srcs.len() - j,
{
    if j < 0 || j >= srcs.len() {
        None
    } else if srcs[j]@ != INPUT_REQUEST@ && !declares_step(c, srcs[j]@) {
        Some(ChannelProblem::UnknownInputSource { step: s.id, source: srcs[j] })
    } else if views(srcs.take(j)).contains(srcs[j]@) {
        Some(ChannelProblem::RepeatedInputSource { step: s.id, source: srcs[j] })
    } else {
        sources_problem_from(c, s, srcs, j + 1)
    }
}

/// The first problem with the edges of step `s`: `next`, then the back edge.
pub open spec fn edge_problem(c: ChannelDecl, s: FlowStep) -> Option<ChannelProblem> {
    if s.next is Some && !declares_step(c, s.next->0@) {
        Some(ChannelProblem::DanglingEdge { step: s.id, edge: Edge::Next, target: s.next->0 })
    } else if s.on_needs_rework is Some && !declares_step(c, s.on_needs_rework->0@) {
        Some(ChannelProblem::DanglingEdge { step: s.id, edge: Edge::OnNeedsRework, target: s.on_needs_rework->0 })
    } else {
        None
    }
}

/// The problem with step `s`'s back edge and its ceiling, if the two do not go together.
pub open spec fn ceiling_problem(s: FlowStep) -> Option<ChannelProblem> {
    match (s.on_needs_rework, s.max_passes) {
        (Some(_), None) => Some(ChannelProblem::BackEdgeWithoutCeiling { step: s.id }),
        (Some(_), Some(n)) => if n < 2 {
            Some(ChannelProblem::CeilingBelowTwo { step: s.id, ceiling: n })
        } else {
            None
        },
        (None, Some(_)) => Some(ChannelProblem::CeilingWithoutEdge { step: s.id }),
        (None, None) => None,
    }
}

/// The first problem with step `i` of `c`, given that every step before it passed.
pub open spec fn step_problem(c: ChannelDecl, i: int) -> Option<ChannelProblem> {
    let s = c.steps@[i];
    if is_blank(s.id@) {
        Some(ChannelProblem::StepWithoutId)
    } else if is_blank(s.target@) {
        Some(ChannelProblem::StepWithoutTarget { step: s.id })
    } else if step_ids(c).take(i).contains(s.id@) {
        Some(ChannelProblem::DuplicateStepId { step: s.id })
    } else if first_forbidden_from(s.unknown_keys@, 0) is Some {
        Some(ChannelProblem::ForbiddenOnKey { step: s.id, key: s.unknown_keys@[first_forbidden_from(s.unknown_keys@, 0)->0] })
    } else if views(s.unknown_keys@).contains("model"@) {
        Some(ChannelProblem::ModelOnStep { step: s.id })
    } else if s.id@ == INPUT_REQUEST@ {
        Some(ChannelProblem::ReservedStepId)
    } else if s.input is Some && sources_problem_from(c, s, s.input->0@, 0) is Some {
        sources_problem_from(c, s, s.input->0@, 0)
    } else if edge_problem(c, s) is Some {
        edge_problem(c, s)
    } else {
        ceiling_problem(s)
    }
}

/// The first problem among the steps of `c` from step `i` on.
pub open spec fn steps_problem_from(c: ChannelDecl, i: int) -> Option<ChannelProblem>
    decreases c.steps@.len() - i,
{
    if i < 0 || i >= c.steps@.len() {
        None
    } else if step_problem(c, i) is Some {
        step_problem(c, i)
    } else {
        steps_problem_from(c, i + 1)
    }
}

/// The step `next` leads to from step `i`, if it names one.
pub open spec fn next_index(c: ChannelDecl, i: int) -> Option<int> {
    match c.steps@[i].next {
        Some(id) => step_index(c, id@),
        None => None,
    }
}

/// Where the `next` chain from step `s` stands after `k` hops, if it has not ended.
pub open spec fn walk(c: ChannelDecl, s: int, k: nat) -> Option<int>
    decreases k,
{
    if k == 0 {
        Some(s)
    } else {
        match walk(c, s, (k - 1) as nat) {
            Some(i) => next_index(c, i),
            None => None,
        }
    }
}

/// **The `next` chain from step `s` never ends** — so it runs into a cycle.
pub open spec fn never_ends(c: ChannelDecl, s: int) -> bool {
    forall|k: nat| #[trigger] walk(c, s, k) is Some
}

/// The first step, at or after `s`, whose `next` chain never ends.
pub open spec fn first_cycle_from(c: ChannelDecl, s: int) -> Option<int>
    decreases c.steps@.len() - s,
{
    if s < 0 || s >= c.steps@.len() {
        None
    } else if never_ends(c, s) {
        Some(s)
    } else {
        first_cycle_from(c, s + 1)
    }
}

/// **The first thing wrong with channel `c`**, in the order the checks run, or `None` when it
/// can be used as declared.
pub open spec fn problem_of(c: ChannelDecl) -> Option<ChannelProblem> {
    if c.on_complete == OnComplete::Summarize && c.summary_prompt is None {
        Some(ChannelProblem::SummarizeWithoutPrompt)
    } else if c.flow == Flow::Sequential && c.expects is Subset {
        Some(ChannelProblem::SubsetBesideSequentialFlow)
    } else if c.steps@.len() == 0 {
        None
    } else if c.flow == Flow::Sequential {
        Some(ChannelProblem::StepsBesideSequentialFlow)
    } else if steps_problem_from(c, 0) is Some {
        steps_problem_from(c, 0)
    } else {
        match first_cycle_from(c, 0) {
            Some(s) => Some(ChannelProblem::NextCycle { step: c.steps@[s].id }),
            None => None,
        }
    }
}

/// The step a problem is about, or nothing.
pub open spec fn step_of(p: ChannelProblem) -> Seq<char> {
    match p {
        ChannelProblem::StepWithoutTarget { step } => step@,
        ChannelProblem::DuplicateStepId { step } => step@,
        ChannelProblem::ForbiddenOnKey { step, .. } => step@,
        ChannelProblem::ModelOnStep { step } => step@,
        ChannelProblem::UnknownInputSource { step, .. } => step@,
        ChannelProblem::RepeatedInputSource { step, .. } => step@,
        ChannelProblem::DanglingEdge { step, .. } => step@,
        ChannelProblem::BackEdgeWithoutCeiling { step } => step@,
        ChannelProblem::CeilingBelowTwo { step, .. } => step@,
        ChannelProblem::CeilingWithoutEdge { step } => step@,
        ChannelProblem::NextCycle { step } => step@,
        _ => Seq::empty(),
    }
}

/// The name a problem is about besides its step — a key, a source or a target — or nothing.
pub open spec fn detail_of(p: ChannelProblem) -> Seq<char> {
    match p {
        ChannelProblem::ForbiddenOnKey { key, .. } => key@,
        ChannelProblem::UnknownInputSource { source, .. } => source@,
        ChannelProblem::RepeatedInputSource { source, .. } => source@,
        ChannelProblem::DanglingEdge { target, .. } => target@,
        _ => Seq::empty(),
    }
}

/// **What a problem says**, given the channel's name, its step and its detail already quoted.
pub open spec fn what_of(p: ChannelProblem, q: Seq<char>, qs: Seq<char>, qd: Seq<char>) -> Seq<char> {
    match p {
        ChannelProblem::SummarizeWithoutPrompt => "channel "@ + q + ": on_complete=summarize requires summary_prompt"@,
        ChannelProblem::SubsetBesideSequentialFlow => "channel "@ + q + ": flow=sequential cannot be combined with an `expects` subset — the order of `members` IS the flow, and a subset is a second list deciding the same thing"@,
        ChannelProblem::StepsBesideSequentialFlow => "channel "@ + q + ": flow=sequential cannot be combined with `steps:` — the steps ARE the flow, and `members` is then only who belongs to the channel"@,
        ChannelProblem::StepWithoutId => "channel "@ + q + ": a step with no `id` — the id is what the engine keys a step's thread on and what `next`/`on_needs_rework` name"@,
        ChannelProblem::StepWithoutTarget { .. } => "channel "@ + q + ": step "@ + qs + " declares no `target` — a step has to commission somebody"@,
        ChannelProblem::DuplicateStepId { .. } => "channel "@ + q + ": step id "@ + qs + " is declared twice — the id is what tells two steps apart, so two under one id are indistinguishable to the engine"@,
        ChannelProblem::ForbiddenOnKey { .. } => "channel "@ + q + ": step "@ + qs + " declares "@ + qd + " — `on_needs_rework` is the only `on_*` a step may declare. `--escalate` is not declarable at all: it says \"I cannot reach the result of my own task without help or a decision\" and holds in every channel, while a verdict bit says \"somebody else's work is not deliverable\""@,
        ChannelProblem::ModelOnStep { .. } => "channel "@ + q + ": step "@ + qs + " declares `model:` — a step may not name a model. Declare `stage: junior | senior | principal` instead: the band says what this step's thinking is worth without naming a product, and it overrides the stage declared on the step's target. A persona that must always run on one named model declares `model:` on ITSELF, and no step overrides it"@,
        ChannelProblem::ReservedStepId => "channel "@ + q + ": a step is declared under the id \"request\", which is the one name `input:` reserves for the request that opened the run. Rename the step — otherwise `input: [request]` names two things at once"@,
        ChannelProblem::UnknownInputSource { .. } => "channel "@ + q + ": step "@ + qs + " names "@ + qd + " in its `input`, and this channel declares no step under that id. The one name that is not a step is \"request\" — the request that opened the run"@,
        ChannelProblem::RepeatedInputSource { .. } => "channel "@ + q + ": step "@ + qs + " names "@ + qd + " twice in its `input` — a source named twice carries the same text in twice, which is not something a declaration can mean"@,
        ChannelProblem::DanglingEdge { edge, .. } => "channel "@ + q + ": step "@ + qs + " names "@ + qd + " as its `"@ + edge_field(edge)@ + "`, and this channel declares no step under that id"@,
        ChannelProblem::BackEdgeWithoutCeiling { .. } => "channel "@ + q + ": step "@ + qs + " declares `on_needs_rework` without `max_passes` — a back edge with no ceiling is a loop nothing ends"@,
        ChannelProblem::CeilingBelowTwo { ceiling, .. } => "channel "@ + q + ": step "@ + qs + " declares `max_passes: "@ + dec(ceiling as nat) + "` — the ORIGINAL attempt is pass 1, so a ceiling below 2 declares a back edge that can never be taken. `max_passes: 2` allows the original attempt and one rework; a step that should never send work back declares no `on_needs_rework` at all"@,
        ChannelProblem::CeilingWithoutEdge { .. } => "channel "@ + q + ": step "@ + qs + " declares `max_passes` but no `on_needs_rework` — the ceiling counts a back edge, and this step has none"@,
        ChannelProblem::NextCycle { .. } => "channel "@ + q + ": the `next` chain from step "@ + qs + " runs into a cycle — a cycle over `next` has no ceiling, so it would run until the hop guard stops it. A deliberate cycle goes over `on_needs_rework`, which `max_passes` bounds"@,
    }
}


// ---- the `next` chain ----------------------------------------------------------------------

/// A step index that a chain reaches is a step of the channel.
proof fn lemma_walk_in_range(c: ChannelDecl, s: int, k: nat)
    requires
        0 <= s < c.steps@.len(),
    ensures
        walk(c, s, k) matches Some(i) ==> 0 <= i < c.steps@.len(),
    decreases k,
{
    if k > 0 {
        lemma_walk_in_range(c, s, (k - 1) as nat);
        if let Some(i) = walk(c, s, (k - 1) as nat) {
            if let Some(id) = c.steps@[i].next {
                crate::channel::lemma_step_index_in_range(c, id@);
            }
        }
    }
}

/// More values than there are places: `n + 1` integers below `n` repeat one.
proof fn lemma_pigeonhole(sq: Seq<int>, n: int)
    requires
        n >= 0,
        sq.len() == n + 1,
        forall|k: int| 0 <= k < sq.len() ==> 0 <= #[trigger] sq[k] < n,
    ensures
        exists|a: int, b: int| 0 <= a < b < sq.len() && #[trigger] sq[a] == #[trigger] sq[b],
{
    if !exists|a: int, b: int| 0 <= a < b < sq.len() && #[trigger] sq[a] == #[trigger] sq[b] {
        assert forall|i: int, j: int| 0 <= i < sq.len() && 0 <= j < sq.len() && i != j implies sq[i] != sq[j] by {
            if i < j {
                assert(!(sq[i] == sq[j]));
            } else {
                assert(!(sq[j] == sq[i]));
            }
        }
        assert(sq.no_duplicates());
        sq.unique_seq_to_set();
        let rng = vstd::set_lib::set_int_range(0, n);
        vstd::set_lib::lemma_int_range(0, n);
        assert forall|x: int| sq.to_set().contains(x) implies rng.contains(x) by {
            let k = choose|k: int| 0 <= k < sq.len() && sq[k] == x;
        }
        vstd::set_lib::lemma_len_subset(sq.to_set(), rng);
    }
}

/// Once a chain has ended it stays ended.
proof fn lemma_walk_ended(c: ChannelDecl, s: int, a: nat, b: nat)
    requires
        a <= b,
        walk(c, s, a) is None,
    ensures
        walk(c, s, b) is None,
    decreases b - a,
{
    if a < b {
        lemma_walk_ended(c, s, a, (b - 1) as nat);
    }
}

/// Walking `a + t` hops from `s` is walking `t` hops from where `a` hops led.
proof fn lemma_walk_shift(c: ChannelDecl, s: int, a: nat, t: nat)
    requires
        walk(c, s, a) is Some,
    ensures
        walk(c, s, a + t) == walk(c, walk(c, s, a)->0, t),
    decreases t,
{
    if t > 0 {
        lemma_walk_shift(c, s, a, (t - 1) as nat);
        assert((a + t - 1) as nat == a + (t - 1) as nat);
    }
}

/// A chain that comes back to a step it stood on goes on for ever.
proof fn lemma_walk_repeats(c: ChannelDecl, s: int, a: nat, b: nat, k: nat)
    requires
        a < b,
        walk(c, s, a) is Some,
        walk(c, s, a) == walk(c, s, b),
    ensures
        walk(c, s, k) is Some,
    decreases k,
{
    if k <= b {
        if walk(c, s, k) is None {
            lemma_walk_ended(c, s, k, b);
        }
    } else {
        let t = (k - b) as nat;
        lemma_walk_shift(c, s, a, t);
        lemma_walk_shift(c, s, b, t);
        assert(b + t == k);
        lemma_walk_repeats(c, s, a, b, (a + t) as nat);
    }
}

/// **A chain still going after as many hops as there are steps never ends**: it has stood on
/// more steps than there are, so it came back to one.
proof fn lemma_long_walk_never_ends(c: ChannelDecl, s: int)
    requires
        0 <= s < c.steps@.len(),
        walk(c, s, c.steps@.len()) is Some,
    ensures
        never_ends(c, s),
{
    let n = c.steps@.len();
    assert forall|k: nat| k <= n implies #[trigger] walk(c, s, k) is Some by {
        if walk(c, s, k) is None {
            lemma_walk_ended(c, s, k, n);
        }
    }
    let sq = Seq::new((n + 1) as nat, |k: int| walk(c, s, k as nat)->0);
    assert forall|k: int| 0 <= k < sq.len() implies 0 <= #[trigger] sq[k] < n by {
        assert(walk(c, s, k as nat) is Some);
        lemma_walk_in_range(c, s, k as nat);
    }
    lemma_pigeonhole(sq, n as int);
    let (a, b) = choose|a: int, b: int| 0 <= a < b < sq.len() && #[trigger] sq[a] == #[trigger] sq[b];
    assert(walk(c, s, a as nat) is Some);
    assert(walk(c, s, b as nat) is Some);
    assert forall|k: nat| #[trigger] walk(c, s, k) is Some by {
        lemma_walk_repeats(c, s, a as nat, b as nat, k);
    }
}

/// **Does the `next` chain from step `s` run into a cycle?** Followed for as many hops as there
/// are steps: a chain that has not ended by then never does.
fn on_a_next_cycle(channel: &ChannelDecl, s: usize) -> (r: bool)
    requires
        s < channel.steps@.len(),
    ensures
        r == never_ends(*channel, s as int),
{
    let n = channel.steps.len();
    let mut at: usize = s;
    let mut k: usize = 0;
    while k < n
        invariant
            k <= n,
            n == channel.steps@.len(),
            s < n,
            walk(*channel, s as int, k as nat) == Some(at as int),
            at < n,
        decreases n - k,
    {
        match &channel.steps[at].next {
            Some(id) => match crate::channel::first_step_named(&channel.steps, id.as_str()) {
                Some(j) => {
                    proof {
                        crate::channel::lemma_step_index(*channel, id@, j as int);
                    }
                    at = j;
                },
                None => {
                    proof {
                        assert(walk(*channel, s as int, (k + 1) as nat) is None);
                    }
                    return false;
                },
            },
            None => {
                proof {
                    assert(walk(*channel, s as int, (k + 1) as nat) is None);
                }
                return false;
            },
        }
        k += 1;
    }
    proof {
        lemma_long_walk_never_ends(*channel, s as int);
    }
    true
}

/// The first step whose `next` chain runs into a cycle, in declaration order.
fn first_step_on_a_next_cycle(channel: &ChannelDecl) -> (r: Option<usize>)
    ensures
        match r {
            Some(s) => first_cycle_from(*channel, 0) == Some(s as int) && s < channel.steps@.len(),
            None => first_cycle_from(*channel, 0) is None,
        },
{
    let mut s: usize = 0;
    while s < channel.steps.len()
        invariant
            s <= channel.steps@.len(),
            first_cycle_from(*channel, 0) == first_cycle_from(*channel, s as int),
        decreases channel.steps@.len() - s,
    {
        if on_a_next_cycle(channel, s) {
            return Some(s);
        }
        s += 1;
    }
    None
}


// ---- the checks ----------------------------------------------------------------------------

/// Does some step of `channel` declare `id`?
fn declares(channel: &ChannelDecl, id: &str) -> (r: bool)
    ensures
        r == declares_step(*channel, id@),
{
    let mut k: usize = 0;
    while k < channel.steps.len()
        invariant
            k <= channel.steps@.len(),
            forall|j: int| 0 <= j < k ==> channel.steps@[j].id@ != id@,
        decreases channel.steps@.len() - k,
    {
        if str_eq(channel.steps[k].id.as_str(), id) {
            assert(step_ids(*channel)[k as int] == id@);
            return true;
        }
        k += 1;
    }
    assert forall|j: int| 0 <= j < step_ids(*channel).len() implies step_ids(*channel)[j] != id@ by {
        assert(step_ids(*channel)[j] == channel.steps@[j].id@);
    }
    false
}

/// Is `id` declared by one of the steps before step `i`?
fn declared_before(channel: &ChannelDecl, i: usize, id: &str) -> (r: bool)
    requires
        i <= channel.steps@.len(),
    ensures
        r == step_ids(*channel).take(i as int).contains(id@),
{
    let ghost before = step_ids(*channel).take(i as int);
    let mut k: usize = 0;
    while k < i
        invariant
            k <= i,
            i <= channel.steps@.len(),
            before == step_ids(*channel).take(i as int),
            forall|j: int| 0 <= j < k ==> before[j] != id@,
        decreases i - k,
    {
        if str_eq(channel.steps[k].id.as_str(), id) {
            assert(before[k as int] == id@);
            return true;
        }
        k += 1;
    }
    false
}

/// Is `x` among the first `j` of `names`?
pub(crate) fn named_before(names: &Vec<String>, j: usize, x: &str) -> (r: bool)
    requires
        j <= names@.len(),
    ensures
        r == views(names@.take(j as int)).contains(x@),
{
    let ghost before = views(names@.take(j as int));
    let mut k: usize = 0;
    while k < j
        invariant
            k <= j,
            j <= names@.len(),
            before == views(names@.take(j as int)),
            forall|m: int| 0 <= m < k ==> before[m] != x@,
        decreases j - k,
    {
        if str_eq(names[k].as_str(), x) {
            assert(before[k as int] == x@);
            return true;
        }
        k += 1;
    }
    false
}

/// The first problem with the `input` sources of step `i` of `channel`.
fn sources_problem(channel: &ChannelDecl, i: usize) -> (p: Option<ChannelProblem>)
    requires
        i < channel.steps@.len(),
        channel.steps@[i as int].input is Some,
    ensures
        p == sources_problem_from(*channel, channel.steps@[i as int], channel.steps@[i as int].input->0@, 0),
{
    let step = &channel.steps[i];
    let srcs = match &step.input {
        Some(v) => v,
        None => {
            return None;
        },
    };
    let mut j: usize = 0;
    while j < srcs.len()
        invariant
            j <= srcs@.len(),
            *step == channel.steps@[i as int],
            step.input == Some(*srcs),
            sources_problem_from(*channel, *step, srcs@, 0) == sources_problem_from(*channel, *step, srcs@, j as int),
        decreases srcs@.len() - j,
    {
        let src = srcs[j].as_str();
        if !str_eq(src, INPUT_REQUEST) && !declares(channel, src) {
            return Some(ChannelProblem::UnknownInputSource { step: step.id.clone(), source: srcs[j].clone() });
        }
        if named_before(srcs, j, src) {
            return Some(ChannelProblem::RepeatedInputSource { step: step.id.clone(), source: srcs[j].clone() });
        }
        j += 1;
    }
    None
}

/// The first forbidden `on_*` key among `keys`.
fn first_forbidden(keys: &Vec<String>) -> (r: Option<usize>)
    ensures
        match r {
            Some(j) => first_forbidden_from(keys@, 0) == Some(j as int) && j < keys@.len(),
            None => first_forbidden_from(keys@, 0) is None,
        },
{
    let mut j: usize = 0;
    while j < keys.len()
        invariant
            j <= keys@.len(),
            first_forbidden_from(keys@, 0) == first_forbidden_from(keys@, j as int),
        decreases keys@.len() - j,
    {
        if str_starts_with(keys[j].as_str(), "on_") && !str_eq(keys[j].as_str(), ON_NEEDS_REWORK) {
            return Some(j);
        }
        j += 1;
    }
    None
}

/// The first problem with step `i` of `channel`, every step before it having passed.
fn step_problem_at(channel: &ChannelDecl, i: usize) -> (p: Option<ChannelProblem>)
    requires
        i < channel.steps@.len(),
    ensures
        p == step_problem(*channel, i as int),
{
    let step = &channel.steps[i];
    if blank(step.id.as_str()) {
        return Some(ChannelProblem::StepWithoutId);
    }
    if blank(step.target.as_str()) {
        return Some(ChannelProblem::StepWithoutTarget { step: step.id.clone() });
    }
    if declared_before(channel, i, step.id.as_str()) {
        return Some(ChannelProblem::DuplicateStepId { step: step.id.clone() });
    }
    if let Some(j) = first_forbidden(&step.unknown_keys) {
        return Some(ChannelProblem::ForbiddenOnKey { step: step.id.clone(), key: step.unknown_keys[j].clone() });
    }
    if holds(&step.unknown_keys, "model") {
        return Some(ChannelProblem::ModelOnStep { step: step.id.clone() });
    }
    if str_eq(step.id.as_str(), INPUT_REQUEST) {
        return Some(ChannelProblem::ReservedStepId);
    }
    if step.input.is_some() {
        let p = sources_problem(channel, i);
        if p.is_some() {
            return p;
        }
    }
    if let Some(target) = &step.next {
        if !declares(channel, target.as_str()) {
            return Some(ChannelProblem::DanglingEdge { step: step.id.clone(), edge: Edge::Next, target: target.clone() });
        }
    }
    if let Some(target) = &step.on_needs_rework {
        if !declares(channel, target.as_str()) {
            return Some(ChannelProblem::DanglingEdge { step: step.id.clone(), edge: Edge::OnNeedsRework, target: target.clone() });
        }
    }
    match (&step.on_needs_rework, step.max_passes) {
        (Some(_), None) => Some(ChannelProblem::BackEdgeWithoutCeiling { step: step.id.clone() }),
        (Some(_), Some(n)) => if n < 2 {
            Some(ChannelProblem::CeilingBelowTwo { step: step.id.clone(), ceiling: n })
        } else {
            None
        },
        (None, Some(_)) => Some(ChannelProblem::CeilingWithoutEdge { step: step.id.clone() }),
        (None, None) => None,
    }
}

/// **The first thing wrong with a channel declaration**, in the order the checks run, or `None`
/// when it can be used as declared.
pub fn channel_problem(channel: &ChannelDecl) -> (p: Option<ChannelProblem>)
    ensures
        p == problem_of(*channel),
{
    if channel.on_complete == OnComplete::Summarize && channel.summary_prompt.is_none() {
        return Some(ChannelProblem::SummarizeWithoutPrompt);
    }
    if channel.flow == Flow::Sequential && matches!(channel.expects, Expects::Subset(_)) {
        return Some(ChannelProblem::SubsetBesideSequentialFlow);
    }
    if !channel.is_stepped() {
        return None;
    }
    if channel.flow == Flow::Sequential {
        return Some(ChannelProblem::StepsBesideSequentialFlow);
    }
    let mut i: usize = 0;
    while i < channel.steps.len()
        invariant
            i <= channel.steps@.len(),
            steps_problem_from(*channel, 0) == steps_problem_from(*channel, i as int),
            !(channel.on_complete == OnComplete::Summarize && channel.summary_prompt is None),
            !(channel.flow == Flow::Sequential && channel.expects is Subset),
            channel.steps@.len() > 0,
            channel.flow != Flow::Sequential,
        decreases channel.steps@.len() - i,
    {
        let p = step_problem_at(channel, i);
        if p.is_some() {
            assert(steps_problem_from(*channel, i as int) == p);
            return p;
        }
        i += 1;
    }
    assert(steps_problem_from(*channel, i as int) is None);
    match first_step_on_a_next_cycle(channel) {
        Some(s) => Some(ChannelProblem::NextCycle { step: channel.steps[s].id.clone() }),
        None => None,
    }
}

impl ChannelProblem {
    /// The step this problem is about, or nothing.
    pub fn step(&self) -> (s: &str)
        ensures
            s@ == step_of(*self),
    {
        match self {
            ChannelProblem::StepWithoutTarget { step } => step.as_str(),
            ChannelProblem::DuplicateStepId { step } => step.as_str(),
            ChannelProblem::ForbiddenOnKey { step, .. } => step.as_str(),
            ChannelProblem::ModelOnStep { step } => step.as_str(),
            ChannelProblem::UnknownInputSource { step, .. } => step.as_str(),
            ChannelProblem::RepeatedInputSource { step, .. } => step.as_str(),
            ChannelProblem::DanglingEdge { step, .. } => step.as_str(),
            ChannelProblem::BackEdgeWithoutCeiling { step } => step.as_str(),
            ChannelProblem::CeilingBelowTwo { step, .. } => step.as_str(),
            ChannelProblem::CeilingWithoutEdge { step } => step.as_str(),
            ChannelProblem::NextCycle { step } => step.as_str(),
            _ => {
                proof {
                    reveal_strlit("");
                }
                ""
            },
        }
    }

    /// The key, source or target this problem is about besides its step, or nothing.
    pub fn detail(&self) -> (d: &str)
        ensures
            d@ == detail_of(*self),
    {
        match self {
            ChannelProblem::ForbiddenOnKey { key, .. } => key.as_str(),
            ChannelProblem::UnknownInputSource { source, .. } => source.as_str(),
            ChannelProblem::RepeatedInputSource { source, .. } => source.as_str(),
            ChannelProblem::DanglingEdge { target, .. } => target.as_str(),
            _ => {
                proof {
                    reveal_strlit("");
                }
                ""
            },
        }
    }

    /// **What this problem says**, given the channel's name, the step and the detail already
    /// rendered as quoted strings.
    pub fn text(&self, quoted_name: &str, quoted_step: &str, quoted_detail: &str) -> (out: String)
        ensures
            out@ == what_of(*self, quoted_name@, quoted_step@, quoted_detail@),
    {
        let mut out = String::new();
        match self {
            ChannelProblem::SummarizeWithoutPrompt => {
                out.append("channel ");
                out.append(quoted_name);
                out.append(": on_complete=summarize requires summary_prompt");
            },
            ChannelProblem::SubsetBesideSequentialFlow => {
                out.append("channel ");
                out.append(quoted_name);
                out.append(": flow=sequential cannot be combined with an `expects` subset — the order of `members` IS the flow, and a subset is a second list deciding the same thing");
            },
            ChannelProblem::StepsBesideSequentialFlow => {
                out.append("channel ");
                out.append(quoted_name);
                out.append(": flow=sequential cannot be combined with `steps:` — the steps ARE the flow, and `members` is then only who belongs to the channel");
            },
            ChannelProblem::StepWithoutId => {
                out.append("channel ");
                out.append(quoted_name);
                out.append(": a step with no `id` — the id is what the engine keys a step's thread on and what `next`/`on_needs_rework` name");
            },
            ChannelProblem::StepWithoutTarget { .. } => {
                out.append("channel ");
                out.append(quoted_name);
                out.append(": step ");
                out.append(quoted_step);
                out.append(" declares no `target` — a step has to commission somebody");
            },
            ChannelProblem::DuplicateStepId { .. } => {
                out.append("channel ");
                out.append(quoted_name);
                out.append(": step id ");
                out.append(quoted_step);
                out.append(" is declared twice — the id is what tells two steps apart, so two under one id are indistinguishable to the engine");
            },
            ChannelProblem::ForbiddenOnKey { .. } => {
                out.append("channel ");
                out.append(quoted_name);
                out.append(": step ");
                out.append(quoted_step);
                out.append(" declares ");
                out.append(quoted_detail);
                out.append(" — `on_needs_rework` is the only `on_*` a step may declare. `--escalate` is not declarable at all: it says \"I cannot reach the result of my own task without help or a decision\" and holds in every channel, while a verdict bit says \"somebody else's work is not deliverable\"");
            },
            ChannelProblem::ModelOnStep { .. } => {
                out.append("channel ");
                out.append(quoted_name);
                out.append(": step ");
                out.append(quoted_step);
                out.append(" declares `model:` — a step may not name a model. Declare `stage: junior | senior | principal` instead: the band says what this step's thinking is worth without naming a product, and it overrides the stage declared on the step's target. A persona that must always run on one named model declares `model:` on ITSELF, and no step overrides it");
            },
            ChannelProblem::ReservedStepId => {
                out.append("channel ");
                out.append(quoted_name);
                out.append(": a step is declared under the id \"request\", which is the one name `input:` reserves for the request that opened the run. Rename the step — otherwise `input: [request]` names two things at once");
            },
            ChannelProblem::UnknownInputSource { .. } => {
                out.append("channel ");
                out.append(quoted_name);
                out.append(": step ");
                out.append(quoted_step);
                out.append(" names ");
                out.append(quoted_detail);
                out.append(" in its `input`, and this channel declares no step under that id. The one name that is not a step is \"request\" — the request that opened the run");
            },
            ChannelProblem::RepeatedInputSource { .. } => {
                out.append("channel ");
                out.append(quoted_name);
                out.append(": step ");
                out.append(quoted_step);
                out.append(" names ");
                out.append(quoted_detail);
                out.append(" twice in its `input` — a source named twice carries the same text in twice, which is not something a declaration can mean");
            },
            ChannelProblem::DanglingEdge { edge, .. } => {
                out.append("channel ");
                out.append(quoted_name);
                out.append(": step ");
                out.append(quoted_step);
                out.append(" names ");
                out.append(quoted_detail);
                out.append(" as its `");
                out.append(edge.field());
                out.append("`, and this channel declares no step under that id");
            },
            ChannelProblem::BackEdgeWithoutCeiling { .. } => {
                out.append("channel ");
                out.append(quoted_name);
                out.append(": step ");
                out.append(quoted_step);
                out.append(" declares `on_needs_rework` without `max_passes` — a back edge with no ceiling is a loop nothing ends");
            },
            ChannelProblem::CeilingBelowTwo { ceiling, .. } => {
                out.append("channel ");
                out.append(quoted_name);
                out.append(": step ");
                out.append(quoted_step);
                out.append(" declares `max_passes: ");
                out.append(decimal(*ceiling as u128).as_str());
                out.append("` — the ORIGINAL attempt is pass 1, so a ceiling below 2 declares a back edge that can never be taken. `max_passes: 2` allows the original attempt and one rework; a step that should never send work back declares no `on_needs_rework` at all");
            },
            ChannelProblem::CeilingWithoutEdge { .. } => {
                out.append("channel ");
                out.append(quoted_name);
                out.append(": step ");
                out.append(quoted_step);
                out.append(" declares `max_passes` but no `on_needs_rework` — the ceiling counts a back edge, and this step has none");
            },
            ChannelProblem::NextCycle { .. } => {
                out.append("channel ");
                out.append(quoted_name);
                out.append(": the `next` chain from step ");
                out.append(quoted_step);
                out.append(" runs into a cycle — a cycle over `next` has no ceiling, so it would run until the hop guard stops it. A deliberate cycle goes over `on_needs_rework`, which `max_passes` bounds");
            },
        }
        out
    }
}

/// **Whether a channel declaration can be used as it stands**: `None` when it is
/// self-consistent, otherwise the first thing wrong with it, reported against `channels.yaml`
/// and naming the channel — and the step and the name at fault — as quoted strings.
pub fn validate_channel_for_use(channel: &ChannelDecl) -> (r: Option<ValidationError>)
    ensures
        match problem_of(*channel) {
            None => r is None,
            Some(p) => r matches Some(e) && e.file@ == CHANNELS_FILE@ && e.what@ == what_of(
                p,
                debug_str(channel.name@),
                debug_str(step_of(p)),
                debug_str(detail_of(p)),
            ),
        },
{
    match channel_problem(channel) {
        None => None,
        Some(p) => {
            let name = debug_quoted(channel.name.as_str());
            let step = debug_quoted(p.step());
            let detail = debug_quoted(p.detail());
            Some(ValidationError {
                file: CHANNELS_FILE.to_string(),
                what: p.text(name.as_str(), step.as_str(), detail.as_str()),
            })
        },
    }
}


// ---- the law -------------------------------------------------------------------------------

/// What a sound step declares: an id and a target, no `on_*` key but the back edge and no
/// `model:`, not the reserved source name as its id, `input` sources that exist and differ,
/// edges that land on declared steps, and a back edge exactly when a ceiling of at least two.
pub open spec fn step_sound(c: ChannelDecl, i: int) -> bool {
    let s = c.steps@[i];
    &&& !is_blank(s.id@)
    &&& !is_blank(s.target@)
    &&& forall|k: int| 0 <= k < s.unknown_keys@.len() ==> !forbidden_on_key(#[trigger] s.unknown_keys@[k]@) && s.unknown_keys@[k]@ != "model"@
    &&& s.id@ != INPUT_REQUEST@
    &&& (s.input matches Some(srcs) ==> {
        &&& forall|k: int| 0 <= k < srcs@.len() ==> (#[trigger] srcs@[k]@ == INPUT_REQUEST@ || declares_step(c, srcs@[k]@))
        &&& forall|a: int, b: int| 0 <= a < b < srcs@.len() ==> #[trigger] srcs@[a]@ != #[trigger] srcs@[b]@
    })
    &&& (s.next matches Some(t) ==> declares_step(c, t@))
    &&& (s.on_needs_rework matches Some(t) ==> declares_step(c, t@))
    &&& (s.on_needs_rework is Some <==> s.max_passes is Some)
    &&& (s.max_passes matches Some(n) ==> n >= 2)
}

/// **A channel declaration that can be used as it stands**: a fold has a prompt; a sequential
/// flow has no second list beside it; and a channel with steps runs them as its flow, under
/// distinct ids, every step sound, and no `next` chain that never ends.
pub open spec fn usable(c: ChannelDecl) -> bool {
    &&& !(c.on_complete == OnComplete::Summarize && c.summary_prompt is None)
    &&& !(c.flow == Flow::Sequential && c.expects is Subset)
    &&& (c.steps@.len() > 0 ==> {
        &&& c.flow != Flow::Sequential
        &&& forall|a: int, b: int| 0 <= a < b < c.steps@.len() ==> #[trigger] c.steps@[a].id@ != #[trigger] c.steps@[b].id@
        &&& forall|i: int| 0 <= i < c.steps@.len() ==> #[trigger] step_sound(c, i)
        &&& forall|s: int| 0 <= s < c.steps@.len() ==> !#[trigger] never_ends(c, s)
    })
}

proof fn lemma_no_forbidden_key(keys: Seq<String>, j: int)
    requires
        0 <= j <= keys.len(),
    ensures
        first_forbidden_from(keys, j) is None <==> forall|k: int| j <= k < keys.len() ==> !forbidden_on_key(#[trigger] keys[k]@),
    decreases keys.len() - j,
{
    if j < keys.len() {
        lemma_no_forbidden_key(keys, j + 1);
    }
}

proof fn lemma_no_source_problem(c: ChannelDecl, s: FlowStep, srcs: Seq<String>, j: int)
    requires
        0 <= j <= srcs.len(),
    ensures
        sources_problem_from(c, s, srcs, j) is None <==> forall|k: int| j <= k < srcs.len() ==> {
            &&& (#[trigger] srcs[k]@ == INPUT_REQUEST@ || declares_step(c, srcs[k]@))
            &&& !views(srcs.take(k)).contains(srcs[k]@)
        },
    decreases srcs.len() - j,
{
    if j < srcs.len() {
        lemma_no_source_problem(c, s, srcs, j + 1);
    }
}

/// Nothing among the first `k` of a list is repeated at `k`, for every `k`, exactly when no two
/// entries are the same.
proof fn lemma_none_repeated(v: Seq<Seq<char>>)
    ensures
        (forall|k: int| 0 <= k < v.len() ==> !(#[trigger] v.take(k)).contains(v[k])) <==> (forall|a: int, b: int| 0 <= a < b < v.len() ==> #[trigger] v[a] != #[trigger] v[b]),
{
    if forall|k: int| 0 <= k < v.len() ==> !(#[trigger] v.take(k)).contains(v[k]) {
        assert forall|a: int, b: int| 0 <= a < b < v.len() implies #[trigger] v[a] != #[trigger] v[b] by {
            assert(v.take(b)[a] == v[a]);
            assert(!v.take(b).contains(v[b]));
        }
    }
    if forall|a: int, b: int| 0 <= a < b < v.len() ==> #[trigger] v[a] != #[trigger] v[b] {
        assert forall|k: int| 0 <= k < v.len() implies !(#[trigger] v.take(k)).contains(v[k]) by {
            if v.take(k).contains(v[k]) {
                let a = choose|a: int| 0 <= a < v.take(k).len() && v.take(k)[a] == v[k];
                assert(v[a] == v[k]);
            }
        }
    }
}

proof fn lemma_step_problem_none(c: ChannelDecl, i: int)
    requires
        0 <= i < c.steps@.len(),
    ensures
        step_problem(c, i) is None <==> (step_sound(c, i) && !step_ids(c).take(i).contains(c.steps@[i].id@)),
{
    let s = c.steps@[i];
    let keys = s.unknown_keys@;
    lemma_no_forbidden_key(keys, 0);
    let no_model = !views(keys).contains("model"@);
    assert(no_model <==> forall|k: int| 0 <= k < keys.len() ==> #[trigger] keys[k]@ != "model"@) by {
        if views(keys).contains("model"@) {
            let k = choose|k: int| 0 <= k < views(keys).len() && views(keys)[k] == "model"@;
            assert(keys[k]@ == "model"@);
        }
        if exists|k: int| 0 <= k < keys.len() && #[trigger] keys[k]@ == "model"@ {
            let k = choose|k: int| 0 <= k < keys.len() && #[trigger] keys[k]@ == "model"@;
            assert(views(keys)[k] == "model"@);
        }
    }
    let keys_ok = first_forbidden_from(keys, 0) is None && no_model;
    assert(keys_ok <==> forall|k: int| 0 <= k < keys.len() ==> !forbidden_on_key(#[trigger] keys[k]@) && keys[k]@ != "model"@);
    let srcs_ok = !(s.input is Some && sources_problem_from(c, s, s.input->0@, 0) is Some);
    if let Some(srcs) = s.input {
        let v = srcs@;
        lemma_no_source_problem(c, s, v, 0);
        let vs = views(v);
        lemma_none_repeated(vs);
        assert forall|k: int| 0 <= k < v.len() implies views(v.take(k)) == #[trigger] vs.take(k) by {
            assert(views(v.take(k)) =~= vs.take(k));
        }
        let exists_ok = forall|k: int| 0 <= k < v.len() ==> (#[trigger] v[k]@ == INPUT_REQUEST@ || declares_step(c, v[k]@));
        let differ = forall|a: int, b: int| 0 <= a < b < v.len() ==> #[trigger] v[a]@ != #[trigger] v[b]@;
        let fresh = forall|k: int| 0 <= k < vs.len() ==> !(#[trigger] vs.take(k)).contains(vs[k]);
        assert forall|k: int| 0 <= k < v.len() implies #[trigger] vs[k] == v[k]@ by {}
        assert(differ <==> forall|a: int, b: int| 0 <= a < b < vs.len() ==> #[trigger] vs[a] != #[trigger] vs[b]) by {
            if differ {
                assert forall|a: int, b: int| 0 <= a < b < vs.len() implies #[trigger] vs[a] != #[trigger] vs[b] by {
                    assert(v[a]@ != v[b]@);
                }
            }
            if forall|a: int, b: int| 0 <= a < b < vs.len() ==> #[trigger] vs[a] != #[trigger] vs[b] {
                assert forall|a: int, b: int| 0 <= a < b < v.len() implies #[trigger] v[a]@ != #[trigger] v[b]@ by {
                    assert(vs[a] != vs[b]);
                }
            }
        }
        if srcs_ok {
            assert forall|k: int| 0 <= k < v.len() implies (#[trigger] v[k]@ == INPUT_REQUEST@ || declares_step(c, v[k]@)) by {
                assert(v[k]@ == INPUT_REQUEST@ || declares_step(c, v[k]@));
            }
            assert forall|k: int| 0 <= k < vs.len() implies !(#[trigger] vs.take(k)).contains(vs[k]) by {
                assert(!views(v.take(k)).contains(v[k]@));
            }
            assert(exists_ok && differ);
        }
        if exists_ok && differ {
            assert(fresh);
            assert forall|k: int| 0 <= k < v.len() implies {
                &&& (#[trigger] v[k]@ == INPUT_REQUEST@ || declares_step(c, v[k]@))
                &&& !views(v.take(k)).contains(v[k]@)
            } by {
                assert(!vs.take(k).contains(vs[k]));
            }
            assert(srcs_ok);
        }
    }
    assert(step_problem(c, i) is None <==> (!is_blank(s.id@) && !is_blank(s.target@) && !step_ids(c).take(i).contains(s.id@) && keys_ok && s.id@ != INPUT_REQUEST@ && srcs_ok && edge_problem(c, s) is None && ceiling_problem(s) is None));
}

proof fn lemma_no_step_problem(c: ChannelDecl, i: int)
    requires
        0 <= i <= c.steps@.len(),
    ensures
        steps_problem_from(c, i) is None <==> forall|k: int| i <= k < c.steps@.len() ==> #[trigger] step_problem(c, k) is None,
    decreases c.steps@.len() - i,
{
    if i < c.steps@.len() {
        lemma_no_step_problem(c, i + 1);
    }
}

proof fn lemma_no_cycle(c: ChannelDecl, s: int)
    requires
        0 <= s <= c.steps@.len(),
    ensures
        first_cycle_from(c, s) is None <==> forall|k: int| s <= k < c.steps@.len() ==> !#[trigger] never_ends(c, k),
    decreases c.steps@.len() - s,
{
    if s < c.steps@.len() {
        lemma_no_cycle(c, s + 1);
    }
}

/// **A channel passes every check exactly when it is usable as declared** — the checks, run in
/// their order and stopping at the first problem, refuse nothing a usable declaration says and
/// let nothing else through.
pub proof fn lemma_no_problem_iff_usable(c: ChannelDecl)
    ensures
        problem_of(c) is None <==> usable(c),
{
    if c.steps@.len() > 0 && c.flow != Flow::Sequential {
        lemma_no_step_problem(c, 0);
        lemma_no_cycle(c, 0);
        let ids = step_ids(c);
        lemma_none_repeated(ids);
        assert forall|i: int| 0 <= i < c.steps@.len() implies (#[trigger] step_problem(c, i) is None <==> (step_sound(c, i) && !ids.take(i).contains(ids[i]))) by {
            lemma_step_problem_none(c, i);
        }
        assert forall|a: int, b: int| 0 <= a < b < c.steps@.len() implies (#[trigger] ids[a] != #[trigger] ids[b] <==> c.steps@[a].id@ != c.steps@[b].id@) by {}
        if usable(c) {
            assert forall|k: int| 0 <= k < c.steps@.len() implies #[trigger] step_problem(c, k) is None by {
                assert(step_sound(c, k));
                if ids.take(k).contains(ids[k]) {
                    let a = choose|a: int| 0 <= a < ids.take(k).len() && ids.take(k)[a] == ids[k];
                    assert(c.steps@[a].id@ == c.steps@[k].id@);
                }
            }
        }
        if problem_of(c) is None {
            assert forall|a: int, b: int| 0 <= a < b < c.steps@.len() implies #[trigger] c.steps@[a].id@ != #[trigger] c.steps@[b].id@ by {
                assert(step_problem(c, b) is None);
                assert(ids.take(b)[a] == ids[a]);
            }
            assert forall|i: int| 0 <= i < c.steps@.len() implies #[trigger] step_sound(c, i) by {
                assert(step_problem(c, i) is None);
            }
        }
    }
}

} // verus!
