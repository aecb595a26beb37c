//! **Channel declarations**: typed group communication declared once as a list of
//! [`ChannelDecl`]s — who belongs to a channel, who it commissions and in what order, how its
//! consolidator answers, and what a reader of one of its threads may see.
//!
//! Pure data and pure derivations over it: who a channel's cast is, who a fan-out reaches, which
//! declaration a flow step's target names, and what a declaration says about a thread's readers.
use vstd::prelude::*;
use crate::role::{Model, RoleDecl, Stage, WorkingTree, stage_model};
use crate::text::{
    cat, copy_strings, dedup, holds, owned, str_eq, strings_without, views, without,
};
pub use crate::boundary::{spells_a_boundary, suffix_digit_limit, taken_boundaries};
pub use crate::consolidate::{
    ACCEPTED_NOTICE, ESCALATION_NOTICE, NEEDS_REWORK_NOTICE, SUBSTITUTED_REPLY_NOTICE,
    CollectedReply, attribution_notice, block_boundary, compose_accepted_notice,
    compose_pass_through_wake, compose_rework_notice, compose_step_input,
    compose_synthesis_trigger, compose_synthesizer_system_prompt, framing, render_blocks,
    run_passes_framing, substituted_notice, untrusted_block,
};
pub use crate::reach::flow_cycles;
pub use crate::review::validate_channels;
pub use crate::validate::{CHANNELS_FILE, ValidationError, validate_channel_for_use};

verus! {

/// Which output form a channel's consolidator produces: every collected answer handed over as it
/// stands, or a fold of them with a declared model and prompt.
#[derive(Debug, Clone, Copy, PartialEq, Eq, Structural)]
pub enum OnComplete {
    PassThrough,
    Summarize,
}

impl Default for OnComplete {
    /// A channel hands its answers over as they stand unless it declares otherwise.
    fn default() -> (r: OnComplete)
        ensures
            r == OnComplete::PassThrough,
    {
        OnComplete::PassThrough
    }
}

/// Who may see a channel's replies once collected.
#[derive(Debug, Clone, Copy, PartialEq, Eq, Structural)]
pub enum Visibility {
    RequesterOnly,
    AllMembers,
}

impl Default for Visibility {
    /// Replies go back to whoever opened the request unless the channel declares otherwise.
    fn default() -> (r: Visibility)
        ensures
            r == Visibility::RequesterOnly,
    {
        Visibility::RequesterOnly
    }
}

/// What kind of channel a declaration materializes as.
#[derive(Debug, Clone, Copy, PartialEq, Eq, Structural)]
pub enum ChannelKind {
    Group,
    /// The project's front door: readable and addressable without membership, discoverable.
    Public,
}

impl Default for ChannelKind {
    /// A declaration with no kind is a group channel.
    fn default() -> (r: ChannelKind)
        ensures
            r == ChannelKind::Group,
    {
        ChannelKind::Group
    }
}

/// The wire value a group channel is stored under.
pub const CHANNEL_KIND_GROUP: &'static str = "group";

/// The wire value a public channel is stored under.
pub const CHANNEL_KIND_PUBLIC: &'static str = "public";

impl ChannelKind {
    /// The wire value this kind is stored as.
    pub fn as_str(self) -> (r: &'static str)
        ensures
            r@ == (match self {
                ChannelKind::Group => CHANNEL_KIND_GROUP@,
                ChannelKind::Public => CHANNEL_KIND_PUBLIC@,
            }),
    {
        match self {
            ChannelKind::Group => CHANNEL_KIND_GROUP,
            ChannelKind::Public => CHANNEL_KIND_PUBLIC,
        }
    }
}

/// **How a channel runs the targets it declares.** `Parallel` starts every member at once;
/// `Sequential` makes the declared order of `members` the flow, one target at a time.
#[derive(Debug, Clone, Copy, PartialEq, Eq, Structural)]
pub enum Flow {
    Parallel,
    Sequential,
}

impl Default for Flow {
    /// A channel with no declared flow starts every member at once.
    fn default() -> (r: Flow)
        ensures
            r == Flow::Parallel,
    {
        Flow::Parallel
    }
}

impl Flow {
    /// Whether this flow is the default.
    pub fn is_parallel(&self) -> (r: bool)
        ensures
            r == (*self == Flow::Parallel),
    {
        match self {
            Flow::Parallel => true,
            Flow::Sequential => false,
        }
    }
}

/// **One declared step of a channel's flow** — the unit a cycle is declared in. `id` names the
/// step inside its channel; `next` is the normal way on; `on_needs_rework` is the back edge, and
/// `max_passes` its ceiling.
#[derive(Debug, Clone, PartialEq, Eq)]
pub struct FlowStep {
    pub id: String,
    pub target: String,
    pub next: Option<String>,
    pub on_needs_rework: Option<String>,
    pub max_passes: Option<u32>,
    pub resume: Option<bool>,
    pub task: Option<String>,
    pub stage: Option<Stage>,
    pub input: Option<Vec<String>>,
    /// Every key of the step's mapping this struct does not know, sorted — collected so that an
    /// `on_*` other than [`ON_NEEDS_REWORK`] can be refused by name.
    pub unknown_keys: Vec<String>,
}

impl Default for FlowStep {
    fn default() -> (s: FlowStep)
        ensures
            s.id@ == Seq::<char>::empty(),
            s.target@ == Seq::<char>::empty(),
            s.next is None,
            s.on_needs_rework is None,
            s.max_passes is None,
            s.resume is None,
            s.task is None,
            s.stage is None,
            s.input is None,
            s.unknown_keys@.len() == 0,
    {
        FlowStep {
            id: String::new(),
            target: String::new(),
            next: None,
            on_needs_rework: None,
            max_passes: None,
            resume: None,
            task: None,
            stage: None,
            input: None,
            unknown_keys: Vec::new(),
        }
    }
}

/// The one `on_*` key a step may declare.
pub const ON_NEEDS_REWORK: &'static str = "on_needs_rework";

/// The one source name [`FlowStep::input`] reserves: the request that opened the run.
pub const INPUT_REQUEST: &'static str = "request";

/// Which of a channel's members must reply before a quorum request completes.
#[derive(Debug, Clone, PartialEq, Eq)]
pub enum Expects {
    All,
    Subset(Vec<String>),
}

impl Default for Expects {
    /// With nothing declared, every member must reply.
    fn default() -> (r: Expects)
        ensures
            r is All,
    {
        Expects::All
    }
}

/// A hurdle a step of a channel must clear before it is opened: a name a refusal is reported
/// under, and the command that decides it.
#[derive(Debug, Clone, PartialEq, Eq)]
pub struct Precondition {
    pub name: String,
    pub run: String,
}

/// One declared channel: typed group communication among `members`.
#[derive(Debug, Clone, PartialEq, Eq)]
pub struct ChannelDecl {
    pub name: String,
    pub members: Vec<String>,
    pub kind: ChannelKind,
    pub description: Option<String>,
    pub expects: Expects,
    pub timeout: Option<String>,
    pub on_complete: OnComplete,
    pub summary_prompt: Option<String>,
    pub summary_model: Option<Model>,
    pub visibility: Visibility,
    pub working_tree: WorkingTree,
    pub flow: Flow,
    pub preconditions: Vec<Precondition>,
    pub steps: Vec<FlowStep>,
    pub rework_notice: Option<String>,
}

/// The band a channel's consolidator folds at when its declaration names no model.
pub const DEFAULT_CONSOLIDATOR_STAGE: Stage = Stage::Junior;

/// **The two declared output forms of a channel's consolidator.**
#[derive(Debug, Clone, PartialEq, Eq)]
pub enum ConsolidatorOutput {
    PassThrough,
    Fold { model: Model, prompt: String },
}

/// One run of a channel's consolidator over one settled set of answers: the output form that
/// will run, and whether that set carried an escalation.
#[derive(Debug, Clone, PartialEq, Eq)]
pub struct Consolidation {
    pub output: ConsolidatorOutput,
    pub escalated: bool,
}

/// The targets of a channel's steps, in declaration order.
pub open spec fn step_targets(c: ChannelDecl) -> Seq<Seq<char>> {
    c.steps@.map_values(|s: FlowStep| s.target@)
}

/// The ids of a channel's steps, in declaration order.
pub open spec fn step_ids(c: ChannelDecl) -> Seq<Seq<char>> {
    c.steps@.map_values(|s: FlowStep| s.id@)
}

/// **The cast of a channel** — the targets of its steps, then everyone named in `members`, each
/// handle once.
pub open spec fn cast_of(c: ChannelDecl) -> Seq<Seq<char>> {
    dedup(step_targets(c) + views(c.members@))
}

/// Every name a channel commissions: its step targets where it declares steps, its members
/// otherwise.
pub open spec fn commissioned_of(c: ChannelDecl) -> Seq<Seq<char>> {
    if c.steps@.len() > 0 {
        step_targets(c)
    } else {
        views(c.members@)
    }
}

/// The model a fold runs at: the declared one, or the default band's.
pub open spec fn fold_model(c: ChannelDecl) -> Model {
    match c.summary_model {
        Some(m) => m,
        None => stage_model(DEFAULT_CONSOLIDATOR_STAGE),
    }
}

/// The prompt a fold runs with: the declared one, or empty.
pub open spec fn fold_prompt(c: ChannelDecl) -> Seq<char> {
    match c.summary_prompt {
        Some(p) => p@,
        None => Seq::empty(),
    }
}

/// The index of the first step declared under `id`, if any.
pub open spec fn step_index(c: ChannelDecl, id: Seq<char>) -> Option<int> {
    if exists|i: int| 0 <= i < c.steps@.len() && #[trigger] c.steps@[i].id@ == id {
        Some(
            choose|i: int|
                0 <= i < c.steps@.len() && #[trigger] c.steps@[i].id@ == id && forall|k: int|
                    0 <= k < i ==> c.steps@[k].id@ != id,
        )
    } else {
        None
    }
}

/// The step an id resolves to is one of the channel's steps.
pub proof fn lemma_step_index_in_range(c: ChannelDecl, id: Seq<char>)
    ensures
        step_index(c, id) matches Some(j) ==> 0 <= j < c.steps@.len() && c.steps@[j].id@ == id,
{
    if exists|i: int| 0 <= i < c.steps@.len() && #[trigger] c.steps@[i].id@ == id {
        let i = choose|i: int| 0 <= i < c.steps@.len() && #[trigger] c.steps@[i].id@ == id;
        lemma_first_declared_exists(c, id, i);
    }
}

/// Where some step is declared under `id`, a first one is.
proof fn lemma_first_declared_exists(c: ChannelDecl, id: Seq<char>, i: int)
    requires
        0 <= i < c.steps@.len(),
        c.steps@[i].id@ == id,
    ensures
        exists|j: int|
            0 <= j < c.steps@.len() && #[trigger] c.steps@[j].id@ == id && forall|k: int|
                0 <= k < j ==> c.steps@[k].id@ != id,
    decreases i,
{
    if exists|k: int| 0 <= k < i && #[trigger] c.steps@[k].id@ == id {
        let k = choose|k: int| 0 <= k < i && #[trigger] c.steps@[k].id@ == id;
        lemma_first_declared_exists(c, id, k);
    } else {
        assert(forall|k: int| 0 <= k < i ==> c.steps@[k].id@ != id);
    }
}

/// The first index of `v` spelling `x`, if there is one.
pub fn first_step_named(steps: &Vec<FlowStep>, id: &str) -> (r: Option<usize>)
    ensures
        match r {
            Some(i) => i < steps@.len() && steps@[i as int].id@ == id@ && forall|k: int|
                0 <= k < i ==> steps@[k].id@ != id@,
            None => forall|k: int| 0 <= k < steps@.len() ==> steps@[k].id@ != id@,
        },
{
    let mut i: usize = 0;
    while i < steps.len()
        invariant
            i <= steps.len(),
            forall|k: int| 0 <= k < i ==> steps@[k].id@ != id@,
        decreases steps.len() - i,
    {
        if str_eq(steps[i].id.as_str(), id) {
            return Some(i);
        }
        i += 1;
    }
    None
}

pub proof fn lemma_step_index(c: ChannelDecl, id: Seq<char>, i: int)
    requires
        0 <= i < c.steps@.len(),
        c.steps@[i].id@ == id,
        forall|k: int| 0 <= k < i ==> c.steps@[k].id@ != id,
    ensures
        step_index(c, id) == Some(i),
{
    let j = choose|j: int|
        0 <= j < c.steps@.len() && #[trigger] c.steps@[j].id@ == id && forall|k: int|
            0 <= k < j ==> c.steps@[k].id@ != id;
    assert(c.steps@[i].id@ == id);
    if j < i {
    } else if i < j {
    }
}

impl ChannelDecl {
    /// **This channel's declared consolidator** — resolved from the declaration alone, and total:
    /// `on_complete` selects the form; a fold takes the declared prompt (empty when none) and the
    /// declared model, or the default band's.
    pub fn consolidator(&self) -> (out: ConsolidatorOutput)
        ensures
            match self.on_complete {
                OnComplete::PassThrough => out is PassThrough,
                OnComplete::Summarize => out matches ConsolidatorOutput::Fold { model, prompt }
                    && model == fold_model(*self) && prompt@ == fold_prompt(*self),
            },
    {
        match self.on_complete {
            OnComplete::PassThrough => ConsolidatorOutput::PassThrough,
            OnComplete::Summarize => {
                let model = match self.summary_model {
                    Some(m) => m,
                    None => DEFAULT_CONSOLIDATOR_STAGE.model(),
                };
                let prompt = match &self.summary_prompt {
                    Some(p) => p.clone(),
                    None => String::new(),
                };
                ConsolidatorOutput::Fold { model, prompt }
            },
        }
    }

    /// **Does this channel declare its flow as a state machine?**
    pub fn is_stepped(&self) -> (r: bool)
        ensures
            r == (self.steps@.len() > 0),
    {
        self.steps.len() > 0
    }

    /// The step declared under `id`, or `None`.
    pub fn step(&self, id: &str) -> (r: Option<&FlowStep>)
        ensures
            match step_index(*self, id@) {
                Some(i) => r == Some(&self.steps@[i]),
                None => r is None,
            },
    {
        match first_step_named(&self.steps, id) {
            Some(i) => {
                proof {
                    lemma_step_index(*self, id@, i as int);
                }
                Some(&self.steps[i])
            },
            None => None,
        }
    }

    /// **Where a run of this channel begins** — the first declared step.
    pub fn first_step(&self) -> (r: Option<&FlowStep>)
        ensures
            if self.steps@.len() > 0 {
                r == Some(&self.steps@[0])
            } else {
                r is None
            },
    {
        if self.steps.len() > 0 {
            Some(&self.steps[0])
        } else {
            None
        }
    }

    /// This channel's consolidator applied to one settled set — **an escalation is never folded
    /// away**: a set that carried one is passed through as it stands, whatever the channel
    /// declares.
    pub fn consolidation(&self, escalated: bool) -> (c: Consolidation)
        ensures
            c.escalated == escalated,
            escalated ==> c.output is PassThrough,
            !escalated ==> match self.on_complete {
                OnComplete::PassThrough => c.output is PassThrough,
                OnComplete::Summarize => c.output matches ConsolidatorOutput::Fold { model, prompt }
                    && model == fold_model(*self) && prompt@ == fold_prompt(*self),
            },
    {
        Consolidation {
            output: if escalated {
                ConsolidatorOutput::PassThrough
            } else {
                self.consolidator()
            },
            escalated,
        }
    }
}

/// **What a channel's declaration says to a reader of one of its threads**: whose replies it may
/// see, and the declared members (the cast), or `None` where no declaration names the channel.
#[derive(Debug, Clone, PartialEq, Eq)]
pub struct ChannelPolicy {
    pub visibility: Visibility,
    pub members: Option<Vec<String>>,
}

impl ChannelPolicy {
    /// The policy for a thread whose channel no declaration names: everybody in it sees
    /// everything, and no member list is declared.
    pub fn undeclared() -> (p: ChannelPolicy)
        ensures
            p.visibility == Visibility::AllMembers,
            p.members is None,
    {
        ChannelPolicy { visibility: Visibility::AllMembers, members: None }
    }
}

impl From<Visibility> for ChannelPolicy {
    /// A bare visibility is a policy with no declared member list.
    fn from(visibility: Visibility) -> (p: ChannelPolicy)
        ensures
            p.visibility == visibility,
            p.members is None,
    {
        ChannelPolicy { visibility, members: None }
    }
}

impl vstd::std_specs::convert::FromSpecImpl<Visibility> for ChannelPolicy {
    open spec fn obeys_from_spec() -> bool {
        true
    }

    open spec fn from_spec(v: Visibility) -> ChannelPolicy {
        ChannelPolicy { visibility: v, members: None }
    }
}

/// **The cast of a channel: everyone who takes part in it, declared exactly once** — the targets
/// of its steps, then everyone named in its members, each handle once and steps first.
pub fn cast(channel: &ChannelDecl) -> (out: Vec<String>)
    ensures
        views(out@) == cast_of(*channel),
{
    let ghost names = step_targets(*channel) + views(channel.members@);
    let mut out: Vec<String> = Vec::new();
    let mut i: usize = 0;
    while i < channel.steps.len()
        invariant
            names == step_targets(*channel) + views(channel.members@),
            i <= channel.steps.len(),
            views(out@) == dedup(names.take(i as int)),
        decreases channel.steps.len() - i,
    {
        let name = &channel.steps[i].target;
        assert(names.take(i + 1).drop_last() =~= names.take(i as int));
        assert(names[i as int] == name@);
        if !holds(&out, name.as_str()) {
            let ghost before = views(out@);
            out.push(name.clone());
            assert(views(out@) =~= before.push(name@));
        }
        i += 1;
    }
    let mut k: usize = 0;
    while k < channel.members.len()
        invariant
            names == step_targets(*channel) + views(channel.members@),
            i == channel.steps.len(),
            k <= channel.members.len(),
            views(out@) == dedup(names.take(i + k)),
        decreases channel.members.len() - k,
    {
        let name = &channel.members[k];
        assert(names.take(i + k + 1).drop_last() =~= names.take(i + k));
        assert(names[i + k] == name@);
        if !holds(&out, name.as_str()) {
            let ghost before = views(out@);
            out.push(name.clone());
            assert(views(out@) =~= before.push(name@));
        }
        k += 1;
    }
    assert(names.take(i + k) =~= names);
    out
}

/// The declared policy for a thread's channel id, resolved through the `decl:<name>` convention:
/// the first declaration so named gives its visibility and its cast; an absent id, or one no
/// declaration names, is [`ChannelPolicy::undeclared`].
pub fn declared_policy(channels: &[ChannelDecl], channel_id: Option<&str>) -> (p: ChannelPolicy)
    ensures
        match channel_id {
            None => p.visibility == Visibility::AllMembers && p.members is None,
            Some(id) => match first_declared(channels@, id@) {
                Some(i) => p.visibility == channels@[i].visibility && (p.members matches Some(
                    m,
                ) && views(m@) == cast_of(channels@[i])),
                None => p.visibility == Visibility::AllMembers && p.members is None,
            },
        },
{
    let wanted = match channel_id {
        None => return ChannelPolicy::undeclared(),
        Some(id) => id,
    };
    let mut i: usize = 0;
    while i < channels.len()
        invariant
            i <= channels.len(),
            channel_id == Some(wanted),
            forall|k: int| 0 <= k < i ==> #[trigger] decl_id(channels@[k]) != wanted@,
        decreases channels.len() - i,
    {
        let id = cat("decl:", channels[i].name.as_str());
        assert(id@ == decl_id(channels@[i as int]));
        if str_eq(id.as_str(), wanted) {
            proof {
                lemma_first_declared(channels@, wanted@, i as int);
            }
            let members = cast(&channels[i]);
            assert(views(members@) == cast_of(channels@[i as int]));
            return ChannelPolicy {
                visibility: channels[i].visibility,
                members: Some(members),
            };
        }
        i += 1;
    }
    proof {
        assert(!exists|k: int| 0 <= k < channels@.len() && #[trigger] decl_id(channels@[k]) == wanted@);
    }
    ChannelPolicy::undeclared()
}

/// The substrate channel id a declaration is materialized under.
pub open spec fn decl_id(c: ChannelDecl) -> Seq<char> {
    "decl:"@ + c.name@
}

/// The first declaration materialized under `id`, if any.
pub open spec fn first_declared(cs: Seq<ChannelDecl>, id: Seq<char>) -> Option<int> {
    if exists|k: int| 0 <= k < cs.len() && #[trigger] decl_id(cs[k]) == id {
        Some(
            choose|k: int|
                0 <= k < cs.len() && #[trigger] decl_id(cs[k]) == id && forall|j: int|
                    0 <= j < k ==> decl_id(cs[j]) != id,
        )
    } else {
        None
    }
}

proof fn lemma_first_declared(cs: Seq<ChannelDecl>, id: Seq<char>, i: int)
    requires
        0 <= i < cs.len(),
        decl_id(cs[i]) == id,
        forall|k: int| 0 <= k < i ==> #[trigger] decl_id(cs[k]) != id,
    ensures
        first_declared(cs, id) == Some(i),
{
    let j = choose|j: int|
        0 <= j < cs.len() && #[trigger] decl_id(cs[j]) == id && forall|k: int|
            0 <= k < j ==> decl_id(cs[k]) != id;
    assert(decl_id(cs[i]) == id);
    if j < i {
    } else if i < j {
    }
}

/// The names a fan-out reaches before the sender is taken out: the cast for `expects: all`, the
/// subset verbatim otherwise.
pub open spec fn fan_out_base(c: ChannelDecl) -> Seq<Seq<char>> {
    match c.expects {
        Expects::All => cast_of(c),
        Expects::Subset(handles) => views(handles@),
    }
}

/// The declared members to trigger for a channel invocation, in the channel's own order — the
/// cast for `expects: all`, the subset where one is declared — with `sender` removed: a requester
/// never triggers itself.
pub fn fan_out_targets(channel: &ChannelDecl, sender: &str) -> (out: Vec<String>)
    ensures
        views(out@) == without(fan_out_base(*channel), sender@),
{
    let all = match &channel.expects {
        Expects::All => cast(channel),
        Expects::Subset(handles) => copy_strings(handles),
    };
    strings_without(all, sender)
}

/// The names of every channel whose cast includes `handle`, in declaration order.
pub open spec fn casting(cs: Seq<ChannelDecl>, handle: Seq<char>) -> Seq<Seq<char>>
    decreases cs.len(),
{
    if cs.len() == 0 {
        Seq::empty()
    } else if cast_of(cs.last()).contains(handle) {
        casting(cs.drop_last(), handle).push(cs.last().name@)
    } else {
        casting(cs.drop_last(), handle)
    }
}

/// The names of every channel whose [`cast`] includes `handle`, in declaration order — the route
/// in for a persona that admits no direct message, derived instead of declared.
pub fn channels_casting(channels: &[ChannelDecl], handle: &str) -> (out: Vec<String>)
    ensures
        views(out@) == casting(channels@, handle@),
{
    let mut out: Vec<String> = Vec::new();
    let mut i: usize = 0;
    while i < channels.len()
        invariant
            i <= channels.len(),
            views(out@) == casting(channels@.take(i as int), handle@),
        decreases channels.len() - i,
    {
        assert(channels@.take(i + 1).drop_last() =~= channels@.take(i as int));
        assert(channels@.take(i + 1).last() == channels@[i as int]);
        let c = cast(&channels[i]);
        if holds(&c, handle) {
            let ghost before = views(out@);
            out.push(owned(channels[i].name.as_str()));
            assert(views(out@) =~= before.push(channels@[i as int].name@));
        }
        i += 1;
    }
    assert(channels@.take(channels.len() as int) =~= channels@);
    out
}

/// **Every name this channel commissions** — its step targets where it declares steps, its
/// members otherwise.
pub fn commissioned_names(channel: &ChannelDecl) -> (out: Vec<String>)
    ensures
        views(out@) == commissioned_of(*channel),
{
    if channel.is_stepped() {
        let mut out: Vec<String> = Vec::new();
        let mut i: usize = 0;
        while i < channel.steps.len()
            invariant
                i <= channel.steps.len(),
                views(out@) == step_targets(*channel).take(i as int),
            decreases channel.steps.len() - i,
        {
            let ghost before = views(out@);
            let t = channel.steps[i].target.clone();
            assert(t@ == step_targets(*channel)[i as int]);
            out.push(t);
            assert(views(out@) =~= before.push(t@));
            assert(step_targets(*channel).take(i + 1) =~= step_targets(*channel).take(i as int).push(t@));
            i += 1;
        }
        assert(step_targets(*channel).take(i as int) =~= step_targets(*channel));
        out
    } else {
        copy_strings(&channel.members)
    }
}

/// The first role declared under `name`, if any.
pub open spec fn first_role(roles: Seq<RoleDecl>, name: Seq<char>) -> Option<int> {
    if exists|k: int| 0 <= k < roles.len() && #[trigger] roles[k].handle@ == name {
        Some(
            choose|k: int|
                0 <= k < roles.len() && #[trigger] roles[k].handle@ == name && forall|j: int|
                    0 <= j < k ==> roles[j].handle@ != name,
        )
    } else {
        None
    }
}

/// The first channel declared under `name`, if any.
pub open spec fn first_channel(cs: Seq<ChannelDecl>, name: Seq<char>) -> Option<int> {
    if exists|k: int| 0 <= k < cs.len() && #[trigger] cs[k].name@ == name {
        Some(
            choose|k: int|
                0 <= k < cs.len() && #[trigger] cs[k].name@ == name && forall|j: int|
                    0 <= j < k ==> cs[j].name@ != name,
        )
    } else {
        None
    }
}

/// The index of the first role under `name`.
pub fn find_role(roles: &[RoleDecl], name: &str) -> (r: Option<usize>)
    ensures
        match r {
            Some(i) => i < roles@.len() && first_role(roles@, name@) == Some(i as int),
            None => first_role(roles@, name@) is None,
        },
{
    let mut i: usize = 0;
    while i < roles.len()
        invariant
            i <= roles.len(),
            forall|k: int| 0 <= k < i ==> #[trigger] roles@[k].handle@ != name@,
        decreases roles.len() - i,
    {
        if str_eq(roles[i].handle.as_str(), name) {
            proof {
                let j = choose|j: int|
                    0 <= j < roles@.len() && #[trigger] roles@[j].handle@ == name@ && forall|k: int|
                        0 <= k < j ==> roles@[k].handle@ != name@;
                assert(roles@[i as int].handle@ == name@);
                if j < i {
                } else if (i as int) < j {
                }
            }
            return Some(i);
        }
        i += 1;
    }
    None
}

/// The index of the first channel under `name`.
pub fn find_channel(channels: &[ChannelDecl], name: &str) -> (r: Option<usize>)
    ensures
        match r {
            Some(i) => i < channels@.len() && first_channel(channels@, name@) == Some(i as int),
            None => first_channel(channels@, name@) is None,
        },
{
    let mut i: usize = 0;
    while i < channels.len()
        invariant
            i <= channels.len(),
            forall|k: int| 0 <= k < i ==> #[trigger] channels@[k].name@ != name@,
        decreases channels.len() - i,
    {
        if str_eq(channels[i].name.as_str(), name) {
            proof {
                let j = choose|j: int|
                    0 <= j < channels@.len() && #[trigger] channels@[j].name@ == name@ && forall|
                        k: int,
                    | 0 <= k < j ==> channels@[k].name@ != name@;
                assert(channels@[i as int].name@ == name@);
                if j < i {
                } else if (i as int) < j {
                }
            }
            return Some(i);
        }
        i += 1;
    }
    None
}

/// What [`flow_step_target`] resolved a step's target to.
#[derive(Debug, Clone, Copy, PartialEq, Eq)]
pub enum FlowStepTarget<'a> {
    Role(&'a RoleDecl),
    Channel(&'a ChannelDecl),
}

/// Which declaration a name resolves to: the first role under it, else the first channel under
/// it — **a role wins a tie**. `None` when it is neither. (As an index into the roles, or into
/// the channels.)
pub open spec fn target_of(roles: Seq<RoleDecl>, cs: Seq<ChannelDecl>, name: Seq<char>) -> Option<
    (bool, int),
> {
    match first_role(roles, name) {
        Some(i) => Some((true, i)),
        None => match first_channel(cs, name) {
            Some(k) => Some((false, k)),
            None => None,
        },
    }
}

/// **What one flow step's target names** — a declared role, or a declared channel, with the role
/// winning a tie.
pub fn flow_step_target<'a>(
    roles: &'a [RoleDecl],
    channels: &'a [ChannelDecl],
    target: &str,
) -> (r: Option<FlowStepTarget<'a>>)
    ensures
        match target_of(roles@, channels@, target@) {
            Some((true, i)) => r == Some(FlowStepTarget::Role(&roles@[i])),
            Some((false, k)) => r == Some(FlowStepTarget::Channel(&channels@[k])),
            None => r is None,
        },
{
    match find_role(roles, target) {
        Some(i) => Some(FlowStepTarget::Role(&roles[i])),
        None => match find_channel(channels, target) {
            Some(k) => Some(FlowStepTarget::Channel(&channels[k])),
            None => None,
        },
    }
}

/// The result of running a completed channel's completion policy: the text it delivers.
#[derive(Debug, Clone, PartialEq, Eq)]
pub struct CompletionOutcome {
    pub delivered: String,
}

/// The ephemeral synthesizer's bare role handle.
pub const SYNTHESIS_HANDLE: &'static str = "__synth__";

/// The prefix every engine-internal identity carries, and the rule that reserves them.
pub const RESERVED_HANDLE_PREFIX: &'static str = "__";

/// The channel supervisor's reserved identity.
pub const SUPERVISOR_HANDLE: &'static str = "__channel__";

/// The identity of a consolidation that passed its answers through.
pub const DELIVERED_HANDLE: &'static str = "__delivered__";

/// The identity of a commission its requester took back.
pub const WITHDRAWN_HANDLE: &'static str = "__withdrawn__";


/// **A requester never triggers itself**: whatever a channel declares, the sender is not among
/// the targets of its fan-out, and every other name it would reach still is.
pub proof fn lemma_fan_out_spares_the_sender(c: ChannelDecl, sender: Seq<char>)
    ensures
        !without(fan_out_base(c), sender).contains(sender),
        forall|y: Seq<char>|
            #[trigger] without(fan_out_base(c), sender).contains(y) <==> (fan_out_base(c).contains(y) && y != sender),
{
    crate::text::lemma_without(fan_out_base(c), sender);
}

/// **A fan-out to all reaches the whole cast but the sender**: with `expects: all`, every step
/// target and every member other than the sender is among the targets, and nobody else is.
pub proof fn lemma_fan_out_to_all_reaches_the_cast(c: ChannelDecl, sender: Seq<char>)
    requires
        c.expects is All,
    ensures
        forall|k: int|
            0 <= k < c.steps@.len() && c.steps@[k].target@ != sender ==> #[trigger] without(
                fan_out_base(c),
                sender,
            ).contains(c.steps@[k].target@),
        forall|k: int|
            0 <= k < c.members@.len() && c.members@[k]@ != sender ==> #[trigger] without(
                fan_out_base(c),
                sender,
            ).contains(c.members@[k]@),
        forall|y: Seq<char>| #[trigger] without(fan_out_base(c), sender).contains(y) ==> y != sender
            && ((exists|k: int| 0 <= k < c.steps@.len() && c.steps@[k].target@ == y) || (exists|k: int|
            0 <= k < c.members@.len() && c.members@[k]@ == y)),
{
    crate::text::lemma_without(fan_out_base(c), sender);
    lemma_cast_is_everyone_once(c);
    assert forall|k: int| 0 <= k < c.steps@.len() && c.steps@[k].target@ != sender implies #[trigger] without(
        fan_out_base(c),
        sender,
    ).contains(c.steps@[k].target@) by {
        assert(step_targets(c)[k] == c.steps@[k].target@);
        assert(step_targets(c).contains(c.steps@[k].target@));
    }
    assert forall|k: int| 0 <= k < c.members@.len() && c.members@[k]@ != sender implies #[trigger] without(
        fan_out_base(c),
        sender,
    ).contains(c.members@[k]@) by {
        assert(views(c.members@)[k] == c.members@[k]@);
        assert(views(c.members@).contains(c.members@[k]@));
    }
    assert forall|y: Seq<char>| #[trigger] without(fan_out_base(c), sender).contains(y) implies y != sender
        && ((exists|k: int| 0 <= k < c.steps@.len() && c.steps@[k].target@ == y) || (exists|k: int|
        0 <= k < c.members@.len() && c.members@[k]@ == y)) by {
        if step_targets(c).contains(y) {
            let k = choose|k: int| 0 <= k < step_targets(c).len() && step_targets(c)[k] == y;
            assert(c.steps@[k].target@ == y);
        } else {
            let k = choose|k: int| 0 <= k < views(c.members@).len() && views(c.members@)[k] == y;
            assert(c.members@[k]@ == y);
        }
    }
}

/// **The cast names everyone once**: every step target and every member is in it, nobody else is,
/// and no handle appears twice.
pub proof fn lemma_cast_is_everyone_once(c: ChannelDecl)
    ensures
        cast_of(c).no_duplicates(),
        forall|h: Seq<char>|
            #[trigger] cast_of(c).contains(h) <==> (step_targets(c).contains(h) || views(c.members@).contains(h)),
{
    let all = step_targets(c) + views(c.members@);
    crate::text::lemma_dedup(all);
    assert forall|h: Seq<char>| #[trigger] cast_of(c).contains(h) <==> (step_targets(c).contains(h) || views(c.members@).contains(h)) by {
        if all.contains(h) {
            let k = choose|k: int| 0 <= k < all.len() && all[k] == h;
            if k < step_targets(c).len() {
                assert(step_targets(c)[k] == h);
            } else {
                assert(views(c.members@)[k - step_targets(c).len()] == h);
            }
        }
        if step_targets(c).contains(h) {
            let k = choose|k: int| 0 <= k < step_targets(c).len() && step_targets(c)[k] == h;
            assert(all[k] == h);
        }
        if views(c.members@).contains(h) {
            let k = choose|k: int| 0 <= k < views(c.members@).len() && views(c.members@)[k] == h;
            assert(all[k + step_targets(c).len()] == h);
        }
    }
}

} // verus!
