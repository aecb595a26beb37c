//! **Referential review of a whole channel catalogue** against the declared roles: every
//! channel's own findings in declaration order, then the names declared twice, then the flows
//! that reach themselves.
use vstd::prelude::*;
use crate::channel::{ChannelDecl, Expects, Flow, OnComplete, Precondition, target_of};
use crate::reach::{channels_on_a_flow_cycle, cycle_channels};
use crate::role::RoleDecl;
use crate::text::{blank, debug_quoted, debug_str, is_blank, str_eq, views};
use crate::validate::{
    CHANNELS_FILE, ChannelProblem, ValidationError, channel_problem, detail_of, problem_of, step_of,
    what_of,
};

verus! {

/// **One thing the review found**, with the channel it is about and the names at fault.
#[derive(Debug, Clone, PartialEq, Eq)]
pub enum Finding {
    /// A step target naming neither a declared role nor a declared channel.
    UnknownStepTarget { channel: String, handle: String },
    /// A member naming neither a declared role nor a declared channel.
    UnknownMember { channel: String, handle: String },
    /// `resume: true` on a step whose target is a channel, which has no one session to continue.
    ResumeOnChannelTarget { channel: String, step: String, target: String },
    /// An `expects` handle naming neither a declared role nor a declared channel.
    UnknownExpects { channel: String, handle: String },
    /// What the point-of-use check refuses.
    Unusable { channel: String, problem: ChannelProblem },
    /// A fold model on a channel that folds nothing.
    StrayFoldModel { channel: String },
    /// A target a sequential flow names a second time.
    RepeatedFlowStep { channel: String, target: String },
    /// A precondition with a blank name.
    UnnamedPrecondition { channel: String },
    /// A precondition under a name an earlier one of the channel has.
    DuplicatePrecondition { channel: String, name: String },
    /// A precondition with a blank command.
    PreconditionWithoutRun { channel: String, name: String },
    /// A channel name declared more than once.
    DuplicateChannelName { name: String },
    /// A channel whose flow reaches itself.
    FlowReachesItself { channel: String },
}

/// Does `name` resolve to a declared role or channel?
pub open spec fn resolves(roles: Seq<RoleDecl>, cs: Seq<ChannelDecl>, name: Seq<char>) -> bool {
    target_of(roles, cs, name) is Some
}

/// The first `upto` of `hs` that resolve to nothing, as findings about channel `chan`.
pub open spec fn unresolved(
    roles: Seq<RoleDecl>,
    cs: Seq<ChannelDecl>,
    chan: String,
    hs: Seq<String>,
    stepped: bool,
    upto: int,
) -> Seq<Finding>
    decreases upto,
{
    if upto <= 0 {
        Seq::empty()
    } else {
        let prev = unresolved(roles, cs, chan, hs, stepped, upto - 1);
        let h = hs[upto - 1];
        if resolves(roles, cs, h@) {
            prev
        } else if stepped {
            prev.push(Finding::UnknownStepTarget { channel: chan, handle: h })
        } else {
            prev.push(Finding::UnknownMember { channel: chan, handle: h })
        }
    }
}

/// The first `upto` steps of `c` that ask to resume a channel target.
pub open spec fn resumed_channels(roles: Seq<RoleDecl>, cs: Seq<ChannelDecl>, c: ChannelDecl, upto: int) -> Seq<Finding>
    decreases upto,
{
    if upto <= 0 {
        Seq::empty()
    } else {
        let prev = resumed_channels(roles, cs, c, upto - 1);
        let s = c.steps@[upto - 1];
        if s.resume == Some(true) && target_of(roles, cs, s.target@) matches Some((false, _)) {
            prev.push(Finding::ResumeOnChannelTarget { channel: c.name, step: s.id, target: s.target })
        } else {
            prev
        }
    }
}

/// The handles of `expects`, where it names any.
pub open spec fn expects_handles(c: ChannelDecl) -> Seq<String> {
    match c.expects {
        Expects::Subset(hs) => hs@,
        Expects::All => Seq::empty(),
    }
}

/// The first `upto` members of a sequential `c` that repeat an earlier one.
pub open spec fn repeated_steps(c: ChannelDecl, upto: int) -> Seq<Finding>
    decreases upto,
{
    if upto <= 0 {
        Seq::empty()
    } else {
        let prev = repeated_steps(c, upto - 1);
        let m = c.members@[upto - 1];
        if views(c.members@.take(upto - 1)).contains(m@) {
            prev.push(Finding::RepeatedFlowStep { channel: c.name, target: m })
        } else {
            prev
        }
    }
}

/// The names of preconditions.
pub open spec fn hurdle_names(ps: Seq<Precondition>) -> Seq<Seq<char>> {
    ps.map_values(|p: Precondition| p.name@)
}

/// What the first `upto` preconditions of `c` are found wanting in.
pub open spec fn hurdle_findings(c: ChannelDecl, upto: int) -> Seq<Finding>
    decreases upto,
{
    if upto <= 0 {
        Seq::empty()
    } else {
        let prev = hurdle_findings(c, upto - 1);
        let p = c.preconditions@[upto - 1];
        let named = if is_blank(p.name@) {
            prev.push(Finding::UnnamedPrecondition { channel: c.name })
        } else if hurdle_names(c.preconditions@.take(upto - 1)).contains(p.name@) {
            prev.push(Finding::DuplicatePrecondition { channel: c.name, name: p.name })
        } else {
            prev
        };
        if is_blank(p.run@) {
            named.push(Finding::PreconditionWithoutRun { channel: c.name, name: p.name })
        } else {
            named
        }
    }
}

/// The names channel `c` commissions, as declared.
pub open spec fn commissioned_strings(c: ChannelDecl) -> Seq<String> {
    if c.steps@.len() > 0 {
        c.steps@.map_values(|s: crate::channel::FlowStep| s.target)
    } else {
        c.members@
    }
}

/// A channel's commissioned names that resolve to nothing.
pub open spec fn unresolved_commissioned(roles: Seq<RoleDecl>, cs: Seq<ChannelDecl>, c: ChannelDecl) -> Seq<Finding> {
    let hs = commissioned_strings(c);
    unresolved(roles, cs, c.name, hs, c.steps@.len() > 0, hs.len() as int)
}

/// A channel's `expects` handles that resolve to nothing.
pub open spec fn unresolved_expected(roles: Seq<RoleDecl>, cs: Seq<ChannelDecl>, c: ChannelDecl) -> Seq<Finding> {
    let es = expects_handles(c);
    unresolved_expects(roles, cs, c.name, es, es.len() as int)
}

/// What the point-of-use check refuses in a channel, as a finding.
pub open spec fn unusable_finding(c: ChannelDecl) -> Seq<Finding> {
    match problem_of(c) {
        Some(p) => seq![Finding::Unusable { channel: c.name, problem: p }],
        None => Seq::empty(),
    }
}

/// A fold model on a channel that folds nothing, as a finding.
pub open spec fn stray_model_finding(c: ChannelDecl) -> Seq<Finding> {
    if c.summary_model is Some && c.on_complete != OnComplete::Summarize {
        seq![Finding::StrayFoldModel { channel: c.name }]
    } else {
        Seq::empty()
    }
}

/// The repeated steps of a sequential flow.
pub open spec fn sequential_repeats(c: ChannelDecl) -> Seq<Finding> {
    if c.flow == Flow::Sequential {
        repeated_steps(c, c.members@.len() as int)
    } else {
        Seq::empty()
    }
}

/// **Everything found about channel `i` on its own**, in the order the checks run: names it
/// commissions that resolve to nothing, resumed channel targets, `expects` handles that resolve
/// to nothing, what the point-of-use check refuses, a stray fold model, repeated sequential
/// steps, and wanting preconditions.
#[verifier::opaque]
pub open spec fn channel_findings_of(roles: Seq<RoleDecl>, cs: Seq<ChannelDecl>, i: int) -> Seq<Finding> {
    let c = cs[i];
    unresolved_commissioned(roles, cs, c) + resumed_channels(roles, cs, c, c.steps@.len() as int)
        + unresolved_expected(roles, cs, c) + unusable_finding(c) + stray_model_finding(c)
        + sequential_repeats(c) + hurdle_findings(c, c.preconditions@.len() as int)
}

/// The first `upto` `expects` handles that resolve to nothing.
pub open spec fn unresolved_expects(
    roles: Seq<RoleDecl>,
    cs: Seq<ChannelDecl>,
    chan: String,
    hs: Seq<String>,
    upto: int,
) -> Seq<Finding>
    decreases upto,
{
    if upto <= 0 {
        Seq::empty()
    } else {
        let prev = unresolved_expects(roles, cs, chan, hs, upto - 1);
        let h = hs[upto - 1];
        if resolves(roles, cs, h@) {
            prev
        } else {
            prev.push(Finding::UnknownExpects { channel: chan, handle: h })
        }
    }
}

/// The findings of the first `upto` channels, one channel's after the other's.
pub open spec fn per_channel(roles: Seq<RoleDecl>, cs: Seq<ChannelDecl>, upto: int) -> Seq<Finding>
    decreases upto,
{
    if upto <= 0 {
        Seq::empty()
    } else {
        per_channel(roles, cs, upto - 1) + channel_findings_of(roles, cs, upto - 1)
    }
}

/// The names of channels.
pub open spec fn channel_names(cs: Seq<ChannelDecl>) -> Seq<Seq<char>> {
    cs.map_values(|c: ChannelDecl| c.name@)
}

/// One finding per name declared more than once among the first `upto` channels' first
/// appearances, in the order the names first appear.
pub open spec fn duplicate_names(cs: Seq<ChannelDecl>, upto: int) -> Seq<Finding>
    decreases upto,
{
    if upto <= 0 {
        Seq::empty()
    } else {
        let prev = duplicate_names(cs, upto - 1);
        let i = upto - 1;
        if !channel_names(cs.take(i)).contains(cs[i].name@) && channel_names(cs.skip(i + 1)).contains(cs[i].name@) {
            prev.push(Finding::DuplicateChannelName { name: cs[i].name })
        } else {
            prev
        }
    }
}

/// **Everything the review finds**, in the order it reports it.
pub open spec fn findings_of(roles: Seq<RoleDecl>, cs: Seq<ChannelDecl>) -> Seq<Finding> {
    per_channel(roles, cs, cs.len() as int) + duplicate_names(cs, cs.len() as int) + cycle_channels(
        roles,
        cs,
        cs.len() as int,
    ).map_values(|i: int| Finding::FlowReachesItself { channel: cs[i].name })
}

/// The channel a finding is about, or the name declared twice.
pub open spec fn channel_of(f: Finding) -> Seq<char> {
    match f {
        Finding::UnknownStepTarget { channel, .. } => channel@,
        Finding::UnknownMember { channel, .. } => channel@,
        Finding::ResumeOnChannelTarget { channel, .. } => channel@,
        Finding::UnknownExpects { channel, .. } => channel@,
        Finding::Unusable { channel, .. } => channel@,
        Finding::StrayFoldModel { channel } => channel@,
        Finding::RepeatedFlowStep { channel, .. } => channel@,
        Finding::UnnamedPrecondition { channel } => channel@,
        Finding::DuplicatePrecondition { channel, .. } => channel@,
        Finding::PreconditionWithoutRun { channel, .. } => channel@,
        Finding::DuplicateChannelName { name } => name@,
        Finding::FlowReachesItself { channel } => channel@,
    }
}

/// The first name a finding is about besides its channel, or nothing.
pub open spec fn first_of(f: Finding) -> Seq<char> {
    match f {
        Finding::UnknownStepTarget { handle, .. } => handle@,
        Finding::UnknownMember { handle, .. } => handle@,
        Finding::ResumeOnChannelTarget { step, .. } => step@,
        Finding::UnknownExpects { handle, .. } => handle@,
        Finding::Unusable { problem, .. } => step_of(problem),
        Finding::RepeatedFlowStep { target, .. } => target@,
        Finding::DuplicatePrecondition { name, .. } => name@,
        Finding::PreconditionWithoutRun { name, .. } => name@,
        _ => Seq::empty(),
    }
}

/// The second name a finding is about, or nothing.
pub open spec fn second_of(f: Finding) -> Seq<char> {
    match f {
        Finding::ResumeOnChannelTarget { target, .. } => target@,
        Finding::Unusable { problem, .. } => detail_of(problem),
        _ => Seq::empty(),
    }
}

/// **What a finding says**, given its channel and its names already quoted.
pub open spec fn finding_text(f: Finding, q: Seq<char>, qa: Seq<char>, qb: Seq<char>) -> Seq<char> {
    match f {
        Finding::UnknownStepTarget { .. } => "channel "@ + q + ": unknown step target "@ + qa + " — it names neither a declared role nor a declared channel"@,
        Finding::UnknownMember { .. } => "channel "@ + q + ": unknown member handle "@ + qa + " — it names neither a declared role nor a declared channel"@,
        Finding::ResumeOnChannelTarget { .. } => "channel "@ + q + ": step "@ + qa + " declares `resume: true`, but its target "@ + qb + " is a declared CHANNEL — a channel has no single session to continue, because its members each have their own. Only a step whose target is a ROLE can be continued"@,
        Finding::UnknownExpects { .. } => "channel "@ + q + ": unknown expects handle "@ + qa,
        Finding::StrayFoldModel { .. } => "channel "@ + q + ": summary_model needs on_complete=summarize — this channel's consolidator passes its answers through and folds nothing"@,
        Finding::RepeatedFlowStep { .. } => "channel "@ + q + ": flow step "@ + qa + " is declared twice — a sequential flow is a fixed order over distinct steps, and there is no declared signal that could route a repeat"@,
        Finding::UnnamedPrecondition { .. } => "channel "@ + q + ": a precondition with no `name` — the name is what a refusal is reported under, so a requester has nothing to branch on without it"@,
        Finding::DuplicatePrecondition { .. } => "channel "@ + q + ": precondition "@ + qa + " is declared twice — a refusal names one hurdle, and two under one name make that name ambiguous"@,
        Finding::PreconditionWithoutRun { .. } => "channel "@ + q + ": precondition "@ + qa + " declares no `run` command — an empty command exits zero, so this would be a hurdle that always passes"@,
        Finding::DuplicateChannelName { .. } => "duplicate channel name "@ + q,
        Finding::FlowReachesItself { .. } => "channel "@ + q + ": its flow reaches itself through its members — such a flow would never end"@,
        Finding::Unusable { problem, .. } => what_of(problem, q, qa, qb),
    }
}


// ---- the review ----------------------------------------------------------------------------

/// Does `name` resolve to a declared role or channel?
fn resolves_exec(roles: &[RoleDecl], channels: &[ChannelDecl], name: &str) -> (r: bool)
    ensures
        r == resolves(roles@, channels@, name@),
{
    crate::channel::find_role(roles, name).is_some() || crate::channel::find_channel(channels, name).is_some()
}

/// Append a finding for every one of `hs` that resolves to nothing.
fn push_unresolved(
    roles: &[RoleDecl],
    channels: &[ChannelDecl],
    chan: &String,
    hs: &Vec<String>,
    stepped: bool,
    out: &mut Vec<Finding>,
)
    ensures
        final(out)@ == old(out)@ + unresolved(roles@, channels@, *chan, hs@, stepped, hs@.len() as int),
{
    let ghost start = out@;
    let mut k: usize = 0;
    while k < hs.len()
        invariant
            k <= hs@.len(),
            out@ == start + unresolved(roles@, channels@, *chan, hs@, stepped, k as int),
        decreases hs@.len() - k,
    {
        if !resolves_exec(roles, channels, hs[k].as_str()) {
            if stepped {
                out.push(Finding::UnknownStepTarget { channel: chan.clone(), handle: hs[k].clone() });
            } else {
                out.push(Finding::UnknownMember { channel: chan.clone(), handle: hs[k].clone() });
            }
        }
        k += 1;
        assert(out@ =~= start + unresolved(roles@, channels@, *chan, hs@, stepped, k as int));
    }
}

/// Append a finding for every one of `hs` that resolves to nothing, as `expects` handles.
fn push_unresolved_expects(
    roles: &[RoleDecl],
    channels: &[ChannelDecl],
    chan: &String,
    hs: &Vec<String>,
    out: &mut Vec<Finding>,
)
    ensures
        final(out)@ == old(out)@ + unresolved_expects(roles@, channels@, *chan, hs@, hs@.len() as int),
{
    let ghost start = out@;
    let mut k: usize = 0;
    while k < hs.len()
        invariant
            k <= hs@.len(),
            out@ == start + unresolved_expects(roles@, channels@, *chan, hs@, k as int),
        decreases hs@.len() - k,
    {
        if !resolves_exec(roles, channels, hs[k].as_str()) {
            out.push(Finding::UnknownExpects { channel: chan.clone(), handle: hs[k].clone() });
        }
        k += 1;
        assert(out@ =~= start + unresolved_expects(roles@, channels@, *chan, hs@, k as int));
    }
}

/// Append a finding for every step of `c` that asks to resume a channel target.
fn push_resumed(roles: &[RoleDecl], channels: &[ChannelDecl], c: &ChannelDecl, out: &mut Vec<Finding>)
    ensures
        final(out)@ == old(out)@ + resumed_channels(roles@, channels@, *c, c.steps@.len() as int),
{
    let ghost start = out@;
    let mut k: usize = 0;
    while k < c.steps.len()
        invariant
            k <= c.steps@.len(),
            out@ == start + resumed_channels(roles@, channels@, *c, k as int),
        decreases c.steps@.len() - k,
    {
        let s = &c.steps[k];
        if let Some(true) = s.resume {
            if crate::reach::channel_target(roles, channels, s.target.as_str()).is_some() {
                out.push(Finding::ResumeOnChannelTarget { channel: c.name.clone(), step: s.id.clone(), target: s.target.clone() });
            }
        }
        k += 1;
        assert(out@ =~= start + resumed_channels(roles@, channels@, *c, k as int));
    }
}

/// Append a finding for every member of `c` that repeats an earlier one.
fn push_repeated(c: &ChannelDecl, out: &mut Vec<Finding>)
    ensures
        final(out)@ == old(out)@ + repeated_steps(*c, c.members@.len() as int),
{
    let ghost start = out@;
    let mut k: usize = 0;
    while k < c.members.len()
        invariant
            k <= c.members@.len(),
            out@ == start + repeated_steps(*c, k as int),
        decreases c.members@.len() - k,
    {
        if crate::validate::named_before(&c.members, k, c.members[k].as_str()) {
            out.push(Finding::RepeatedFlowStep { channel: c.name.clone(), target: c.members[k].clone() });
        }
        k += 1;
        assert(out@ =~= start + repeated_steps(*c, k as int));
    }
}

/// Is `name` the name of one of the first `k` preconditions?
fn hurdle_named_before(ps: &Vec<Precondition>, k: usize, name: &str) -> (r: bool)
    requires
        k <= ps@.len(),
    ensures
        r == hurdle_names(ps@.take(k as int)).contains(name@),
{
    let ghost before = hurdle_names(ps@.take(k as int));
    let mut j: usize = 0;
    while j < k
        invariant
            j <= k,
            k <= ps@.len(),
            before == hurdle_names(ps@.take(k as int)),
            forall|m: int| 0 <= m < j ==> before[m] != name@,
        decreases k - j,
    {
        if str_eq(ps[j].name.as_str(), name) {
            assert(before[j as int] == name@);
            return true;
        }
        j += 1;
    }
    false
}

/// Append what the preconditions of `c` are found wanting in.
fn push_hurdles(c: &ChannelDecl, out: &mut Vec<Finding>)
    ensures
        final(out)@ == old(out)@ + hurdle_findings(*c, c.preconditions@.len() as int),
{
    let ghost start = out@;
    let mut k: usize = 0;
    while k < c.preconditions.len()
        invariant
            k <= c.preconditions@.len(),
            out@ == start + hurdle_findings(*c, k as int),
        decreases c.preconditions@.len() - k,
    {
        let p = &c.preconditions[k];
        if blank(p.name.as_str()) {
            out.push(Finding::UnnamedPrecondition { channel: c.name.clone() });
        } else if hurdle_named_before(&c.preconditions, k, p.name.as_str()) {
            out.push(Finding::DuplicatePrecondition { channel: c.name.clone(), name: p.name.clone() });
        }
        if blank(p.run.as_str()) {
            out.push(Finding::PreconditionWithoutRun { channel: c.name.clone(), name: p.name.clone() });
        }
        k += 1;
        assert(out@ =~= start + hurdle_findings(*c, k as int));
    }
}

/// The targets of `c`'s steps, as declared.
fn step_target_strings(c: &ChannelDecl) -> (r: Vec<String>)
    ensures
        r@ == c.steps@.map_values(|s: crate::channel::FlowStep| s.target),
{
    let mut r: Vec<String> = Vec::new();
    let mut k: usize = 0;
    while k < c.steps.len()
        invariant
            k <= c.steps@.len(),
            r@ == c.steps@.take(k as int).map_values(|s: crate::channel::FlowStep| s.target),
        decreases c.steps@.len() - k,
    {
        r.push(c.steps[k].target.clone());
        k += 1;
        assert(r@ =~= c.steps@.take(k as int).map_values(|s: crate::channel::FlowStep| s.target));
    }
    assert(c.steps@.take(k as int) =~= c.steps@);
    r
}

/// Append what the point-of-use check refuses in `c`.
fn push_unusable(c: &ChannelDecl, out: &mut Vec<Finding>)
    ensures
        final(out)@ == old(out)@ + unusable_finding(*c),
{
    let ghost start = out@;
    if let Some(p) = channel_problem(c) {
        out.push(Finding::Unusable { channel: c.name.clone(), problem: p });
    }
    assert(out@ =~= start + unusable_finding(*c));
}

/// Append a stray fold model of `c`.
fn push_stray_model(c: &ChannelDecl, out: &mut Vec<Finding>)
    ensures
        final(out)@ == old(out)@ + stray_model_finding(*c),
{
    let ghost start = out@;
    if c.summary_model.is_some() && c.on_complete != OnComplete::Summarize {
        out.push(Finding::StrayFoldModel { channel: c.name.clone() });
    }
    assert(out@ =~= start + stray_model_finding(*c));
}

/// Append the repeated steps of `c`'s flow, where it is sequential.
fn push_sequential_repeats(c: &ChannelDecl, out: &mut Vec<Finding>)
    ensures
        final(out)@ == old(out)@ + sequential_repeats(*c),
{
    let ghost start = out@;
    if c.flow == Flow::Sequential {
        push_repeated(c, out);
    }
    assert(out@ =~= start + sequential_repeats(*c));
}

/// Append the names `c` commissions that resolve to nothing.
fn push_unresolved_commissioned(roles: &[RoleDecl], channels: &[ChannelDecl], c: &ChannelDecl, out: &mut Vec<Finding>)
    ensures
        final(out)@ == old(out)@ + unresolved_commissioned(roles@, channels@, *c),
{
    if c.is_stepped() {
        let targets = step_target_strings(c);
        push_unresolved(roles, channels, &c.name, &targets, true, out);
    } else {
        push_unresolved(roles, channels, &c.name, &c.members, false, out);
    }
}

/// Append the `expects` handles of `c` that resolve to nothing.
fn push_unresolved_expected(roles: &[RoleDecl], channels: &[ChannelDecl], c: &ChannelDecl, out: &mut Vec<Finding>)
    ensures
        final(out)@ == old(out)@ + unresolved_expected(roles@, channels@, *c),
{
    let ghost start = out@;
    match &c.expects {
        Expects::Subset(hs) => push_unresolved_expects(roles, channels, &c.name, hs, out),
        Expects::All => {},
    }
    assert(out@ =~= start + unresolved_expected(roles@, channels@, *c));
}

/// Append everything found about channel `i` on its own.
fn push_channel_findings(roles: &[RoleDecl], channels: &[ChannelDecl], i: usize, out: &mut Vec<Finding>)
    requires
        i < channels@.len(),
    ensures
        final(out)@ == old(out)@ + channel_findings_of(roles@, channels@, i as int),
{
    let c = &channels[i];
    let ghost start = out@;
    let ghost f1 = unresolved_commissioned(roles@, channels@, *c);
    let ghost f2 = resumed_channels(roles@, channels@, *c, c.steps@.len() as int);
    let ghost f3 = unresolved_expected(roles@, channels@, *c);
    let ghost f4 = unusable_finding(*c);
    let ghost f5 = stray_model_finding(*c);
    let ghost f6 = sequential_repeats(*c);
    let ghost f7 = hurdle_findings(*c, c.preconditions@.len() as int);
    push_unresolved_commissioned(roles, channels, c, out);
    push_resumed(roles, channels, c, out);
    assert(out@ =~= start + (f1 + f2));
    push_unresolved_expected(roles, channels, c, out);
    assert(out@ =~= start + (f1 + f2 + f3));
    push_unusable(c, out);
    assert(out@ =~= start + (f1 + f2 + f3 + f4));
    push_stray_model(c, out);
    assert(out@ =~= start + (f1 + f2 + f3 + f4 + f5));
    push_sequential_repeats(c, out);
    assert(out@ =~= start + (f1 + f2 + f3 + f4 + f5 + f6));
    push_hurdles(c, out);
    assert(out@ =~= start + (f1 + f2 + f3 + f4 + f5 + f6 + f7));
    proof {
        reveal(channel_findings_of);
    }
}

/// Append one finding per channel name declared more than once, in first-appearance order.
fn push_duplicate_names(channels: &[ChannelDecl], out: &mut Vec<Finding>)
    ensures
        final(out)@ == old(out)@ + duplicate_names(channels@, channels@.len() as int),
{
    let ghost start = out@;
    let ghost cs = channels@;
    let n = channels.len();
    let mut i: usize = 0;
    while i < n
        invariant
            i <= n,
            n == cs.len(),
            cs == channels@,
            out@ == start + duplicate_names(cs, i as int),
        decreases n - i,
    {
        let name = channels[i].name.as_str();
        let mut earlier = false;
        let mut k: usize = 0;
        while k < i
            invariant
                k <= i,
                i < n,
                n == cs.len(),
                cs == channels@,
                name@ == cs[i as int].name@,
                earlier == exists|m: int| 0 <= m < k && #[trigger] cs[m].name@ == name@,
            decreases i - k,
        {
            let same = str_eq(channels[k].name.as_str(), name);
            if same {
                earlier = true;
            }
            proof {
                assert(same == (cs[k as int].name@ == name@));
                assert forall|m: int| 0 <= m < k + 1 && #[trigger] cs[m].name@ == name@ implies (m < k || same) by {}
            }
            k += 1;
        }
        proof {
            let t = channel_names(cs.take(i as int));
            if earlier {
                let m = choose|m: int| 0 <= m < i && #[trigger] cs[m].name@ == name@;
                assert(t[m] == name@);
            }
            if t.contains(name@) {
                let m = choose|m: int| 0 <= m < t.len() && t[m] == name@;
                assert(cs[m].name@ == name@);
            }
        }
        let mut later = false;
        let mut k: usize = i + 1;
        while k < n
            invariant
                i < k <= n,
                n == cs.len(),
                cs == channels@,
                name@ == cs[i as int].name@,
                later == exists|m: int| i < m < k && #[trigger] cs[m].name@ == name@,
            decreases n - k,
        {
            let same = str_eq(channels[k].name.as_str(), name);
            if same {
                later = true;
            }
            proof {
                assert(same == (cs[k as int].name@ == name@));
                assert forall|m: int| i < m < k + 1 && #[trigger] cs[m].name@ == name@ implies (m < k || same) by {}
            }
            k += 1;
        }
        proof {
            let t = channel_names(cs.skip(i + 1));
            if later {
                let m = choose|m: int| i < m < n && #[trigger] cs[m].name@ == name@;
                assert(t[m - (i + 1)] == name@);
            }
            if t.contains(name@) {
                let m = choose|m: int| 0 <= m < t.len() && t[m] == name@;
                assert(cs[m + i + 1].name@ == name@);
            }
        }
        if !earlier && later {
            out.push(Finding::DuplicateChannelName { name: channels[i].name.clone() });
        }
        i += 1;
        assert(out@ =~= start + duplicate_names(cs, i as int));
    }
}

/// **Everything the review of a channel catalogue finds**, in the order it reports it: each
/// channel's own findings in declaration order, then every name declared more than once in the
/// order it first appears, then every channel whose flow reaches itself.
pub fn channel_findings(roles: &[RoleDecl], channels: &[ChannelDecl]) -> (r: Vec<Finding>)
    ensures
        r@ == findings_of(roles@, channels@),
{
    let mut out: Vec<Finding> = Vec::new();
    let mut i: usize = 0;
    while i < channels.len()
        invariant
            i <= channels@.len(),
            out@ == per_channel(roles@, channels@, i as int),
        decreases channels@.len() - i,
    {
        push_channel_findings(roles, channels, i, &mut out);
        i += 1;
    }
    push_duplicate_names(channels, &mut out);
    push_cycles(roles, channels, &mut out);
    out
}

/// Append one finding per channel whose flow reaches itself.
fn push_cycles(roles: &[RoleDecl], channels: &[ChannelDecl], out: &mut Vec<Finding>)
    ensures
        final(out)@ == old(out)@ + cycle_channels(roles@, channels@, channels@.len() as int).map_values(
            |i: int| Finding::FlowReachesItself { channel: channels@[i].name },
        ),
{
    let ghost mid = out@;
    let cycles = channels_on_a_flow_cycle(roles, channels);
    let ghost idx = cycle_channels(roles@, channels@, channels@.len() as int);
    let ghost tail = idx.map_values(|i: int| Finding::FlowReachesItself { channel: channels@[i].name });
    proof {
        crate::reach::lemma_cycle_channels_in_range(roles@, channels@);
        assert forall|k: int| 0 <= k < cycles@.len() implies #[trigger] cycles@[k] < channels@.len() by {
            assert(cycles@.map_values(|x: usize| x as int)[k] == cycles@[k] as int);
        }
    }
    let mut j: usize = 0;
    while j < cycles.len()
        invariant
            j <= cycles@.len(),
            cycles@.map_values(|x: usize| x as int) == idx,
            forall|k: int| 0 <= k < cycles@.len() ==> #[trigger] cycles@[k] < channels@.len(),
            tail == idx.map_values(|i: int| Finding::FlowReachesItself { channel: channels@[i].name }),
            out@ == mid + tail.take(j as int),
        decreases cycles@.len() - j,
    {
        let i = cycles[j];
        assert(idx[j as int] == i as int);
        out.push(Finding::FlowReachesItself { channel: channels[i].name.clone() });
        j += 1;
        assert(out@ =~= mid + tail.take(j as int));
    }
    assert(tail.take(j as int) =~= tail);
}

impl Finding {
    /// The channel this finding is about, or the name declared twice.
    pub fn channel(&self) -> (s: &str)
        ensures
            s@ == channel_of(*self),
    {
        match self {
            Finding::UnknownStepTarget { channel, .. } => channel.as_str(),
            Finding::UnknownMember { channel, .. } => channel.as_str(),
            Finding::ResumeOnChannelTarget { channel, .. } => channel.as_str(),
            Finding::UnknownExpects { channel, .. } => channel.as_str(),
            Finding::Unusable { channel, .. } => channel.as_str(),
            Finding::StrayFoldModel { channel } => channel.as_str(),
            Finding::RepeatedFlowStep { channel, .. } => channel.as_str(),
            Finding::UnnamedPrecondition { channel } => channel.as_str(),
            Finding::DuplicatePrecondition { channel, .. } => channel.as_str(),
            Finding::PreconditionWithoutRun { channel, .. } => channel.as_str(),
            Finding::DuplicateChannelName { name } => name.as_str(),
            Finding::FlowReachesItself { channel } => channel.as_str(),
        }
    }

    /// The first name this finding is about besides its channel, or nothing.
    pub fn first(&self) -> (s: &str)
        ensures
            s@ == first_of(*self),
    {
        match self {
            Finding::UnknownStepTarget { handle, .. } => handle.as_str(),
            Finding::UnknownMember { handle, .. } => handle.as_str(),
            Finding::ResumeOnChannelTarget { step, .. } => step.as_str(),
            Finding::UnknownExpects { handle, .. } => handle.as_str(),
            Finding::Unusable { problem, .. } => problem.step(),
            Finding::RepeatedFlowStep { target, .. } => target.as_str(),
            Finding::DuplicatePrecondition { name, .. } => name.as_str(),
            Finding::PreconditionWithoutRun { name, .. } => name.as_str(),
            _ => {
                proof {
                    reveal_strlit("");
                }
                ""
            },
        }
    }

    /// The second name this finding is about, or nothing.
    pub fn second(&self) -> (s: &str)
        ensures
            s@ == second_of(*self),
    {
        match self {
            Finding::ResumeOnChannelTarget { target, .. } => target.as_str(),
            Finding::Unusable { problem, .. } => problem.detail(),
            _ => {
                proof {
                    reveal_strlit("");
                }
                ""
            },
        }
    }

    /// **What this finding says**, given its channel and its names already rendered as quoted
    /// strings.
    pub fn text(&self, quoted_channel: &str, quoted_first: &str, quoted_second: &str) -> (out: String)
        ensures
            out@ == finding_text(*self, quoted_channel@, quoted_first@, quoted_second@),
    {
        let mut out = String::new();
        match self {
                Finding::UnknownStepTarget { .. } => {
                    out.append("channel ");
                    out.append(quoted_channel);
                    out.append(": unknown step target ");
                    out.append(quoted_first);
                    out.append(" — it names neither a declared role nor a declared channel");
                },
                Finding::UnknownMember { .. } => {
                    out.append("channel ");
                    out.append(quoted_channel);
                    out.append(": unknown member handle ");
                    out.append(quoted_first);
                    out.append(" — it names neither a declared role nor a declared channel");
                },
                Finding::ResumeOnChannelTarget { .. } => {
                    out.append("channel ");
                    out.append(quoted_channel);
                    out.append(": step ");
                    out.append(quoted_first);
                    out.append(" declares `resume: true`, but its target ");
                    out.append(quoted_second);
                    out.append(" is a declared CHANNEL — a channel has no single session to continue, because its members each have their own. Only a step whose target is a ROLE can be continued");
                },
                Finding::UnknownExpects { .. } => {
                    out.append("channel ");
                    out.append(quoted_channel);
                    out.append(": unknown expects handle ");
                    out.append(quoted_first);
                },
                Finding::StrayFoldModel { .. } => {
                    out.append("channel ");
                    out.append(quoted_channel);
                    out.append(": summary_model needs on_complete=summarize — this channel's consolidator passes its answers through and folds nothing");
                },
                Finding::RepeatedFlowStep { .. } => {
                    out.append("channel ");
                    out.append(quoted_channel);
                    out.append(": flow step ");
                    out.append(quoted_first);
                    out.append(" is declared twice — a sequential flow is a fixed order over distinct steps, and there is no declared signal that could route a repeat");
                },
                Finding::UnnamedPrecondition { .. } => {
                    out.append("channel ");
                    out.append(quoted_channel);
                    out.append(": a precondition with no `name` — the name is what a refusal is reported under, so a requester has nothing to branch on without it");
                },
                Finding::DuplicatePrecondition { .. } => {
                    out.append("channel ");
                    out.append(quoted_channel);
                    out.append(": precondition ");
                    out.append(quoted_first);
                    out.append(" is declared twice — a refusal names one hurdle, and two under one name make that name ambiguous");
                },
                Finding::PreconditionWithoutRun { .. } => {
                    out.append("channel ");
                    out.append(quoted_channel);
                    out.append(": precondition ");
                    out.append(quoted_first);
                    out.append(" declares no `run` command — an empty command exits zero, so this would be a hurdle that always passes");
                },
                Finding::DuplicateChannelName { .. } => {
                    out.append("duplicate channel name ");
                    out.append(quoted_channel);
                },
                Finding::FlowReachesItself { .. } => {
                    out.append("channel ");
                    out.append(quoted_channel);
                    out.append(": its flow reaches itself through its members — such a flow would never end");
                },
                Finding::Unusable { problem, .. } => {
                    return problem.text(quoted_channel, quoted_first, quoted_second);
                },
        }
        out
    }
}

/// **Referential validation of declared channels against declared roles**: one error per
/// finding of [`channel_findings`], in its order, each reported against `channels.yaml` with the
/// channel and the names at fault as quoted strings.
pub fn validate_channels(roles: &[RoleDecl], channels: &[ChannelDecl]) -> (errors: Vec<ValidationError>)
    ensures
        errors@.len() == findings_of(roles@, channels@).len(),
        forall|j: int| 0 <= j < errors@.len() ==> {
            let f = findings_of(roles@, channels@)[j];
            &&& (#[trigger] errors@[j]).file@ == CHANNELS_FILE@
            &&& errors@[j].what@ == finding_text(f, debug_str(channel_of(f)), debug_str(first_of(f)), debug_str(second_of(f)))
        },
{
    let findings = channel_findings(roles, channels);
    let mut errors: Vec<ValidationError> = Vec::new();
    let mut j: usize = 0;
    while j < findings.len()
        invariant
            j <= findings@.len(),
            findings@ == findings_of(roles@, channels@),
            errors@.len() == j,
            forall|k: int| 0 <= k < j ==> {
                let f = findings@[k];
                &&& (#[trigger] errors@[k]).file@ == CHANNELS_FILE@
                &&& errors@[k].what@ == finding_text(f, debug_str(channel_of(f)), debug_str(first_of(f)), debug_str(second_of(f)))
            },
        decreases findings@.len() - j,
    {
        let f = &findings[j];
        let q = debug_quoted(f.channel());
        let qa = debug_quoted(f.first());
        let qb = debug_quoted(f.second());
        let what = f.text(q.as_str(), qa.as_str(), qb.as_str());
        errors.push(ValidationError { file: CHANNELS_FILE.to_string(), what });
        j += 1;
    }
    errors
}

// ---- the two validators agree --------------------------------------------------------------

/// The finding the review makes of channel `i` when the point-of-use check refuses it.
pub open spec fn unusable_of(cs: Seq<ChannelDecl>, i: int) -> Finding {
    Finding::Unusable { channel: cs[i].name, problem: problem_of(cs[i])->0 }
}

/// Channel `i`'s refusal stands among the findings of the first `upto` channels.
proof fn lemma_refusal_in_per_channel(roles: Seq<RoleDecl>, cs: Seq<ChannelDecl>, i: int, upto: int)
    requires
        0 <= i < upto <= cs.len(),
        problem_of(cs[i]) is Some,
    ensures
        exists|j: int| 0 <= j < per_channel(roles, cs, upto).len() && #[trigger] per_channel(roles, cs, upto)[j] == unusable_of(cs, i),
    decreases upto,
{
    if upto == i + 1 {
        reveal(channel_findings_of);
        let c = cs[i];
        let before = per_channel(roles, cs, i);
        let lead = unresolved_commissioned(roles, cs, c) + resumed_channels(roles, cs, c, c.steps@.len() as int)
            + unresolved_expected(roles, cs, c);
        let j: int = before.len() as int + lead.len() as int;
        assert(unusable_finding(c) =~= seq![unusable_of(cs, i)]);
        assert(per_channel(roles, cs, upto)[j] == unusable_of(cs, i));
    } else {
        lemma_refusal_in_per_channel(roles, cs, i, upto - 1);
        let j = choose|j: int| 0 <= j < per_channel(roles, cs, upto - 1).len() && #[trigger] per_channel(roles, cs, upto - 1)[j] == unusable_of(cs, i);
        assert(per_channel(roles, cs, upto)[j] == unusable_of(cs, i));
    }
}

/// **A channel refused at its point of use is refused at start-up too**: whatever roles are
/// declared, the review finds what [`validate_channel_for_use`](crate::validate::validate_channel_for_use)
/// refuses in that channel, and reports it in the same words — the same channel, step and detail,
/// quoted the same way.
pub proof fn lemma_refused_at_use_is_refused_at_start_up(roles: Seq<RoleDecl>, cs: Seq<ChannelDecl>, i: int)
    requires
        0 <= i < cs.len(),
        problem_of(cs[i]) is Some,
    ensures
        exists|j: int| 0 <= j < findings_of(roles, cs).len() && #[trigger] findings_of(roles, cs)[j] == unusable_of(cs, i),
        ({
            let f = unusable_of(cs, i);
            let p = problem_of(cs[i])->0;
            finding_text(f, debug_str(channel_of(f)), debug_str(first_of(f)), debug_str(second_of(f)))
                == what_of(p, debug_str(cs[i].name@), debug_str(step_of(p)), debug_str(detail_of(p)))
        }),
{
    lemma_refusal_in_per_channel(roles, cs, i, cs.len() as int);
    let n = cs.len() as int;
    let j = choose|j: int| 0 <= j < per_channel(roles, cs, n).len() && #[trigger] per_channel(roles, cs, n)[j] == unusable_of(cs, i);
    assert(findings_of(roles, cs)[j] == unusable_of(cs, i));
}

} // verus!
