//! **Which channels a channel's flow reaches**, over the names it commissions that resolve to a
//! declared channel — and so which channels lie on a flow that would never end.
use vstd::prelude::*;
use crate::channel::{
    ChannelDecl, commissioned_names, commissioned_of, find_channel, find_role, target_of,
};
use crate::role::RoleDecl;
use crate::text::{debug_quoted, debug_str, str_eq};
use crate::validate::{CHANNELS_FILE, ValidationError};

verus! {

/// Channel `a` commissions a name that resolves to channel `b` (a role winning a tie).
#[verifier::opaque]
pub open spec fn feeds(roles: Seq<RoleDecl>, cs: Seq<ChannelDecl>, a: int, b: int) -> bool {
    exists|j: int|
        0 <= j < commissioned_of(cs[a]).len() && target_of(roles, cs, #[trigger] commissioned_of(cs[a])[j])
            == Some((false, b))
}

/// The channels channel `a`'s flow reaches in exactly `k` hops.
pub open spec fn reached_in(roles: Seq<RoleDecl>, cs: Seq<ChannelDecl>, a: int, k: nat) -> Set<int>
    decreases k,
{
    if k == 0 {
        Set::empty()
    } else if k == 1 {
        Set::new(|c: int| 0 <= c < cs.len() && feeds(roles, cs, a, c))
    } else {
        let before = reached_in(roles, cs, a, (k - 1) as nat);
        Set::new(|c: int| 0 <= c < cs.len() && exists|m: int| #[trigger] before.contains(m) && feeds(roles, cs, m, c))
    }
}

/// Channel `a`'s flow reaches channel `b`, in one hop or more.
#[verifier::opaque]
pub open spec fn reaches(roles: Seq<RoleDecl>, cs: Seq<ChannelDecl>, a: int, b: int) -> bool {
    exists|k: nat| #[trigger] reached_in(roles, cs, a, k).contains(b)
}

/// **Channel `i`'s flow reaches a channel under its own name** — so it would never end.
pub open spec fn on_a_flow_cycle(roles: Seq<RoleDecl>, cs: Seq<ChannelDecl>, i: int) -> bool {
    exists|k: int| 0 <= k < cs.len() && reaches(roles, cs, i, k) && #[trigger] cs[k].name@ == cs[i].name@
}

/// The channels, in declaration order, whose flow reaches itself.
pub open spec fn cycle_channels(roles: Seq<RoleDecl>, cs: Seq<ChannelDecl>, upto: int) -> Seq<int>
    decreases upto,
{
    if upto <= 0 {
        Seq::empty()
    } else if on_a_flow_cycle(roles, cs, upto - 1) {
        cycle_channels(roles, cs, upto - 1).push(upto - 1)
    } else {
        cycle_channels(roles, cs, upto - 1)
    }
}

/// What a channel whose flow reaches itself is told, its name already quoted.
pub open spec fn cycle_text(q: Seq<char>) -> Seq<char> {
    "channel "@ + q + ": its flow reaches itself through its members — such a flow would never end"@
}

/// How many entries are still unset.
spec fn unmarked(v: Seq<bool>) -> nat
    decreases v.len(),
{
    if v.len() == 0 {
        0
    } else {
        unmarked(v.drop_last()) + if v.last() {
            0nat
        } else {
            1nat
        }
    }
}

proof fn lemma_unmarked_set(v: Seq<bool>, i: int)
    requires
        0 <= i < v.len(),
        !v[i],
    ensures
        unmarked(v.update(i, true)) + 1 == unmarked(v),
    decreases v.len(),
{
    let w = v.update(i, true);
    if i == v.len() - 1 {
        assert(w.drop_last() =~= v.drop_last());
    } else {
        assert(w.drop_last() =~= v.drop_last().update(i, true));
        lemma_unmarked_set(v.drop_last(), i);
    }
}

/// One hop further: what `a` reaches in `k` hops feeds what it reaches in `k + 1`.
proof fn lemma_reach_step(roles: Seq<RoleDecl>, cs: Seq<ChannelDecl>, a: int, m: int, b: int)
    requires
        0 <= b < cs.len(),
        reaches(roles, cs, a, m),
        feeds(roles, cs, m, b),
    ensures
        reaches(roles, cs, a, b),
{
    reveal(reaches);
    let k = choose|k: nat| #[trigger] reached_in(roles, cs, a, k).contains(m);
    assert(k >= 1);
    let before = reached_in(roles, cs, a, k);
    assert(((k + 1) - 1) as nat == k);
    assert(reached_in(roles, cs, a, k + 1).contains(b));
}

/// The first hop: what `a` feeds it reaches.
proof fn lemma_first_hop(roles: Seq<RoleDecl>, cs: Seq<ChannelDecl>, a: int, b: int)
    requires
        0 <= b < cs.len(),
        feeds(roles, cs, a, b),
    ensures
        reaches(roles, cs, a, b),
{
    reveal(reaches);
    assert(reached_in(roles, cs, a, 1).contains(b));
}

/// A name of `m` that resolves to channel `b` makes `m` feed `b`.
proof fn lemma_feeds(roles: Seq<RoleDecl>, cs: Seq<ChannelDecl>, m: int, j: int, b: int)
    requires
        0 <= j < commissioned_of(cs[m]).len(),
        target_of(roles, cs, commissioned_of(cs[m])[j]) == Some((false, b)),
    ensures
        feeds(roles, cs, m, b),
{
    reveal(feeds);
}

/// The channel a name resolves to, if it resolves to a channel.
pub(crate) fn channel_target(roles: &[RoleDecl], channels: &[ChannelDecl], name: &str) -> (r: Option<usize>)
    ensures
        match r {
            Some(k) => k < channels@.len() && target_of(roles@, channels@, name@) == Some((false, k as int)),
            None => !(target_of(roles@, channels@, name@) matches Some((false, _))),
        },
{
    match find_role(roles, name) {
        Some(_) => None,
        None => find_channel(channels, name),
    }
}

/// What the closed marking holds: everything `a` reaches in `k` hops is marked.
proof fn lemma_reached_is_seen(
    rs: Seq<RoleDecl>,
    cs: Seq<ChannelDecl>,
    a: int,
    b: int,
    k: nat,
    seen: Seq<bool>,
)
    requires
        seen.len() == cs.len(),
        reached_in(rs, cs, a, k).contains(b),
        forall|c: int| 0 <= c < cs.len() && #[trigger] feeds(rs, cs, a, c) ==> seen[c],
        forall|x: int, c: int|
            0 <= x < cs.len() && 0 <= c < cs.len() && #[trigger] seen[x] && #[trigger] feeds(rs, cs, x, c) ==> seen[c],
    ensures
        0 <= b < cs.len(),
        seen[b],
    decreases k,
{
    if k > 1 {
        let before = reached_in(rs, cs, a, (k - 1) as nat);
        let m = choose|m: int| #[trigger] before.contains(m) && feeds(rs, cs, m, b);
        lemma_reached_is_seen(rs, cs, a, m, (k - 1) as nat, seen);
    }
}

/// Expand channel `m`: mark every channel it feeds that is not marked yet, and put it on the
/// stack to be expanded in turn.
#[verifier::rlimit(80)]
fn expand(
    roles: &[RoleDecl],
    channels: &[ChannelDecl],
    a: usize,
    m: usize,
    seen: &mut Vec<bool>,
    stack: &mut Vec<usize>,
)
    requires
        a < channels@.len(),
        m < channels@.len(),
        m == a || reaches(roles@, channels@, a as int, m as int),
        old(seen)@.len() == channels@.len(),
        forall|b: int| 0 <= b < channels@.len() && #[trigger] old(seen)@[b] ==> reaches(roles@, channels@, a as int, b),
    ensures
        final(seen)@.len() == channels@.len(),
        forall|b: int| 0 <= b < channels@.len() && #[trigger] old(seen)@[b] ==> final(seen)@[b],
        forall|b: int| 0 <= b < channels@.len() && #[trigger] final(seen)@[b] ==> reaches(roles@, channels@, a as int, b),
        forall|c: int| 0 <= c < channels@.len() && #[trigger] feeds(roles@, channels@, m as int, c) ==> final(seen)@[c],
        final(stack)@.len() >= old(stack)@.len(),
        forall|k: int| 0 <= k < old(stack)@.len() ==> #[trigger] final(stack)@[k] == old(stack)@[k],
        forall|k: int| old(stack)@.len() <= k < final(stack)@.len() ==> (#[trigger] final(stack)@[k]) < channels@.len() && final(seen)@[final(stack)@[k] as int],
        forall|b: int| 0 <= b < channels@.len() && #[trigger] final(seen)@[b] && !old(seen)@[b] ==> final(stack)@.contains(b as usize),
        unmarked(final(seen)@) + (final(stack)@.len() - old(stack)@.len()) == unmarked(old(seen)@),
{
    let ghost rs = roles@;
    let ghost cs = channels@;
    let ghost seen0 = seen@;
    let ghost stack0 = stack@;
    let n = channels.len();
    let names = commissioned_names(&channels[m]);
    let mut j: usize = 0;
    while j < names.len()
        invariant
            n == cs.len(),
            rs == roles@,
            cs == channels@,
            a < n,
            m < n,
            m == a || reaches(rs, cs, a as int, m as int),
            seen@.len() == n,
            crate::text::views(names@) == commissioned_of(cs[m as int]),
            j <= names@.len(),
            forall|b: int| 0 <= b < n && #[trigger] seen0[b] ==> seen@[b],
            forall|b: int| 0 <= b < n && #[trigger] seen@[b] ==> reaches(rs, cs, a as int, b),
            stack@.len() >= stack0.len(),
            forall|k: int| 0 <= k < stack0.len() ==> #[trigger] stack@[k] == stack0[k],
            forall|k: int| stack0.len() <= k < stack@.len() ==> (#[trigger] stack@[k]) < n && seen@[stack@[k] as int],
            forall|b: int| 0 <= b < n && #[trigger] seen@[b] && !seen0[b] ==> stack@.contains(b as usize),
            unmarked(seen@) + (stack@.len() - stack0.len()) == unmarked(seen0),
            forall|jj: int|
                0 <= jj < j ==> (target_of(rs, cs, #[trigger] commissioned_of(cs[m as int])[jj]) matches Some((false, c)) ==> 0 <= c < n && seen@[c]),
        decreases names@.len() - j,
    {
        assert(names@[j as int]@ == commissioned_of(cs[m as int])[j as int]);
        if let Some(b) = channel_target(roles, channels, names[j].as_str()) {
            if !seen[b] {
                proof {
                    lemma_feeds(rs, cs, m as int, j as int, b as int);
                    if m == a {
                        lemma_first_hop(rs, cs, a as int, b as int);
                    } else {
                        lemma_reach_step(rs, cs, a as int, m as int, b as int);
                    }
                    lemma_unmarked_set(seen@, b as int);
                }
                let ghost s1 = stack@;
                seen.set(b, true);
                stack.push(b);
                proof {
                    assert(stack@[s1.len() as int] == b);
                    assert forall|x: int| 0 <= x < n && #[trigger] seen@[x] && !seen0[x] implies stack@.contains(x as usize) by {
                        if x != b as int {
                            assert(s1.contains(x as usize));
                            let k = choose|k: int| 0 <= k < s1.len() && s1[k] == x as usize;
                            assert(stack@[k] == x as usize);
                        }
                    }
                }
            }
        }
        j += 1;
    }
    proof {
        reveal(feeds);
        assert forall|c: int| 0 <= c < n && #[trigger] feeds(rs, cs, m as int, c) implies seen@[c] by {
            let jj = choose|jj: int|
                0 <= jj < commissioned_of(cs[m as int]).len() && target_of(rs, cs, #[trigger] commissioned_of(cs[m as int])[jj])
                    == Some((false, c));
        }
    }
}

/// **Every channel channel `a`'s flow reaches**, marked by index.
#[verifier::rlimit(30)]
fn reached_from(roles: &[RoleDecl], channels: &[ChannelDecl], a: usize) -> (seen: Vec<bool>)
    requires
        a < channels@.len(),
    ensures
        seen@.len() == channels@.len(),
        forall|b: int| 0 <= b < channels@.len() ==> (seen@[b] <==> reaches(roles@, channels@, a as int, b)),
{
    let ghost rs = roles@;
    let ghost cs = channels@;
    let n = channels.len();
    let mut seen: Vec<bool> = Vec::new();
    let mut i: usize = 0;
    while i < n
        invariant
            i <= n,
            n == cs.len(),
            seen@.len() == i,
            forall|b: int| 0 <= b < i ==> !seen@[b],
        decreases n - i,
    {
        seen.push(false);
        i += 1;
    }
    let mut stack: Vec<usize> = Vec::new();
    expand(roles, channels, a, a, &mut seen, &mut stack);
    proof {
        assert forall|b: int, c: int|
            0 <= b < n && 0 <= c < n && #[trigger] seen@[b] && !stack@.contains(b as usize) && #[trigger] feeds(rs, cs, b, c)
                implies seen@[c] by {
            assert(stack@.contains(b as usize));
        }
    }
    loop
        invariant
            n == cs.len(),
            rs == roles@,
            cs == channels@,
            a < n,
            seen@.len() == n,
            forall|k: int| 0 <= k < stack@.len() ==> (#[trigger] stack@[k]) < n && seen@[stack@[k] as int],
            forall|b: int| 0 <= b < n && #[trigger] seen@[b] ==> reaches(rs, cs, a as int, b),
            forall|b: int, c: int|
                0 <= b < n && 0 <= c < n && #[trigger] seen@[b] && !stack@.contains(b as usize) && #[trigger] feeds(rs, cs, b, c)
                    ==> seen@[c],
            forall|c: int| 0 <= c < n && #[trigger] feeds(rs, cs, a as int, c) ==> seen@[c],
        ensures
            stack@.len() == 0,
        decreases unmarked(seen@) * 2 + stack@.len(),
    {
        let ghost before = stack@;
        let ghost seen_before = seen@;
        let m = match stack.pop() {
            Some(m) => m,
            None => break,
        };
        proof {
            assert(before == stack@.push(m));
            assert(seen@[m as int]);
        }
        let ghost popped = stack@;
        expand(roles, channels, a, m, &mut seen, &mut stack);
        proof {
            assert forall|b: int, c: int|
                0 <= b < n && 0 <= c < n && #[trigger] seen@[b] && !stack@.contains(b as usize) && #[trigger] feeds(rs, cs, b, c)
                    implies seen@[c] by {
                if b != m as int {
                    if !seen_before[b] {
                        assert(stack@.contains(b as usize));
                    }
                    if before.contains(b as usize) {
                        let k = choose|k: int| 0 <= k < before.len() && before[k] == b as usize;
                        assert(k < popped.len());
                        assert(stack@[k] == b as usize);
                    }
                    assert(seen_before[c]);
                }
            }
        }
    }
    proof {
        reveal(reaches);
        assert forall|b: int| 0 <= b < n && reaches(rs, cs, a as int, b) implies seen@[b] by {
            let k = choose|k: nat| #[trigger] reached_in(rs, cs, a as int, k).contains(b);
            lemma_reached_is_seen(rs, cs, a as int, b, k, seen@);
        }
    }
    seen
}


/// Does channel `i`'s flow reach a channel under its own name?
fn reaches_itself(roles: &[RoleDecl], channels: &[ChannelDecl], i: usize) -> (r: bool)
    requires
        i < channels@.len(),
    ensures
        r == on_a_flow_cycle(roles@, channels@, i as int),
{
    let seen = reached_from(roles, channels, i);
    let mut k: usize = 0;
    while k < channels.len()
        invariant
            k <= channels@.len(),
            i < channels@.len(),
            seen@.len() == channels@.len(),
            forall|b: int| 0 <= b < channels@.len() ==> (seen@[b] <==> reaches(roles@, channels@, i as int, b)),
            forall|b: int| 0 <= b < k ==> !(reaches(roles@, channels@, i as int, b) && #[trigger] channels@[b].name@ == channels@[i as int].name@),
        decreases channels@.len() - k,
    {
        if seen[k] && str_eq(channels[k].name.as_str(), channels[i].name.as_str()) {
            assert(channels@[k as int].name@ == channels@[i as int].name@);
            return true;
        }
        k += 1;
    }
    false
}

/// **The channels whose flow reaches itself through its members**, in declaration order —
/// such a flow would never end.
pub fn channels_on_a_flow_cycle(roles: &[RoleDecl], channels: &[ChannelDecl]) -> (r: Vec<usize>)
    ensures
        r@.map_values(|x: usize| x as int) == cycle_channels(roles@, channels@, channels@.len() as int),
{
    let mut r: Vec<usize> = Vec::new();
    let mut i: usize = 0;
    while i < channels.len()
        invariant
            i <= channels@.len(),
            r@.map_values(|x: usize| x as int) == cycle_channels(roles@, channels@, i as int),
        decreases channels@.len() - i,
    {
        if reaches_itself(roles, channels, i) {
            r.push(i);
        }
        assert(r@.map_values(|x: usize| x as int) =~= cycle_channels(roles@, channels@, i + 1));
        i += 1;
    }
    r
}

/// The channels listed are channels, in increasing order.
proof fn lemma_cycle_channels_range(roles: Seq<RoleDecl>, cs: Seq<ChannelDecl>, upto: int)
    requires
        0 <= upto,
    ensures
        forall|k: int| 0 <= k < cycle_channels(roles, cs, upto).len() ==> 0 <= #[trigger] cycle_channels(roles, cs, upto)[k] < upto,
    decreases upto,
{
    if upto > 0 {
        lemma_cycle_channels_range(roles, cs, upto - 1);
        let prev = cycle_channels(roles, cs, upto - 1);
        assert forall|k: int| 0 <= k < cycle_channels(roles, cs, upto).len() implies 0 <= #[trigger] cycle_channels(roles, cs, upto)[k] < upto by {
            if k < prev.len() {
                assert(cycle_channels(roles, cs, upto)[k] == prev[k]);
            }
        }
    }
}

/// Every channel listed as on a cycle is one of the catalogue's.
pub proof fn lemma_cycle_channels_in_range(roles: Seq<RoleDecl>, cs: Seq<ChannelDecl>)
    ensures
        forall|k: int| 0 <= k < cycle_channels(roles, cs, cs.len() as int).len() ==> 0 <= #[trigger] cycle_channels(roles, cs, cs.len() as int)[k] < cs.len(),
{
    lemma_cycle_channels_range(roles, cs, cs.len() as int);
}

/// **One error per channel whose flow reaches itself**, in declaration order, naming the
/// channel as a quoted string.
pub fn flow_cycles(roles: &[RoleDecl], channels: &[ChannelDecl]) -> (errors: Vec<ValidationError>)
    ensures
        errors@.len() == cycle_channels(roles@, channels@, channels@.len() as int).len(),
        forall|j: int| 0 <= j < errors@.len() ==> {
            let i = cycle_channels(roles@, channels@, channels@.len() as int)[j];
            &&& (#[trigger] errors@[j]).file@ == CHANNELS_FILE@
            &&& errors@[j].what@ == cycle_text(debug_str(channels@[i].name@))
        },
{
    let on = channels_on_a_flow_cycle(roles, channels);
    let ghost idx = cycle_channels(roles@, channels@, channels@.len() as int);
    proof {
        lemma_cycle_channels_range(roles@, channels@, channels@.len() as int);
        assert forall|k: int| 0 <= k < on@.len() implies 0 <= #[trigger] on@[k] < channels@.len() by {
            assert(on@.map_values(|x: usize| x as int)[k] == on@[k] as int);
        }
    }
    let mut errors: Vec<ValidationError> = Vec::new();
    let mut j: usize = 0;
    while j < on.len()
        invariant
            j <= on@.len(),
            on@.map_values(|x: usize| x as int) == idx,
            idx == cycle_channels(roles@, channels@, channels@.len() as int),
            forall|k: int| 0 <= k < on@.len() ==> 0 <= #[trigger] on@[k] < channels@.len(),
            errors@.len() == j,
            forall|k: int| 0 <= k < j ==> {
                &&& (#[trigger] errors@[k]).file@ == CHANNELS_FILE@
                &&& errors@[k].what@ == cycle_text(debug_str(channels@[idx[k]].name@))
            },
        decreases on@.len() - j,
    {
        let i = on[j];
        assert(idx[j as int] == i as int);
        let q = debug_quoted(channels[i].name.as_str());
        let mut what = String::new();
        what.append("channel ");
        what.append(q.as_str());
        what.append(": its flow reaches itself through its members — such a flow would never end");
        errors.push(ValidationError { file: CHANNELS_FILE.to_string(), what });
        j += 1;
    }
    errors
}

} // verus!
