//! **The delimiter suffix a round's answers are rendered under, chosen from what no answer
//! contains.** The content is scanned once for every digit run that follows a block tag; the
//! smallest decimal suffix none of those runs begins with is the boundary, so no answer can open
//! or close a block the engine writes.
use vstd::prelude::*;
use vstd::set_lib::*;
use crate::text::{
    chars_of, chars_eq, concat_chars, contains, contains_exec, cviews, dec, decimal, digit,
    is_digit, is_digit_exec, occurs_at, occurs_at_exec, string_of, take_chars,
};

verus! {

/// The inner block tag: one `<message…>` element per answer.
pub const MESSAGE_TAG: &'static str = "message";

/// The outer block tag around every answer of a round.
pub const OUTER_TAG: &'static str = "untrusted_channel_replies";

/// The two element names the engine's own structure is built from.
pub open spec fn tag(i: int) -> Seq<char> {
    if i == 0 {
        MESSAGE_TAG@
    } else {
        OUTER_TAG@
    }
}

/// `<tag` followed by `suffix`.
pub open spec fn opener(tag: Seq<char>, suffix: Seq<char>) -> Seq<char> {
    seq!['<'] + tag + suffix
}

/// `</tag` followed by `suffix`.
pub open spec fn closer(tag: Seq<char>, suffix: Seq<char>) -> Seq<char> {
    seq!['<', '/'] + tag + suffix
}

/// Does `c` spell either delimiter of either block tag under this suffix?
pub open spec fn spells(c: Seq<char>, suffix: Seq<char>) -> bool {
    ||| contains(c, opener(tag(0), suffix))
    ||| contains(c, closer(tag(0), suffix))
    ||| contains(c, opener(tag(1), suffix))
    ||| contains(c, closer(tag(1), suffix))
}

/// The four stems a numbered delimiter begins with, in the order they are searched:
/// `<message.`, `</message.`, `<untrusted_channel_replies.`, `</untrusted_channel_replies.`.
pub open spec fn stem(k: int) -> Seq<char> {
    if k == 0 {
        opener(tag(0), seq!['.'])
    } else if k == 1 {
        closer(tag(0), seq!['.'])
    } else if k == 2 {
        opener(tag(1), seq!['.'])
    } else {
        closer(tag(1), seq!['.'])
    }
}

/// How many digits follow position `q` of `c`.
pub open spec fn digit_len(c: Seq<char>, q: int) -> nat
    decreases c.len() - q,
{
    if 0 <= q < c.len() && is_digit(c[q]) {
        1 + digit_len(c, q + 1)
    } else {
        0
    }
}

/// The digit run that starts at position `q` of `c`.
pub open spec fn run_at(c: Seq<char>, q: int) -> Seq<char> {
    c.subrange(q, q + digit_len(c, q))
}

/// The runs after every occurrence of `w` at or after position `i`, left to right.
pub open spec fn runs_from(c: Seq<char>, w: Seq<char>, i: int) -> Seq<Seq<char>>
    decreases c.len() - i,
{
    if i < 0 || i >= c.len() {
        Seq::empty()
    } else if occurs_at(c, i, w) {
        seq![run_at(c, i + w.len())] + runs_from(c, w, i + 1)
    } else {
        runs_from(c, w, i + 1)
    }
}

/// Every digit run the content spells after a block-tag stem, stem by stem.
pub open spec fn all_runs(c: Seq<char>) -> Seq<Seq<char>> {
    runs_from(c, stem(0), 0) + runs_from(c, stem(1), 0) + runs_from(c, stem(2), 0) + runs_from(
        c,
        stem(3),
        0,
    )
}

/// `d` is where `r` begins.
pub open spec fn is_prefix(d: Seq<char>, r: Seq<char>) -> bool {
    d.len() <= r.len() && r.take(d.len() as int) == d
}

/// Every character of `d` is a digit.
pub open spec fn all_digits(d: Seq<char>) -> bool {
    forall|k: int| 0 <= k < d.len() ==> is_digit(#[trigger] d[k])
}

/// Ten to the `k`.
pub open spec fn pow10(k: nat) -> nat
    decreases k,
{
    if k == 0 {
        1
    } else {
        10 * pow10((k - 1) as nat)
    }
}

/// The smallest boundary number is taken: `dec(n)` begins some run the content spells.
pub open spec fn is_taken(c: Seq<char>, n: nat) -> bool {
    exists|j: int| 0 <= j < all_runs(c).len() && #[trigger] is_prefix(dec(n), all_runs(c)[j])
}

/// The delimiter suffix `.n` as characters.
pub open spec fn numbered(n: nat) -> Seq<char> {
    seq!['.'] + dec(n)
}

/// What [`block_boundary`] chooses for content `c`: the empty suffix when `c` spells no tag, and
/// otherwise `.n` for the smallest `n >= 1` whose delimiters `c` does not spell.
pub open spec fn is_boundary_for(c: Seq<char>, b: Seq<char>) -> bool {
    ||| (b == Seq::<char>::empty() && !spells(c, Seq::<char>::empty()))
    ||| (spells(c, Seq::<char>::empty()) && exists|n: nat|
        n >= 1 && b == numbered(n) && !spells(c, numbered(n)) && forall|m: nat|
            1 <= m < n ==> #[trigger] spells(c, numbered(m)))
}

/// The one suffix [`is_boundary_for`] admits for content `c`.
pub open spec fn boundary_of(c: Seq<char>) -> Seq<char> {
    choose|b: Seq<char>| is_boundary_for(c, b)
}

/// **A content has exactly one boundary**: two suffixes that both qualify are the same suffix.
pub proof fn lemma_boundary_unique(c: Seq<char>, b1: Seq<char>, b2: Seq<char>)
    requires
        is_boundary_for(c, b1),
        is_boundary_for(c, b2),
    ensures
        b1 == b2,
{
    if spells(c, Seq::<char>::empty()) {
        let n1 = choose|n: nat|
            n >= 1 && b1 == numbered(n) && !spells(c, numbered(n)) && forall|m: nat|
                1 <= m < n ==> #[trigger] spells(c, numbered(m));
        let n2 = choose|n: nat|
            n >= 1 && b2 == numbered(n) && !spells(c, numbered(n)) && forall|m: nat|
                1 <= m < n ==> #[trigger] spells(c, numbered(m));
        if n1 < n2 {
            assert(spells(c, numbered(n1)));
        } else if n2 < n1 {
            assert(spells(c, numbered(n2)));
        }
    }
}

/// Whatever qualifies as a boundary is the boundary.
pub proof fn lemma_is_the_boundary(c: Seq<char>, b: Seq<char>)
    requires
        is_boundary_for(c, b),
    ensures
        boundary_of(c) == b,
        is_boundary_for(c, boundary_of(c)),
{
    lemma_boundary_unique(c, b, boundary_of(c));
}

// ---- the decimal lemmas ------------------------------------------------------------------

/// The value of a digit character.
pub open spec fn digit_value(ch: char) -> nat {
    ((ch as int) - ('0' as int)) as nat
}

/// The number a string of digits spells.
pub open spec fn value(s: Seq<char>) -> nat
    decreases s.len(),
{
    if s.len() == 0 {
        0
    } else {
        value(s.drop_last()) * 10 + digit_value(s.last())
    }
}

proof fn lemma_digit(d: int)
    requires
        0 <= d < 10,
    ensures
        digit_value(digit(d)) == d,
        is_digit(digit(d)),
{
}

/// A decimal rendering reads back as its number, is all digits, and is never empty.
pub proof fn lemma_dec(n: nat)
    ensures
        value(dec(n)) == n,
        all_digits(dec(n)),
        dec(n).len() >= 1,
    decreases n,
{
    if n < 10 {
        lemma_digit(n as int);
        assert(dec(n).drop_last() =~= Seq::<char>::empty());
        assert(value(Seq::<char>::empty()) == 0);
        assert(value(dec(n)) == value(dec(n).drop_last()) * 10 + digit_value(dec(n).last()));
    } else {
        lemma_dec(n / 10);
        lemma_digit((n % 10) as int);
        let s = dec(n);
        assert(s.drop_last() =~= dec(n / 10));
        assert(s.last() == digit((n % 10) as int));
        assert((n / 10) * 10 + n % 10 == n);
        assert forall|k: int| 0 <= k < s.len() implies is_digit(#[trigger] s[k]) by {
            if k < s.len() - 1 {
                assert(s[k] == dec(n / 10)[k]);
            }
        }
    }
}

/// `dec` is one-to-one.
pub proof fn lemma_dec_injective(a: nat, b: nat)
    requires
        dec(a) == dec(b),
    ensures
        a == b,
{
    lemma_dec(a);
    lemma_dec(b);
}

proof fn lemma_pow10_pos(k: nat)
    ensures
        pow10(k) >= 1,
    decreases k,
{
    if k > 0 {
        lemma_pow10_pos((k - 1) as nat);
    }
}

/// A number between `10^(k-1)` and `10^k` has exactly `k` digits.
pub proof fn lemma_dec_len(n: nat, k: nat)
    requires
        k >= 1,
        pow10((k - 1) as nat) <= n < pow10(k),
    ensures
        dec(n).len() == k,
    decreases k,
{
    if k == 1 {
        assert(pow10(1) == 10);
        assert(n < 10);
    } else {
        let p = pow10((k - 2) as nat);
        lemma_pow10_pos((k - 2) as nat);
        assert(pow10((k - 1) as nat) == 10 * p);
        assert(pow10(k) == 10 * (10 * p));
        assert(n >= 10) by (nonlinear_arith)
            requires
                10 * p <= n,
                p >= 1,
        ;
        assert(p <= n / 10 < 10 * p) by (nonlinear_arith)
            requires
                10 * p <= n < 10 * (10 * p),
                p >= 1,
        ;
        lemma_dec_len(n / 10, (k - 1) as nat);
    }
}

/// A number below `10^k` has at most `k` digits.
pub proof fn lemma_dec_len_bound(n: nat, k: nat)
    requires
        k >= 1,
        n < pow10(k),
    ensures
        dec(n).len() <= k,
    decreases k,
{
    if n < 10 {
    } else if k == 1 {
        assert(pow10(0) == 1);
        assert(pow10(1) == 10 * pow10(0));
    } else {
        lemma_pow10_pos((k - 1) as nat);
        assert(pow10(k) == 10 * pow10((k - 1) as nat));
        assert(n / 10 < pow10((k - 1) as nat)) by (nonlinear_arith)
            requires
                n < 10 * pow10((k - 1) as nat),
        ;
        lemma_dec_len_bound(n / 10, (k - 1) as nat);
    }
}

// ---- what a run is -------------------------------------------------------------------------

/// Every character of a run is a digit, the run stays inside the content, and it is maximal.
pub proof fn lemma_digit_len(c: Seq<char>, q: int)
    requires
        0 <= q <= c.len(),
    ensures
        q + digit_len(c, q) <= c.len(),
        forall|k: int| 0 <= k < digit_len(c, q) ==> is_digit(#[trigger] c[q + k]),
        q + digit_len(c, q) < c.len() ==> !is_digit(c[q + digit_len(c, q)]),
    decreases c.len() - q,
{
    if q < c.len() && is_digit(c[q]) {
        lemma_digit_len(c, q + 1);
        assert forall|k: int| 0 <= k < digit_len(c, q) implies is_digit(#[trigger] c[q + k]) by {
            if k > 0 {
                assert(c[q + k] == c[(q + 1) + (k - 1)]);
            }
        }
    }
}

/// `m` digits standing at `q` mean the run at `q` is at least `m` long.
proof fn lemma_digit_len_at_least(c: Seq<char>, q: int, m: int)
    requires
        0 <= q,
        0 <= m,
        q + m <= c.len(),
        forall|k: int| 0 <= k < m ==> is_digit(#[trigger] c[q + k]),
    ensures
        digit_len(c, q) >= m,
    decreases m,
{
    if m > 0 {
        assert(is_digit(c[q + 0]));
        assert forall|k: int| 0 <= k < m - 1 implies is_digit(#[trigger] c[(q + 1) + k]) by {
            assert(c[(q + 1) + k] == c[q + (k + 1)]);
        }
        lemma_digit_len_at_least(c, q + 1, m - 1);
    }
}

/// A string of digits stands at `q` exactly when the run at `q` begins with it.
proof fn lemma_digits_at(c: Seq<char>, q: int, d: Seq<char>)
    requires
        0 <= q <= c.len(),
        all_digits(d),
    ensures
        occurs_at(c, q, d) <==> is_prefix(d, run_at(c, q)),
{
    lemma_digit_len(c, q);
    if occurs_at(c, q, d) {
        assert forall|k: int| 0 <= k < d.len() implies is_digit(#[trigger] c[q + k]) by {
            assert(c.subrange(q, q + d.len())[k] == d[k]);
        }
        lemma_digit_len_at_least(c, q, d.len() as int);
        assert(run_at(c, q).take(d.len() as int) =~= c.subrange(q, q + d.len()));
    }
    if is_prefix(d, run_at(c, q)) {
        assert(run_at(c, q).take(d.len() as int) =~= c.subrange(q, q + d.len()));
    }
}

/// A stem followed by a digit string stands at `p` exactly when the stem does and its run begins
/// with the digits.
proof fn lemma_stem_then_digits(c: Seq<char>, p: int, w: Seq<char>, d: Seq<char>)
    requires
        all_digits(d),
    ensures
        occurs_at(c, p, w + d) <==> (occurs_at(c, p, w) && is_prefix(d, run_at(c, p + w.len()))),
{
    if occurs_at(c, p, w + d) {
        assert(c.subrange(p, p + w.len()) =~= c.subrange(p, p + w.len() + d.len()).take(
            w.len() as int,
        ));
        assert(c.subrange(p + w.len(), p + w.len() + d.len()) =~= c.subrange(
            p,
            p + w.len() + d.len(),
        ).skip(w.len() as int));
        assert((w + d).take(w.len() as int) =~= w);
        assert((w + d).skip(w.len() as int) =~= d);
        lemma_digits_at(c, p + w.len(), d);
    }
    if occurs_at(c, p, w) && 0 <= p + w.len() <= c.len() {
        lemma_digits_at(c, p + w.len(), d);
        if is_prefix(d, run_at(c, p + w.len())) {
            assert(c.subrange(p, p + w.len() + d.len()) =~= c.subrange(p, p + w.len())
                + c.subrange(p + w.len(), p + w.len() + d.len()));
        }
    }
}

/// A run is in `runs_from(c, w, i)` exactly when it follows an occurrence of `w` at or after `i`.
proof fn lemma_runs_from(c: Seq<char>, w: Seq<char>, i: int, r: Seq<char>)
    requires
        0 <= i,
        w.len() > 0,
    ensures
        (exists|j: int| 0 <= j < runs_from(c, w, i).len() && runs_from(c, w, i)[j] == r) <==> (
        exists|p: int| i <= p && #[trigger] occurs_at(c, p, w) && r == run_at(c, p + w.len())),
    decreases c.len() - i,
{
    if i >= c.len() {
        assert forall|p: int| i <= p && #[trigger] occurs_at(c, p, w) implies r != run_at(
            c,
            p + w.len(),
        ) by {}
    } else {
        lemma_runs_from(c, w, i + 1, r);
        let rest = runs_from(c, w, i + 1);
        let all = runs_from(c, w, i);
        if occurs_at(c, i, w) {
            assert(all =~= seq![run_at(c, i + w.len())] + rest);
            if exists|j: int| 0 <= j < all.len() && all[j] == r {
                let j = choose|j: int| 0 <= j < all.len() && all[j] == r;
                if j == 0 {
                    assert(occurs_at(c, i, w));
                } else {
                    assert(rest[j - 1] == r);
                }
            }
            if exists|p: int| i <= p && #[trigger] occurs_at(c, p, w) && r == run_at(c, p + w.len()) {
                let p = choose|p: int| i <= p && #[trigger] occurs_at(c, p, w) && r == run_at(c, p + w.len());
                if p == i {
                    assert(all[0] == r);
                } else {
                    let j = choose|j: int| 0 <= j < rest.len() && rest[j] == r;
                    assert(all[j + 1] == r);
                }
            }
        } else {
            if exists|p: int| i <= p && #[trigger] occurs_at(c, p, w) && r == run_at(c, p + w.len()) {
                let p = choose|p: int| i <= p && #[trigger] occurs_at(c, p, w) && r == run_at(c, p + w.len());
                assert(p != i);
            }
        }
    }
}

proof fn lemma_stem_len(k: int)
    ensures
        stem(k).len() > 0,
{
}

/// Under a numbered suffix, a tag's delimiter is its stem followed by the number.
proof fn lemma_numbered_is_stem(n: nat)
    ensures
        opener(tag(0), numbered(n)) == stem(0) + dec(n),
        closer(tag(0), numbered(n)) == stem(1) + dec(n),
        opener(tag(1), numbered(n)) == stem(2) + dec(n),
        closer(tag(1), numbered(n)) == stem(3) + dec(n),
{
    assert(opener(tag(0), numbered(n)) =~= stem(0) + dec(n));
    assert(closer(tag(0), numbered(n)) =~= stem(1) + dec(n));
    assert(opener(tag(1), numbered(n)) =~= stem(2) + dec(n));
    assert(closer(tag(1), numbered(n)) =~= stem(3) + dec(n));
}

/// Containing a stem followed by `dec(n)` is the same as some run after that stem beginning
/// with `dec(n)`.
proof fn lemma_contains_stem(c: Seq<char>, k: int, n: nat)
    ensures
        contains(c, stem(k) + dec(n)) <==> exists|j: int|
            0 <= j < runs_from(c, stem(k), 0).len() && #[trigger] is_prefix(
                dec(n),
                runs_from(c, stem(k), 0)[j],
            ),
{
    lemma_dec(n);
    let w = stem(k);
    let d = dec(n);
    let rs = runs_from(c, w, 0);
    lemma_stem_len(k);
    if contains(c, w + d) {
        let p = choose|p: int| #[trigger] occurs_at(c, p, w + d);
        lemma_stem_then_digits(c, p, w, d);
        let r = run_at(c, p + w.len());
        lemma_runs_from(c, w, 0, r);
        assert(occurs_at(c, p, w));
        let j = choose|j: int| 0 <= j < rs.len() && rs[j] == r;
        assert(is_prefix(d, rs[j]));
    }
    if exists|j: int| 0 <= j < rs.len() && #[trigger] is_prefix(d, rs[j]) {
        let j = choose|j: int| 0 <= j < rs.len() && #[trigger] is_prefix(d, rs[j]);
        let r = rs[j];
        lemma_runs_from(c, w, 0, r);
        let p = choose|p: int| 0 <= p && #[trigger] occurs_at(c, p, w) && r == run_at(c, p + w.len());
        lemma_stem_then_digits(c, p, w, d);
        assert(occurs_at(c, p, w + d));
    }
}

/// **A numbered suffix is spelled exactly when its number begins some run the content spells** —
/// what lets the chooser decide "spelled" from the runs alone.
pub proof fn lemma_spells_numbered(c: Seq<char>, n: nat)
    ensures
        spells(c, numbered(n)) <==> is_taken(c, n),
{
    lemma_numbered_is_stem(n);
    let r0 = runs_from(c, stem(0), 0);
    let r1 = runs_from(c, stem(1), 0);
    let r2 = runs_from(c, stem(2), 0);
    let r3 = runs_from(c, stem(3), 0);
    let all = all_runs(c);
    assert(all =~= r0 + r1 + r2 + r3);
    lemma_contains_stem(c, 0, n);
    lemma_contains_stem(c, 1, n);
    lemma_contains_stem(c, 2, n);
    lemma_contains_stem(c, 3, n);
    let d = dec(n);
    if spells(c, numbered(n)) {
        if contains(c, stem(0) + d) {
            let j = choose|j: int| 0 <= j < r0.len() && #[trigger] is_prefix(d, r0[j]);
            assert(all[j] == r0[j]);
        } else if contains(c, stem(1) + d) {
            let j = choose|j: int| 0 <= j < r1.len() && #[trigger] is_prefix(d, r1[j]);
            assert(all[r0.len() + j] == r1[j]);
        } else if contains(c, stem(2) + d) {
            let j = choose|j: int| 0 <= j < r2.len() && #[trigger] is_prefix(d, r2[j]);
            assert(all[r0.len() + r1.len() + j] == r2[j]);
        } else {
            let j = choose|j: int| 0 <= j < r3.len() && #[trigger] is_prefix(d, r3[j]);
            assert(all[r0.len() + r1.len() + r2.len() + j] == r3[j]);
        }
    }
    if is_taken(c, n) {
        let j = choose|j: int| 0 <= j < all.len() && #[trigger] is_prefix(d, all[j]);
        if j < r0.len() {
            assert(is_prefix(d, r0[j]));
        } else if j < r0.len() + r1.len() {
            assert(is_prefix(d, r1[j - r0.len()]));
        } else if j < r0.len() + r1.len() + r2.len() {
            assert(is_prefix(d, r2[j - r0.len() - r1.len()]));
        } else {
            assert(is_prefix(d, r3[j - r0.len() - r1.len() - r2.len()]));
        }
    }
}

// ---- the pigeonhole ------------------------------------------------------------------------

/// **Some `limit`-digit number begins no run**, where `limit` is the smallest length with more
/// candidates than there are runs: one run blocks at most one candidate of each length.
pub proof fn lemma_a_free_candidate(c: Seq<char>, limit: nat)
    requires
        limit >= 1,
        9 * pow10((limit - 1) as nat) > all_runs(c).len(),
    ensures
        exists|m: nat|
            pow10((limit - 1) as nat) <= m < pow10(limit) && !#[trigger] is_taken(c, m),
{
    let lo = pow10((limit - 1) as nat);
    let hi = pow10(limit);
    let runs = all_runs(c);
    let rn = runs.len() as int;
    assert(hi == 10 * lo);
    if forall|m: nat| lo <= m < hi ==> #[trigger] is_taken(c, m) {
        let cands = set_int_range(lo as int, hi as int);
        lemma_int_range(lo as int, hi as int);
        let f = |m: int|
            choose|j: int| 0 <= j < runs.len() && #[trigger] is_prefix(dec(m as nat), runs[j]);
        assert forall|m: int| cands.contains(m) implies 0 <= #[trigger] f(m) < rn && is_prefix(
            dec(m as nat),
            runs[f(m)],
        ) by {
            assert(is_taken(c, m as nat));
        }
        assert forall|a: int, b: int|
            cands.contains(a) && cands.contains(b) && #[trigger] f(a) == #[trigger] f(b) implies a
            == b by {
            lemma_dec_len(a as nat, limit);
            lemma_dec_len(b as nat, limit);
            let r = runs[f(a)];
            assert(dec(a as nat) == r.take(limit as int));
            assert(dec(b as nat) == r.take(limit as int));
            lemma_dec_injective(a as nat, b as nat);
        }
        let img = cands.map(f);
        lemma_map_size(cands, img, f);
        let rng = set_int_range(0, rn);
        lemma_int_range(0, rn);
        assert forall|j: int| img.contains(j) implies rng.contains(j) by {
            let m = choose|m: int| cands.contains(m) && f(m) == j;
        }
        assert(img.subset_of(rng));
        lemma_len_subset(img, rng);
        assert(false);
    }
}

// ---- the chooser ---------------------------------------------------------------------------

/// `x` is one of the prefixes [`taken_boundaries`] records: one to `limit` characters long, and
/// the beginning of some run.
pub open spec fn in_prefix_set(rs: Seq<Seq<char>>, limit: nat, x: Seq<char>) -> bool {
    1 <= x.len() <= limit && exists|j: int| 0 <= j < rs.len() && #[trigger] is_prefix(x, rs[j])
}

/// No two entries hold the same characters.
pub open spec fn distinct(v: Seq<Vec<char>>) -> bool {
    forall|i: int, j: int| 0 <= i < v.len() && 0 <= j < v.len() && i != j ==> v[i]@ != v[j]@
}

/// `<tag` or `</tag` of the inner (`outer == false`) or outer tag, then `suffix`.
fn delimiter_chars(outer: bool, close: bool, suffix: &Vec<char>) -> (r: Vec<char>)
    ensures
        r@ == (if close {
            closer(tag(if outer { 1 } else { 0 }), suffix@)
        } else {
            opener(tag(if outer { 1 } else { 0 }), suffix@)
        }),
{
    let mut head: Vec<char> = Vec::new();
    head.push('<');
    if close {
        head.push('/');
    }
    let t = if outer {
        chars_of(OUTER_TAG)
    } else {
        chars_of(MESSAGE_TAG)
    };
    let ht = concat_chars(&head, &t);
    let r = concat_chars(&ht, suffix);
    if close {
        assert(head@ =~= seq!['<', '/']);
    } else {
        assert(head@ =~= seq!['<']);
    }
    r
}

/// Does `c` spell either delimiter of either block tag under `suffix`?
pub fn spells_exec(c: &Vec<char>, suffix: &Vec<char>) -> (r: bool)
    ensures
        r == spells(c@, suffix@),
{
    contains_exec(c, &delimiter_chars(false, false, suffix)) || contains_exec(
        c,
        &delimiter_chars(false, true, suffix),
    ) || contains_exec(c, &delimiter_chars(true, false, suffix)) || contains_exec(
        c,
        &delimiter_chars(true, true, suffix),
    )
}

/// **Does `content` spell either delimiter of either block tag under this suffix?** Both
/// directions of both tags, because they are different strings: a lone forged close is enough
/// to end a block early.
pub fn spells_a_boundary(content: &str, suffix: &str) -> (r: bool)
    ensures
        r == spells(content@, suffix@),
{
    spells_exec(&chars_of(content), &chars_of(suffix))
}

/// The stem `k` as characters.
fn stem_chars(k: usize) -> (r: Vec<char>)
    requires
        k < 4,
    ensures
        r@ == stem(k as int),
{
    let mut dot: Vec<char> = Vec::new();
    dot.push('.');
    assert(dot@ =~= seq!['.']);
    delimiter_chars(k >= 2, k % 2 == 1, &dot)
}

/// The digit run at position `q`.
fn run_at_exec(c: &Vec<char>, q: usize) -> (r: Vec<char>)
    requires
        q <= c.len(),
    ensures
        r@ == run_at(c@, q as int),
{
    let mut e: usize = q;
    while e < c.len() && is_digit_exec(c[e])
        invariant
            q <= e <= c.len(),
            forall|k: int| 0 <= k < e - q ==> is_digit(#[trigger] c@[q + k]),
        decreases c.len() - e,
    {
        e += 1;
    }
    proof {
        lemma_digit_len(c@, q as int);
        lemma_digit_len_at_least(c@, q as int, (e - q) as int);
        if digit_len(c@, q as int) > e - q {
            assert(is_digit(c@[q + (e - q) as int]));
        }
    }
    let mut r: Vec<char> = Vec::new();
    let mut i: usize = q;
    while i < e
        invariant
            q <= i <= e <= c.len(),
            r@ == c@.subrange(q as int, i as int),
        decreases e - i,
    {
        r.push(c[i]);
        i += 1;
        assert(r@ =~= c@.subrange(q as int, i as int));
    }
    r
}

/// The runs after every occurrence of `w`, left to right.
fn runs_after(c: &Vec<char>, w: &Vec<char>) -> (out: Vec<Vec<char>>)
    ensures
        cviews(out@) == runs_from(c@, w@, 0),
{
    let mut out: Vec<Vec<char>> = Vec::new();
    let mut i: usize = 0;
    while i < c.len()
        invariant
            i <= c.len(),
            cviews(out@) + runs_from(c@, w@, i as int) == runs_from(c@, w@, 0),
        decreases c.len() - i,
    {
        if occurs_at_exec(c, i, w) {
            let r = run_at_exec(c, i + w.len());
            let ghost before = cviews(out@);
            out.push(r);
            assert(cviews(out@) =~= before.push(r@));
            assert(runs_from(c@, w@, i as int) == seq![run_at(c@, i + w@.len())] + runs_from(
                c@,
                w@,
                i + 1,
            ));
            assert(cviews(out@) + runs_from(c@, w@, i + 1) =~= before + runs_from(
                c@,
                w@,
                i as int,
            ));
        } else {
            assert(runs_from(c@, w@, i as int) == runs_from(c@, w@, i + 1));
        }
        i += 1;
    }
    assert(runs_from(c@, w@, i as int) =~= Seq::<Seq<char>>::empty());
    assert(cviews(out@) =~= runs_from(c@, w@, 0));
    out
}

/// Every digit run the content spells after a block-tag stem.
fn all_runs_exec(c: &Vec<char>) -> (out: Vec<Vec<char>>)
    ensures
        cviews(out@) == all_runs(c@),
{
    let mut out = runs_after(c, &stem_chars(0));
    let mut r1 = runs_after(c, &stem_chars(1));
    let mut r2 = runs_after(c, &stem_chars(2));
    let mut r3 = runs_after(c, &stem_chars(3));
    let ghost v0 = out@;
    let ghost v1 = r1@;
    let ghost v2 = r2@;
    let ghost v3 = r3@;
    out.append(&mut r1);
    out.append(&mut r2);
    out.append(&mut r3);
    assert(out@ =~= v0 + v1 + v2 + v3);
    assert(cviews(out@) =~= all_runs(c@));
    out
}

/// **How many digits a boundary suffix can ever need, given how many runs the content spells** —
/// the smallest length with more candidates than there are runs. One run blocks at most one
/// candidate of each length, so a prefix longer than this can never change the answer.
pub fn suffix_digit_limit(runs: usize) -> (limit: usize)
    ensures
        limit >= 1,
        9 * pow10((limit - 1) as nat) > runs,
        limit == 1 || 9 * pow10((limit - 2) as nat) <= runs,
{
    let mut limit: usize = 1;
    let mut p: u128 = 1;
    assert(pow10(0) == 1);
    while 9 * p <= runs as u128
        invariant
            limit >= 1,
            p == pow10((limit - 1) as nat),
            limit == 1 || 9 * pow10((limit - 2) as nat) <= runs,
            limit <= p,
            p <= 10 * (runs as int + 1),
        decreases 10 * (runs as int + 1) - p,
    {
        assert(pow10(limit as nat) == 10 * pow10((limit - 1) as nat));
        p = p * 10;
        limit += 1;
    }
    limit
}

/// Does `v` hold an entry with the characters of `x`?
fn member(v: &Vec<Vec<char>>, x: &Vec<char>) -> (r: bool)
    ensures
        r == exists|i: int| 0 <= i < v.len() && #[trigger] v@[i]@ == x@,
{
    let mut i: usize = 0;
    while i < v.len()
        invariant
            i <= v.len(),
            forall|k: int| 0 <= k < i ==> #[trigger] v@[k]@ != x@,
        decreases v.len() - i,
    {
        if chars_eq(&v[i], x) {
            return true;
        }
        i += 1;
    }
    false
}

/// `v` holds an entry with the characters `x`.
pub open spec fn held(v: Seq<Vec<char>>, x: Seq<char>) -> bool {
    exists|i: int| 0 <= i < v.len() && #[trigger] v[i]@ == x
}

/// `x` is one to `limit` characters long and begins one of the first `j` runs.
pub open spec fn prefix_of_first(rs: Seq<Seq<char>>, limit: nat, j: int, x: Seq<char>) -> bool {
    1 <= x.len() <= limit && exists|jj: int| 0 <= jj < j && #[trigger] is_prefix(x, rs[jj])
}

/// Every prefix of every run, one to `limit` characters long, each once.
fn prefix_set(runs: &Vec<Vec<char>>, limit: usize) -> (taken: Vec<Vec<char>>)
    ensures
        distinct(taken@),
        forall|x: Seq<char>|
            #[trigger] held(taken@, x) <==> in_prefix_set(cviews(runs@), limit as nat, x),
{
    let ghost rs = cviews(runs@);
    let mut taken: Vec<Vec<char>> = Vec::new();
    let mut j: usize = 0;
    while j < runs.len()
        invariant
            rs == cviews(runs@),
            j <= runs.len(),
            distinct(taken@),
            forall|x: Seq<char>|
                #[trigger] held(taken@, x) <==> prefix_of_first(rs, limit as nat, j as int, x),
        decreases runs.len() - j,
    {
        let run = &runs[j];
        let top = if run.len() < limit {
            run.len()
        } else {
            limit
        };
        let mut k: usize = 0;
        while k < top
            invariant
                rs == cviews(runs@),
                j < runs.len(),
                run@ == rs[j as int],
                top <= run.len(),
                top <= limit,
                k <= top,
                distinct(taken@),
                forall|x: Seq<char>|
                    #[trigger] held(taken@, x) <==> (prefix_of_first(rs, limit as nat, j as int, x)
                        || (1 <= x.len() <= k && is_prefix(x, rs[j as int]))),
            decreases top - k,
        {
            let x = take_chars(run, k + 1);
            let ghost before = taken@;
            let present = member(&taken, &x);
            if !present {
                taken.push(x);
                proof {
                    assert forall|a: int, b: int|
                        0 <= a < taken.len() && 0 <= b < taken.len() && a != b implies taken@[a]@
                        != taken@[b]@ by {
                        if a < before.len() && b < before.len() {
                            assert(taken@[a] == before[a]);
                            assert(taken@[b] == before[b]);
                        } else if a == before.len() {
                            assert(taken@[b] == before[b]);
                            assert(!held(before, x@));
                        } else {
                            assert(taken@[a] == before[a]);
                            assert(!held(before, x@));
                        }
                    }
                }
            }
            proof {
                assert(is_prefix(x@, rs[j as int]));
                assert forall|y: Seq<char>|
                    #[trigger] held(taken@, y) <==> (prefix_of_first(rs, limit as nat, j as int, y)
                        || (1 <= y.len() <= k + 1 && is_prefix(y, rs[j as int]))) by {
                    if held(taken@, y) {
                        let i = choose|i: int| 0 <= i < taken.len() && #[trigger] taken@[i]@ == y;
                        if i < before.len() {
                            assert(before[i]@ == y);
                            assert(held(before, y));
                        } else {
                            assert(y == x@);
                        }
                    }
                    if 1 <= y.len() <= k + 1 && is_prefix(y, rs[j as int]) {
                        if y.len() == k + 1 {
                            assert(y =~= x@);
                            if !present {
                                assert(taken@[before.len() as int]@ == y);
                            } else {
                                let i = choose|i: int| 0 <= i < before.len() && #[trigger] before[i]@ == x@;
                                assert(taken@[i]@ == y);
                            }
                        } else {
                            assert(held(before, y));
                            let i = choose|i: int| 0 <= i < before.len() && #[trigger] before[i]@ == y;
                            assert(taken@[i]@ == y);
                        }
                    }
                    if prefix_of_first(rs, limit as nat, j as int, y) {
                        assert(held(before, y));
                        let i = choose|i: int| 0 <= i < before.len() && #[trigger] before[i]@ == y;
                        assert(taken@[i]@ == y);
                    }
                }
            }
            k += 1;
        }
        proof {
            assert forall|y: Seq<char>|
                #[trigger] held(taken@, y) <==> prefix_of_first(rs, limit as nat, j + 1, y) by {
                if held(taken@, y) {
                    if !prefix_of_first(rs, limit as nat, j as int, y) {
                        assert(is_prefix(y, rs[j as int]));
                    }
                }
                if prefix_of_first(rs, limit as nat, j + 1, y) {
                    let jj = choose|jj: int| 0 <= jj < j + 1 && #[trigger] is_prefix(y, rs[jj]);
                    if jj == j {
                        assert(y.len() <= k);
                    } else {
                        assert(prefix_of_first(rs, limit as nat, j as int, y));
                    }
                }
            }
        }
        j += 1;
    }
    proof {
        assert forall|y: Seq<char>|
            #[trigger] held(taken@, y) <==> in_prefix_set(cviews(runs@), limit as nat, y) by {
            if held(taken@, y) {
                assert(prefix_of_first(rs, limit as nat, j as int, y));
            }
        }
    }
    taken
}

/// **Every numeric suffix the content already spells, in one pass** — every prefix of every digit
/// run that follows a block-tag stem, up to [`suffix_digit_limit`] characters, each once.
pub fn taken_boundaries(content: &str) -> (taken: Vec<String>)
    ensures
        forall|x: Seq<char>|
            (exists|i: int| 0 <= i < taken.len() && #[trigger] taken@[i]@ == x) <==> #[trigger] in_prefix_set(
                all_runs(content@),
                suffix_limit(all_runs(content@).len()),
                x,
            ),
        forall|i: int, j: int|
            0 <= i < taken.len() && 0 <= j < taken.len() && i != j ==> taken@[i]@ != taken@[j]@,
{
    let c = chars_of(content);
    let runs = all_runs_exec(&c);
    let limit = suffix_digit_limit(runs.len());
    proof {
        lemma_suffix_limit_unique(runs.len() as nat, limit as nat);
    }
    let set = prefix_set(&runs, limit);
    let mut out: Vec<String> = Vec::new();
    let mut i: usize = 0;
    while i < set.len()
        invariant
            i <= set.len(),
            out.len() == i,
            forall|k: int| 0 <= k < i ==> #[trigger] out@[k]@ == set@[k]@,
        decreases set.len() - i,
    {
        out.push(string_of(&set[i]));
        i += 1;
    }
    proof {
        assert forall|x: Seq<char>|
            (exists|i: int| 0 <= i < out.len() && #[trigger] out@[i]@ == x) <==> #[trigger] in_prefix_set(
                all_runs(content@),
                suffix_limit(all_runs(content@).len()),
                x,
            ) by {
            if exists|i: int| 0 <= i < out.len() && #[trigger] out@[i]@ == x {
                let i = choose|i: int| 0 <= i < out.len() && #[trigger] out@[i]@ == x;
                assert(set@[i]@ == x);
                assert(held(set@, x));
            }
            if in_prefix_set(all_runs(content@), suffix_limit(all_runs(content@).len()), x) {
                assert(held(set@, x));
                let i = choose|i: int| 0 <= i < set.len() && #[trigger] set@[i]@ == x;
                assert(out@[i]@ == x);
            }
        }
        assert forall|a: int, b: int|
            0 <= a < out.len() && 0 <= b < out.len() && a != b implies out@[a]@ != out@[b]@ by {
            assert(out@[a]@ == set@[a]@);
            assert(out@[b]@ == set@[b]@);
        }
    }
    out
}

/// The limit [`suffix_digit_limit`] computes, as a spec: the smallest length with more
/// candidates than runs.
pub open spec fn suffix_limit(runs: nat) -> nat {
    choose|l: nat| #[trigger] limit_fits(runs, l)
}

/// `l` is the smallest length with more candidates than there are runs.
pub open spec fn limit_fits(runs: nat, l: nat) -> bool {
    l >= 1 && 9 * pow10((l - 1) as nat) > runs && (l == 1 || 9 * pow10((l - 2) as nat) <= runs)
}

proof fn lemma_pow10_monotone(a: nat, b: nat)
    requires
        a <= b,
    ensures
        pow10(a) <= pow10(b),
    decreases b - a,
{
    if a < b {
        lemma_pow10_monotone(a, (b - 1) as nat);
        lemma_pow10_pos((b - 1) as nat);
    }
}

/// The limit is the one length with that property.
proof fn lemma_suffix_limit_unique(runs: nat, l: nat)
    requires
        l >= 1,
        9 * pow10((l - 1) as nat) > runs,
        l == 1 || 9 * pow10((l - 2) as nat) <= runs,
    ensures
        suffix_limit(runs) == l,
{
    assert(limit_fits(runs, l));
    let m = suffix_limit(runs);
    if m < l {
        lemma_pow10_monotone((m - 1) as nat, (l - 2) as nat);
    } else if l < m {
        lemma_pow10_monotone((l - 1) as nat, (m - 2) as nat);
    }
}

/// **The boundary for a content**: empty when it spells no tag, otherwise `.n` for the smallest
/// `n` whose delimiters it does not spell.
pub fn content_boundary(c: &Vec<char>) -> (b: String)
    ensures
        is_boundary_for(c@, b@),
        b@ == boundary_of(c@),
{
    let empty: Vec<char> = Vec::new();
    if !spells_exec(c, &empty) {
        assert(empty@ =~= Seq::<char>::empty());
        proof {
            lemma_is_the_boundary(c@, Seq::<char>::empty());
        }
        return String::new();
    }
    assert(empty@ =~= Seq::<char>::empty());
    let runs = all_runs_exec(c);
    let limit = suffix_digit_limit(runs.len());
    let taken = prefix_set(&runs, limit);
    proof {
        lemma_a_free_candidate(c@, limit as nat);
    }
    let ghost m0 = choose|m: nat|
        pow10((limit - 1) as nat) <= m < pow10(limit as nat) && !#[trigger] is_taken(c@, m);
    proof {
        if limit == 1 {
            assert(pow10(0) == 1);
            assert(pow10(1) == 10 * pow10(0));
        } else {
            assert(pow10(limit as nat) == 10 * pow10((limit - 1) as nat));
            assert(pow10((limit - 1) as nat) == 10 * pow10((limit - 2) as nat));
        }
        assert(m0 < 0x1_0000_0000_0000_0000_0000_0000);
    }
    let mut n: u128 = 1;
    loop
        invariant
            cviews(runs@) == all_runs(c@),
            1 <= n <= m0,
            limit >= 1,
            m0 < pow10(limit as nat),
            !is_taken(c@, m0),
            m0 < 0x1_0000_0000_0000_0000_0000_0000,
            spells(c@, Seq::<char>::empty()),
            forall|x: Seq<char>|
                #[trigger] held(taken@, x) <==> in_prefix_set(cviews(runs@), limit as nat, x),
            forall|m: nat| 1 <= m < n ==> #[trigger] spells(c@, numbered(m)),
        decreases m0 - n,
    {
        let d = chars_of(decimal(n).as_str());
        if member(&taken, &d) {
            proof {
                assert(held(taken@, d@));
                assert(in_prefix_set(cviews(runs@), limit as nat, d@));
                let j = choose|j: int| 0 <= j < all_runs(c@).len() && #[trigger] is_prefix(d@, all_runs(c@)[j]);
                assert(is_taken(c@, n as nat));
                lemma_spells_numbered(c@, n as nat);
                if n == m0 {
                    assert(false);
                }
                assert forall|m: nat| 1 <= m < n + 1 implies #[trigger] spells(c@, numbered(m)) by {
                    if m == n {
                    }
                }
            }
            n += 1;
        } else {
            proof {
                lemma_dec_len_bound(n as nat, limit as nat);
                lemma_dec(n as nat);
                if is_taken(c@, n as nat) {
                    let j = choose|j: int| 0 <= j < all_runs(c@).len() && #[trigger] is_prefix(dec(n as nat), all_runs(c@)[j]);
                    assert(in_prefix_set(cviews(runs@), limit as nat, d@));
                    assert(held(taken@, d@));
                    assert(false);
                }
                lemma_spells_numbered(c@, n as nat);
            }
            let mut b = String::new();
            b.push('.');
            b.append(decimal(n).as_str());
            proof {
                assert(b@ =~= numbered(n as nat));
                assert(is_boundary_for(c@, b@));
                lemma_is_the_boundary(c@, b@);
            }
            return b;
        }
    }
}

} // verus!
