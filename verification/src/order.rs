//! **The order thread ids are listed in**: string order, which for `String` is the order of the
//! characters' code points (UTF-8 preserves it), and a stable insertion sort by it.
use vstd::prelude::*;
use crate::text::chars_of;

verus! {

/// `a` comes before `b` in string order.
pub open spec fn precedes(a: Seq<char>, b: Seq<char>) -> bool
    decreases a.len(),
{
    if a.len() == 0 {
        b.len() > 0
    } else if b.len() == 0 {
        false
    } else if a[0] != b[0] {
        (a[0] as int) < (b[0] as int)
    } else {
        precedes(a.drop_first(), b.drop_first())
    }
}

/// Does `a` come before `b` in string order?
pub fn precedes_exec(a: &str, b: &str) -> (r: bool)
    ensures
        r == precedes(a@, b@),
{
    let x = chars_of(a);
    let y = chars_of(b);
    let mut i: usize = 0;
    assert(a@.skip(0) =~= a@);
    assert(b@.skip(0) =~= b@);
    while i < x.len() && i < y.len()
        invariant
            x@ == a@,
            y@ == b@,
            i <= x@.len(),
            i <= y@.len(),
            precedes(a@, b@) == precedes(a@.skip(i as int), b@.skip(i as int)),
        decreases x@.len() - i,
    {
        if x[i] != y[i] {
            proof {
                assert(a@.skip(i as int)[0] == x@[i as int]);
                assert(b@.skip(i as int)[0] == y@[i as int]);
            }
            return x[i] < y[i];
        }
        proof {
            assert(a@.skip(i as int).drop_first() =~= a@.skip(i + 1));
            assert(b@.skip(i as int).drop_first() =~= b@.skip(i + 1));
        }
        i += 1;
    }
    proof {
        if i == x@.len() {
            assert(a@.skip(i as int).len() == 0);
        }
        if i == y@.len() {
            assert(b@.skip(i as int).len() == 0);
        }
    }
    i == x.len() && i < y.len()
}

/// Insert index `i` into `order`, which is sorted by `keys`, after every entry whose key does not
/// come after `keys[i]` — so equal keys keep the order they arrived in.
pub open spec fn insert_by_key(order: Seq<int>, keys: Seq<Seq<char>>, i: int) -> Seq<int>
    decreases order.len(),
{
    if order.len() == 0 {
        seq![i]
    } else if precedes(keys[i], keys[order.last()]) {
        insert_by_key(order.drop_last(), keys, i).push(order.last())
    } else {
        order.push(i)
    }
}

/// The first `n` indices of `keys`, stably sorted by key.
pub open spec fn sorted_indices(keys: Seq<Seq<char>>, n: int) -> Seq<int>
    decreases n,
{
    if n <= 0 {
        Seq::empty()
    } else {
        insert_by_key(sorted_indices(keys, n - 1), keys, n - 1)
    }
}

/// Every index in the sorted order is one of the first `n`.
pub proof fn lemma_sorted_indices_range(keys: Seq<Seq<char>>, n: int)
    requires
        0 <= n,
    ensures
        sorted_indices(keys, n).len() == n,
        forall|k: int| 0 <= k < n ==> 0 <= #[trigger] sorted_indices(keys, n)[k] < n,
    decreases n,
{
    if n > 0 {
        lemma_sorted_indices_range(keys, n - 1);
        lemma_insert_range(sorted_indices(keys, n - 1), keys, n - 1, n - 1);
    }
}

proof fn lemma_insert_range(order: Seq<int>, keys: Seq<Seq<char>>, i: int, bound: int)
    requires
        0 <= i <= bound,
        forall|k: int| 0 <= k < order.len() ==> 0 <= #[trigger] order[k] < bound,
    ensures
        insert_by_key(order, keys, i).len() == order.len() + 1,
        forall|k: int| 0 <= k < order.len() + 1 ==> 0 <= #[trigger] insert_by_key(order, keys, i)[k] <= bound,
    decreases order.len(),
{
    if order.len() > 0 && precedes(keys[i], keys[order.last()]) {
        lemma_insert_range(order.drop_last(), keys, i, bound);
        let r = insert_by_key(order.drop_last(), keys, i);
        assert forall|k: int| 0 <= k < order.len() + 1 implies 0 <= #[trigger] insert_by_key(order, keys, i)[k] <= bound by {
            if k < r.len() {
                assert(insert_by_key(order, keys, i)[k] == r[k]);
            }
        }
    }
}

/// **The first `n` indices of `keys` in stable string order of their keys.**
pub fn sort_indices_by_key(keys: &Vec<String>) -> (order: Vec<usize>)
    ensures
        order@.map_values(|x: usize| x as int) == sorted_indices(crate::text::views(keys@), keys@.len() as int),
{
    let ghost ks = crate::text::views(keys@);
    let mut order: Vec<usize> = Vec::new();
    let mut i: usize = 0;
    while i < keys.len()
        invariant
            i <= keys@.len(),
            ks == crate::text::views(keys@),
            order@.map_values(|x: usize| x as int) == sorted_indices(ks, i as int),
            order@.len() == i,
            forall|k: int| 0 <= k < i ==> #[trigger] order@[k] < i,
        decreases keys@.len() - i,
    {
        let ghost before = order@.map_values(|x: usize| x as int);
        order.push(i);
        let mut p: usize = i;
        proof {
            assert(before.take(i as int) =~= before);
            assert(before.skip(i as int) =~= Seq::<int>::empty());
            assert(insert_by_key(before, ks, i as int) =~= insert_by_key(before.take(i as int), ks, i as int) + before.skip(i as int));
            assert(order@.map_values(|x: usize| x as int) =~= before.take(i as int).push(i as int) + before.skip(i as int));
            assert forall|k: int| 0 <= k < order@.len() implies #[trigger] order@[k] <= i by {
                if k < i {
                    assert(before[k] == order@[k] as int);
                }
            }
        }
        while p > 0 && precedes_exec(keys[i].as_str(), keys[order[p - 1]].as_str())
            invariant
                p <= i,
                i < keys@.len(),
                ks == crate::text::views(keys@),
                order@.len() == i + 1,
                before.len() == i,
                forall|k: int| 0 <= k < i ==> 0 <= #[trigger] before[k] < i,
                order@.map_values(|x: usize| x as int) == before.take(p as int).push(i as int) + before.skip(p as int),
                forall|k: int| 0 <= k < order@.len() ==> #[trigger] order@[k] <= i,
                insert_by_key(before, ks, i as int) == insert_by_key(before.take(p as int), ks, i as int) + before.skip(p as int),
            decreases p,
        {
            proof {
                assert(order@.map_values(|x: usize| x as int)[p - 1] == order@[p as int - 1] as int);
                assert(order@[p as int - 1] as int == before[p - 1]);
                assert(ks[order@[p as int - 1] as int] == keys@[order@[p as int - 1] as int]@);
                let t = before.take(p as int);
                assert(t.drop_last() =~= before.take(p - 1));
                assert(t.last() == before[p - 1]);
                assert(before.skip(p - 1) =~= seq![before[p - 1]] + before.skip(p as int));
                assert(insert_by_key(t, ks, i as int) == insert_by_key(before.take(p - 1), ks, i as int).push(before[p - 1]));
                assert(insert_by_key(before.take(p - 1), ks, i as int).push(before[p - 1]) + before.skip(p as int) =~= insert_by_key(before.take(p - 1), ks, i as int) + before.skip(p - 1));
            }
            let ghost old_order = order@;
            let a = order[p - 1];
            let b = order[p];
            order.set(p - 1, b);
            order.set(p, a);
            p -= 1;
            proof {
                let want = before.take(p as int).push(i as int) + before.skip(p as int);
                let had = before.take(p + 1).push(i as int) + before.skip(p + 1);
                let now = order@.map_values(|x: usize| x as int);
                let was = old_order.map_values(|x: usize| x as int);
                assert forall|k: int| 0 <= k < order@.len() implies #[trigger] now[k] == want[k] by {
                    assert(was[k] == had[k]);
                    if k == p as int {
                        assert(was[k + 1] == had[k + 1]);
                    } else if k == p + 1 {
                        assert(was[k - 1] == had[k - 1]);
                    }
                }
                assert(now =~= want);
            }
        }
        proof {
            if p == 0 {
                assert(before.take(0) =~= Seq::<int>::empty());
                assert(insert_by_key(before.take(0), ks, i as int) == seq![i as int]);
            } else {
                let t = before.take(p as int);
                assert(order@.map_values(|x: usize| x as int)[p - 1] == order@[p as int - 1] as int);
                assert(order@[p as int - 1] as int == before[p - 1]);
                assert(ks[order@[p as int - 1] as int] == keys@[order@[p as int - 1] as int]@);
                assert(t.last() == before[p - 1]);
                assert(insert_by_key(t, ks, i as int) == t.push(i as int));
            }
            assert(before.take(i as int) =~= before);
            assert(sorted_indices(ks, i + 1) == insert_by_key(sorted_indices(ks, i as int), ks, i as int));
            assert(order@.map_values(|x: usize| x as int) =~= sorted_indices(ks, i + 1));
            assert forall|k: int| 0 <= k < i + 1 implies #[trigger] order@[k] < i + 1 by {
                assert(order@.map_values(|x: usize| x as int)[k] == order@[k] as int);
                lemma_sorted_indices_range(ks, i + 1);
            }
        }
        i += 1;
    }
    order
}


// ---- string order is a total order, and the sort sorts --------------------------------------

/// Nothing comes before itself.
pub proof fn lemma_precedes_irreflexive(a: Seq<char>)
    ensures
        !precedes(a, a),
    decreases a.len(),
{
    if a.len() > 0 {
        lemma_precedes_irreflexive(a.drop_first());
    }
}

/// Before is transitive.
pub proof fn lemma_precedes_transitive(a: Seq<char>, b: Seq<char>, c: Seq<char>)
    requires
        precedes(a, b),
        precedes(b, c),
    ensures
        precedes(a, c),
    decreases a.len(),
{
    if a.len() > 0 && b.len() > 0 && c.len() > 0 && a[0] == b[0] && b[0] == c[0] {
        lemma_precedes_transitive(a.drop_first(), b.drop_first(), c.drop_first());
    }
}

/// Of two different strings, one comes before the other.
pub proof fn lemma_precedes_total(a: Seq<char>, b: Seq<char>)
    requires
        a != b,
    ensures
        precedes(a, b) || precedes(b, a),
    decreases a.len(),
{
    if a.len() > 0 && b.len() > 0 && a[0] == b[0] {
        if a.drop_first() == b.drop_first() {
            assert(a =~= seq![a[0]] + a.drop_first());
            assert(b =~= seq![b[0]] + b.drop_first());
        }
        lemma_precedes_total(a.drop_first(), b.drop_first());
    } else if a.len() > 0 && b.len() > 0 {
        assert((a[0] as int) != (b[0] as int));
    } else if a.len() == 0 && b.len() == 0 {
        assert(a =~= b);
    }
}

/// `order` lists indices whose keys never go down.
pub open spec fn sorted_by(order: Seq<int>, keys: Seq<Seq<char>>) -> bool {
    forall|x: int, y: int| 0 <= x < y < order.len() ==> !precedes(keys[order[y]], keys[order[x]])
}

/// Inserting keeps what was there and adds the one index.
proof fn lemma_insert_contents(order: Seq<int>, keys: Seq<Seq<char>>, i: int)
    ensures
        insert_by_key(order, keys, i).len() == order.len() + 1,
        forall|x: int| #[trigger] insert_by_key(order, keys, i).contains(x) <==> (order.contains(x) || x == i),
        order.no_duplicates() && !order.contains(i) ==> insert_by_key(order, keys, i).no_duplicates(),
    decreases order.len(),
{
    let r = insert_by_key(order, keys, i);
    if order.len() == 0 {
        assert(r =~= seq![i]);
        assert forall|x: int| #[trigger] r.contains(x) <==> (order.contains(x) || x == i) by {
            if r.contains(x) {
                assert(r[0] == x);
            }
            if x == i {
                assert(r[0] == x);
            }
        }
    } else if precedes(keys[i], keys[order.last()]) {
        let d = order.drop_last();
        lemma_insert_contents(d, keys, i);
        let inner = insert_by_key(d, keys, i);
        assert(r == inner.push(order.last()));
        assert forall|x: int| #[trigger] r.contains(x) <==> (order.contains(x) || x == i) by {
            if r.contains(x) {
                let k = choose|k: int| 0 <= k < r.len() && r[k] == x;
                if k < inner.len() {
                    assert(inner[k] == x);
                    assert(inner.contains(x));
                    if d.contains(x) {
                        let m = choose|m: int| 0 <= m < d.len() && d[m] == x;
                        assert(order[m] == x);
                    }
                } else {
                    assert(order[order.len() - 1] == x);
                }
            }
            if order.contains(x) {
                let m = choose|m: int| 0 <= m < order.len() && order[m] == x;
                if m < d.len() {
                    assert(d[m] == x);
                    assert(inner.contains(x));
                    let k = choose|k: int| 0 <= k < inner.len() && inner[k] == x;
                    assert(r[k] == x);
                } else {
                    assert(r[r.len() - 1] == x);
                }
            }
            if x == i {
                assert(inner.contains(x));
                let k = choose|k: int| 0 <= k < inner.len() && inner[k] == x;
                assert(r[k] == x);
            }
        }
        if order.no_duplicates() && !order.contains(i) {
            assert(d.no_duplicates());
            assert(!d.contains(i)) by {
                if d.contains(i) {
                    let m = choose|m: int| 0 <= m < d.len() && d[m] == i;
                    assert(order[m] == i);
                }
            }
            assert(!inner.contains(order.last())) by {
                if inner.contains(order.last()) {
                    if d.contains(order.last()) {
                        let m = choose|m: int| 0 <= m < d.len() && d[m] == order.last();
                        assert(order[m] == order[order.len() - 1]);
                    } else {
                        assert(order.last() == i);
                        assert(order.contains(i));
                    }
                }
            }
            assert forall|a: int, b: int| 0 <= a < r.len() && 0 <= b < r.len() && a != b implies r[a] != r[b] by {
                if a < inner.len() && b < inner.len() {
                    assert(r[a] == inner[a] && r[b] == inner[b]);
                } else if a < inner.len() {
                    assert(r[a] == inner[a]);
                    assert(inner.contains(inner[a]));
                } else if b < inner.len() {
                    assert(r[b] == inner[b]);
                    assert(inner.contains(inner[b]));
                }
            }
        }
    } else {
        assert(r == order.push(i));
        assert forall|x: int| #[trigger] r.contains(x) <==> (order.contains(x) || x == i) by {
            if r.contains(x) {
                let k = choose|k: int| 0 <= k < r.len() && r[k] == x;
                if k < order.len() {
                    assert(order[k] == x);
                }
            }
            if order.contains(x) {
                let m = choose|m: int| 0 <= m < order.len() && order[m] == x;
                assert(r[m] == x);
            }
            if x == i {
                assert(r[order.len() as int] == x);
            }
        }
        if order.no_duplicates() && !order.contains(i) {
            assert forall|a: int, b: int| 0 <= a < r.len() && 0 <= b < r.len() && a != b implies r[a] != r[b] by {
                if a < order.len() && b < order.len() {
                } else if a < order.len() {
                    assert(order.contains(order[a]));
                } else if b < order.len() {
                    assert(order.contains(order[b]));
                }
            }
        }
    }
}

/// Inserting into a sorted order keeps it sorted.
proof fn lemma_insert_sorted(order: Seq<int>, keys: Seq<Seq<char>>, i: int)
    requires
        sorted_by(order, keys),
    ensures
        sorted_by(insert_by_key(order, keys, i), keys),
    decreases order.len(),
{
    let r = insert_by_key(order, keys, i);
    if order.len() == 0 {
    } else if precedes(keys[i], keys[order.last()]) {
        let d = order.drop_last();
        let last = order.last();
        assert(sorted_by(d, keys));
        lemma_insert_sorted(d, keys, i);
        lemma_insert_contents(d, keys, i);
        let inner = insert_by_key(d, keys, i);
        assert forall|x: int, y: int| 0 <= x < y < r.len() implies !precedes(keys[r[y]], keys[r[x]]) by {
            if y < inner.len() {
                assert(r[x] == inner[x] && r[y] == inner[y]);
            } else {
                assert(r[y] == last);
                assert(r[x] == inner[x]);
                assert(inner.contains(inner[x]));
                if inner[x] == i {
                    if precedes(keys[last], keys[i]) {
                        lemma_precedes_transitive(keys[i], keys[last], keys[i]);
                        lemma_precedes_irreflexive(keys[i]);
                    }
                } else {
                    assert(d.contains(inner[x]));
                    let m = choose|m: int| 0 <= m < d.len() && d[m] == inner[x];
                    assert(order[m] == inner[x]);
                    assert(!precedes(keys[order[order.len() - 1]], keys[order[m]]));
                }
            }
        }
    } else {
        let last = order.last();
        assert forall|x: int, y: int| 0 <= x < y < r.len() implies !precedes(keys[r[y]], keys[r[x]]) by {
            if y < order.len() {
                assert(r[x] == order[x] && r[y] == order[y]);
            } else {
                assert(r[y] == i);
                assert(r[x] == order[x]);
                if precedes(keys[i], keys[order[x]]) {
                    if x == order.len() - 1 {
                    } else {
                        assert(!precedes(keys[order[order.len() - 1]], keys[order[x]]));
                        if keys[order[x]] == keys[last] {
                        } else {
                            lemma_precedes_total(keys[order[x]], keys[last]);
                            lemma_precedes_transitive(keys[i], keys[order[x]], keys[last]);
                        }
                    }
                }
            }
        }
    }
}

/// **The sort sorts**: the indices come out with their keys in string order, each index below `n`
/// exactly once.
pub proof fn lemma_sorted_indices_sorted(keys: Seq<Seq<char>>, n: int)
    requires
        0 <= n,
    ensures
        sorted_by(sorted_indices(keys, n), keys),
        sorted_indices(keys, n).no_duplicates(),
        sorted_indices(keys, n).len() == n,
        forall|x: int| #[trigger] sorted_indices(keys, n).contains(x) <==> 0 <= x < n,
    decreases n,
{
    if n > 0 {
        lemma_sorted_indices_sorted(keys, n - 1);
        let prev = sorted_indices(keys, n - 1);
        lemma_insert_sorted(prev, keys, n - 1);
        lemma_insert_contents(prev, keys, n - 1);
        assert(!prev.contains(n - 1));
    }
}

} // verus!
