//! Planning the merges of one simulation step.
//!
//! Candidate pairs `(i, j)` with `i < j` are taken in ascending order of `i`,
//! then of `j`. A pair whose bodies overlap merges unless one of its bodies
//! was already consumed by an earlier merge of the same step, so that each
//! body takes part in at most one merge per step.
use vstd::prelude::*;
use vstd::set_lib::{lemma_int_range, set_int_range};

verus! {

/// What becomes of the bodies of the population in the next one.
#[derive(Clone, Copy, Debug, PartialEq, Eq, Structural)]
pub enum Slot {
    /// The body at this index goes on alone.
    Keep(usize),
    /// The bodies at these two indices are replaced by their merge.
    Merge(usize, usize),
}

/// Whether `s` involves the body at index `k`.
pub open spec fn slot_has(s: Slot, k: int) -> bool {
    match s {
        Slot::Keep(a) => a == k,
        Slot::Merge(a, b) => a == k || b == k,
    }
}

/// The lowest index that `s` involves.
pub open spec fn slot_first(s: Slot) -> int {
    match s {
        Slot::Keep(a) => a as int,
        Slot::Merge(a, _) => a as int,
    }
}

/// Whether the bodies at `i` and `j` overlap, read from the upper triangle.
pub open spec fn overlapping(ov: Seq<Seq<bool>>, i: int, j: int) -> bool {
    ov[i][j]
}

/// `ov` is an `n` by `n` table.
pub open spec fn square(ov: Seq<Seq<bool>>) -> bool {
    forall|i: int| 0 <= i < ov.len() ==> (#[trigger] ov[i]).len() == ov.len()
}

/// A slot names bodies of a population of `n`; a merge names two distinct
/// overlapping bodies, lower index first.
pub open spec fn slot_valid(ov: Seq<Seq<bool>>, s: Slot) -> bool {
    match s {
        Slot::Keep(a) => a < ov.len(),
        Slot::Merge(a, b) => a < b && b < ov.len() && overlapping(ov, a as int, b as int),
    }
}

/// The pair `(a, b)` comes before `(c, d)` in the order in which pairs are taken.
pub open spec fn pair_before(a: int, b: int, c: int, d: int) -> bool {
    a < c || (a == c && b < d)
}

/// Some slot of `plan` involves body `k`.
pub open spec fn in_plan(plan: Seq<Slot>, k: int) -> bool {
    exists|t: int| 0 <= t < plan.len() && #[trigger] slot_has(plan[t], k)
}

/// Some merge of `plan` that comes before the pair `(i, j)` consumes body `k`.
pub open spec fn consumed_before(plan: Seq<Slot>, k: int, i: int, j: int) -> bool {
    exists|t: int|
        0 <= t < plan.len() && #[trigger] slot_has(plan[t], k) && match plan[t] {
            Slot::Merge(a, b) => pair_before(a as int, b as int, i, j),
            Slot::Keep(_) => false,
        }
}

/// `plan` is the outcome of taking the pairs in order and merging each
/// overlapping pair of which neither body is consumed yet: every body is in
/// exactly one slot, slots come in ascending order of their lowest index, and
/// an overlapping pair that did not merge lost a body to an earlier merge.
pub open spec fn is_merge_plan(ov: Seq<Seq<bool>>, plan: Seq<Slot>) -> bool {
    &&& forall|t: int| 0 <= t < plan.len() ==> slot_valid(ov, #[trigger] plan[t])
    &&& forall|k: int| 0 <= k < ov.len() ==> #[trigger] in_plan(plan, k)
    &&& forall|t: int, u: int, k: int|
        0 <= t < plan.len() && 0 <= u < plan.len() && t != u && #[trigger] slot_has(plan[t], k)
            ==> !#[trigger] slot_has(plan[u], k)
    &&& forall|t: int, u: int|
        0 <= t < u < plan.len() ==> slot_first(#[trigger] plan[t]) < slot_first(#[trigger] plan[u])
    &&& forall|i: int, j: int|
        0 <= i < j < ov.len() && #[trigger] overlapping(ov, i, j) && !plan.contains(Slot::Merge(i as usize, j as usize))
            ==> consumed_before(plan, i, i, j) || consumed_before(plan, j, i, j)
}

/// The overlap table held by `ov`, row by row.
pub open spec fn table(ov: &Vec<Vec<bool>>) -> Seq<Seq<bool>> {
    Seq::new(ov@.len(), |i: int| ov@[i]@)
}

/// Body `k` is consumed by a merge of `plan` whose lower index is below `i`.
spec fn merged_below(plan: Seq<Slot>, k: int, i: int) -> bool {
    exists|t: int|
        0 <= t < plan.len() && #[trigger] slot_has(plan[t], k) && match plan[t] {
            Slot::Merge(a, _) => a < i,
            Slot::Keep(_) => false,
        }
}

proof fn lemma_push(plan: Seq<Slot>, x: Slot)
    ensures
        forall|k: int| #[trigger] in_plan(plan.push(x), k) == (in_plan(plan, k) || slot_has(x, k)),
        forall|k: int, i: int, j: int|
            consumed_before(plan, k, i, j) ==> #[trigger] consumed_before(plan.push(x), k, i, j),
        forall|k: int, i: int|
            merged_below(plan, k, i) ==> #[trigger] merged_below(plan.push(x), k, i),
        forall|y: Slot| #[trigger] plan.push(x).contains(y) == (plan.contains(y) || y == x),
{
    let p2 = plan.push(x);
    assert forall|k: int| #[trigger] in_plan(p2, k) == (in_plan(plan, k) || slot_has(x, k)) by {
        if in_plan(p2, k) {
            let t = choose|t: int| 0 <= t < p2.len() && #[trigger] slot_has(p2[t], k);
            if t < plan.len() {
                assert(slot_has(plan[t], k));
            }
        }
        if in_plan(plan, k) {
            let t = choose|t: int| 0 <= t < plan.len() && #[trigger] slot_has(plan[t], k);
            assert(slot_has(p2[t], k));
        }
        if slot_has(x, k) {
            assert(slot_has(p2[plan.len() as int], k));
        }
    }
    assert forall|k: int, i: int, j: int|
        consumed_before(plan, k, i, j) implies #[trigger] consumed_before(p2, k, i, j) by {
        let t = choose|t: int|
            0 <= t < plan.len() && #[trigger] slot_has(plan[t], k) && match plan[t] {
                Slot::Merge(a, b) => pair_before(a as int, b as int, i, j),
                Slot::Keep(_) => false,
            };
        assert(slot_has(p2[t], k));
    }
    assert forall|k: int, i: int| merged_below(plan, k, i) implies #[trigger] merged_below(p2, k, i) by {
        let t = choose|t: int|
            0 <= t < plan.len() && #[trigger] slot_has(plan[t], k) && match plan[t] {
                Slot::Merge(a, _) => a < i,
                Slot::Keep(_) => false,
            };
        assert(slot_has(p2[t], k));
    }
    assert forall|y: Slot| #[trigger] p2.contains(y) == (plan.contains(y) || y == x) by {
        if p2.contains(y) {
            let t = choose|t: int| 0 <= t < p2.len() && p2[t] == y;
            if t < plan.len() {
                assert(plan[t] == y);
            }
        }
        if plan.contains(y) {
            let t = choose|t: int| 0 <= t < plan.len() && plan[t] == y;
            assert(p2[t] == y);
        }
        if y == x {
            assert(p2[plan.len() as int] == y);
        }
    }
}

proof fn lemma_below(plan: Seq<Slot>, k: int, i: int, i2: int, j: int)
    requires
        merged_below(plan, k, i),
        i <= i2,
    ensures
        merged_below(plan, k, i2),
        consumed_before(plan, k, i, j),
{
    let t = choose|t: int|
        0 <= t < plan.len() && #[trigger] slot_has(plan[t], k) && match plan[t] {
            Slot::Merge(a, _) => a < i,
            Slot::Keep(_) => false,
        };
    assert(slot_has(plan[t], k));
}

/// Plans the merges of one step for a population of `ov.len()` bodies, where
/// `ov[i][j]` for `i < j` tells whether bodies `i` and `j` overlap.
pub fn plan_merges(ov: &Vec<Vec<bool>>) -> (plan: Vec<Slot>)
    requires
        square(table(ov)),
    ensures
        is_merge_plan(table(ov), plan@),
{
    let ghost t = table(ov);
    let n = ov.len();
    let mut consumed: Vec<bool> = Vec::new();
    let mut k: usize = 0;
    while k < n
        invariant
            k <= n,
            consumed@.len() == k,
            forall|m: int| 0 <= m < k ==> !consumed@[m],
        decreases n - k,
    {
        consumed.push(false);
        k = k + 1;
    }
    let mut plan: Vec<Slot> = Vec::new();
    let mut i: usize = 0;
    while i < n
        invariant
            n == ov@.len(),
            t == table(ov),
            square(t),
            i <= n,
            consumed@.len() == n,
            forall|m: int| 0 <= m < n ==> (#[trigger] consumed@[m] <==> in_plan(plan@, m)),
            forall|m: int| 0 <= m < i ==> #[trigger] consumed@[m],
            forall|m: int| i <= m < n && #[trigger] consumed@[m] ==> merged_below(plan@, m, i as int),
            forall|s: int|
                0 <= s < plan@.len() ==> slot_valid(t, #[trigger] plan@[s]) && slot_first(plan@[s]) < i,
            forall|a: int, b: int, k: int|
                0 <= a < plan@.len() && 0 <= b < plan@.len() && a != b && #[trigger] slot_has(plan@[a], k)
                    ==> !#[trigger] slot_has(plan@[b], k),
            forall|a: int, b: int|
                0 <= a < b < plan@.len() ==> slot_first(#[trigger] plan@[a]) < slot_first(#[trigger] plan@[b]),
            forall|a: int, b: int|
                0 <= a < i && a < b < n && #[trigger] overlapping(t, a, b) && !plan@.contains(Slot::Merge(a as usize, b as usize))
                    ==> consumed_before(plan@, a, a, b) || consumed_before(plan@, b, a, b),
        decreases n - i,
    {
        if consumed[i] {
            assert forall|m: int| i + 1 <= m < n && #[trigger] consumed@[m] implies merged_below(plan@, m, i + 1) by {
                lemma_below(plan@, m, i as int, i + 1, 0);
            }
            assert forall|b: int|
                i < b < n && #[trigger] overlapping(t, i as int, b) && !plan@.contains(Slot::Merge(i, b as usize))
                    implies consumed_before(plan@, i as int, i as int, b) by {
                lemma_below(plan@, i as int, i as int, i as int, b);
            }
        } else {
            assert(t[i as int] == ov@[i as int]@);
            let mut j: usize = i + 1;
            while j < n && (consumed[j] || !ov[i][j])
                invariant
                    n == ov@.len(),
                    t == table(ov),
                    square(t),
                    i < n,
                    i < j <= n,
                    ov@[i as int]@.len() == n,
                    consumed@.len() == n,
                    forall|b: int| i < b < j ==> #[trigger] consumed@[b] || !overlapping(t, i as int, b),
                decreases n - j,
            {
                j = j + 1;
            }
            let ghost old_plan = plan@;
            let ghost old_consumed = consumed@;
            let x = if j < n {
                Slot::Merge(i, j)
            } else {
                Slot::Keep(i)
            };
            consumed.set(i, true);
            if j < n {
                consumed.set(j, true);
            }
            plan.push(x);
            proof {
                lemma_push(old_plan, x);
                assert(slot_has(plan@[old_plan.len() as int], i as int));
                assert forall|m: int| 0 <= m < n implies (#[trigger] consumed@[m] <==> in_plan(plan@, m)) by {
                    assert(old_consumed[m] <==> in_plan(old_plan, m));
                }
                assert forall|m: int| i + 1 <= m < n && #[trigger] consumed@[m] implies merged_below(plan@, m, i + 1) by {
                    if old_consumed[m] {
                        lemma_below(old_plan, m, i as int, i + 1, 0);
                    } else {
                        assert(slot_has(plan@[old_plan.len() as int], m));
                    }
                }
                assert forall|b: int|
                    i < b < n && #[trigger] overlapping(t, i as int, b) && !plan@.contains(Slot::Merge(i, b as usize))
                        implies consumed_before(plan@, i as int, i as int, b) || consumed_before(plan@, b, i as int, b) by {
                    if b < j {
                        assert(old_consumed[b]);
                        lemma_below(old_plan, b, i as int, i as int, b);
                    } else if b == j {
                        assert(plan@[old_plan.len() as int] == Slot::Merge(i, b as usize));
                    } else {
                        assert(slot_has(plan@[old_plan.len() as int], i as int));
                    }
                }
                assert forall|a: int, b: int|
                    0 <= a < i && a < b < n && #[trigger] overlapping(t, a, b) && !plan@.contains(Slot::Merge(a as usize, b as usize))
                        implies consumed_before(plan@, a, a, b) || consumed_before(plan@, b, a, b) by {
                    assert(!old_plan.contains(Slot::Merge(a as usize, b as usize)));
                }
            }
        }
        i = i + 1;
    }
    proof {
        assert forall|m: int| 0 <= m < t.len() implies #[trigger] in_plan(plan@, m) by {
            assert(consumed@[m]);
        }
    }
    plan
}

/// Builds the next population from `plan`: one body per slot, in the order of
/// the slots, made by `keep(i)` for a body that goes on alone and by
/// `merge(i, j)` for a pair that merges.
pub fn assemble<B, K: Fn(usize) -> B, M: Fn(usize, usize) -> B>(plan: &Vec<Slot>, keep: K, merge: M) -> (r: Vec<B>)
    requires
        forall|i: usize| #[trigger] keep.requires((i,)),
        forall|i: usize, j: usize| #[trigger] merge.requires((i, j)),
    ensures
        r@.len() == plan@.len(),
        forall|t: int|
            0 <= t < plan@.len() ==> match #[trigger] plan@[t] {
                Slot::Keep(i) => keep.ensures((i,), r@[t]),
                Slot::Merge(i, j) => merge.ensures((i, j), r@[t]),
            },
{
    let mut r: Vec<B> = Vec::new();
    let mut t: usize = 0;
    while t < plan.len()
        invariant
            t <= plan@.len(),
            r@.len() == t,
            forall|i: usize| #[trigger] keep.requires((i,)),
            forall|i: usize, j: usize| #[trigger] merge.requires((i, j)),
            forall|u: int|
                0 <= u < t ==> match #[trigger] plan@[u] {
                    Slot::Keep(i) => keep.ensures((i,), r@[u]),
                    Slot::Merge(i, j) => merge.ensures((i, j), r@[u]),
                },
        decreases plan@.len() - t,
    {
        let b = match plan[t] {
            Slot::Keep(i) => keep(i),
            Slot::Merge(i, j) => merge(i, j),
        };
        r.push(b);
        t = t + 1;
    }
    r
}

/// Number of merges in `plan`.
pub open spec fn merge_count(plan: Seq<Slot>) -> nat
    decreases plan.len(),
{
    if plan.len() == 0 {
        0
    } else {
        merge_count(plan.drop_last()) + match plan.last() {
            Slot::Merge(_, _) => 1nat,
            Slot::Keep(_) => 0nat,
        }
    }
}

/// Indices that the slots of `plan` involve.
spec fn covered(plan: Seq<Slot>) -> Set<int>
    decreases plan.len(),
{
    if plan.len() == 0 {
        Set::empty()
    } else {
        match plan.last() {
            Slot::Keep(a) => covered(plan.drop_last()).insert(a as int),
            Slot::Merge(a, b) => covered(plan.drop_last()).insert(a as int).insert(b as int),
        }
    }
}

proof fn lemma_covered(ov: Seq<Seq<bool>>, plan: Seq<Slot>)
    requires
        forall|t: int| 0 <= t < plan.len() ==> slot_valid(ov, #[trigger] plan[t]),
        forall|t: int, u: int, k: int|
            0 <= t < plan.len() && 0 <= u < plan.len() && t != u && #[trigger] slot_has(plan[t], k)
                ==> !#[trigger] slot_has(plan[u], k),
    ensures
        covered(plan).finite(),
        covered(plan).len() == plan.len() + merge_count(plan),
        forall|k: int| covered(plan).contains(k) <==> #[trigger] in_plan(plan, k),
    decreases plan.len(),
{
    if plan.len() > 0 {
        let p = plan.drop_last();
        let x = plan.last();
        let n = plan.len() - 1;
        assert forall|t: int| 0 <= t < p.len() implies slot_valid(ov, #[trigger] p[t]) by {
            assert(plan[t] == p[t]);
        }
        assert forall|t: int, u: int, k: int|
            0 <= t < p.len() && 0 <= u < p.len() && t != u && #[trigger] slot_has(p[t], k)
                implies !#[trigger] slot_has(p[u], k) by {
            assert(plan[t] == p[t] && plan[u] == p[u]);
        }
        lemma_covered(ov, p);
        assert(slot_valid(ov, plan[n]));
        assert forall|k: int| slot_has(x, k) implies !covered(p).contains(k) by {
            if covered(p).contains(k) {
                assert(in_plan(p, k));
                let t = choose|t: int| 0 <= t < p.len() && #[trigger] slot_has(p[t], k);
                assert(plan[t] == p[t]);
                assert(slot_has(plan[t], k));
                assert(slot_has(plan[n], k));
            }
        }
        match x {
            Slot::Keep(a) => {
                assert(slot_has(x, a as int));
            },
            Slot::Merge(a, b) => {
                assert(slot_has(x, a as int));
                assert(slot_has(x, b as int));
            },
        }
        assert forall|k: int| covered(plan).contains(k) <==> #[trigger] in_plan(plan, k) by {
            if in_plan(plan, k) {
                let t = choose|t: int| 0 <= t < plan.len() && #[trigger] slot_has(plan[t], k);
                if t < n {
                    assert(p[t] == plan[t]);
                    assert(in_plan(p, k));
                }
            }
            if covered(p).contains(k) {
                assert(in_plan(p, k));
                let t = choose|t: int| 0 <= t < p.len() && #[trigger] slot_has(p[t], k);
                assert(plan[t] == p[t]);
                assert(slot_has(plan[t], k));
            }
            if slot_has(x, k) {
                assert(slot_has(plan[n], k));
            }
        }
    }
}

/// Every body of a population of `n` goes into exactly one body of the next
/// population: the next population has `n` bodies less one per merge.
pub proof fn lemma_population_after_merges(ov: Seq<Seq<bool>>, plan: Seq<Slot>)
    requires
        is_merge_plan(ov, plan),
    ensures
        plan.len() + merge_count(plan) == ov.len(),
{
    lemma_covered(ov, plan);
    lemma_int_range(0, ov.len() as int);
    assert forall|k: int| covered(plan).contains(k) <==> set_int_range(0, ov.len() as int).contains(k) by {
        if covered(plan).contains(k) {
            assert(in_plan(plan, k));
            let t = choose|t: int| 0 <= t < plan.len() && #[trigger] slot_has(plan[t], k);
            assert(slot_valid(ov, plan[t]));
        }
        if 0 <= k < ov.len() {
            assert(in_plan(plan, k));
        }
    }
    assert(covered(plan) =~= set_int_range(0, ov.len() as int));
}

/// Three mutually overlapping bodies give exactly one merge, of the first
/// two, while the third goes on alone: no body is consumed twice.
pub proof fn lemma_three_overlapping(ov: Seq<Seq<bool>>, plan: Seq<Slot>)
    requires
        ov.len() == 3,
        square(ov),
        overlapping(ov, 0, 1),
        overlapping(ov, 0, 2),
        overlapping(ov, 1, 2),
        is_merge_plan(ov, plan),
    ensures
        plan == seq![Slot::Merge(0, 1), Slot::Keep(2)],
{
    if !plan.contains(Slot::Merge(0, 1)) {
        assert(overlapping(ov, 0, 1));
        if consumed_before(plan, 0, 0, 1) {
            let t = choose|t: int|
                0 <= t < plan.len() && #[trigger] slot_has(plan[t], 0) && match plan[t] {
                    Slot::Merge(a, b) => pair_before(a as int, b as int, 0, 1),
                    Slot::Keep(_) => false,
                };
            assert(slot_valid(ov, plan[t]));
        } else {
            let t = choose|t: int|
                0 <= t < plan.len() && #[trigger] slot_has(plan[t], 1) && match plan[t] {
                    Slot::Merge(a, b) => pair_before(a as int, b as int, 0, 1),
                    Slot::Keep(_) => false,
                };
            assert(slot_valid(ov, plan[t]));
        }
    }
    let t0 = choose|t: int| 0 <= t < plan.len() && plan[t] == Slot::Merge(0, 1);
    assert(in_plan(plan, 2));
    let u = choose|u: int| 0 <= u < plan.len() && #[trigger] slot_has(plan[u], 2);
    assert(slot_valid(ov, plan[u]));
    assert(slot_has(plan[t0], 0) && slot_has(plan[t0], 1));
    assert(u != t0);
    if let Slot::Merge(a, b) = plan[u] {
        assert(slot_has(plan[u], a as int));
        assert(!slot_has(plan[t0], a as int));
    }
    assert(plan[u] == Slot::Keep(2));
    if plan.len() > 2 {
        let w: int = if t0 != 0 && u != 0 {
            0
        } else if t0 != 1 && u != 1 {
            1
        } else {
            2
        };
        assert(slot_valid(ov, plan[w]));
        assert(slot_has(plan[w], slot_first(plan[w])));
    }
    if t0 > u {
        assert(slot_first(plan[u]) < slot_first(plan[t0]));
    }
    assert(plan =~= seq![Slot::Merge(0, 1), Slot::Keep(2)]);
}

} // verus!
