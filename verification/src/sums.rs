//! Sums of integer-valued functions over finite sets of keys, and over maps.

use vstd::prelude::*;

verus! {

/// The sum of `f` over the finite set `s` (zero for an infinite set).
pub open spec fn set_sum(s: Set<u64>, f: spec_fn(u64) -> int) -> int
    decreases s.len(),
{
    if s.finite() && s.len() > 0 {
        let x = s.choose();
        f(x) + set_sum(s.remove(x), f)
    } else {
        0
    }
}

/// The sum of `f` over the values of `m`.
pub open spec fn map_sum<V>(m: Map<u64, V>, f: spec_fn(V) -> int) -> int {
    set_sum(m.dom(), |k: u64| f(m[k]))
}

/// Any element can be taken out of a sum first.
pub proof fn lemma_set_sum_remove(s: Set<u64>, f: spec_fn(u64) -> int, x: u64)
    requires
        s.finite(),
        s.contains(x),
    ensures
        set_sum(s, f) == f(x) + set_sum(s.remove(x), f),
    decreases s.len(),
{
    let y = s.choose();
    if y != x {
        lemma_set_sum_remove(s.remove(y), f, x);
        lemma_set_sum_remove(s.remove(x), f, y);
        assert(s.remove(y).remove(x) =~= s.remove(x).remove(y));
    }
}

/// Sums of functions that agree on the set are equal.
pub proof fn lemma_set_sum_congruent(s: Set<u64>, f: spec_fn(u64) -> int, g: spec_fn(u64) -> int)
    requires
        forall|x: u64| s.contains(x) ==> f(x) == g(x),
    ensures
        set_sum(s, f) == set_sum(s, g),
    decreases s.len(),
{
    if s.finite() && s.len() > 0 {
        let x = s.choose();
        lemma_set_sum_congruent(s.remove(x), f, g);
    }
}

/// A sum of non-negative terms is at least each of its terms.
pub proof fn lemma_set_sum_bounds(s: Set<u64>, f: spec_fn(u64) -> int, x: u64)
    requires
        s.finite(),
        forall|y: u64| s.contains(y) ==> f(y) >= 0,
    ensures
        set_sum(s, f) >= 0,
        s.contains(x) ==> set_sum(s, f) >= f(x),
    decreases s.len(),
{
    if s.len() > 0 {
        let y = s.choose();
        lemma_set_sum_bounds(s.remove(y), f, x);
        if s.contains(x) {
            lemma_set_sum_remove(s, f, x);
            lemma_set_sum_bounds(s.remove(x), f, x);
        }
    }
}

/// A sum of zero terms is zero.
pub proof fn lemma_set_sum_zero(s: Set<u64>, f: spec_fn(u64) -> int)
    requires
        forall|y: u64| s.contains(y) ==> f(y) == 0,
    ensures
        set_sum(s, f) == 0,
    decreases s.len(),
{
    if s.finite() && s.len() > 0 {
        let y = s.choose();
        lemma_set_sum_zero(s.remove(y), f);
    }
}

/// Inserting or replacing one entry of a map changes its sum by the difference.
pub proof fn lemma_map_sum_insert<V>(m: Map<u64, V>, f: spec_fn(V) -> int, k: u64, v: V)
    requires
        m.dom().finite(),
    ensures
        map_sum(m.insert(k, v), f) == map_sum(m, f) - (if m.contains_key(k) { f(m[k]) } else { 0 })
            + f(v),
{
    let m2 = m.insert(k, v);
    let g = |x: u64| f(m2[x]);
    let h = |x: u64| f(m[x]);
    assert(m2.dom().finite());
    lemma_set_sum_remove(m2.dom(), g, k);
    lemma_set_sum_congruent(m2.dom().remove(k), g, h);
    if m.contains_key(k) {
        lemma_set_sum_remove(m.dom(), h, k);
        assert(m2.dom().remove(k) =~= m.dom().remove(k));
    } else {
        assert(m2.dom().remove(k) =~= m.dom());
    }
}

/// A sum over a map of non-negative terms bounds each term.
pub proof fn lemma_map_sum_bounds<V>(m: Map<u64, V>, f: spec_fn(V) -> int, k: u64)
    requires
        m.dom().finite(),
        forall|x: u64| m.contains_key(x) ==> f(#[trigger] m[x]) >= 0,
    ensures
        map_sum(m, f) >= 0,
        m.contains_key(k) ==> map_sum(m, f) >= f(m[k]),
{
    lemma_set_sum_bounds(m.dom(), |x: u64| f(m[x]), k);
}

/// A map whose terms are all zero sums to zero.
pub proof fn lemma_map_sum_zero<V>(m: Map<u64, V>, f: spec_fn(V) -> int)
    requires
        forall|x: u64| m.contains_key(x) ==> f(#[trigger] m[x]) == 0,
    ensures
        map_sum(m, f) == 0,
{
    lemma_set_sum_zero(m.dom(), |x: u64| f(m[x]));
}

} // verus!
