use std::collections::BTreeMap;
use vstd::laws_cmp::obeys_cmp;
use vstd::prelude::*;
use vstd::std_specs::cmp::{PartialEqSpec, PartialOrdIs, PartialOrdSpec};

verus! {

/// An estimate of the value of each state.
pub trait ValueFunction<S, V> {
    fn value(&self, state: &S) -> V;
}

/// An estimate of the value of each action at each state.
pub trait ActionValueFunction<S, A, V> {
    fn value(&self, state: &S, action: &A) -> V;
}

/// The value that `table` holds for `state`, or `zero` where it holds none.
pub open spec fn value_or<S, V>(table: Map<S, V>, state: S, zero: V) -> V {
    if table.contains_key(state) {
        table[state]
    } else {
        zero
    }
}

/// The states `S` are ordered as a map needs its keys to be.
pub open spec fn ordered_keys<S: Ord>() -> bool {
    obeys_cmp::<S>()
}

/// The comparisons of `V` compute what their specifications say.
pub open spec fn comparable<V: PartialOrd>() -> bool {
    V::obeys_partial_cmp_spec() && V::obeys_eq_spec()
}

/// `a` compares strictly greater than `b`.
pub open spec fn exceeds<V: PartialOrd>(a: V, b: V) -> bool {
    a.is_gt(&b)
}

/// `a` compares equal to `b`.
pub open spec fn ties<V: PartialOrd>(a: V, b: V) -> bool {
    a.eq_spec(&b)
}

/// `V` compares as a total order: `>` is irreflexive and transitive, `==`
/// is an equivalence that `>` respects, and of `a > b`, `b > a`, `a == b`
/// at least one holds.
pub open spec fn totally_ordered<V: PartialOrd>() -> bool {
    &&& comparable::<V>()
    &&& forall|a: V| !(#[trigger] exceeds(a, a))
    &&& forall|a: V| #[trigger] ties(a, a)
    &&& forall|a: V, b: V| #[trigger] ties(a, b) ==> ties(b, a) && !exceeds(a, b)
    &&& forall|a: V, b: V| #[trigger] exceeds(a, b) || exceeds(b, a) || ties(a, b)
    &&& forall|a: V, b: V, c: V| #[trigger] exceeds(a, b) && #[trigger] exceeds(b, c) ==> exceeds(a, c)
    &&& forall|a: V, b: V, c: V| #[trigger] ties(a, b) && #[trigger] ties(b, c) ==> ties(a, c)
    &&& forall|a: V, b: V, c: V| #[trigger] ties(a, b) && #[trigger] exceeds(c, a) ==> exceeds(c, b)
    &&& forall|a: V, b: V, c: V| #[trigger] ties(a, b) && #[trigger] exceeds(a, c) ==> exceeds(b, c)
}

/// The value that `table` holds for `state`, or `zero` where it holds none.
pub fn lookup_or<S: Ord, V: Copy>(table: &BTreeMap<S, V>, state: &S, zero: V) -> (r: V)
    ensures
        ordered_keys::<S>() ==> r == value_or(table@, *state, zero),
{
    match table.get(state) {
        Some(v) => *v,
        None => zero,
    }
}

} // verus!
