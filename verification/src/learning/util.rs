use crate::base::function::ordered_keys;
use std::collections::BTreeMap;
use vstd::prelude::*;

verus! {

/// A rule that gives the learning rate for the `t`-th step, taken at
/// state `s`. A scheduler may keep state of its own and change it on every
/// query.
pub trait StepsizeScheduler<S, V> {
    /// `alpha` is a learning rate that the scheduler, as it stands, gives
    /// for the `t`-th step at state `s`. The default leaves every rate
    /// open, so that a scheduler that is not to be verified can omit its
    /// model; one that is to be verified states it by overriding this.
    open spec fn gives(&self, t: usize, s: S, alpha: V) -> bool {
        true
    }

    /// The scheduler keeps account of the queries that are made of it.
    /// The default keeps none.
    open spec fn records(&self) -> bool {
        false
    }

    /// The queries made so far of a scheduler that keeps account of them,
    /// each with its step and its state, the oldest first.
    open spec fn queries(&self) -> Seq<(usize, S)> {
        Seq::empty()
    }

    fn stepsize(&mut self, t: usize, s: &S) -> (alpha: V)
        ensures
            old(self).gives(t, *s, alpha),
            old(self).records() ==> final(self).records(),
            old(self).records() ==> final(self).queries() == old(self).queries().push((t, *s)),
    ;
}

/// The scheduler that always gives the same learning rate. It keeps no
/// account of its queries.
#[derive(Debug, Clone)]
pub struct ConstantStepsize<V> {
    c: V,
}

impl<V: Copy> ConstantStepsize<V> {
    pub closed spec fn spec_c(&self) -> V {
        self.c
    }

    pub fn new(c: V) -> (r: Self)
        ensures
            r.spec_c() == c,
    {
        ConstantStepsize { c }
    }
}

impl<S, V: Copy> StepsizeScheduler<S, V> for ConstantStepsize<V> {
    /// The constant is the only rate that is ever given.
    open spec fn gives(&self, t: usize, s: S, alpha: V) -> bool {
        alpha == self.spec_c()
    }

    fn stepsize(&mut self, _t: usize, _s: &S) -> (r: V)
        ensures
            r == old(self).spec_c(),
            final(self).spec_c() == old(self).spec_c(),
    {
        self.c
    }
}

/// The visit counts of the count-based scheduler: how often each state
/// has been queried, beside the constant that the learning rate is the
/// quotient of.
#[derive(Debug, Clone)]
pub struct CountDecay<S, V> {
    c: V,
    counts: BTreeMap<S, usize>,
}

/// How often `state` has been counted in `counts`.
pub open spec fn visits<S>(counts: Map<S, usize>, state: S) -> nat {
    if counts.contains_key(state) {
        counts[state] as nat
    } else {
        0
    }
}

impl<S: Ord + Copy, V: Copy> CountDecay<S, V> {
    pub closed spec fn spec_c(&self) -> V {
        self.c
    }

    pub closed spec fn spec_counts(&self) -> Map<S, usize> {
        self.counts@
    }

    pub fn new(c: V) -> (r: Self)
        ensures
            r.spec_c() == c,
            r.spec_counts() == Map::<S, usize>::empty(),
    {
        CountDecay { c, counts: BTreeMap::new() }
    }

    pub fn get_c(&self) -> (r: V)
        ensures
            r == self.spec_c(),
    {
        self.c
    }

    /// How often `s` has been visited so far.
    pub fn get_count(&self, s: &S) -> (r: usize)
        ensures
            ordered_keys::<S>() ==> r == visits(self.spec_counts(), *s),
    {
        match self.counts.get(s) {
            Some(n) => *n,
            None => 0,
        }
    }

    /// Counts one more visit of `s` and returns how often `s` has been
    /// visited by now: `1` on the first query for a state.
    pub fn count(&mut self, s: &S) -> (r: usize)
        requires
            ordered_keys::<S>() ==> visits(old(self).spec_counts(), *s) < usize::MAX,
        ensures
            final(self).spec_c() == old(self).spec_c(),
            ordered_keys::<S>() ==> r == visits(old(self).spec_counts(), *s) + 1,
            ordered_keys::<S>() ==> final(self).spec_counts() == old(self).spec_counts().insert(
                *s,
                r,
            ),
    {
        let seen: usize = match self.counts.get(s) {
            Some(n) => *n,
            None => 0,
        };
        let now: usize = if seen < usize::MAX {
            seen + 1
        } else {
            seen
        };
        self.counts.insert(*s, now);
        now
    }
}

} // verus!
