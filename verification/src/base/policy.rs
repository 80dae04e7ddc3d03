use crate::base::function::{
    comparable, exceeds, lookup_or, ordered_keys, ties, totally_ordered, value_or,
};
use crate::base::process::MarkovDecisionProcess;
use peroxide::fuga::{thread_rng, IteratorRandom};
use std::collections::BTreeMap;
use std::marker::PhantomData;
use vstd::prelude::*;

verus! {

/// A rule that picks an action at a state.
pub trait Policy<S, A> {
    /// The policy can be asked for an action at `state`.
    open spec fn applicable(&self, state: S) -> bool {
        true
    }

    /// The actions among which the policy picks at `state`.
    open spec fn candidates(&self, state: S) -> Seq<A> {
        arbitrary()
    }

    /// An action for `state`, or `None` where there is none to pick.
    fn gen_action(&self, state: &S) -> (r: Option<A>)
        requires
            self.applicable(*state),
        ensures
            self.candidates(*state).len() == 0 ==> r is None,
            r is Some ==> self.candidates(*state).contains(r.unwrap()),
    ;
}

/// `z` is a value that `V::default()` returns.
pub open spec fn is_default<V: Default>(z: V) -> bool {
    call_ensures(V::default, (), z)
}

/// The value one step ahead of `state` under `action`: what `table` holds
/// for the successor, and `zero` where there is no successor or no entry.
pub open spec fn lookahead<S, A, V, M: MarkovDecisionProcess<S, A>>(
    mdp: &M,
    table: Map<S, V>,
    zero: V,
    state: S,
    action: A,
) -> V {
    match mdp.spec_transition(state, action) {
        Some(next) => value_or(table, next, zero),
        None => zero,
    }
}

/// The lookahead value of each action of `actions`, in order.
pub open spec fn lookaheads<S, A, V, M: MarkovDecisionProcess<S, A>>(
    mdp: &M,
    table: Map<S, V>,
    zero: V,
    state: S,
    actions: Seq<A>,
) -> Seq<V> {
    Seq::new(actions.len(), |i: int| lookahead(mdp, table, zero, state, actions[i]))
}

/// No entry of `values` is greater than the one at `i`.
pub open spec fn is_maximal<V: PartialOrd>(values: Seq<V>, i: int) -> bool {
    &&& 0 <= i < values.len()
    &&& forall|j: int| 0 <= j < values.len() ==> !exceeds(#[trigger] values[j], values[i])
}

/// `action` stands in `actions` at a place where `values` is greatest.
pub open spec fn reaches_maximum<A, V: PartialOrd>(actions: Seq<A>, values: Seq<V>, action: A)
    -> bool {
    exists|i: int| is_maximal(values, i) && 0 <= i < actions.len() && #[trigger] actions[i] == action
}

/// The index that a left-to-right scan of `values` ends on when it moves
/// only to a strictly greater entry: the first of the greatest entries.
pub open spec fn first_maximum<V: PartialOrd>(values: Seq<V>) -> int
    decreases values.len(),
{
    if values.len() <= 1 {
        0
    } else {
        let k = first_maximum(values.drop_last());
        if exceeds(values.last(), values[k]) {
            values.len() - 1
        } else {
            k
        }
    }
}

/// The first action of `actions` whose entry in `values` is greatest, or
/// `None` where there is no action.
pub open spec fn greedy_choice<A, V: PartialOrd>(actions: Seq<A>, values: Seq<V>) -> Option<A> {
    if actions.len() == 0 {
        None
    } else {
        Some(actions[first_maximum(values)])
    }
}

/// In a total order the scan of `first_maximum` ends on a greatest entry,
/// and every entry before it is strictly smaller.
pub proof fn lemma_first_maximum<V: PartialOrd>(values: Seq<V>)
    requires
        totally_ordered::<V>(),
        values.len() > 0,
    ensures
        is_maximal(values, first_maximum(values)),
        forall|j: int|
            0 <= j < first_maximum(values) ==> exceeds(
                values[first_maximum(values)],
                #[trigger] values[j],
            ),
    decreases values.len(),
{
    if values.len() > 1 {
        let front = values.drop_last();
        lemma_first_maximum(front);
        let k = first_maximum(front);
        assert(front[k] == values[k]);
        assert forall|j: int| 0 <= j < front.len() implies front[j] == values[j] by {}
        let m = first_maximum(values);
        assert forall|j: int| 0 <= j < values.len() implies !exceeds(
            #[trigger] values[j],
            values[m],
        ) by {
            if j < front.len() {
                assert(!exceeds(front[j], front[k]));
            }
        }
        assert forall|j: int| 0 <= j < m implies exceeds(values[m], #[trigger] values[j]) by {
            if j < k {
                assert(exceeds(front[k], front[j]));
            } else {
                assert(!exceeds(front[j], front[k]));
            }
        }
    }
}

/// One element of `items` picked at random by `IteratorRandom::choose`
/// with the generator of `thread_rng`, both as `peroxide::fuga` hands
/// them on. Trusted: nothing comes back exactly when `items` is empty,
/// and what comes back is an element of `items`.
#[verifier::external_body]
fn choose_one<A>(items: Vec<A>) -> (r: Option<A>)
    ensures
        r is None <==> items@.len() == 0,
        r is Some ==> items@.contains(r.unwrap()),
{
    items.into_iter().choose(&mut thread_rng())
}

/// The lookahead value of each action of `actions` at `state`.
fn lookahead_values<S: Ord + Copy, A: Copy, V: Copy, M: MarkovDecisionProcess<S, A>>(
    mdp: &M,
    table: &BTreeMap<S, V>,
    zero: V,
    state: &S,
    actions: &Vec<A>,
) -> (values: Vec<V>)
    requires
        forall|i: int| 0 <= i < actions@.len() ==> mdp.defined_at(*state, #[trigger] actions@[i]),
    ensures
        values@.len() == actions@.len(),
        ordered_keys::<S>() ==> values@ == lookaheads(mdp, table@, zero, *state, actions@),
{
    let mut values: Vec<V> = Vec::new();
    let mut i: usize = 0;
    while i < actions.len()
        invariant
            i <= actions@.len(),
            values@.len() == i,
            forall|k: int|
                0 <= k < actions@.len() ==> mdp.defined_at(*state, #[trigger] actions@[k]),
            ordered_keys::<S>() ==> forall|k: int|
                0 <= k < i ==> #[trigger] values@[k] == lookahead(
                    mdp,
                    table@,
                    zero,
                    *state,
                    actions@[k],
                ),
        decreases actions@.len() - i,
    {
        let value = match mdp.transition(state, &actions[i]) {
            Some(next) => lookup_or(table, &next, zero),
            None => zero,
        };
        values.push(value);
        i += 1;
    }
    proof {
        if ordered_keys::<S>() {
            assert(values@ =~= lookaheads(mdp, table@, zero, *state, actions@));
        }
    }
    values
}

/// The index of the first greatest entry of `values`.
fn first_maximum_of<V: Copy + PartialOrd>(values: &Vec<V>) -> (k: usize)
    requires
        values@.len() > 0,
    ensures
        k < values@.len(),
        comparable::<V>() ==> k == first_maximum(values@),
{
    let mut k: usize = 0;
    let mut i: usize = 1;
    assert(values@.subrange(0, 1).len() == 1);
    while i < values.len()
        invariant
            1 <= i <= values@.len(),
            k < i,
            comparable::<V>() ==> k == first_maximum(values@.subrange(0, i as int)),
        decreases values@.len() - i,
    {
        proof {
            let grown = values@.subrange(0, i + 1);
            assert(grown.drop_last() =~= values@.subrange(0, i as int));
            assert(grown.last() == values@[i as int]);
            assert(grown[k as int] == values@[k as int]);
        }
        if values[i] > values[k] {
            k = i;
        }
        i += 1;
    }
    assert(values@.subrange(0, i as int) =~= values@);
    k
}

/// A policy that picks, at each state, one of the actions with the
/// greatest lookahead value, at random among those that tie.
pub struct GreedyValuePolicy<'a, S, A, V, M: MarkovDecisionProcess<S, A>> {
    mdp: &'a M,
    value_function: BTreeMap<S, V>,
    zero: V,
    action_type: PhantomData<A>,
}

impl<
    'a,
    S: Ord + Copy,
    A: Copy,
    V: Copy + PartialOrd + Default,
    M: MarkovDecisionProcess<S, A>,
> GreedyValuePolicy<'a, S, A, V, M> {
    pub closed spec fn spec_mdp(&self) -> &M {
        self.mdp
    }

    pub closed spec fn spec_value_function(&self) -> Map<S, V> {
        self.value_function@
    }

    /// The value read for a state that the table does not hold.
    pub closed spec fn spec_zero(&self) -> V {
        self.zero
    }

    /// The lookahead values of the legal actions at `state`, in order.
    pub open spec fn spec_lookaheads(&self, state: S) -> Seq<V> {
        lookaheads(
            self.spec_mdp(),
            self.spec_value_function(),
            self.spec_zero(),
            state,
            self.spec_mdp().spec_actions_at(state),
        )
    }

    pub fn new(mdp: &'a M, value_function: BTreeMap<S, V>) -> (r: Self)
        ensures
            r.spec_mdp() == mdp,
            r.spec_value_function() == value_function@,
            is_default(r.spec_zero()),
    {
        GreedyValuePolicy { mdp, value_function, zero: V::default(), action_type: PhantomData }
    }

    pub fn get_mdp(&self) -> (r: &M)
        ensures
            r == self.spec_mdp(),
    {
        self.mdp
    }

    pub fn get_value_function(&self) -> (r: &BTreeMap<S, V>)
        ensures
            r@ == self.spec_value_function(),
    {
        &self.value_function
    }
}

impl<
    'a,
    S: Ord + Copy,
    A: Copy,
    V: Copy + PartialOrd + Default,
    M: MarkovDecisionProcess<S, A>,
> Policy<S, A> for GreedyValuePolicy<'a, S, A, V, M> {
    /// The process is well-formed and defined at every legal action of
    /// `state`.
    open spec fn applicable(&self, state: S) -> bool {
        &&& self.spec_mdp().wf()
        &&& forall|i: int|
            0 <= i < self.spec_mdp().spec_actions_at(state).len() ==> self.spec_mdp().defined_at(
                state,
                #[trigger] self.spec_mdp().spec_actions_at(state)[i],
            )
    }

    open spec fn candidates(&self, state: S) -> Seq<A> {
        self.spec_mdp().spec_actions_at(state)
    }

    fn gen_action(&self, state: &S) -> (r: Option<A>)
        ensures
            totally_ordered::<V>() ==> (r is None <==> self.candidates(*state).len() == 0),
            ordered_keys::<S>() && totally_ordered::<V>() && r is Some ==> reaches_maximum(
                self.candidates(*state),
                self.spec_lookaheads(*state),
                r.unwrap(),
            ),
    {
        let actions = self.mdp.actions_at(state);
        if actions.len() == 0 {
            return None;
        }
        let values = lookahead_values(self.mdp, &self.value_function, self.zero, state, &actions);

        // 1. Find the greatest value
        let first: usize = first_maximum_of(&values);
        let best: V = values[first];

        // 2. Find the actions that reach it
        let ghost ordered = totally_ordered::<V>();
        let mut max_action: Vec<A> = Vec::new();
        let mut i: usize = 0;
        proof {
            if ordered {
                lemma_first_maximum(values@);
            }
        }
        while i < actions.len()
            invariant
                i <= actions@.len(),
                values@.len() == actions@.len(),
                first < values@.len(),
                best == values@[first as int],
                ordered == totally_ordered::<V>(),
                ordered ==> is_maximal(values@, first as int),
                forall|k: int|
                    0 <= k < max_action@.len() ==> actions@.contains(#[trigger] max_action@[k]),
                ordered ==> forall|k: int|
                    0 <= k < max_action@.len() ==> reaches_maximum(
                        actions@,
                        values@,
                        #[trigger] max_action@[k],
                    ),
                ordered && i > first ==> max_action@.len() > 0,
            decreases actions@.len() - i,
        {
            if values[i] == best {
                let ghost before = max_action@;
                max_action.push(actions[i]);
                proof {
                    assert forall|k: int| 0 <= k < max_action@.len() implies actions@.contains(
                        #[trigger] max_action@[k],
                    ) by {
                        if k < before.len() {
                            assert(max_action@[k] == before[k]);
                        } else {
                            assert(actions@[i as int] == max_action@[k]);
                        }
                    }
                    if ordered {
                        assert(ties(values@[i as int], values@[first as int]));
                        assert forall|j: int| 0 <= j < values@.len() implies !exceeds(
                            #[trigger] values@[j],
                            values@[i as int],
                        ) by {
                            assert(!exceeds(values@[j], values@[first as int]));
                        }
                        assert(is_maximal(values@, i as int));
                        assert forall|k: int| 0 <= k < max_action@.len() implies reaches_maximum(
                            actions@,
                            values@,
                            #[trigger] max_action@[k],
                        ) by {
                            if k < before.len() {
                                assert(max_action@[k] == before[k]);
                            } else {
                                assert(actions@[i as int] == max_action@[k]);
                            }
                        }
                    }
                }
            } else {
                proof {
                    if ordered {
                        assert(ties(best, best));
                    }
                }
            }
            i += 1;
        }

        // 3. Choose one of them at random
        let picked = choose_one(max_action);
        proof {
            if picked is Some {
                let k = max_action@.index_of(picked.unwrap());
                assert(actions@.contains(max_action@[k]));
                if ordered {
                    assert(reaches_maximum(actions@, values@, max_action@[k]));
                }
            }
        }
        picked
    }
}

/// A policy that explores on request, picking any legal action at random,
/// and otherwise exploits: it picks the first of the actions with the
/// greatest lookahead value.
pub struct EpsilonGreedyValuePolicy<'a, S, A, V, M: MarkovDecisionProcess<S, A>> {
    mdp: &'a M,
    value_function: BTreeMap<S, V>,
    zero: V,
    action_type: PhantomData<A>,
    epsilon: V,
    _random: bool,
}

impl<
    'a,
    S: Ord + Copy,
    A: Copy,
    V: Copy + PartialOrd + Default,
    M: MarkovDecisionProcess<S, A>,
> EpsilonGreedyValuePolicy<'a, S, A, V, M> {
    pub closed spec fn spec_mdp(&self) -> &M {
        self.mdp
    }

    pub closed spec fn spec_value_function(&self) -> Map<S, V> {
        self.value_function@
    }

    /// The value read for a state that the table does not hold.
    pub closed spec fn spec_zero(&self) -> V {
        self.zero
    }

    /// The probability with which the caller is to ask for exploration.
    pub closed spec fn spec_epsilon(&self) -> V {
        self.epsilon
    }

    /// Exploration has not been turned off.
    pub closed spec fn spec_random(&self) -> bool {
        self._random
    }

    /// The policy explores on `sample`: the sample asks for it and
    /// exploration has not been turned off.
    pub open spec fn explores(&self, sample: bool) -> bool {
        sample && self.spec_random()
    }

    /// The process is well-formed and defined at every legal action of
    /// `state`.
    pub open spec fn applicable(&self, state: S) -> bool {
        &&& self.spec_mdp().wf()
        &&& forall|i: int|
            0 <= i < self.spec_mdp().spec_actions_at(state).len() ==> self.spec_mdp().defined_at(
                state,
                #[trigger] self.spec_mdp().spec_actions_at(state)[i],
            )
    }

    /// The legal actions at `state`, in order.
    pub open spec fn candidates(&self, state: S) -> Seq<A> {
        self.spec_mdp().spec_actions_at(state)
    }

    /// The lookahead values of the legal actions at `state`, in order.
    pub open spec fn spec_lookaheads(&self, state: S) -> Seq<V> {
        lookaheads(
            self.spec_mdp(),
            self.spec_value_function(),
            self.spec_zero(),
            state,
            self.candidates(state),
        )
    }

    /// The action that the policy exploits at `state`.
    pub open spec fn spec_exploit(&self, state: S) -> Option<A> {
        greedy_choice(self.candidates(state), self.spec_lookaheads(state))
    }

    pub fn new(mdp: &'a M, value_function: BTreeMap<S, V>, epsilon: V) -> (r: Self)
        ensures
            r.spec_mdp() == mdp,
            r.spec_value_function() == value_function@,
            r.spec_epsilon() == epsilon,
            r.spec_random(),
            is_default(r.spec_zero()),
    {
        EpsilonGreedyValuePolicy {
            mdp,
            value_function,
            zero: V::default(),
            action_type: PhantomData,
            epsilon,
            _random: true,
        }
    }

    pub fn get_mdp(&self) -> (r: &M)
        ensures
            r == self.spec_mdp(),
    {
        self.mdp
    }

    pub fn get_value_function(&self) -> (r: &BTreeMap<S, V>)
        ensures
            r@ == self.spec_value_function(),
    {
        &self.value_function
    }

    pub fn get_epsilon(&self) -> (r: V)
        ensures
            r == self.spec_epsilon(),
    {
        self.epsilon
    }

    /// Whether exploration is still turned on.
    pub fn is_random(&self) -> (r: bool)
        ensures
            r == self.spec_random(),
    {
        self._random
    }

    /// Replaces the whole table by a copy of `value_function`.
    pub fn update_value_function(&mut self, value_function: &BTreeMap<S, V>)
        ensures
            final(self).spec_value_function() == value_function@,
            final(self).spec_mdp() == old(self).spec_mdp(),
            final(self).spec_zero() == old(self).spec_zero(),
            final(self).spec_epsilon() == old(self).spec_epsilon(),
            final(self).spec_random() == old(self).spec_random(),
    {
        self.value_function = value_function.clone();
    }

    /// Turns exploration off for good.
    pub fn turn_off_random(&mut self)
        ensures
            !final(self).spec_random(),
            final(self).spec_value_function() == old(self).spec_value_function(),
            final(self).spec_mdp() == old(self).spec_mdp(),
            final(self).spec_zero() == old(self).spec_zero(),
            final(self).spec_epsilon() == old(self).spec_epsilon(),
    {
        self._random = false;
    }

    /// Any one of the legal actions at `state`, picked at random.
    pub fn explore(&self, state: &S) -> (r: Option<A>)
        requires
            self.spec_mdp().wf(),
        ensures
            r is None <==> self.candidates(*state).len() == 0,
            r is Some ==> self.candidates(*state).contains(r.unwrap()),
    {
        choose_one(self.mdp.actions_at(state))
    }

    /// The first of the legal actions at `state` with the greatest
    /// lookahead value.
    pub fn exploit(&self, state: &S) -> (r: Option<A>)
        requires
            self.applicable(*state),
        ensures
            r is None <==> self.candidates(*state).len() == 0,
            r is Some ==> self.candidates(*state).contains(r.unwrap()),
            ordered_keys::<S>() && comparable::<V>() ==> r == self.spec_exploit(*state),
    {
        let actions = self.mdp.actions_at(state);
        if actions.len() == 0 {
            return None;
        }
        let values = lookahead_values(self.mdp, &self.value_function, self.zero, state, &actions);
        let k = first_maximum_of(&values);
        Some(actions[k])
    }

    /// The action for `state` once the caller has drawn `sample`, a
    /// Bernoulli sample that succeeds with probability `epsilon`: an
    /// exploring pick where the policy explores on it, the exploited
    /// action otherwise.
    pub fn gen_action_with(&self, state: &S, sample: bool) -> (r: Option<A>)
        requires
            self.spec_mdp().wf(),
            !self.explores(sample) ==> self.applicable(*state),
        ensures
            r is None <==> self.candidates(*state).len() == 0,
            r is Some ==> self.candidates(*state).contains(r.unwrap()),
            !self.explores(sample) && ordered_keys::<S>() && comparable::<V>() ==> r
                == self.spec_exploit(*state),
    {
        if sample && self._random {
            self.explore(state)
        } else {
            self.exploit(state)
        }
    }

    /// A sample that does not succeed never makes the policy explore.
    pub proof fn law_failed_sample_exploits(&self)
        ensures
            !self.explores(false),
    {
    }

    /// Once exploration is turned off, no sample makes the policy explore:
    /// it acts on every sample as on one that did not succeed.
    pub proof fn law_turned_off_ignores_sample(&self, sample: bool)
        requires
            !self.spec_random(),
        ensures
            !self.explores(sample),
            self.explores(sample) == self.explores(false),
    {
    }

    /// In a total order the exploited action has a lookahead value that no
    /// legal action exceeds, and that every legal action before it falls
    /// short of.
    pub proof fn law_exploit_is_first_maximum(&self, state: S)
        requires
            totally_ordered::<V>(),
            self.candidates(state).len() > 0,
        ensures
            self.spec_exploit(state) is Some,
            reaches_maximum(
                self.candidates(state),
                self.spec_lookaheads(state),
                self.spec_exploit(state).unwrap(),
            ),
            forall|j: int|
                0 <= j < first_maximum(self.spec_lookaheads(state)) ==> exceeds(
                    self.spec_lookaheads(state)[first_maximum(self.spec_lookaheads(state))],
                    #[trigger] self.spec_lookaheads(state)[j],
                ),
    {
        lemma_first_maximum(self.spec_lookaheads(state));
    }
}

} // verus!
