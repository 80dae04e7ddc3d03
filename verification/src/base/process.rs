use super::policy::Policy;
use vstd::prelude::*;

verus! {

/// A finite Markov decision process over states `S` and actions `A`.
///
/// The spec functions are the mathematical model of the process; each
/// executable method returns exactly what its model says. `wf` and
/// `defined_at` name the inputs on which the process is defined.
///
/// The model functions have default bodies that leave the model open, so
/// that an implementation that is not to be verified can omit them; one
/// that is to be verified states its model by overriding them.
pub trait MarkovDecisionProcess<S, A> {
    /// The type in which immediate rewards are reported.
    type Reward;

    /// The process is in a state in which legal actions can be enumerated.
    open spec fn wf(&self) -> bool {
        true
    }

    /// Reward and successor are defined for `action` taken from `state`.
    open spec fn defined_at(&self, state: S, action: A) -> bool {
        true
    }

    /// Every state, in enumeration order.
    open spec fn spec_states(&self) -> Seq<S> {
        arbitrary()
    }

    /// The whole action vocabulary, in enumeration order.
    open spec fn spec_actions(&self) -> Seq<A> {
        arbitrary()
    }

    /// The actions that are legal at `state`, in enumeration order.
    open spec fn spec_actions_at(&self, state: S) -> Seq<A> {
        arbitrary()
    }

    /// The immediate reward for taking `action` from `state`.
    open spec fn spec_reward(&self, state: S, action: A) -> Self::Reward {
        arbitrary()
    }

    /// The successor of `state` under `action`; `None` ends a trajectory.
    open spec fn spec_transition(&self, state: S, action: A) -> Option<S> {
        arbitrary()
    }

    fn states(&self) -> (r: Vec<S>)
        ensures
            r@ == self.spec_states(),
    ;

    fn actions(&self) -> (r: Vec<A>)
        ensures
            r@ == self.spec_actions(),
    ;

    fn actions_at(&self, state: &S) -> (r: Vec<A>)
        requires
            self.wf(),
        ensures
            r@ == self.spec_actions_at(*state),
    ;

    fn reward(&self, state: &S, action: &A) -> (r: Self::Reward)
        requires
            self.defined_at(*state, *action),
        ensures
            r == self.spec_reward(*state, *action),
    ;

    fn transition(&self, state: &S, action: &A) -> (r: Option<S>)
        requires
            self.defined_at(*state, *action),
        ensures
            r == self.spec_transition(*state, *action),
    ;

    /// Reward and successor of one move, both taken against the same
    /// `state` and `action`.
    fn step(&self, state: &S, action: &A) -> (r: (Option<S>, Self::Reward))
        requires
            self.defined_at(*state, *action),
        ensures
            r.0 == self.spec_transition(*state, *action),
            r.1 == self.spec_reward(*state, *action),
    {
        let reward = self.reward(state, action);
        let next_state = self.transition(state, action);
        (next_state, reward)
    }
}

/// A decision process together with the policy that acts in it.
pub trait MarkovRewardProcess<S, A>: MarkovDecisionProcess<S, A> {
    /// The kind of policy that acts in the process.
    type Acting: Policy<S, A>;

    fn get_policy(&self) -> &Self::Acting;
}

} // verus!
