use super::util::StepsizeScheduler;
use crate::base::function::{lookup_or, ordered_keys, value_or};
use std::collections::BTreeMap;
use std::ops::{Add, Mul, Sub};
use vstd::prelude::*;
use vstd::slice::slice_to_vec;
use vstd::std_specs::ops::{AddSpec, MulSpec, SubSpec};

verus! {

/// Sums, differences and products of `V` are defined on all operands.
pub open spec fn arithmetic_total<V: Add<Output = V> + Sub<Output = V> + Mul<Output = V>>()
    -> bool {
    &&& forall|a: V, b: V| #[trigger] a.add_req(b)
    &&& forall|a: V, b: V| #[trigger] a.sub_req(b)
    &&& forall|a: V, b: V| #[trigger] a.mul_req(b)
}

/// The operators `+`, `-` and `*` of `V` compute what their specifications
/// say.
pub open spec fn arithmetic_exact<V: Add<Output = V> + Sub<Output = V> + Mul<Output = V>>()
    -> bool {
    &&& <V as AddSpec>::obeys_add_spec()
    &&& <V as SubSpec>::obeys_sub_spec()
    &&& <V as MulSpec>::obeys_mul_spec()
}

/// `zero` is neutral for `+` and absorbing for `*`.
pub open spec fn neutral_zero<V: Add<Output = V> + Mul<Output = V>>(zero: V) -> bool {
    &&& forall|x: V| #[trigger] zero.add_spec(x) == x
    &&& forall|x: V| #[trigger] x.add_spec(zero) == x
    &&& forall|x: V| #[trigger] zero.mul_spec(x) == zero
    &&& forall|x: V| #[trigger] x.mul_spec(zero) == zero
}

/// The state of each visit of `episode`, in order.
pub open spec fn states_of<S, V>(episode: Seq<(S, V)>) -> Seq<S> {
    Seq::new(episode.len(), |t: int| episode[t].0)
}

/// The reward of each visit of `episode`, in order.
pub open spec fn rewards_of<S, V>(episode: Seq<(S, V)>) -> Seq<V> {
    Seq::new(episode.len(), |t: int| episode[t].1)
}

/// The discounted return from step `t` on: `zero` past the last reward,
/// and before that the reward of step `t` added to `gamma` times the
/// return from step `t + 1` on.
pub open spec fn discounted_return<V: Add<Output = V> + Mul<Output = V>>(
    rewards: Seq<V>,
    gamma: V,
    zero: V,
    t: int,
) -> V
    decreases rewards.len() - t,
{
    if t < 0 || t >= rewards.len() {
        zero
    } else {
        discounted_return(rewards, gamma, zero, t + 1).mul_spec(gamma).add_spec(rewards[t])
    }
}

/// The discounted return of every step of `rewards`.
pub open spec fn discounted_returns_of<V: Add<Output = V> + Mul<Output = V>>(
    rewards: Seq<V>,
    gamma: V,
    zero: V,
) -> Seq<V> {
    Seq::new(rewards.len(), |t: int| discounted_return(rewards, gamma, zero, t))
}

/// The estimate `v` moved toward `target` by the fraction `alpha` of the
/// way: `v + alpha * (target - v)`.
pub open spec fn moved_toward<V: Add<Output = V> + Sub<Output = V> + Mul<Output = V>>(
    v: V,
    alpha: V,
    target: V,
) -> V {
    v.add_spec(alpha.mul_spec(target.sub_spec(v)))
}

/// Every sum and product that the discounted returns of `rewards` are
/// made of is defined: all sums and products of `V` are, or `V` computes
/// exactly and those that occur are.
pub open spec fn returns_defined<V: Add<Output = V> + Mul<Output = V>>(
    rewards: Seq<V>,
    gamma: V,
    zero: V,
) -> bool {
    ||| {
        &&& forall|a: V, b: V| #[trigger] a.add_req(b)
        &&& forall|a: V, b: V| #[trigger] a.mul_req(b)
    }
    ||| {
        &&& <V as AddSpec>::obeys_add_spec()
        &&& <V as MulSpec>::obeys_mul_spec()
        &&& forall|t: int|
            0 <= t < rewards.len() ==> {
                &&& (#[trigger] discounted_return(rewards, gamma, zero, t + 1)).mul_req(gamma)
                &&& discounted_return(rewards, gamma, zero, t + 1).mul_spec(gamma).add_req(
                    rewards[t],
                )
            }
    }
}

/// The difference, product and sum of `v + alpha * (target - v)` are
/// defined: all of `V` are, or `V` computes exactly and these three are.
pub open spec fn move_defined<V: Add<Output = V> + Sub<Output = V> + Mul<Output = V>>(
    v: V,
    alpha: V,
    target: V,
) -> bool {
    ||| arithmetic_total::<V>()
    ||| {
        &&& arithmetic_exact::<V>()
        &&& target.sub_req(v)
        &&& alpha.mul_req(target.sub_spec(v))
        &&& v.add_req(alpha.mul_spec(target.sub_spec(v)))
    }
}

/// The operations of the temporal-difference error are defined: all of
/// `V` are, or `V` computes exactly and those that occur are.
pub open spec fn td_error_defined<V: Add<Output = V> + Sub<Output = V> + Mul<Output = V>>(
    r: V,
    gamma: V,
    next: Option<V>,
    v: V,
) -> bool {
    ||| arithmetic_total::<V>()
    ||| {
        &&& arithmetic_exact::<V>()
        &&& match next {
            Some(next) => {
                &&& gamma.mul_req(next)
                &&& r.add_req(gamma.mul_spec(next))
                &&& r.add_spec(gamma.mul_spec(next)).sub_req(v)
            },
            None => r.sub_req(v),
        }
    }
}

/// The operations of one temporal-difference step on `table` with the
/// learning rate `alpha` are defined: all of `V` are, or tables and `V`
/// compute exactly and those that occur are.
pub open spec fn transition_defined<
    S: Ord,
    V: Add<Output = V> + Sub<Output = V> + Mul<Output = V>,
>(table: Map<S, V>, zero: V, gamma: V, s: S, r: V, s_next: Option<S>, alpha: V) -> bool {
    ||| arithmetic_total::<V>()
    ||| {
        let v = value_or(table, s, zero);
        let next = match s_next {
            Some(n) => Some(value_or(table, n, zero)),
            None => None,
        };
        &&& ordered_keys::<S>()
        &&& td_error_defined(r, gamma, next, v)
        &&& alpha.mul_req(td_error(r, gamma, next, v))
        &&& v.add_req(alpha.mul_spec(td_error(r, gamma, next, v)))
    }
}

/// The table after the first `n` visits of an episode: each visit, in
/// order, moves the entry of its state, as the table holds it by then,
/// toward the return of that visit by the learning rate of that visit.
pub open spec fn table_after_visits<
    S,
    V: Add<Output = V> + Sub<Output = V> + Mul<Output = V>,
>(table: Map<S, V>, zero: V, states: Seq<S>, gains: Seq<V>, alphas: Seq<V>, n: int) -> Map<S, V>
    decreases n,
{
    if n <= 0 {
        table
    } else {
        let before = table_after_visits(table, zero, states, gains, alphas, n - 1);
        let s = states[n - 1];
        before.insert(s, moved_toward(value_or(before, s, zero), alphas[n - 1], gains[n - 1]))
    }
}

/// The operations of learning from `episode` on `table` with the learning
/// rates `alphas` are defined: all of `V` are, or tables and `V` compute
/// exactly and those that occur are.
pub open spec fn episode_defined<
    S: Ord,
    V: Add<Output = V> + Sub<Output = V> + Mul<Output = V>,
>(
    table: Map<S, V>,
    zero: V,
    gamma: V,
    episode: Seq<(S, V)>,
    alphas: Seq<V>,
) -> bool {
    ||| arithmetic_total::<V>()
    ||| {
        let states = states_of(episode);
        let targets = discounted_returns_of(rewards_of(episode), gamma, zero);
        &&& ordered_keys::<S>()
        &&& arithmetic_exact::<V>()
        &&& returns_defined(rewards_of(episode), gamma, zero)
        &&& forall|t: int|
            0 <= t < episode.len() ==> move_defined(
                value_or(
                    #[trigger] table_after_visits(table, zero, states, targets, alphas, t),
                    states[t],
                    zero,
                ),
                alphas[t],
                targets[t],
            )
    }
}

/// `after` differs from `before` at most in the entries of `states`: it
/// holds an entry for each of them and for whatever `before` held, and the
/// entry of any other state is as in `before`.
pub open spec fn touched_only<S, V>(before: Map<S, V>, after: Map<S, V>, states: Seq<S>) -> bool {
    &&& forall|s: S| #[trigger]
        after.contains_key(s) <==> before.contains_key(s) || states.contains(s)
    &&& forall|s: S|
        before.contains_key(s) && !states.contains(s) ==> #[trigger] after[s] == before[s]
}

/// Writing the entry of `s` into a table that differs from `before` at
/// most at `states` gives one that differs at most at `states` and `s`.
pub proof fn lemma_touched_one_more<S, V>(
    before: Map<S, V>,
    after: Map<S, V>,
    states: Seq<S>,
    s: S,
    value: V,
)
    requires
        touched_only(before, after, states),
    ensures
        touched_only(before, after.insert(s, value), states.push(s)),
{
    let longer = states.push(s);
    let written = after.insert(s, value);
    assert(longer[states.len() as int] == s);
    assert forall|x: S| longer.contains(x) <==> states.contains(x) || x == s by {
        if states.contains(x) {
            let i = states.index_of(x);
            assert(longer[i] == x);
        }
        if longer.contains(x) {
            let i = longer.index_of(x);
            if i < states.len() {
                assert(states[i] == x);
            }
        }
    }
    assert forall|x: S| #[trigger]
        written.contains_key(x) <==> before.contains_key(x) || longer.contains(x) by {
        assert(after.contains_key(x) <==> before.contains_key(x) || states.contains(x));
    }
}

/// The temporal-difference error of one transition with reward `r` from
/// a state valued `v`: `r + gamma * next - v` where the successor is
/// valued `next`, and `r - v` where there is no successor.
pub open spec fn td_error<V: Add<Output = V> + Sub<Output = V> + Mul<Output = V>>(
    r: V,
    gamma: V,
    next: Option<V>,
    v: V,
) -> V {
    match next {
        Some(next) => r.add_spec(gamma.mul_spec(next)).sub_spec(v),
        None => r.sub_spec(v),
    }
}

/// The table after one temporal-difference step with learning rate
/// `alpha`: the entry of `s` moves by `alpha` times the error, and no
/// other entry changes.
pub open spec fn table_after_transition<
    S,
    V: Add<Output = V> + Sub<Output = V> + Mul<Output = V>,
>(table: Map<S, V>, zero: V, gamma: V, s: S, r: V, s_next: Option<S>, alpha: V) -> Map<S, V> {
    let v = value_or(table, s, zero);
    let next = match s_next {
        Some(n) => Some(value_or(table, n, zero)),
        None => None,
    };
    table.insert(s, v.add_spec(alpha.mul_spec(td_error(r, gamma, next, v))))
}

/// The return of the last step is `zero * gamma + r` for its reward `r`,
/// which is `r` itself where `zero` is neutral; the return of every
/// earlier step is its reward added to `gamma` times the next return.
pub proof fn law_backward_returns<V: Add<Output = V> + Mul<Output = V>>(
    rewards: Seq<V>,
    gamma: V,
    zero: V,
)
    requires
        rewards.len() > 0,
    ensures
        discounted_return(rewards, gamma, zero, rewards.len() - 1) == zero.mul_spec(
            gamma,
        ).add_spec(rewards.last()),
        neutral_zero(zero) ==> discounted_return(rewards, gamma, zero, rewards.len() - 1)
            == rewards.last(),
        forall|t: int|
            0 <= t < rewards.len() - 1 ==> #[trigger] discounted_return(rewards, gamma, zero, t)
                == discounted_return(rewards, gamma, zero, t + 1).mul_spec(gamma).add_spec(
                rewards[t],
            ),
{
    let last = rewards.len() - 1;
    assert(discounted_return(rewards, gamma, zero, last + 1) == zero);
}

/// After an episode of the single visit `(s, r)` the entry of `s` has
/// moved toward the return of that visit by `alpha`, and every other
/// entry is as before. Where `zero` is neutral the return is `r`.
pub proof fn law_single_visit<S, V: Add<Output = V> + Sub<Output = V> + Mul<Output = V>>(
    table: Map<S, V>,
    zero: V,
    gamma: V,
    s: S,
    r: V,
    alpha: V,
)
    ensures
        ({
            let episode = seq![(s, r)];
            let gains = discounted_returns_of(rewards_of(episode), gamma, zero);
            let after = table_after_visits(
                table,
                zero,
                states_of(episode),
                gains,
                seq![alpha],
                1,
            );
            &&& gains[0] == zero.mul_spec(gamma).add_spec(r)
            &&& neutral_zero(zero) ==> gains[0] == r
            &&& after == table.insert(s, moved_toward(value_or(table, s, zero), alpha, gains[0]))
            &&& forall|other: S|
                other != s ==> (after.contains_key(other) <==> table.contains_key(other))
            &&& forall|other: S|
                other != s && table.contains_key(other) ==> after[other] == table[other]
        }),
{
    let episode = seq![(s, r)];
    let rewards = rewards_of(episode);
    law_backward_returns(rewards, gamma, zero);
    assert(rewards.last() == r);
    let gains = discounted_returns_of(rewards, gamma, zero);
    assert(table_after_visits(table, zero, states_of(episode), gains, seq![alpha], 0) == table);
}

/// A transition without successor is learnt from the error `r - v`
/// alone: no value of any other state is read.
pub proof fn law_terminal_transition<S, V: Add<Output = V> + Sub<Output = V> + Mul<Output = V>>(
    table: Map<S, V>,
    zero: V,
    gamma: V,
    s: S,
    r: V,
    alpha: V,
)
    ensures
        td_error(r, gamma, None, value_or(table, s, zero)) == r.sub_spec(value_or(table, s, zero)),
        table_after_transition(table, zero, gamma, s, r, None, alpha) == table.insert(
            s,
            value_or(table, s, zero).add_spec(alpha.mul_spec(r.sub_spec(value_or(table, s, zero)))),
        ),
{
}

/// With reward `zero` and a successor valued `zero` the error is
/// `zero - v` whatever `gamma` is, where `zero` is neutral.
pub proof fn law_zero_successor<V: Add<Output = V> + Sub<Output = V> + Mul<Output = V>>(
    gamma: V,
    zero: V,
    v: V,
)
    requires
        neutral_zero(zero),
    ensures
        td_error(zero, gamma, Some(zero), v) == zero.sub_spec(v),
{
    assert(gamma.mul_spec(zero) == zero);
    assert(zero.add_spec(zero) == zero);
}

/// After a step from `s` with reward `zero` to a successor that the table
/// values `zero`, the entry of `s` has moved by `alpha` times `zero - v`
/// from its value `v`, whatever `gamma` is, where `zero` is neutral.
pub proof fn law_zero_successor_step<S, V: Add<Output = V> + Sub<Output = V> + Mul<Output = V>>(
    table: Map<S, V>,
    zero: V,
    gamma: V,
    s: S,
    s_next: S,
    alpha: V,
)
    requires
        neutral_zero(zero),
        value_or(table, s_next, zero) == zero,
    ensures
        table_after_transition(table, zero, gamma, s, zero, Some(s_next), alpha)[s] == value_or(
            table,
            s,
            zero,
        ).add_spec(alpha.mul_spec(zero.sub_spec(value_or(table, s, zero)))),
{
    law_zero_successor(gamma, zero, value_or(table, s, zero));
}

/// A step without successor reads the entry of its state alone: two
/// tables that agree there hold the same value there afterwards, whatever
/// their other entries and whatever the two discounts are.
pub proof fn law_terminal_reads_one_entry<
    S,
    V: Add<Output = V> + Sub<Output = V> + Mul<Output = V>,
>(one: Map<S, V>, other: Map<S, V>, zero: V, gamma: V, other_gamma: V, s: S, r: V, alpha: V)
    requires
        value_or(one, s, zero) == value_or(other, s, zero),
    ensures
        table_after_transition(one, zero, gamma, s, r, None, alpha)[s] == table_after_transition(
            other,
            zero,
            other_gamma,
            s,
            r,
            None,
            alpha,
        )[s],
{
}

/// `one` is neutral for `*` on the left, and `zero` for `-` on the right.
pub open spec fn unit_one<V: Sub<Output = V> + Mul<Output = V>>(one: V, zero: V) -> bool {
    &&& forall|x: V| #[trigger] one.mul_spec(x) == x
    &&& forall|x: V| #[trigger] x.sub_spec(zero) == x
}

/// With the learning rate `one` at every visit, no state visited twice and
/// every visited state valued `zero` before, the first `n` visits leave
/// each of their states with the return of its visit, and the states of
/// the later visits valued `zero` as before.
pub proof fn lemma_unit_rate_visits<S, V: Add<Output = V> + Sub<Output = V> + Mul<Output = V>>(
    table: Map<S, V>,
    zero: V,
    one: V,
    states: Seq<S>,
    gains: Seq<V>,
    alphas: Seq<V>,
    n: int,
)
    requires
        neutral_zero(zero),
        unit_one(one, zero),
        0 <= n <= states.len(),
        gains.len() == states.len(),
        alphas.len() == states.len(),
        states.no_duplicates(),
        forall|k: int| 0 <= k < states.len() ==> value_or(table, #[trigger] states[k], zero) == zero,
        forall|k: int| 0 <= k < alphas.len() ==> #[trigger] alphas[k] == one,
    ensures
        forall|k: int|
            0 <= k < n ==> {
                &&& table_after_visits(table, zero, states, gains, alphas, n).contains_key(
                    #[trigger] states[k],
                )
                &&& table_after_visits(table, zero, states, gains, alphas, n)[states[k]] == gains[k]
            },
        forall|k: int|
            n <= k < states.len() ==> value_or(
                table_after_visits(table, zero, states, gains, alphas, n),
                #[trigger] states[k],
                zero,
            ) == zero,
    decreases n,
{
    if n > 0 {
        lemma_unit_rate_visits(table, zero, one, states, gains, alphas, n - 1);
        let before = table_after_visits(table, zero, states, gains, alphas, n - 1);
        let after = table_after_visits(table, zero, states, gains, alphas, n);
        let s = states[n - 1];
        let g = gains[n - 1];
        assert(value_or(before, s, zero) == zero);
        assert(alphas[n - 1] == one);
        assert(g.sub_spec(zero) == g);
        assert(one.mul_spec(g) == g);
        assert(zero.add_spec(g) == g);
        assert(moved_toward(zero, one, g) == g);
        assert(after == before.insert(s, g));
        assert forall|k: int| 0 <= k < n implies {
            &&& after.contains_key(#[trigger] states[k])
            &&& after[states[k]] == gains[k]
        } by {
            if k < n - 1 {
                assert(states[k] != s);
                assert(before.contains_key(states[k]));
            }
        }
        assert forall|k: int| n <= k < states.len() implies value_or(
            after,
            #[trigger] states[k],
            zero,
        ) == zero by {
            assert(states[k] != s);
            assert(value_or(before, states[k], zero) == zero);
        }
    }
}

/// With the learning rate `one` at every visit, an episode that visits no
/// state twice, on a table that values every visited state `zero`, leaves
/// the state of the last visit with the last reward and the state of
/// every earlier visit with its reward added to `gamma` times the value of
/// the state visited next, where `zero` and `one` are neutral.
pub proof fn law_unit_rate_learns_returns<
    S,
    V: Add<Output = V> + Sub<Output = V> + Mul<Output = V>,
>(table: Map<S, V>, zero: V, one: V, gamma: V, episode: Seq<(S, V)>, alphas: Seq<V>)
    requires
        neutral_zero(zero),
        unit_one(one, zero),
        episode.len() > 0,
        alphas.len() == episode.len(),
        states_of(episode).no_duplicates(),
        forall|k: int|
            0 <= k < episode.len() ==> value_or(table, (#[trigger] episode[k]).0, zero) == zero,
        forall|k: int| 0 <= k < alphas.len() ==> #[trigger] alphas[k] == one,
    ensures
        ({
            let after = table_after_visits(
                table,
                zero,
                states_of(episode),
                discounted_returns_of(rewards_of(episode), gamma, zero),
                alphas,
                episode.len() as int,
            );
            &&& forall|t: int| 0 <= t < episode.len() ==> after.contains_key((#[trigger] episode[t]).0)
            &&& after[episode.last().0] == episode.last().1
            &&& forall|t: int|
                0 <= t < episode.len() - 1 ==> after[(#[trigger] episode[t]).0] == after[episode[t
                    + 1].0].mul_spec(gamma).add_spec(episode[t].1)
        }),
{
    let states = states_of(episode);
    let rewards = rewards_of(episode);
    let gains = discounted_returns_of(rewards, gamma, zero);
    let n = episode.len() as int;
    let after = table_after_visits(table, zero, states, gains, alphas, n);
    assert forall|k: int| 0 <= k < states.len() implies value_or(
        table,
        #[trigger] states[k],
        zero,
    ) == zero by {
        assert(states[k] == episode[k].0);
    }
    lemma_unit_rate_visits(table, zero, one, states, gains, alphas, n);
    law_backward_returns(rewards, gamma, zero);
    assert forall|t: int| 0 <= t < n implies after.contains_key((#[trigger] episode[t]).0)
        && after[episode[t].0] == gains[t] by {
        assert(states[t] == episode[t].0);
    }
    assert(gains[n - 1] == rewards.last());
    assert(rewards.last() == episode.last().1);
    assert forall|t: int| 0 <= t < n - 1 implies after[(#[trigger] episode[t]).0] == after[episode[t
        + 1].0].mul_spec(gamma).add_spec(episode[t].1) by {
        assert(after[episode[t].0] == gains[t]);
        assert(after[episode[t + 1].0] == gains[t + 1]);
        assert(gains[t] == discounted_return(rewards, gamma, zero, t));
        assert(gains[t + 1] == discounted_return(rewards, gamma, zero, t + 1));
        assert(rewards[t] == episode[t].1);
    }
}

/// The queries that learning from the visits of `states` makes of the
/// scheduler: one for each visit, in order, with the visits counted from 1
/// and the state of each visit.
pub open spec fn visit_queries<S>(states: Seq<S>) -> Seq<(usize, S)> {
    Seq::new(states.len(), |k: int| ((k + 1) as usize, states[k]))
}

/// A learner that estimates the value of each state from experience.
pub trait ValuePredictor<S, V> {
    /// The table of estimates.
    open spec fn spec_value_function(&self) -> Map<S, V> {
        arbitrary()
    }

    /// Experience has been loaded and one step can be made.
    open spec fn can_step(&self) -> bool {
        true
    }

    fn get_value_function(&self) -> (r: &BTreeMap<S, V>)
        ensures
            r@ == self.spec_value_function(),
    ;

    /// Learns from the experience that was loaded last.
    fn step(&mut self)
        requires
            old(self).can_step(),
    ;
}

/// `after` is `before` once every visit of `episode` has been learnt
/// from, with `alphas` as the learning rates of the visits.
pub open spec fn learnt_episode<S, V: Add<Output = V> + Sub<Output = V> + Mul<Output = V>>(
    before: Map<S, V>,
    after: Map<S, V>,
    zero: V,
    gamma: V,
    episode: Seq<(S, V)>,
    alphas: Seq<V>,
) -> bool {
    &&& alphas.len() == episode.len()
    &&& after == table_after_visits(
        before,
        zero,
        states_of(episode),
        discounted_returns_of(rewards_of(episode), gamma, zero),
        alphas,
        episode.len() as int,
    )
}

/// The discounted return of every step of `episode`, computed from the
/// last step backward.
pub fn discounted_returns<S, V: Copy + Add<Output = V> + Mul<Output = V>>(
    episode: &Vec<(S, V)>,
    gamma: V,
    zero: V,
) -> (gains: Vec<V>)
    requires
        returns_defined(rewards_of(episode@), gamma, zero),
    ensures
        gains@.len() == episode@.len(),
        <V as AddSpec>::obeys_add_spec() && <V as MulSpec>::obeys_mul_spec() ==> gains@
            == discounted_returns_of(rewards_of(episode@), gamma, zero),
{
    let l: usize = episode.len();
    let ghost rewards = rewards_of(episode@);
    let ghost exact = <V as AddSpec>::obeys_add_spec() && <V as MulSpec>::obeys_mul_spec();
    let mut gains: Vec<V> = Vec::new();
    let mut k: usize = 0;
    while k < l
        invariant
            k <= l,
            gains@.len() == k,
        decreases l - k,
    {
        gains.push(zero);
        k += 1;
    }
    let mut acc: V = zero;
    let mut i: usize = l;
    while i > 0
        invariant
            i <= l,
            l == episode@.len(),
            gains@.len() == l,
            rewards == rewards_of(episode@),
            exact == (<V as AddSpec>::obeys_add_spec() && <V as MulSpec>::obeys_mul_spec()),
            returns_defined(rewards, gamma, zero),
            exact ==> acc == discounted_return(rewards, gamma, zero, i as int),
            exact ==> forall|t: int|
                i <= t < l ==> #[trigger] gains@[t] == discounted_return(rewards, gamma, zero, t),
        decreases i,
    {
        i -= 1;
        let r: V = episode[i].1;
        assert(rewards[i as int] == r);
        assert(exact ==> acc == discounted_return(rewards, gamma, zero, i + 1));
        acc = acc * gamma + r;
        gains.set(i, acc);
    }
    proof {
        if exact {
            assert(gains@ =~= discounted_returns_of(rewards, gamma, zero));
        }
    }
    gains
}

/// `v + alpha * (target - v)`.
pub fn move_toward<V: Copy + Add<Output = V> + Sub<Output = V> + Mul<Output = V>>(
    v: V,
    alpha: V,
    target: V,
) -> (r: V)
    requires
        move_defined(v, alpha, target),
    ensures
        arithmetic_exact::<V>() ==> r == moved_toward(v, alpha, target),
{
    v + alpha * (target - v)
}

/// The temporal-difference error `r + gamma * next - v`, or `r - v` where
/// there is no successor value `next`.
pub fn temporal_difference<V: Copy + Add<Output = V> + Sub<Output = V> + Mul<Output = V>>(
    r: V,
    gamma: V,
    next: Option<V>,
    v: V,
) -> (delta: V)
    requires
        td_error_defined(r, gamma, next, v),
    ensures
        arithmetic_exact::<V>() ==> delta == td_error(r, gamma, next, v),
{
    match next {
        Some(next) => r + gamma * next - v,
        None => r - v,
    }
}

/// Every-visit Monte Carlo prediction: each visit of an episode moves the
/// estimate of its state toward the discounted return that followed it.
#[verifier::reject_recursive_types(S)]
#[verifier::reject_recursive_types(V)]
pub struct EveryvisitMC<S, V> {
    value_function: BTreeMap<S, V>,
    stepsize_scheduler: Box<dyn StepsizeScheduler<S, V>>,
    gamma: V,
    zero: V,
    episode: Vec<(S, V)>,
}

impl<
    S: Ord + Copy,
    V: Copy + Default + Add<Output = V> + Sub<Output = V> + Mul<Output = V>,
> EveryvisitMC<S, V> {
    pub closed spec fn spec_table(&self) -> Map<S, V> {
        self.value_function@
    }

    pub closed spec fn spec_gamma(&self) -> V {
        self.gamma
    }

    /// The value read for a state that the table does not hold, and the
    /// return past the end of an episode.
    pub closed spec fn spec_zero(&self) -> V {
        self.zero
    }

    pub closed spec fn spec_episode(&self) -> Seq<(S, V)> {
        self.episode@
    }

    /// Table, discount, zero and episode of `self` are those of `other`:
    /// at most the scheduler differs.
    pub open spec fn same_but_scheduler(&self, other: &Self) -> bool {
        &&& self.spec_table() == other.spec_table()
        &&& self.spec_gamma() == other.spec_gamma()
        &&& self.spec_zero() == other.spec_zero()
        &&& self.spec_episode() == other.spec_episode()
    }

    pub fn new(
        value_function: BTreeMap<S, V>,
        stepsize_scheduler: Box<dyn StepsizeScheduler<S, V>>,
        gamma: V,
    ) -> (r: Self)
        ensures
            r.spec_table() == value_function@,
            r.spec_gamma() == gamma,
            r.spec_episode() == Seq::<(S, V)>::empty(),
            call_ensures(V::default, (), r.spec_zero()),
    {
        EveryvisitMC {
            value_function,
            stepsize_scheduler,
            gamma,
            zero: V::default(),
            episode: Vec::new(),
        }
    }

    /// Loads `episode` in place of the one loaded before.
    pub fn update_episode(&mut self, episode: &[(S, V)])
        ensures
            final(self).spec_episode() == episode@,
            final(self).same_scheduler(old(self)),
            final(self).spec_table() == old(self).spec_table(),
            final(self).spec_gamma() == old(self).spec_gamma(),
            final(self).spec_zero() == old(self).spec_zero(),
    {
        self.episode = slice_to_vec(episode);
    }

    pub fn get_value(&self, s: &S) -> (r: Option<V>)
        ensures
            ordered_keys::<S>() ==> r == (if self.spec_table().contains_key(*s) {
                Some(self.spec_table()[*s])
            } else {
                None
            }),
    {
        match self.value_function.get(s) {
            Some(v) => Some(*v),
            None => None,
        }
    }

    /// Asks the scheduler for the learning rate of step `t` at state `s`.
    pub fn get_stepsize(&mut self, t: usize, s: &S) -> (r: V)
        ensures
            old(self).scheduler_gives(t, *s, r) && final(self).same_but_scheduler(old(self)),
            final(self).asked_after(old(self), seq![(t, *s)]),
    {
        let r = self.stepsize_scheduler.stepsize(t, s);
        proof {
            let account = old(self).scheduler_queries();
            assert(account.push((t, *s)) =~= account + seq![(t, *s)]);
        }
        r
    }

    pub fn update_value(&mut self, state: &S, value: V)
        ensures
            final(self).same_scheduler(old(self)),
            ordered_keys::<S>() ==> final(self).spec_table() == old(self).spec_table().insert(
                *state,
                value,
            ),
            final(self).spec_gamma() == old(self).spec_gamma(),
            final(self).spec_zero() == old(self).spec_zero(),
            final(self).spec_episode() == old(self).spec_episode(),
    {
        self.value_function.insert(*state, value);
    }

    /// Learns from every visit of the loaded episode, in order, with
    /// `alphas[t]` as the learning rate of the visit at position `t`.
    pub fn step_with(&mut self, alphas: &Vec<V>)
        requires
            alphas@.len() == old(self).spec_episode().len(),
            episode_defined(
                old(self).spec_table(),
                old(self).spec_zero(),
                old(self).spec_gamma(),
                old(self).spec_episode(),
                alphas@,
            ),
        ensures
            final(self).spec_episode() == old(self).spec_episode(),
            final(self).spec_gamma() == old(self).spec_gamma(),
            final(self).spec_zero() == old(self).spec_zero(),
            final(self).same_scheduler(old(self)),
            ordered_keys::<S>() ==> touched_only(
                old(self).spec_table(),
                final(self).spec_table(),
                states_of(old(self).spec_episode()),
            ),
            ordered_keys::<S>() && arithmetic_exact::<V>() ==> learnt_episode(
                old(self).spec_table(),
                final(self).spec_table(),
                old(self).spec_zero(),
                old(self).spec_gamma(),
                old(self).spec_episode(),
                alphas@,
            ),
    {
        let l: usize = self.episode.len();
        let ghost lawful = ordered_keys::<S>() && arithmetic_exact::<V>();
        let ghost before = self.spec_table();
        let ghost episode = self.spec_episode();
        let ghost zero = self.spec_zero();
        let ghost gamma = self.spec_gamma();
        let ghost states = states_of(episode);
        let ghost targets = discounted_returns_of(rewards_of(episode), gamma, zero);

        // Backward pass: the discounted return of every visit
        let gains = discounted_returns(&self.episode, self.gamma, self.zero);

        // Forward pass: every visit moves the estimate of its state
        let mut t: usize = 0;
        while t < l
            invariant
                t <= l,
                l == episode.len(),
                gains@.len() == l,
                alphas@.len() == l,
                episode_defined(before, zero, gamma, episode, alphas@),
                lawful == (ordered_keys::<S>() && arithmetic_exact::<V>()),
                self.same_scheduler(old(self)),
                self.spec_episode() == episode,
                self.spec_gamma() == gamma,
                self.spec_zero() == zero,
                states == states_of(episode),
                targets == discounted_returns_of(rewards_of(episode), gamma, zero),
                lawful ==> gains@ == targets,
                ordered_keys::<S>() ==> touched_only(
                    before,
                    self.spec_table(),
                    states.subrange(0, t as int),
                ),
                lawful ==> self.spec_table() == table_after_visits(
                    before,
                    zero,
                    states,
                    targets,
                    alphas@,
                    t as int,
                ),
            decreases l - t,
        {
            let s: S = self.episode[t].0;
            let g: V = gains[t];
            let ghost table = self.spec_table();
            let v: V = match self.get_value(&s) {
                Some(v) => v,
                None => self.zero,
            };
            assert(states[t as int] == s);
            let moved: V = move_toward(v, alphas[t], g);
            self.update_value(&s, moved);
            proof {
                if ordered_keys::<S>() {
                    let visited = states.subrange(0, t as int);
                    lemma_touched_one_more(before, table, visited, s, moved);
                    assert(visited.push(s) =~= states.subrange(0, t + 1));
                }
            }
            t += 1;
        }
        proof {
            assert(states.subrange(0, l as int) =~= states);
        }
    }
}


impl<
    S: Ord + Copy,
    V: Copy + Default + Add<Output = V> + Sub<Output = V> + Mul<Output = V>,
> ValuePredictor<S, V> for EveryvisitMC<S, V> {
    open spec fn spec_value_function(&self) -> Map<S, V> {
        self.spec_table()
    }

    /// A non-empty episode is loaded, and learning from it is defined
    /// with whatever learning rates the scheduler answers. That is so
    /// wherever sums, differences and products of `V` are defined on all
    /// operands.
    open spec fn can_step(&self) -> bool {
        &&& self.spec_episode().len() > 0
        &&& forall|asked: Seq<Self>, alphas: Seq<V>| #[trigger]
            self.answered(asked, alphas) ==> episode_defined(
                self.spec_table(),
                self.spec_zero(),
                self.spec_gamma(),
                self.spec_episode(),
                alphas,
            )
    }

    fn get_value_function(&self) -> (r: &BTreeMap<S, V>) {
        &self.value_function
    }

    /// Asks the scheduler for the learning rate of every visit of the
    /// loaded episode, in order and with the visits counted from 1, and
    /// learns from the episode with the rates that it answered. A
    /// scheduler that keeps account of its queries has been asked exactly
    /// these queries afterwards, each once.
    fn step(&mut self)
        ensures
            final(self).spec_episode() == old(self).spec_episode(),
            final(self).spec_gamma() == old(self).spec_gamma(),
            final(self).spec_zero() == old(self).spec_zero(),
            final(self).asked_after(old(self), visit_queries(states_of(old(self).spec_episode()))),
            ordered_keys::<S>() ==> touched_only(
                old(self).spec_table(),
                final(self).spec_table(),
                states_of(old(self).spec_episode()),
            ),
            exists|asked: Seq<Self>, alphas: Seq<V>|
                {
                    &&& #[trigger] old(self).answered(asked, alphas)
                    &&& ordered_keys::<S>() && arithmetic_exact::<V>() ==> learnt_episode(
                        old(self).spec_table(),
                        final(self).spec_table(),
                        old(self).spec_zero(),
                        old(self).spec_gamma(),
                        old(self).spec_episode(),
                        alphas,
                    )
                },
    {
        let l: usize = self.episode.len();
        let ghost queries = visit_queries(states_of(self.spec_episode()));
        let ghost mut asked: Seq<Self> = Seq::empty();
        let mut alphas: Vec<V> = Vec::new();
        let mut t: usize = 0;
        while t < l
            invariant
                t <= l,
                l == old(self).spec_episode().len(),
                queries == visit_queries(states_of(old(self).spec_episode())),
                alphas@.len() == t,
                asked.len() == t,
                self.same_but_scheduler(old(self)),
                self.asked_after(old(self), queries.subrange(0, t as int)),
                t == 0 ==> *self == *old(self),
                t > 0 ==> asked[0] == *old(self),
                forall|k: int|
                    0 <= k < t ==> {
                        &&& (#[trigger] asked[k]).same_but_scheduler(old(self))
                        &&& asked[k].asked_after(old(self), queries.subrange(0, k))
                        &&& asked[k].scheduler_gives(queries[k].0, queries[k].1, alphas@[k])
                    },
            decreases l - t,
        {
            let s: S = self.episode[t].0;
            proof {
                asked = asked.push(*self);
                assert(queries[t as int] == ((t + 1) as usize, s));
                assert(queries.subrange(0, t as int) + seq![((t + 1) as usize, s)]
                    =~= queries.subrange(0, t + 1));
            }
            let alpha: V = self.get_stepsize(t + 1, &s);
            proof {
                let account = old(self).scheduler_queries();
                assert((account + queries.subrange(0, t as int)) + seq![((t + 1) as usize, s)]
                    =~= account + queries.subrange(0, t + 1));
            }
            alphas.push(alpha);
            t += 1;
        }
        proof {
            assert(queries.subrange(0, l as int) =~= queries);
            assert(old(self).answered(asked, alphas@));
        }
        self.step_with(&alphas);
    }
}


/// One-step temporal-difference prediction: each transition moves the
/// estimate of its state toward the reward plus the discounted estimate
/// of the successor.
#[verifier::reject_recursive_types(S)]
#[verifier::reject_recursive_types(V)]
pub struct TD0<S, V> {
    value_function: BTreeMap<S, V>,
    stepsize_scheduler: Box<dyn StepsizeScheduler<S, V>>,
    gamma: V,
    zero: V,
    one_step: Option<(S, V, Option<S>)>,
    _count: usize,
}

impl<
    S: Ord + Copy,
    V: Copy + Default + Add<Output = V> + Sub<Output = V> + Mul<Output = V>,
> TD0<S, V> {
    pub closed spec fn spec_table(&self) -> Map<S, V> {
        self.value_function@
    }

    pub closed spec fn spec_gamma(&self) -> V {
        self.gamma
    }

    /// The value read for a state that the table does not hold.
    pub closed spec fn spec_zero(&self) -> V {
        self.zero
    }

    /// The transition that waits to be learnt from.
    pub closed spec fn spec_one_step(&self) -> Option<(S, V, Option<S>)> {
        self.one_step
    }

    /// The time index that the scheduler is asked with next: steps are
    /// counted from 1.
    pub closed spec fn spec_count(&self) -> usize {
        self._count
    }

    /// Table, discount, zero, pending transition and counter of `self`
    /// are those of `other`: at most the scheduler differs.
    pub open spec fn same_but_scheduler(&self, other: &Self) -> bool {
        &&& self.spec_table() == other.spec_table()
        &&& self.spec_gamma() == other.spec_gamma()
        &&& self.spec_zero() == other.spec_zero()
        &&& self.spec_one_step() == other.spec_one_step()
        &&& self.spec_count() == other.spec_count()
    }

    pub fn new(
        value_function: BTreeMap<S, V>,
        stepsize_scheduler: Box<dyn StepsizeScheduler<S, V>>,
        gamma: V,
    ) -> (r: Self)
        ensures
            r.spec_table() == value_function@,
            r.spec_gamma() == gamma,
            r.spec_one_step() is None,
            r.spec_count() == 1,
            call_ensures(V::default, (), r.spec_zero()),
    {
        TD0 {
            value_function,
            stepsize_scheduler,
            gamma,
            zero: V::default(),
            one_step: None,
            _count: 1,
        }
    }

    pub fn get_value(&self, s: &S) -> (r: Option<V>)
        ensures
            ordered_keys::<S>() ==> r == (if self.spec_table().contains_key(*s) {
                Some(self.spec_table()[*s])
            } else {
                None
            }),
    {
        match self.value_function.get(s) {
            Some(v) => Some(*v),
            None => None,
        }
    }

    /// Asks the scheduler for the learning rate of step `t` at state `s`.
    pub fn get_stepsize(&mut self, t: usize, s: &S) -> (r: V)
        ensures
            old(self).scheduler_gives(t, *s, r) && final(self).same_but_scheduler(old(self)),
            final(self).asked_after(old(self), seq![(t, *s)]),
    {
        let r = self.stepsize_scheduler.stepsize(t, s);
        proof {
            let account = old(self).scheduler_queries();
            assert(account.push((t, *s)) =~= account + seq![(t, *s)]);
        }
        r
    }

    pub fn update_value(&mut self, state: &S, value: V)
        ensures
            final(self).same_scheduler(old(self)),
            ordered_keys::<S>() ==> final(self).spec_table() == old(self).spec_table().insert(
                *state,
                value,
            ),
            final(self).spec_gamma() == old(self).spec_gamma(),
            final(self).spec_zero() == old(self).spec_zero(),
            final(self).spec_one_step() == old(self).spec_one_step(),
            final(self).spec_count() == old(self).spec_count(),
    {
        self.value_function.insert(*state, value);
    }

    pub fn get_count(&self) -> (r: usize)
        ensures
            r == self.spec_count(),
    {
        self._count
    }

    /// Loads the transition `(s, r, s_next)` in place of the one that
    /// waited before.
    pub fn update_one_step(&mut self, s: S, r: V, s_next: Option<S>)
        ensures
            final(self).spec_one_step() == Some((s, r, s_next)),
            final(self).same_scheduler(old(self)),
            final(self).spec_table() == old(self).spec_table(),
            final(self).spec_gamma() == old(self).spec_gamma(),
            final(self).spec_zero() == old(self).spec_zero(),
            final(self).spec_count() == old(self).spec_count(),
    {
        self.one_step = Some((s, r, s_next));
    }

    pub fn increment_count(&mut self)
        requires
            old(self).spec_count() < usize::MAX,
        ensures
            final(self).spec_count() == old(self).spec_count() + 1,
            final(self).spec_table() == old(self).spec_table(),
            final(self).same_scheduler(old(self)),
            final(self).spec_gamma() == old(self).spec_gamma(),
            final(self).spec_zero() == old(self).spec_zero(),
            final(self).spec_one_step() == old(self).spec_one_step(),
    {
        self._count += 1;
    }

    /// Sets the counter back to 1, for the first step of a new episode.
    pub fn reset_increment(&mut self)
        ensures
            final(self).spec_count() == 1,
            final(self).same_scheduler(old(self)),
            final(self).spec_table() == old(self).spec_table(),
            final(self).spec_gamma() == old(self).spec_gamma(),
            final(self).spec_zero() == old(self).spec_zero(),
            final(self).spec_one_step() == old(self).spec_one_step(),
    {
        self._count = 1;
    }

    /// Learns from the waiting transition with the learning rate `alpha`
    /// and takes the transition away; the counter grows by one.
    pub fn step_with(&mut self, alpha: V)
        requires
            old(self).spec_one_step() is Some,
            old(self).spec_count() < usize::MAX,
            transition_defined(
                old(self).spec_table(),
                old(self).spec_zero(),
                old(self).spec_gamma(),
                old(self).spec_one_step().unwrap().0,
                old(self).spec_one_step().unwrap().1,
                old(self).spec_one_step().unwrap().2,
                alpha,
            ),
        ensures
            final(self).spec_one_step() is None,
            final(self).spec_count() == old(self).spec_count() + 1,
            final(self).spec_gamma() == old(self).spec_gamma(),
            final(self).spec_zero() == old(self).spec_zero(),
            final(self).same_scheduler(old(self)),
            ordered_keys::<S>() ==> touched_only(
                old(self).spec_table(),
                final(self).spec_table(),
                seq![old(self).spec_one_step().unwrap().0],
            ),
            ordered_keys::<S>() && arithmetic_exact::<V>() ==> learnt_transition(
                old(self).spec_table(),
                final(self).spec_table(),
                old(self).spec_zero(),
                old(self).spec_gamma(),
                old(self).spec_one_step().unwrap(),
                alpha,
            ),
    {
        let (s, r, s_next) = self.one_step.unwrap();
        self.one_step = None;
        let v: V = match self.get_value(&s) {
            Some(v) => v,
            None => self.zero,
        };
        let next: Option<V> = match s_next {
            Some(s_next) => match self.get_value(&s_next) {
                Some(n) => Some(n),
                None => Some(self.zero),
            },
            None => None,
        };
        let delta: V = temporal_difference(r, self.gamma, next, v);
        let new_v: V = v + alpha * delta;
        self.update_value(&s, new_v);
        self.increment_count();
        proof {
            if ordered_keys::<S>() {
                let nothing: Seq<S> = Seq::empty();
                assert(touched_only(old(self).spec_table(), old(self).spec_table(), nothing));
                lemma_touched_one_more(
                    old(self).spec_table(),
                    old(self).spec_table(),
                    nothing,
                    s,
                    new_v,
                );
                assert(nothing.push(s) =~= seq![s]);
            }
        }
    }
}


/// `after` is `before` once the transition `one_step` has been learnt
/// from with the learning rate `alpha`.
pub open spec fn learnt_transition<S, V: Add<Output = V> + Sub<Output = V> + Mul<Output = V>>(
    before: Map<S, V>,
    after: Map<S, V>,
    zero: V,
    gamma: V,
    one_step: (S, V, Option<S>),
    alpha: V,
) -> bool {
    after == table_after_transition(before, zero, gamma, one_step.0, one_step.1, one_step.2, alpha)
}

impl<
    S: Ord + Copy,
    V: Copy + Default + Add<Output = V> + Sub<Output = V> + Mul<Output = V>,
> ValuePredictor<S, V> for TD0<S, V> {
    open spec fn spec_value_function(&self) -> Map<S, V> {
        self.spec_table()
    }

    /// A transition waits, the counter can still grow, and learning from
    /// the transition is defined with whatever learning rate the
    /// scheduler answers. The last is so wherever sums, differences and
    /// products of `V` are defined on all operands.
    open spec fn can_step(&self) -> bool {
        &&& self.spec_one_step() is Some
        &&& self.spec_count() < usize::MAX
        &&& forall|alpha: V| #[trigger]
            self.scheduler_gives(self.spec_count(), self.spec_one_step().unwrap().0, alpha)
                ==> transition_defined(
                self.spec_table(),
                self.spec_zero(),
                self.spec_gamma(),
                self.spec_one_step().unwrap().0,
                self.spec_one_step().unwrap().1,
                self.spec_one_step().unwrap().2,
                alpha,
            )
    }

    fn get_value_function(&self) -> (r: &BTreeMap<S, V>) {
        &self.value_function
    }

    /// Asks the scheduler for the learning rate at the counter and the
    /// state of the waiting transition, and learns from the transition
    /// with the rate that it answered. A scheduler that keeps account of
    /// its queries has been asked exactly this query afterwards, once.
    fn step(&mut self)
        ensures
            final(self).spec_one_step() is None,
            final(self).spec_count() == old(self).spec_count() + 1,
            final(self).spec_gamma() == old(self).spec_gamma(),
            final(self).spec_zero() == old(self).spec_zero(),
            final(self).asked_after(
                old(self),
                seq![(old(self).spec_count(), old(self).spec_one_step().unwrap().0)],
            ),
            ordered_keys::<S>() ==> touched_only(
                old(self).spec_table(),
                final(self).spec_table(),
                seq![old(self).spec_one_step().unwrap().0],
            ),
            exists|alpha: V|
                {
                    &&& #[trigger] old(self).scheduler_gives(
                        old(self).spec_count(),
                        old(self).spec_one_step().unwrap().0,
                        alpha,
                    )
                    &&& ordered_keys::<S>() && arithmetic_exact::<V>() ==> learnt_transition(
                        old(self).spec_table(),
                        final(self).spec_table(),
                        old(self).spec_zero(),
                        old(self).spec_gamma(),
                        old(self).spec_one_step().unwrap(),
                        alpha,
                    )
                },
    {
        let s: S = self.one_step.unwrap().0;
        let alpha: V = self.get_stepsize(self._count, &s);
        self.step_with(alpha);
        proof {
            assert(old(self).scheduler_gives(
                old(self).spec_count(),
                old(self).spec_one_step().unwrap().0,
                alpha,
            ));
        }
    }
}


impl<
    S: Ord + Copy,
    V: Copy + Default + Add<Output = V> + Sub<Output = V> + Mul<Output = V>,
> EveryvisitMC<S, V> {
    /// `alpha` is a learning rate that the scheduler of this predictor, as
    /// it stands, gives for the `t`-th step at state `s`. `get_stepsize`
    /// returns such a rate for the step and state that it is called with.
    pub closed spec fn scheduler_gives(&self, t: usize, s: S, alpha: V) -> bool {
        self.stepsize_scheduler.gives(t, s, alpha)
    }

    /// The scheduler of this predictor keeps account of its queries.
    pub closed spec fn scheduler_records(&self) -> bool {
        self.stepsize_scheduler.records()
    }

    /// The queries made so far of the scheduler of this predictor, where
    /// it keeps account of them.
    pub closed spec fn scheduler_queries(&self) -> Seq<(usize, S)> {
        self.stepsize_scheduler.queries()
    }

    /// Where the scheduler of `before` keeps account of its queries, the
    /// scheduler of `self` does so too, and its account is that of
    /// `before` followed by `more`.
    pub open spec fn asked_after(&self, before: &Self, more: Seq<(usize, S)>) -> bool {
        before.scheduler_records() ==> {
            &&& self.scheduler_records()
            &&& self.scheduler_queries() == before.scheduler_queries() + more
        }
    }

    /// The scheduler of `self` is the scheduler of `other`, unchanged.
    pub closed spec fn same_scheduler(&self, other: &Self) -> bool {
        self.stepsize_scheduler == other.stepsize_scheduler
    }

    /// The same scheduler gives the same rates and holds the same account.
    pub proof fn lemma_same_scheduler(&self, other: &Self)
        requires
            self.same_scheduler(other),
        ensures
            self.scheduler_records() == other.scheduler_records(),
            self.scheduler_queries() == other.scheduler_queries(),
            forall|t: usize, s: S, alpha: V|
                #[trigger] self.scheduler_gives(t, s, alpha) == other.scheduler_gives(t, s, alpha),
    {
    }

    /// `alphas` are answers of the scheduler to the queries of
    /// `visit_queries` for the loaded episode: the query for the visit at
    /// position `k` met the predictor as `asked[k]` and was answered with
    /// `alphas[k]`. The first query met the predictor as `self`; each met
    /// it with nothing but the scheduler changed and, where the scheduler
    /// keeps account, with exactly the queries for the visits before
    /// added to the account.
    pub open spec fn answered(&self, asked: Seq<Self>, alphas: Seq<V>) -> bool {
        let queries = visit_queries(states_of(self.spec_episode()));
        &&& asked.len() == self.spec_episode().len()
        &&& alphas.len() == self.spec_episode().len()
        &&& asked.len() > 0 ==> asked[0] == *self
        &&& forall|k: int|
            0 <= k < asked.len() ==> {
                &&& (#[trigger] asked[k]).same_but_scheduler(self)
                &&& asked[k].asked_after(self, queries.subrange(0, k))
                &&& asked[k].scheduler_gives(queries[k].0, queries[k].1, alphas[k])
            }
    }
}

impl<
    S: Ord + Copy,
    V: Copy + Default + Add<Output = V> + Sub<Output = V> + Mul<Output = V>,
> TD0<S, V> {
    /// `alpha` is a learning rate that the scheduler of this predictor, as
    /// it stands, gives for the `t`-th step at state `s`. `get_stepsize`
    /// returns such a rate for the step and state that it is called with.
    pub closed spec fn scheduler_gives(&self, t: usize, s: S, alpha: V) -> bool {
        self.stepsize_scheduler.gives(t, s, alpha)
    }

    /// The scheduler of this predictor keeps account of its queries.
    pub closed spec fn scheduler_records(&self) -> bool {
        self.stepsize_scheduler.records()
    }

    /// The queries made so far of the scheduler of this predictor, where
    /// it keeps account of them.
    pub closed spec fn scheduler_queries(&self) -> Seq<(usize, S)> {
        self.stepsize_scheduler.queries()
    }

    /// Where the scheduler of `before` keeps account of its queries, the
    /// scheduler of `self` does so too, and its account is that of
    /// `before` followed by `more`.
    pub open spec fn asked_after(&self, before: &Self, more: Seq<(usize, S)>) -> bool {
        before.scheduler_records() ==> {
            &&& self.scheduler_records()
            &&& self.scheduler_queries() == before.scheduler_queries() + more
        }
    }

    /// The scheduler of `self` is the scheduler of `other`, unchanged.
    pub closed spec fn same_scheduler(&self, other: &Self) -> bool {
        self.stepsize_scheduler == other.stepsize_scheduler
    }

    /// The same scheduler gives the same rates and holds the same account.
    pub proof fn lemma_same_scheduler(&self, other: &Self)
        requires
            self.same_scheduler(other),
        ensures
            self.scheduler_records() == other.scheduler_records(),
            self.scheduler_queries() == other.scheduler_queries(),
            forall|t: usize, s: S, alpha: V|
                #[trigger] self.scheduler_gives(t, s, alpha) == other.scheduler_gives(t, s, alpha),
    {
    }
}

} // verus!
