use rlai::learning::util::{ConstantStepsize, CountDecay, StepsizeScheduler};
use rlai::learning::value_prediction::{
    discounted_returns, move_toward, temporal_difference, EveryvisitMC, ValuePredictor, TD0,
};
use std::collections::BTreeMap;

/// Gives `c / t` and so shows which time index it was asked with.
struct InverseTime {
    c: f64,
}

impl StepsizeScheduler<char, f64> for InverseTime {
    fn stepsize(&mut self, t: usize, _s: &char) -> f64 {
        self.c / t as f64
    }
}

fn table(entries: &[(char, f64)]) -> BTreeMap<char, f64> {
    let mut t = BTreeMap::new();
    for (s, v) in entries {
        t.insert(*s, *v);
    }
    t
}

fn constant(c: f64) -> Box<ConstantStepsize<f64>> {
    Box::new(ConstantStepsize::new(c))
}

#[test]
fn constant_stepsize_ignores_time_and_state() {
    let mut s = ConstantStepsize::new(0.25);
    assert_eq!(StepsizeScheduler::<char, f64>::stepsize(&mut s, 1, &'a'), 0.25);
    assert_eq!(StepsizeScheduler::<char, f64>::stepsize(&mut s, 1000, &'b'), 0.25);
    assert_eq!(StepsizeScheduler::<char, f64>::stepsize(&mut s, 0, &'a'), 0.25);
}

#[test]
fn count_decay_counts_each_state_from_one() {
    let mut c: CountDecay<char, f64> = CountDecay::new(2.0);
    assert_eq!(c.get_c(), 2.0);
    assert_eq!(c.get_count(&'a'), 0);
    assert_eq!(c.count(&'a'), 1);
    assert_eq!(c.count(&'a'), 2);
    assert_eq!(c.count(&'b'), 1);
    assert_eq!(c.count(&'a'), 3);
    assert_eq!(c.get_count(&'a'), 3);
    assert_eq!(c.get_count(&'b'), 1);
    assert_eq!(c.get_c(), 2.0);
}

#[test]
fn returns_are_accumulated_backward() {
    let episode = vec![('a', 1.0), ('b', 2.0), ('c', 4.0)];
    assert_eq!(discounted_returns(&episode, 0.5, 0.0), vec![3.0, 4.0, 4.0]);
    assert_eq!(discounted_returns(&episode, 1.0, 0.0), vec![7.0, 6.0, 4.0]);
    assert_eq!(discounted_returns(&episode, 0.0, 0.0), vec![1.0, 2.0, 4.0]);
    let none: Vec<(char, f64)> = vec![];
    assert_eq!(discounted_returns(&none, 0.5, 0.0), vec![]);
}

#[test]
fn last_return_is_the_last_reward() {
    let episode = vec![('a', -1.5), ('b', 0.25), ('c', 8.0)];
    for gamma in [0.0, 0.3, 1.0] {
        let g = discounted_returns(&episode, gamma, 0.0);
        assert_eq!(g[2], 8.0);
        assert_eq!(g[1], g[2] * gamma + 0.25);
        assert_eq!(g[0], g[1] * gamma + -1.5);
    }
}

#[test]
fn returns_of_integer_rewards() {
    let episode: Vec<(char, i64)> = vec![('a', 1), ('b', 2), ('c', 4)];
    assert_eq!(discounted_returns(&episode, 3, 0), vec![43, 14, 4]);
}

#[test]
fn move_toward_goes_a_fraction_of_the_way() {
    assert_eq!(move_toward(1.0, 0.5, 3.0), 2.0);
    assert_eq!(move_toward(1.0, 0.0, 3.0), 1.0);
    assert_eq!(move_toward(1.0, 1.0, 3.0), 3.0);
    assert_eq!(move_toward(10i64, 2, 14), 18);
}

#[test]
fn temporal_difference_with_and_without_successor() {
    assert_eq!(temporal_difference(1.0, 0.5, Some(4.0), 2.0), 1.0);
    assert_eq!(temporal_difference(1.0, 0.5, None, 2.0), -1.0);
    assert_eq!(temporal_difference(0.0, 0.9, Some(0.0), 2.5), -2.5);
    assert_eq!(temporal_difference(3i64, 2, Some(5), 4), 9);
}

#[test]
fn chain_episode_with_constant_stepsize() {
    let mut mc = EveryvisitMC::new(table(&[('A', 0.0), ('B', 0.0)]), constant(0.5), 1.0);
    mc.update_episode(&[('A', 0.0), ('B', 1.0)]);
    mc.step();
    assert_eq!(mc.get_value_function(), &table(&[('A', 0.5), ('B', 0.5)]));
}

#[test]
fn chain_episode_with_half_discount() {
    let mut mc = EveryvisitMC::new(table(&[('A', 0.0), ('B', 0.0)]), constant(0.5), 0.5);
    mc.update_episode(&[('A', 0.0), ('B', 1.0)]);
    mc.step();
    assert_eq!(mc.get_value(&'A'), Some(0.25));
    assert_eq!(mc.get_value(&'B'), Some(0.5));
}

#[test]
fn single_visit_moves_one_entry_only() {
    let mut mc = EveryvisitMC::new(table(&[('s', 2.0), ('o', 7.0)]), constant(0.25), 0.9);
    mc.update_episode(&[('s', 6.0)]);
    mc.step();
    // v + alpha * (r - v) = 2 + 0.25 * (6 - 2)
    assert_eq!(mc.get_value_function(), &table(&[('s', 3.0), ('o', 7.0)]));
}

#[test]
fn each_visit_uses_its_own_return() {
    let mut mc = EveryvisitMC::new(BTreeMap::new(), constant(1.0), 1.0);
    mc.update_episode(&[('a', 1.0), ('b', 2.0), ('c', 4.0)]);
    mc.step();
    // with learning rate 1 every entry becomes the return of its visit
    assert_eq!(
        mc.get_value_function(),
        &table(&[('a', 7.0), ('b', 6.0), ('c', 4.0)])
    );
}

#[test]
fn revisited_state_is_updated_once_per_visit() {
    let mut mc = EveryvisitMC::new(BTreeMap::new(), constant(0.5), 1.0);
    mc.update_episode(&[('a', 1.0), ('b', 0.0), ('a', 3.0)]);
    mc.step();
    // first visit: 0 + 0.5 * (4 - 0) = 2; second visit: 2 + 0.5 * (3 - 2) = 2.5
    assert_eq!(mc.get_value(&'a'), Some(2.5));
    assert_eq!(mc.get_value(&'b'), Some(1.5));
}

#[test]
fn visits_are_counted_from_one() {
    let mut mc = EveryvisitMC::new(BTreeMap::new(), Box::new(InverseTime { c: 1.0 }), 0.0);
    mc.update_episode(&[('a', 8.0), ('b', 8.0), ('c', 8.0), ('d', 8.0)]);
    mc.step();
    assert_eq!(
        mc.get_value_function(),
        &table(&[('a', 8.0), ('b', 4.0), ('c', 8.0 / 3.0), ('d', 2.0)])
    );
}

#[test]
fn missing_entry_is_read_as_zero_and_then_written() {
    let mut mc = EveryvisitMC::new(BTreeMap::new(), constant(0.5), 1.0);
    assert_eq!(mc.get_value(&'x'), None);
    mc.update_episode(&[('x', 3.0)]);
    mc.step();
    assert_eq!(mc.get_value(&'x'), Some(1.5));
    assert_eq!(mc.get_value_function().len(), 1);
}

#[test]
fn loaded_episode_replaces_the_one_before_and_stays() {
    let mut mc = EveryvisitMC::new(BTreeMap::new(), constant(1.0), 1.0);
    mc.update_episode(&[('a', 1.0), ('b', 1.0)]);
    mc.update_episode(&[('c', 5.0)]);
    mc.step();
    assert_eq!(mc.get_value_function(), &table(&[('c', 5.0)]));
    mc.update_value(&'c', 1.0);
    mc.step();
    assert_eq!(mc.get_value(&'c'), Some(5.0));
}

#[test]
fn mc_get_stepsize_and_update_value() {
    let mut mc = EveryvisitMC::new(table(&[('a', 1.0)]), Box::new(InverseTime { c: 3.0 }), 1.0);
    assert_eq!(mc.get_stepsize(6, &'a'), 0.5);
    mc.update_value(&'a', 9.0);
    mc.update_value(&'b', -1.0);
    assert_eq!(mc.get_value_function(), &table(&[('a', 9.0), ('b', -1.0)]));
}

#[test]
fn td0_terminal_transition_uses_the_reward_alone() {
    let mut td = TD0::new(table(&[('s', 1.0), ('n', 100.0)]), constant(0.5), 0.9);
    td.update_one_step('s', 3.0, None);
    td.step();
    // delta = r - v = 2, v + alpha * delta = 1 + 0.5 * 2
    assert_eq!(td.get_value_function(), &table(&[('s', 2.0), ('n', 100.0)]));
}

#[test]
fn td0_bootstraps_from_the_successor() {
    let mut td = TD0::new(table(&[('s', 1.0), ('n', 4.0)]), constant(0.5), 0.5);
    td.update_one_step('s', 3.0, Some('n'));
    td.step();
    // delta = 3 + 0.5 * 4 - 1 = 4, v + alpha * delta = 1 + 0.5 * 4
    assert_eq!(td.get_value_function(), &table(&[('s', 3.0), ('n', 4.0)]));
}

#[test]
fn td0_zero_reward_and_zero_successor_pull_toward_zero() {
    for gamma in [0.0, 0.5, 1.0] {
        let mut td = TD0::new(table(&[('s', 8.0), ('n', 0.0)]), constant(0.25), gamma);
        td.update_one_step('s', 0.0, Some('n'));
        td.step();
        // delta = -v
        assert_eq!(td.get_value(&'s'), Some(6.0));
        // a successor without entry counts as zero too
        let mut td = TD0::new(table(&[('s', 8.0)]), constant(0.25), gamma);
        td.update_one_step('s', 0.0, Some('n'));
        td.step();
        assert_eq!(td.get_value_function(), &table(&[('s', 6.0)]));
    }
}

#[test]
fn td0_counter_starts_at_one_and_counts_steps() {
    let mut td = TD0::new(BTreeMap::new(), constant(1.0), 0.5);
    assert_eq!(td.get_count(), 1);
    td.update_one_step('a', 1.0, None);
    assert_eq!(td.get_count(), 1);
    td.step();
    assert_eq!(td.get_count(), 2);
    td.increment_count();
    assert_eq!(td.get_count(), 3);
    td.reset_increment();
    assert_eq!(td.get_count(), 1);
}

#[test]
fn fresh_td0_asks_first_with_index_one() {
    let mut td = TD0::new(BTreeMap::new(), Box::new(InverseTime { c: 1.0 }), 1.0);
    td.update_one_step('a', 2.0, None);
    td.step();
    // alpha = 1 / 1
    assert_eq!(td.get_value(&'a'), Some(2.0));
    td.update_one_step('b', 2.0, None);
    td.step();
    // alpha = 1 / 2
    assert_eq!(td.get_value(&'b'), Some(1.0));
}

#[test]
fn td0_asks_the_scheduler_with_its_counter() {
    let mut td = TD0::new(BTreeMap::new(), Box::new(InverseTime { c: 1.0 }), 0.5);
    td.reset_increment();
    td.update_one_step('a', 2.0, None);
    td.step();
    assert_eq!(td.get_value(&'a'), Some(2.0));
    td.update_one_step('b', 0.0, Some('a'));
    td.step();
    // alpha = 1 / 2, delta = 0 + 0.5 * 2 - 0
    assert_eq!(td.get_value(&'b'), Some(0.5));
    td.reset_increment();
    td.update_one_step('c', 6.0, None);
    td.step();
    assert_eq!(td.get_value(&'c'), Some(6.0));
    assert_eq!(td.get_stepsize(4, &'a'), 0.25);
}

#[test]
fn td0_loaded_transition_replaces_the_one_before() {
    let mut td = TD0::new(BTreeMap::new(), constant(1.0), 1.0);
    td.update_one_step('a', 1.0, None);
    td.update_one_step('b', 2.0, None);
    td.step();
    assert_eq!(td.get_value_function(), &table(&[('b', 2.0)]));
    td.update_value(&'b', 0.0);
    assert_eq!(td.get_value(&'b'), Some(0.0));
}

#[test]
fn mc_step_with_takes_one_rate_per_visit() {
    let mut mc = EveryvisitMC::new(table(&[('a', 1.0)]), constant(0.0), 0.5);
    mc.update_episode(&[('a', 2.0), ('b', 4.0), ('a', 8.0)]);
    // returns: 6, 8, 8
    mc.step_with(&vec![1.0, 0.5, 0.25]);
    // a: 1 -> 6 -> 6 + 0.25 * (8 - 6); b: 0 -> 4
    assert_eq!(mc.get_value_function(), &table(&[('a', 6.5), ('b', 4.0)]));
}

#[test]
fn mc_step_with_on_integers() {
    let mut t: BTreeMap<char, i64> = BTreeMap::new();
    t.insert('a', 10);
    let mut mc = EveryvisitMC::new(t, Box::new(ConstantStepsize::new(1i64)), 2);
    mc.update_episode(&[('a', 1), ('b', 3)]);
    // returns: 7, 3
    mc.step_with(&vec![2, 1]);
    // a: 10 + 2 * (7 - 10); b: 0 + 1 * (3 - 0)
    assert_eq!(mc.get_value(&'a'), Some(4));
    assert_eq!(mc.get_value(&'b'), Some(3));
    mc.step_with(&vec![1, 1]);
    assert_eq!(mc.get_value(&'a'), Some(7));
    assert_eq!(mc.get_value(&'b'), Some(3));
}

#[test]
fn td0_step_with_takes_the_rate() {
    let mut td = TD0::new(table(&[('s', 1.0), ('n', 4.0)]), constant(0.0), 0.5);
    td.update_one_step('s', 3.0, Some('n'));
    td.step_with(0.25);
    // delta = 3 + 0.5 * 4 - 1 = 4
    assert_eq!(td.get_value_function(), &table(&[('s', 2.0), ('n', 4.0)]));
    assert_eq!(td.get_count(), 2);
    td.update_one_step('n', -4.0, None);
    td.step_with(0.5);
    // delta = -4 - 4
    assert_eq!(td.get_value(&'n'), Some(0.0));
    assert_eq!(td.get_count(), 3);
}

#[test]
fn unit_rate_leaves_each_state_with_its_return() {
    for gamma in [0.0, 0.5, 1.0] {
        let mut mc = EveryvisitMC::new(table(&[('b', 0.0)]), constant(1.0), gamma);
        mc.update_episode(&[('a', 1.0), ('b', -2.0), ('c', 4.0)]);
        mc.step();
        let v = mc.get_value_function();
        assert_eq!(v[&'c'], 4.0);
        assert_eq!(v[&'b'], v[&'c'] * gamma + -2.0);
        assert_eq!(v[&'a'], v[&'b'] * gamma + 1.0);
        assert_eq!(v.len(), 3);
    }
}

#[test]
fn td0_terminal_step_reads_neither_discount_nor_other_entries() {
    let mut one = TD0::new(table(&[('s', 2.0), ('x', 9.0)]), constant(0.5), 0.1);
    let mut other = TD0::new(table(&[('s', 2.0), ('y', -7.0)]), constant(0.5), 0.9);
    one.update_one_step('s', 6.0, None);
    other.update_one_step('s', 6.0, None);
    one.step();
    other.step();
    assert_eq!(one.get_value(&'s'), Some(4.0));
    assert_eq!(other.get_value(&'s'), Some(4.0));
    assert_eq!(one.get_value(&'x'), Some(9.0));
    assert_eq!(other.get_value(&'y'), Some(-7.0));
}

#[test]
fn td0_step_on_a_transition_to_the_same_state() {
    let mut td = TD0::new(table(&[('s', 2.0)]), constant(0.5), 0.5);
    td.update_one_step('s', 1.0, Some('s'));
    td.step();
    // delta = 1 + 0.5 * 2 - 2 = 0
    assert_eq!(td.get_value(&'s'), Some(2.0));
    td.update_one_step('s', 3.0, Some('s'));
    td.step();
    // delta = 3 + 0.5 * 2 - 2 = 2
    assert_eq!(td.get_value(&'s'), Some(3.0));
}

/// Keeps every query that it is asked, and answers `1 / t`.
struct Recorder {
    asked: std::rc::Rc<std::cell::RefCell<Vec<(usize, char)>>>,
}

impl StepsizeScheduler<char, f64> for Recorder {
    fn stepsize(&mut self, t: usize, s: &char) -> f64 {
        self.asked.borrow_mut().push((t, *s));
        1.0 / t as f64
    }
}

#[test]
fn mc_step_asks_once_per_visit_in_order_from_one() {
    let asked = std::rc::Rc::new(std::cell::RefCell::new(Vec::new()));
    let mut mc = EveryvisitMC::new(
        table(&[]),
        Box::new(Recorder { asked: asked.clone() }),
        1.0,
    );
    mc.update_episode(&[('a', 1.0), ('b', 0.0), ('a', 3.0)]);
    mc.step();
    assert_eq!(*asked.borrow(), vec![(1, 'a'), (2, 'b'), (3, 'a')]);
    // a: 0 + 1 * (4 - 0) = 4, then 4 + (3 - 4) / 3; b: 0 + (3 - 0) / 2
    assert_eq!(mc.get_value(&'a'), Some(4.0 + (3.0 - 4.0) / 3.0));
    assert_eq!(mc.get_value(&'b'), Some(1.5));
}

#[test]
fn td0_step_asks_once_with_counter_and_state() {
    let asked = std::rc::Rc::new(std::cell::RefCell::new(Vec::new()));
    let mut td = TD0::new(
        table(&[('n', 8.0)]),
        Box::new(Recorder { asked: asked.clone() }),
        0.5,
    );
    td.update_one_step('s', 2.0, Some('n'));
    td.step();
    td.update_one_step('n', 0.0, None);
    td.step();
    assert_eq!(*asked.borrow(), vec![(1, 's'), (2, 'n')]);
    // s: 0 + 1 * (2 + 0.5 * 8 - 0); n: 8 + (0 - 8) / 2
    assert_eq!(td.get_value(&'s'), Some(6.0));
    assert_eq!(td.get_value(&'n'), Some(4.0));
    assert_eq!(td.get_count(), 3);
}
