use rlai::base::policy::{EpsilonGreedyValuePolicy, GreedyValuePolicy, Policy};
use rlai::base::process::MarkovDecisionProcess;
use rlai::env::grid_world::{GridWorld, GridWorldAction};
use std::collections::BTreeMap;

/// Two states in a row: the only action leads from 0 to 1, where the
/// trajectory ends.
struct Chain;

impl MarkovDecisionProcess<u8, char> for Chain {
    type Reward = f64;

    fn states(&self) -> Vec<u8> {
        vec![0, 1]
    }

    fn actions(&self) -> Vec<char> {
        vec!['a']
    }

    fn actions_at(&self, state: &u8) -> Vec<char> {
        if *state == 0 {
            vec!['a']
        } else {
            vec![]
        }
    }

    fn reward(&self, state: &u8, _action: &char) -> f64 {
        if *state == 0 {
            1.0
        } else {
            0.0
        }
    }

    fn transition(&self, state: &u8, _action: &char) -> Option<u8> {
        if *state == 0 {
            Some(1)
        } else {
            None
        }
    }
}

fn open_world() -> GridWorld {
    GridWorld::new(3, 3, (0, 0), (2, 2), vec![])
}

fn table(entries: &[((usize, usize), f64)]) -> BTreeMap<(usize, usize), f64> {
    let mut t = BTreeMap::new();
    for (s, v) in entries {
        t.insert(*s, *v);
    }
    t
}

#[test]
fn no_action_where_none_is_legal() {
    let chain = Chain;
    let greedy: GreedyValuePolicy<u8, char, f64, Chain> =
        GreedyValuePolicy::new(&chain, BTreeMap::new());
    assert_eq!(greedy.gen_action(&1), None);
    assert_eq!(greedy.gen_action(&0), Some('a'));
    let eps: EpsilonGreedyValuePolicy<u8, char, f64, Chain> =
        EpsilonGreedyValuePolicy::new(&chain, BTreeMap::new(), 0.1);
    assert_eq!(eps.gen_action_with(&1, true), None);
    assert_eq!(eps.gen_action_with(&1, false), None);
    assert_eq!(eps.explore(&1), None);
    assert_eq!(eps.exploit(&1), None);
    assert_eq!(chain.step(&0, &'a'), (Some(1), 1.0));
}

#[test]
fn greedy_picks_the_greatest_lookahead() {
    let g = open_world();
    // at (1, 1) the legal actions are Left, Right, Up, Down
    let t = table(&[((0, 1), 0.1), ((2, 1), 0.7), ((1, 2), 0.3), ((1, 0), -0.2)]);
    let p = GreedyValuePolicy::new(&g, t);
    for _ in 0..50 {
        assert_eq!(p.gen_action(&(1, 1)), Some(GridWorldAction::Right));
    }
}

#[test]
fn greedy_reads_missing_entries_and_missing_successors_as_zero() {
    let g = open_world();
    // at (0, 0): Right leads to (1, 0), Up to (0, 1)
    let p = GreedyValuePolicy::new(&g, table(&[((1, 0), -1.0)]));
    for _ in 0..50 {
        assert_eq!(p.gen_action(&(0, 0)), Some(GridWorldAction::Up));
    }
    // from the goal no action has a successor: every lookahead is zero
    let q = GreedyValuePolicy::new(&g, table(&[((2, 1), 5.0), ((1, 2), 5.0)]));
    let a = q.gen_action(&(2, 2)).unwrap();
    assert!(a == GridWorldAction::Left || a == GridWorldAction::Down);
}

#[test]
fn greedy_breaks_ties_at_random() {
    let g = open_world();
    let p = GreedyValuePolicy::new(&g, table(&[((1, 0), 0.5), ((0, 1), 0.5)]));
    let mut right = 0;
    let mut up = 0;
    for _ in 0..2000 {
        match p.gen_action(&(0, 0)) {
            Some(GridWorldAction::Right) => right += 1,
            Some(GridWorldAction::Up) => up += 1,
            other => panic!("not a legal action at the corner: {:?}", other),
        }
    }
    assert_eq!(right + up, 2000);
    assert!(right > 800, "Right was picked {right} times of 2000");
    assert!(up > 800, "Up was picked {up} times of 2000");
}

#[test]
fn greedy_never_picks_outside_the_tie() {
    let g = open_world();
    // at (1, 1): Left and Up tie at the top, Right and Down are below
    let t = table(&[((0, 1), 0.9), ((1, 2), 0.9), ((2, 1), 0.1), ((1, 0), 0.8)]);
    let p = GreedyValuePolicy::new(&g, t);
    let mut left = 0;
    let mut up = 0;
    for _ in 0..400 {
        match p.gen_action(&(1, 1)) {
            Some(GridWorldAction::Left) => left += 1,
            Some(GridWorldAction::Up) => up += 1,
            other => panic!("picked below the maximum: {:?}", other),
        }
    }
    assert!(left > 100 && up > 100);
}

#[test]
fn greedy_getters() {
    let g = open_world();
    let t = table(&[((1, 0), 0.5)]);
    let p = GreedyValuePolicy::new(&g, t.clone());
    assert_eq!(p.get_value_function(), &t);
    assert_eq!(p.get_mdp().get_goal_state(), (2, 2));
}

#[test]
fn exploit_takes_the_first_of_the_greatest() {
    let g = open_world();
    // at (1, 1) the legal actions are Left, Right, Up, Down
    let tie = table(&[((0, 1), 0.2), ((2, 1), 0.9), ((1, 2), 0.9), ((1, 0), 0.9)]);
    let p = EpsilonGreedyValuePolicy::new(&g, tie, 0.0);
    for _ in 0..20 {
        assert_eq!(p.exploit(&(1, 1)), Some(GridWorldAction::Right));
        assert_eq!(p.gen_action_with(&(1, 1), false), Some(GridWorldAction::Right));
    }
    let all_equal = EpsilonGreedyValuePolicy::new(&g, BTreeMap::new(), 0.0);
    assert_eq!(all_equal.gen_action_with(&(1, 1), false), Some(GridWorldAction::Left));
    assert_eq!(all_equal.gen_action_with(&(0, 0), false), Some(GridWorldAction::Right));
}

#[test]
fn successful_sample_explores_every_legal_action() {
    let g = open_world();
    let t = table(&[((0, 1), 0.2), ((2, 1), 0.9), ((1, 2), 0.1), ((1, 0), 0.0)]);
    let p = EpsilonGreedyValuePolicy::new(&g, t, 1.0);
    let mut seen = [0usize; 4];
    for _ in 0..2000 {
        match p.gen_action_with(&(1, 1), true) {
            Some(GridWorldAction::Left) => seen[0] += 1,
            Some(GridWorldAction::Right) => seen[1] += 1,
            Some(GridWorldAction::Up) => seen[2] += 1,
            Some(GridWorldAction::Down) => seen[3] += 1,
            None => panic!("an action is legal at (1, 1)"),
        }
    }
    for n in seen {
        assert!(n > 300, "an action was explored only {n} times of 2000");
    }
}

#[test]
fn turned_off_policy_ignores_the_sample() {
    let g = open_world();
    let t = table(&[((0, 1), 0.2), ((2, 1), 0.1), ((1, 2), 0.9), ((1, 0), 0.0)]);
    let mut p = EpsilonGreedyValuePolicy::new(&g, t, 1.0);
    assert!(p.is_random());
    p.turn_off_random();
    assert!(!p.is_random());
    for _ in 0..200 {
        assert_eq!(p.gen_action_with(&(1, 1), true), Some(GridWorldAction::Up));
        assert_eq!(p.gen_action_with(&(1, 1), false), Some(GridWorldAction::Up));
    }
    assert_eq!(p.get_epsilon(), 1.0);
}

#[test]
fn update_value_function_replaces_the_whole_table() {
    let g = open_world();
    let first = table(&[((0, 1), 0.2), ((2, 1), 0.1)]);
    let second = table(&[((1, 0), 3.0)]);
    let mut p = EpsilonGreedyValuePolicy::new(&g, first.clone(), 0.25);
    assert_eq!(p.get_value_function(), &first);
    p.update_value_function(&second);
    assert_eq!(p.get_value_function(), &second);
    assert_eq!(p.get_value_function().get(&(0, 1)), None);
    assert_eq!(p.get_epsilon(), 0.25);
    assert!(p.is_random());
    assert_eq!(p.get_mdp().get_num_x(), 3);
    // the policy holds a copy: the table handed in can change without it
    let mut third = second.clone();
    third.insert((1, 0), -3.0);
    assert_eq!(p.get_value_function().get(&(1, 0)), Some(&3.0));
    assert_eq!(p.gen_action_with(&(0, 0), false), Some(GridWorldAction::Right));
}

#[test]
fn policies_work_on_integer_values() {
    let g = open_world();
    let mut t: BTreeMap<(usize, usize), i64> = BTreeMap::new();
    t.insert((1, 0), -4);
    t.insert((0, 1), 3);
    let p = EpsilonGreedyValuePolicy::new(&g, t.clone(), 0);
    assert_eq!(p.gen_action_with(&(0, 0), false), Some(GridWorldAction::Up));
    let q = GreedyValuePolicy::new(&g, t);
    assert_eq!(q.gen_action(&(0, 0)), Some(GridWorldAction::Up));
}
