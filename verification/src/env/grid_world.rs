use crate::base::process::MarkovDecisionProcess;
use vstd::arithmetic::div_mod::lemma_fundamental_div_mod_converse;
use vstd::prelude::*;

verus! {

/// A rectangular grid of `num_x` by `num_y` cells with one goal cell and a
/// list of terminal cells. A cell is a pair `(x, y)`.
#[derive(Debug)]
pub struct GridWorld {
    num_x: usize,
    num_y: usize,
    current_state: (usize, usize),
    goal_state: (usize, usize),
    terminal_states: Vec<(usize, usize)>,
}

#[derive(Debug, Clone, Copy, PartialEq, Eq, Structural)]
pub enum GridWorldAction {
    Up,
    Down,
    Left,
    Right,
}

/// The legal moves at `state` in a grid whose largest coordinates are
/// `x_max` and `y_max`: the left column first, then the right column,
/// then the inner columns, each split by bottom row, top row and the rest.
pub open spec fn grid_actions_at(x_max: int, y_max: int, state: (usize, usize)) -> Seq<
    GridWorldAction,
> {
    let (x, y) = state;
    if x == 0 {
        if y == 0 {
            seq![GridWorldAction::Right, GridWorldAction::Up]
        } else if y == y_max {
            seq![GridWorldAction::Right, GridWorldAction::Down]
        } else {
            seq![GridWorldAction::Right, GridWorldAction::Up, GridWorldAction::Down]
        }
    } else if x == x_max {
        if y == 0 {
            seq![GridWorldAction::Left, GridWorldAction::Up]
        } else if y == y_max {
            seq![GridWorldAction::Left, GridWorldAction::Down]
        } else {
            seq![GridWorldAction::Left, GridWorldAction::Up, GridWorldAction::Down]
        }
    } else {
        if y == 0 {
            seq![GridWorldAction::Left, GridWorldAction::Right, GridWorldAction::Up]
        } else if y == y_max {
            seq![GridWorldAction::Left, GridWorldAction::Right, GridWorldAction::Down]
        } else {
            seq![
                GridWorldAction::Left,
                GridWorldAction::Right,
                GridWorldAction::Up,
                GridWorldAction::Down,
            ]
        }
    }
}

/// The cell reached from `state` by `action`, or `None` where the move
/// would leave a grid whose largest coordinates are `x_max` and `y_max`.
pub open spec fn grid_move(x_max: int, y_max: int, state: (usize, usize), action: GridWorldAction)
    -> Option<(int, int)> {
    let (x, y) = state;
    match action {
        GridWorldAction::Up => if y == y_max {
            None
        } else {
            Some((x as int, y + 1))
        },
        GridWorldAction::Down => if y == 0 {
            None
        } else {
            Some((x as int, y - 1))
        },
        GridWorldAction::Left => if x == 0 {
            None
        } else {
            Some((x - 1, y as int))
        },
        GridWorldAction::Right => if x == x_max {
            None
        } else {
            Some((x + 1, y as int))
        },
    }
}

impl GridWorld {
    pub closed spec fn spec_num_x(&self) -> usize {
        self.num_x
    }

    pub closed spec fn spec_num_y(&self) -> usize {
        self.num_y
    }

    pub closed spec fn spec_current_state(&self) -> (usize, usize) {
        self.current_state
    }

    pub closed spec fn spec_goal_state(&self) -> (usize, usize) {
        self.goal_state
    }

    pub closed spec fn spec_terminal_states(&self) -> Seq<(usize, usize)> {
        self.terminal_states@
    }

    /// No move is made from `state`: it is the goal or a terminal cell.
    pub open spec fn absorbing(&self, state: (usize, usize)) -> bool {
        self.spec_terminal_states().contains(state) || self.spec_goal_state() == state
    }

    pub fn new(
        num_x: usize,
        num_y: usize,
        current_state: (usize, usize),
        goal_state: (usize, usize),
        terminal_states: Vec<(usize, usize)>,
    ) -> (r: Self)
        ensures
            r.spec_num_x() == num_x,
            r.spec_num_y() == num_y,
            r.spec_current_state() == current_state,
            r.spec_goal_state() == goal_state,
            r.spec_terminal_states() == terminal_states@,
    {
        GridWorld { num_x, num_y, current_state, goal_state, terminal_states }
    }

    pub fn get_num_x(&self) -> (r: usize)
        ensures
            r == self.spec_num_x(),
    {
        self.num_x
    }

    pub fn get_num_y(&self) -> (r: usize)
        ensures
            r == self.spec_num_y(),
    {
        self.num_y
    }

    pub fn get_current_state(&self) -> (r: (usize, usize))
        ensures
            r == self.spec_current_state(),
    {
        self.current_state
    }

    pub fn get_goal_state(&self) -> (r: (usize, usize))
        ensures
            r == self.spec_goal_state(),
    {
        self.goal_state
    }

    pub fn get_terminal_states(&self) -> (r: Vec<(usize, usize)>)
        ensures
            r@ == self.spec_terminal_states(),
    {
        let mut out: Vec<(usize, usize)> = Vec::new();
        let mut i: usize = 0;
        while i < self.terminal_states.len()
            invariant
                i <= self.terminal_states.len(),
                out@ == self.terminal_states@.subrange(0, i as int),
            decreases self.terminal_states.len() - i,
        {
            out.push(self.terminal_states[i]);
            i += 1;
            assert(out@ =~= self.terminal_states@.subrange(0, i as int));
        }
        assert(self.terminal_states@.subrange(0, i as int) =~= self.terminal_states@);
        out
    }

    /// Whether the grid has at least one column and one row, so that the
    /// legal actions at a cell can be listed.
    pub fn is_wf(&self) -> (r: bool)
        ensures
            r == self.wf(),
    {
        self.num_x >= 1 && self.num_y >= 1
    }

    /// Whether reward and successor are defined for `action` taken from
    /// `state`.
    pub fn is_defined_at(&self, state: &(usize, usize), action: &GridWorldAction) -> (r: bool)
        ensures
            r == self.defined_at(*state, *action),
    {
        if self.is_terminal(state) || (self.goal_state.0 == state.0 && self.goal_state.1
            == state.1) {
            return true;
        }
        if self.num_x == 0 || self.num_y == 0 {
            return false;
        }
        match action {
            GridWorldAction::Up => state.1 == self.num_y - 1 || state.1 < usize::MAX,
            GridWorldAction::Right => state.0 == self.num_x - 1 || state.0 < usize::MAX,
            _ => true,
        }
    }

    /// Whether `state` is listed among the terminal cells.
    fn is_terminal(&self, state: &(usize, usize)) -> (r: bool)
        ensures
            r == self.spec_terminal_states().contains(*state),
    {
        let mut i: usize = 0;
        while i < self.terminal_states.len()
            invariant
                i <= self.terminal_states.len(),
                !self.terminal_states@.subrange(0, i as int).contains(*state),
            decreases self.terminal_states.len() - i,
        {
            let t: (usize, usize) = self.terminal_states[i];
            if t.0 == state.0 && t.1 == state.1 {
                assert(self.terminal_states@[i as int] == *state);
                return true;
            }
            assert forall|j: int| 0 <= j < i + 1 implies self.terminal_states@[j] != *state by {
                if j < i {
                    assert(self.terminal_states@.subrange(0, i as int)[j]
                        == self.terminal_states@[j]);
                }
            }
            i += 1;
        }
        assert(self.terminal_states@.subrange(0, i as int) =~= self.terminal_states@);
        false
    }
}

impl MarkovDecisionProcess<(usize, usize), GridWorldAction> for GridWorld {
    /// `1` for a move onto the goal, `0` for any other move, `-1` where no
    /// move is made.
    type Reward = i64;

    /// The grid has at least one column and one row.
    open spec fn wf(&self) -> bool {
        self.spec_num_x() >= 1 && self.spec_num_y() >= 1
    }

    /// `state` is absorbing, or the grid is non-empty and a step up or to
    /// the right from `state` stays within machine integers.
    open spec fn defined_at(&self, state: (usize, usize), action: GridWorldAction) -> bool {
        self.absorbing(state) || (self.wf() && match action {
            GridWorldAction::Up => state.1 == self.spec_num_y() - 1 || state.1 < usize::MAX,
            GridWorldAction::Right => state.0 == self.spec_num_x() - 1 || state.0 < usize::MAX,
            _ => true,
        })
    }

    /// All cells, column by column, each column from the bottom row up.
    open spec fn spec_states(&self) -> Seq<(usize, usize)> {
        Seq::new(
            (self.spec_num_x() * self.spec_num_y()) as nat,
            |i: int| ((i / self.spec_num_y() as int) as usize, (i % self.spec_num_y() as int) as usize),
        )
    }

    open spec fn spec_actions(&self) -> Seq<GridWorldAction> {
        seq![
            GridWorldAction::Up,
            GridWorldAction::Down,
            GridWorldAction::Left,
            GridWorldAction::Right,
        ]
    }

    open spec fn spec_actions_at(&self, state: (usize, usize)) -> Seq<GridWorldAction> {
        grid_actions_at(self.spec_num_x() - 1, self.spec_num_y() - 1, state)
    }

    open spec fn spec_reward(&self, state: (usize, usize), action: GridWorldAction) -> i64 {
        match self.spec_transition(state, action) {
            Some(next) => if next == self.spec_goal_state() {
                1i64
            } else {
                0i64
            },
            None => -1i64,
        }
    }

    /// Nothing from an absorbing cell; elsewhere the neighbouring cell, or
    /// nothing where the move would leave the grid.
    open spec fn spec_transition(&self, state: (usize, usize), action: GridWorldAction) -> Option<
        (usize, usize),
    > {
        if self.absorbing(state) {
            None
        } else {
            match grid_move(self.spec_num_x() - 1, self.spec_num_y() - 1, state, action) {
                Some((x, y)) => Some((x as usize, y as usize)),
                None => None,
            }
        }
    }

    fn states(&self) -> (r: Vec<(usize, usize)>) {
        let mut states: Vec<(usize, usize)> = Vec::new();
        let ghost ny: int = self.num_y as int;
        let mut x: usize = 0;
        while x < self.num_x
            invariant
                x <= self.num_x,
                ny == self.num_y,
                states@.len() == x * ny,
                forall|i: int|
                    0 <= i < states@.len() ==> states@[i] == ((i / ny) as usize, (i % ny) as usize),
            decreases self.num_x - x,
        {
            let mut y: usize = 0;
            while y < self.num_y
                invariant
                    x < self.num_x,
                    y <= self.num_y,
                    ny == self.num_y,
                    states@.len() == x * ny + y,
                    forall|i: int|
                        0 <= i < states@.len() ==> states@[i] == (
                            (i / ny) as usize,
                            (i % ny) as usize,
                        ),
                decreases self.num_y - y,
            {
                proof {
                    lemma_fundamental_div_mod_converse(x * ny + y, ny, x as int, y as int);
                }
                states.push((x, y));
                y += 1;
            }
            assert(x * ny + ny == (x + 1) * ny) by (nonlinear_arith);
            x += 1;
        }
        assert(states@.len() == self.num_x * self.num_y);
        assert(states@ =~= self.spec_states());
        states
    }

    fn actions(&self) -> (r: Vec<GridWorldAction>) {
        let r = vec![
            GridWorldAction::Up,
            GridWorldAction::Down,
            GridWorldAction::Left,
            GridWorldAction::Right,
        ];
        assert(r@ =~= self.spec_actions());
        r
    }

    fn actions_at(&self, state: &(usize, usize)) -> (r: Vec<GridWorldAction>) {
        let x_max: usize = self.num_x - 1;
        let y_max: usize = self.num_y - 1;
        let (x, y) = *state;
        let r = if x == 0 {
            if y == 0 {
                vec![GridWorldAction::Right, GridWorldAction::Up]
            } else if y == y_max {
                vec![GridWorldAction::Right, GridWorldAction::Down]
            } else {
                vec![GridWorldAction::Right, GridWorldAction::Up, GridWorldAction::Down]
            }
        } else if x == x_max {
            if y == 0 {
                vec![GridWorldAction::Left, GridWorldAction::Up]
            } else if y == y_max {
                vec![GridWorldAction::Left, GridWorldAction::Down]
            } else {
                vec![GridWorldAction::Left, GridWorldAction::Up, GridWorldAction::Down]
            }
        } else {
            if y == 0 {
                vec![GridWorldAction::Left, GridWorldAction::Right, GridWorldAction::Up]
            } else if y == y_max {
                vec![GridWorldAction::Left, GridWorldAction::Right, GridWorldAction::Down]
            } else {
                vec![
                    GridWorldAction::Left,
                    GridWorldAction::Right,
                    GridWorldAction::Up,
                    GridWorldAction::Down,
                ]
            }
        };
        assert(r@ =~= self.spec_actions_at(*state));
        r
    }

    fn reward(&self, state: &(usize, usize), action: &GridWorldAction) -> (r: i64) {
        match self.transition(state, action) {
            Some(next_state) => {
                if next_state.0 == self.goal_state.0 && next_state.1 == self.goal_state.1 {
                    1
                } else {
                    0
                }
            },
            None => -1,
        }
    }

    fn transition(&self, state: &(usize, usize), action: &GridWorldAction) -> (r: Option<
        (usize, usize),
    >) {
        if self.is_terminal(state) || (self.goal_state.0 == state.0 && self.goal_state.1
            == state.1) {
            return None;
        }
        let (x, y) = *state;
        let x_max: usize = self.num_x - 1;
        let y_max: usize = self.num_y - 1;
        match action {
            GridWorldAction::Up => {
                if y == y_max {
                    None
                } else {
                    Some((x, y + 1))
                }
            },
            GridWorldAction::Down => {
                if y == 0 {
                    None
                } else {
                    Some((x, y - 1))
                }
            },
            GridWorldAction::Left => {
                if x == 0 {
                    None
                } else {
                    Some((x - 1, y))
                }
            },
            GridWorldAction::Right => {
                if x == x_max {
                    None
                } else {
                    Some((x + 1, y))
                }
            },
        }
    }
}

impl Clone for GridWorld {
    fn clone(&self) -> (r: Self)
        ensures
            r.spec_num_x() == self.spec_num_x(),
            r.spec_num_y() == self.spec_num_y(),
            r.spec_current_state() == self.spec_current_state(),
            r.spec_goal_state() == self.spec_goal_state(),
            r.spec_terminal_states() == self.spec_terminal_states(),
    {
        GridWorld {
            num_x: self.num_x,
            num_y: self.num_y,
            current_state: self.current_state,
            goal_state: self.goal_state,
            terminal_states: self.get_terminal_states(),
        }
    }
}

} // verus!
