use crate::bitset::{ascending, indices, BitSet};
use crate::sudoku::board::{parse_board, Board, BoardModel};
use crate::sudoku::pos::cell::Cell;
use crate::sudoku::pos::digit::Digit;
use crate::sudoku::strats::strategy::{
    kinds_of, strategy_list, strategy_order, strategy_result, Strategy, StrategyKind,
};
use crate::sudoku::strats::{option_view, ResultModel, StrategyResult};
use crate::util::{first_some, lemma_first_some_hit, lemma_first_some_none};
use vstd::prelude::*;
use vstd::string::StringSliceAdditionalSpecFns;

verus! {

/// What the solver can be asked to do.
pub enum Action {
    Reset,
    LoadBoardString(String),
    Undo,
    Step,
    SetFocus(Option<Digit>),
}

/// The model of an action: a text is its bytes, a digit its number.
pub enum ActionModel {
    Reset,
    LoadBoardString(Seq<u8>),
    Undo,
    Step,
    SetFocus(Option<int>),
}

/// The number of a digit that may be absent.
pub open spec fn focus_view(digit: Option<Digit>) -> Option<int> {
    match digit {
        Some(d) => Some(d@),
        None => None,
    }
}

impl View for Action {
    type V = ActionModel;

    open spec fn view(&self) -> ActionModel {
        match self {
            Action::Reset => ActionModel::Reset,
            Action::LoadBoardString(text) => ActionModel::LoadBoardString(
                vstd::utf8::encode_utf8(text@),
            ),
            Action::Undo => ActionModel::Undo,
            Action::Step => ActionModel::Step,
            Action::SetFocus(digit) => ActionModel::SetFocus(focus_view(*digit)),
        }
    }
}

/// The model of a solver: the strategies in the order in which they are tried, the earlier
/// boards, the board, the deduction that was found and waits to be applied, and the digit
/// that is shown apart.
pub struct SolverModel {
    pub strategies: Seq<StrategyKind>,
    pub history: Seq<BoardModel>,
    pub board: BoardModel,
    pub result: Option<ResultModel>,
    pub focus_digit: Option<int>,
}

/// The test of one strategy on a board: what it finds, if that places or strikes anything.
pub open spec fn strategy_test(board: BoardModel) -> spec_fn(StrategyKind) -> Option<ResultModel> {
    |kind: StrategyKind| strategy_result(kind, board).if_nontrivial()
}

/// What the first strategy of a list finds that places or strikes anything.
pub open spec fn first_nontrivial(strategies: Seq<StrategyKind>, board: BoardModel) -> Option<
    ResultModel,
> {
    first_some(strategies, strategy_test(board))
}

/// The board after the candidates of a list are placed, one after the other.
pub open spec fn apply_solutions(board: BoardModel, solutions: Seq<int>) -> BoardModel
    decreases solutions.len(),
{
    if solutions.len() == 0 {
        board
    } else {
        apply_solutions(board, solutions.drop_last()).set_digit(
            solutions.last() / 9,
            solutions.last() % 9,
        )
    }
}

/// The board after a candidate is struck; a candidate that is no note leaves it as it is.
pub open spec fn strike(board: BoardModel, candidate: int) -> BoardModel {
    if board.has_note(candidate / 9, candidate % 9) {
        board.eliminate(candidate / 9, candidate % 9)
    } else {
        board
    }
}

/// The board after the candidates of a list are struck, one after the other.
pub open spec fn apply_eliminations(board: BoardModel, eliminations: Seq<int>) -> BoardModel
    decreases eliminations.len(),
{
    if eliminations.len() == 0 {
        board
    } else {
        strike(apply_eliminations(board, eliminations.drop_last()), eliminations.last())
    }
}

/// The board after a deduction is applied: its solutions are placed in ascending order,
/// then its eliminations are struck in ascending order.
pub open spec fn apply_result(board: BoardModel, result: ResultModel) -> BoardModel {
    apply_eliminations(
        apply_solutions(board, ascending(result.solutions, 729)),
        ascending(result.eliminations, 729),
    )
}

impl SolverModel {
    /// The solver after a reset: no history, a fresh board, nothing found, nothing shown.
    pub open spec fn reset(self) -> SolverModel {
        SolverModel {
            history: Seq::empty(),
            board: BoardModel::fresh(),
            result: None,
            focus_digit: None,
            ..self
        }
    }

    /// The solver after a text is loaded: it is reset, and the board is read from the text.
    pub open spec fn load(self, text: Seq<u8>) -> SolverModel {
        SolverModel { board: parse_board(text), ..self.reset() }
    }

    /// The solver after an undo: the last earlier board, if there is one, is the board again.
    pub open spec fn undo(self) -> SolverModel {
        if self.history.len() == 0 {
            self
        } else {
            SolverModel {
                board: self.history.last(),
                history: self.history.drop_last(),
                ..self
            }
        }
    }

    /// The solver after the deduction that waits is applied: the board is remembered, then
    /// changed. Where nothing waits, nothing happens.
    pub open spec fn apply(self) -> SolverModel {
        match self.result {
            Some(result) => SolverModel {
                history: self.history.push(self.board),
                board: apply_result(self.board, result),
                result: None,
                ..self
            },
            None => self,
        }
    }

    /// The solver after a search: what the first successful strategy finds waits.
    pub open spec fn find(self) -> SolverModel {
        match first_nontrivial(self.strategies, self.board) {
            Some(result) => SolverModel { result: Some(result), ..self },
            None => self,
        }
    }

    /// The solver after a step: a deduction that waits is applied, else one is searched.
    pub open spec fn step(self) -> SolverModel {
        if self.result is Some {
            self.apply()
        } else {
            self.find()
        }
    }

    /// The solver after a digit is chosen to be shown apart: choosing the digit that is
    /// shown apart ends that.
    pub open spec fn set_focus(self, digit: Option<int>) -> SolverModel {
        SolverModel {
            focus_digit: if digit != self.focus_digit {
                digit
            } else {
                None
            },
            ..self
        }
    }

    /// The solver after an action.
    pub open spec fn transition(self, action: ActionModel) -> SolverModel {
        match action {
            ActionModel::Reset => self.reset(),
            ActionModel::LoadBoardString(text) => self.load(text),
            ActionModel::Undo => self.undo(),
            ActionModel::Step => self.step(),
            ActionModel::SetFocus(digit) => self.set_focus(digit),
        }
    }

    /// The solver after the actions of a list, one after the other.
    pub open spec fn replay(self, actions: Seq<ActionModel>) -> SolverModel
        decreases actions.len(),
    {
        if actions.len() == 0 {
            self
        } else {
            self.replay(actions.drop_last()).transition(actions.last())
        }
    }

    /// The solver at its start.
    pub open spec fn initial() -> SolverModel {
        SolverModel {
            strategies: strategy_order(),
            history: Seq::empty(),
            board: BoardModel::fresh(),
            result: None,
            focus_digit: None,
        }
    }
}

/// The engine: it searches the board for deductions, applies them one at a time and
/// remembers the earlier boards.
#[derive(Clone, PartialEq, Eq, Debug)]
pub struct Solver {
    strategies: Vec<Strategy>,
    history: Vec<Board>,
    pub board: Board,
    pub result: Option<StrategyResult>,
    pub focus_digit: Option<Digit>,
}

impl View for Solver {
    type V = SolverModel;

    closed spec fn view(&self) -> SolverModel {
        SolverModel {
            strategies: self.spec_strategies(),
            history: self.spec_history(),
            board: self.board@,
            result: option_view(self.result),
            focus_digit: focus_view(self.focus_digit),
        }
    }
}

impl Solver {
    /// The kinds of the strategies, in the order in which they are tried.
    closed spec fn spec_strategies(self) -> Seq<StrategyKind> {
        kinds_of(self.strategies@)
    }

    /// The earlier boards, the latest last.
    closed spec fn spec_history(self) -> Seq<BoardModel> {
        self.history@.map_values(|board: Board| board@)
    }

    /// The board.
    pub fn board(&self) -> (r: &Board)
        ensures
            r@ == self@.board,
    {
        &self.board
    }

    /// The deduction that waits to be applied, if one does.
    pub fn result(&self) -> (r: Option<StrategyResult>)
        ensures
            option_view(r) == self@.result,
    {
        self.result
    }

    /// The digit that is shown apart, if one is.
    pub fn focus_digit(&self) -> (r: Option<Digit>)
        ensures
            focus_view(r) == self@.focus_digit,
    {
        self.focus_digit
    }

    /// The number of earlier boards that are remembered.
    pub fn history_len(&self) -> (r: usize)
        ensures
            r == self@.history.len(),
    {
        self.history.len()
    }

    /// The solver at its start: all strategies, a fresh board, no history.
    pub fn new() -> (r: Self)
        ensures
            r@ == SolverModel::initial(),
    {
        let r = Solver {
            strategies: strategy_list(),
            history: Vec::new(),
            board: Board::new(),
            result: None,
            focus_digit: None,
        };
        proof {
            assert(r.spec_history() =~= Seq::<BoardModel>::empty());
        }
        r
    }

    /// The set of the given cells of the board.
    pub fn given(&self) -> (r: BitSet<Cell>)
        ensures
            r@ == self@.board.given,
    {
        self.board.given()
    }

    /// Carries out an action.
    pub fn take_action(self, action: Action) -> (r: Self)
        ensures
            r@ == self@.transition(action@),
    {
        let mut solver = self;
        match action {
            Action::Reset => solver.reset(),
            Action::LoadBoardString(string) => solver.load_board_string(string.as_str()),
            Action::Undo => solver.undo(),
            Action::Step => solver.step(),
            Action::SetFocus(digit) => solver.set_focus(digit),
        }
        solver
    }

    /// Forgets the history, clears the board, and drops what waits and what is shown apart.
    pub fn reset(&mut self)
        ensures
            final(self)@ == old(self)@.reset(),
    {
        self.history.clear();
        self.board.clear();
        self.result = None;
        self.focus_digit = None;
        proof {
            assert(self.spec_history() =~= Seq::<BoardModel>::empty());
        }
    }

    /// Resets the solver and reads the board from a text.
    pub fn load_board_string(&mut self, string: &str)
        ensures
            final(self)@ == old(self)@.load(string.spec_bytes()),
    {
        self.reset();
        self.board = Board::from_string(string);
    }

    /// Takes the last remembered board back, if there is one.
    pub fn undo(&mut self)
        ensures
            final(self)@ == old(self)@.undo(),
    {
        let ghost before = self.spec_history();
        match self.history.pop() {
            Some(board) => {
                self.board = board;
                proof {
                    assert(self.spec_history() =~= before.drop_last());
                }
            },
            None => {},
        }
    }

    /// Applies the deduction that waits or, where none waits, searches for one.
    pub fn step(&mut self)
        ensures
            final(self)@ == old(self)@.step(),
    {
        match self.result {
            Some(_) => self.apply_current_result(),
            None => self.find_next_strategy(),
        }
    }

    /// Chooses the digit that is shown apart; choosing it again ends that.
    pub fn set_focus(&mut self, digit: Option<Digit>)
        ensures
            final(self)@ == old(self)@.set_focus(focus_view(digit)),
    {
        let same = match (digit, self.focus_digit) {
            (Some(a), Some(b)) => a.as_index() == b.as_index(),
            (None, None) => true,
            _ => false,
        };
        self.focus_digit = if same {
            None
        } else {
            digit
        };
    }

    /// Puts the board at the end of the history.
    pub fn remember_board(&mut self)
        ensures
            final(self)@ == (SolverModel {
                history: old(self)@.history.push(old(self)@.board),
                ..old(self)@
            }),
    {
        let ghost before = self.spec_history();
        let copy = self.board.clone();
        self.history.push(copy);
        proof {
            assert(self.spec_history() =~= before.push(self.board@));
        }
    }

    /// Tries the strategies in their order and lets what the first successful one finds wait.
    pub fn find_next_strategy(&mut self)
        ensures
            final(self)@ == old(self)@.find(),
    {
        let ghost kinds = self.spec_strategies();
        let ghost test = strategy_test(self.board@);
        let mut i: usize = 0;
        while i < self.strategies.len()
            invariant
                0 <= i <= self.strategies.len(),
                *self == *old(self),
                kinds == self.spec_strategies(),
                test == strategy_test(self.board@),
                forall|j: int| 0 <= j < i ==> test(#[trigger] kinds[j]) is None,
            decreases self.strategies.len() - i,
        {
            let result = self.strategies[i].find(&self.board);
            proof {
                assert(kinds[i as int] == self.strategies@[i as int]@);
            }
            if result.is_nontrivial() {
                proof {
                    lemma_first_some_hit(kinds, test, i as int);
                }
                self.result = Some(result);
                return ;
            }
            i += 1;
        }
        proof {
            lemma_first_some_none(kinds, test);
        }
    }

    /// Remembers the board and applies the deduction that waits: the solutions are placed,
    /// then the eliminations are struck. Where nothing waits, nothing happens.
    pub fn apply_current_result(&mut self)
        ensures
            final(self)@ == old(self)@.apply(),
    {
        let result = match self.result {
            Some(result) => result,
            None => {
                return ;
            },
        };
        self.result = None;
        self.remember_board();
        let ghost start = self.board@;
        let solutions = result.solutions.to_vec();
        let mut i: usize = 0;
        let ghost placed = indices(solutions@);
        proof {
            assert(placed.take(0) =~= Seq::<int>::empty());
        }
        while i < solutions.len()
            invariant
                0 <= i <= solutions.len(),
                placed == indices(solutions@),
                self.board@ == apply_solutions(start, placed.take(i as int)),
                self.spec_history() == old(self).spec_history().push(start),
                self.spec_strategies() == old(self).spec_strategies(),
                self.result is None,
                focus_view(self.focus_digit) == focus_view(old(self).focus_digit),
            decreases solutions.len() - i,
        {
            proof {
                assert(placed.take(i as int + 1).drop_last() =~= placed.take(i as int));
                assert(placed.take(i as int + 1).last() == solutions@[i as int]@);
            }
            self.board.input_solution(solutions[i]);
            i += 1;
        }
        proof {
            assert(placed.take(i as int) =~= placed);
        }
        let ghost middle = self.board@;
        let eliminations = result.eliminations.to_vec();
        let mut j: usize = 0;
        let ghost struck = indices(eliminations@);
        proof {
            assert(struck.take(0) =~= Seq::<int>::empty());
        }
        while j < eliminations.len()
            invariant
                0 <= j <= eliminations.len(),
                struck == indices(eliminations@),
                self.board@ == apply_eliminations(middle, struck.take(j as int)),
                self.spec_history() == old(self).spec_history().push(start),
                self.spec_strategies() == old(self).spec_strategies(),
                self.result is None,
                focus_view(self.focus_digit) == focus_view(old(self).focus_digit),
            decreases eliminations.len() - j,
        {
            proof {
                assert(struck.take(j as int + 1).drop_last() =~= struck.take(j as int));
                assert(struck.take(j as int + 1).last() == eliminations@[j as int]@);
            }
            let _ = self.board.input_elimination(eliminations[j]);
            j += 1;
        }
        proof {
            assert(struck.take(j as int) =~= struck);
        }
    }
}


/// The same actions, carried out from the same solver, lead to the same board.
pub proof fn law_replay_deterministic(
    first: SolverModel,
    second: SolverModel,
    actions: Seq<ActionModel>,
)
    requires
        first == second,
    ensures
        first.replay(actions) == second.replay(actions),
        first.replay(actions).board == second.replay(actions).board,
{
}

/// A step changes the board only by applying what waits, and then remembers the board.
pub proof fn lemma_step_remembers(solver: SolverModel)
    ensures
        solver.step().board != solver.board ==> solver.step().history == solver.history.push(
            solver.board,
        ),
        solver.step().board == solver.board || solver.result is Some,
{
}

/// An undo after a step that changed the board gives the board before that step.
pub proof fn law_undo_inverts_step(solver: SolverModel)
    requires
        solver.step().board != solver.board,
    ensures
        solver.step().undo().board == solver.board,
        solver.step().undo().history == solver.history,
{
    lemma_step_remembers(solver);
    assert(solver.history.push(solver.board).drop_last() =~= solver.history);
}

/// After steps of which the last changed the board, an undo gives the board before it.
pub proof fn law_undo_inverts_last_step(solver: SolverModel, steps: nat)
    requires
        solver.replay(Seq::new(steps, |i: int| ActionModel::Step)).step().board != solver.replay(
            Seq::new(steps, |i: int| ActionModel::Step),
        ).board,
    ensures
        solver.replay(Seq::new(steps + 1, |i: int| ActionModel::Step)).undo().board
            == solver.replay(Seq::new(steps, |i: int| ActionModel::Step)).board,
{
    let before = Seq::new(steps, |i: int| ActionModel::Step);
    let all = Seq::new(steps + 1, |i: int| ActionModel::Step);
    assert(all.drop_last() =~= before);
    assert(all.last() == ActionModel::Step);
    law_undo_inverts_step(solver.replay(before));
}

} // verus!
