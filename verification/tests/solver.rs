use sudoku_solver::sudoku::pos::{Candidate, Cell, Digit};
use sudoku_solver::sudoku::{
    strategy_list, Board, Solver, SolverAction, StrategyKind, StrategyResult,
};

const PUZZLE: &str =
    "53..7....6..195....98....6.8...6...34..8.3..17...2...6.6....28....419..5....8..79";

const SOLUTION: &str =
    "534678912672195348198342567859761423426853791713924856961537284287419635345286179";

fn load(text: &str) -> Solver {
    Solver::new().take_action(SolverAction::LoadBoardString(text.to_string()))
}

fn digit(index: u8) -> Digit {
    Digit::new(index).unwrap()
}

/// The kind of the first strategy that finds something on the board.
fn first_kind(board: &Board) -> Option<(StrategyKind, StrategyResult)> {
    strategy_list()
        .into_iter()
        .map(|s| (s.kind(), s.find(board)))
        .find(|(_, result)| result.is_nontrivial())
}

#[test]
fn new_solver_is_empty() {
    let solver = Solver::new();
    assert_eq!(*solver.board(), Board::new());
    assert_eq!(solver.result(), None);
    assert_eq!(solver.focus_digit(), None);
    assert_eq!(solver.history_len(), 0);
    assert!(solver.given().is_empty());
    assert_eq!(solver.board, Board::new());
}

#[test]
fn loading_reads_the_givens() {
    let solver = load(PUZZLE);
    assert_eq!(*solver.board(), Board::from_string(PUZZLE));
    assert_eq!(solver.given().len(), 30);
    assert_eq!(solver.board().to_string(), PUZZLE);
    assert_eq!(solver.history_len(), 0);

    let again = solver.take_action(SolverAction::LoadBoardString("1".to_string()));
    assert_eq!(*again.board(), Board::from_string("1"));
    assert_eq!(again.given().len(), 1);
}

#[test]
fn step_finds_then_applies() {
    let solver = load(PUZZLE);
    let loaded = solver.board().clone();

    let found = solver.take_action(SolverAction::Step);
    assert_eq!(*found.board(), loaded);
    assert_eq!(found.history_len(), 0);
    let result = found.result().expect("the first step finds a deduction");
    assert_eq!(first_kind(&loaded), Some((StrategyKind::ReviseNotes, result)));

    let applied = found.take_action(SolverAction::Step);
    assert_eq!(applied.result(), None);
    assert_eq!(applied.history_len(), 1);
    assert_ne!(*applied.board(), loaded);
    for elimination in result.eliminations.to_vec() {
        assert!(!applied.board().has_note(&elimination.cell(), elimination.digit()));
    }
    assert_eq!(applied.board().given().len(), 30);
}

#[test]
fn singles_fire_before_subsets() {
    let mut solver = load(PUZZLE);
    let mut single_fired = false;
    let mut kinds = Vec::new();
    for _ in 0..400 {
        if first_kind(solver.board()).is_none() && solver.result().is_none() {
            break;
        }
        let before = solver.board().clone();
        let expected = first_kind(&before);
        solver = solver.take_action(SolverAction::Step);
        let (kind, result) = expected.unwrap();
        assert_eq!(solver.result(), Some(result));
        assert_eq!(*solver.board(), before);
        match kind {
            StrategyKind::ReviseNotes => {},
            StrategyKind::FullHouse | StrategyKind::NakedSingle | StrategyKind::HiddenSingle => {
                single_fired = true;
            },
            _ => assert!(single_fired, "{kind:?} fired before any single"),
        }
        kinds.push(kind);
        solver = solver.take_action(SolverAction::Step);
        assert_eq!(solver.result(), None);
    }
    assert!(single_fired);
    assert_eq!(kinds[0], StrategyKind::ReviseNotes);
    assert!(kinds
        .iter()
        .all(|k| matches!(
            k,
            StrategyKind::ReviseNotes
                | StrategyKind::FullHouse
                | StrategyKind::NakedSingle
                | StrategyKind::HiddenSingle
        )));
    assert_eq!(solver.board().to_string(), SOLUTION);
    assert!(solver.board().cells_unsolved().is_empty());
}

#[test]
fn undo_restores_the_board_before_the_last_applied_step() {
    let mut solver = load(PUZZLE);
    let mut boards = vec![solver.board().clone()];
    for _ in 0..3 {
        solver = solver.take_action(SolverAction::Step);
        solver = solver.take_action(SolverAction::Step);
        boards.push(solver.board().clone());
    }
    assert_eq!(solver.history_len(), 3);
    assert_ne!(boards[3], boards[2]);

    solver = solver.take_action(SolverAction::Undo);
    assert_eq!(*solver.board(), boards[2]);
    assert_eq!(solver.history_len(), 2);
    solver = solver.take_action(SolverAction::Undo);
    assert_eq!(*solver.board(), boards[1]);
    solver = solver.take_action(SolverAction::Undo);
    assert_eq!(*solver.board(), boards[0]);
    assert_eq!(solver.history_len(), 0);
    solver = solver.take_action(SolverAction::Undo);
    assert_eq!(*solver.board(), boards[0]);
    assert_eq!(solver.history_len(), 0);
}

#[test]
fn undo_keeps_what_waits() {
    let solver = load(PUZZLE).take_action(SolverAction::Step);
    let waiting = solver.result();
    assert!(waiting.is_some());
    let undone = solver.take_action(SolverAction::Undo);
    assert_eq!(undone.result(), waiting);
    assert_eq!(*undone.board(), Board::from_string(PUZZLE));
}

#[test]
fn reset_clears_board_and_history() {
    let mut solver = load(PUZZLE);
    for _ in 0..5 {
        solver = solver.take_action(SolverAction::Step);
    }
    solver = solver.take_action(SolverAction::SetFocus(Some(digit(3))));
    assert!(solver.history_len() > 0);
    assert!(solver.result().is_some());

    solver = solver.take_action(SolverAction::Reset);
    assert_eq!(solver.history_len(), 0);
    assert_eq!(solver.result(), None);
    assert_eq!(solver.focus_digit(), None);
    for cell in Cell::list() {
        if !solver.board().is_given(&cell) {
            assert_eq!(solver.board().count_notes(&cell), 9);
        }
    }
    assert_eq!(*solver.board(), Board::new());

    let after = solver.board().clone();
    solver = solver.take_action(SolverAction::Undo);
    assert_eq!(*solver.board(), after);
    assert_eq!(solver.history_len(), 0);
}

#[test]
fn set_focus_toggles() {
    let solver = load(PUZZLE);
    let board = solver.board().clone();
    let focused = solver.take_action(SolverAction::SetFocus(Some(digit(3))));
    assert_eq!(focused.focus_digit(), Some(digit(3)));
    let other = focused.take_action(SolverAction::SetFocus(Some(digit(5))));
    assert_eq!(other.focus_digit(), Some(digit(5)));
    let back = other.take_action(SolverAction::SetFocus(Some(digit(3))));
    assert_eq!(back.focus_digit(), Some(digit(3)));
    let cleared = back.take_action(SolverAction::SetFocus(Some(digit(3))));
    assert_eq!(cleared.focus_digit(), None);
    let still = cleared.take_action(SolverAction::SetFocus(None));
    assert_eq!(still.focus_digit(), None);
    let set = still.take_action(SolverAction::SetFocus(Some(digit(0))));
    let unset = set.take_action(SolverAction::SetFocus(None));
    assert_eq!(unset.focus_digit(), None);
    assert_eq!(*unset.board(), board);
    assert_eq!(unset.history_len(), 0);
}

#[test]
fn solved_board_leaves_step_without_effect() {
    let solver = load(SOLUTION);
    let before = solver.clone();
    let after = solver.take_action(SolverAction::Step);
    assert_eq!(after, before);
    assert_eq!(after.result(), None);
    assert_eq!(after.board().to_string(), SOLUTION);
}

#[test]
fn applying_reports_nothing_for_stale_eliminations() {
    let mut solver = load(PUZZLE).take_action(SolverAction::Step);
    let result = solver.result().unwrap();
    let first = result.eliminations.to_vec()[0];
    solver.board.input_elimination(first).unwrap();
    solver.board.input_solution(Candidate::from_cell_and_digit(
        result.eliminations.to_vec()[1].cell(),
        digit(0),
    ));
    let applied = solver.take_action(SolverAction::Step);
    assert_eq!(applied.result(), None);
    assert_eq!(applied.history_len(), 1);
    assert!(!applied.board().has_note(&first.cell(), first.digit()));
}

#[test]
fn replaying_the_same_actions_gives_the_same_board() {
    let run = || {
        let mut solver = Solver::new();
        solver = solver.take_action(SolverAction::LoadBoardString(PUZZLE.to_string()));
        for _ in 0..9 {
            solver = solver.take_action(SolverAction::Step);
        }
        solver = solver.take_action(SolverAction::Undo);
        solver = solver.take_action(SolverAction::SetFocus(Some(digit(2))));
        solver = solver.take_action(SolverAction::Step);
        solver
    };
    let first = run();
    let second = run();
    assert_eq!(first.board(), second.board());
    assert_eq!(first, second);
}

#[test]
fn direct_methods_match_the_actions() {
    let mut solver = Solver::new();
    solver.load_board_string(PUZZLE);
    solver.find_next_strategy();
    assert!(solver.result().is_some());
    let found = solver.result();
    solver.find_next_strategy();
    assert_eq!(solver.result(), found);
    solver.apply_current_result();
    assert_eq!(solver.history_len(), 1);
    solver.apply_current_result();
    assert_eq!(solver.history_len(), 1);
    solver.remember_board();
    assert_eq!(solver.history_len(), 2);
    let board = solver.board().clone();
    solver.step();
    solver.undo();
    assert_eq!(*solver.board(), board);
    solver.set_focus(Some(digit(1)));
    assert_eq!(solver.focus_digit(), Some(digit(1)));
    solver.reset();
    assert_eq!(solver, Solver::new());
}
