use sudoku_solver::bitset::BitSet;
use sudoku_solver::sudoku::pos::{Candidate, Cell, Digit};
use sudoku_solver::sudoku::{Board, BoardError, CellData};

const PUZZLE: &str =
    "53..7....6..195....98....6.8...6...34..8.3..17...2...6.6....28....419..5....8..79";

fn cell(index: u8) -> Cell {
    Cell::new(index).unwrap()
}

fn digit(index: u8) -> Digit {
    Digit::new(index).unwrap()
}

fn candidate(cell_index: u8, digit_index: u8) -> Candidate {
    Candidate::from_cell_and_digit(cell(cell_index), digit(digit_index))
}

fn indices(cells: &[Cell]) -> Vec<usize> {
    cells.iter().map(|c| c.as_index()).collect()
}

#[test]
fn new_board_has_all_notes_everywhere() {
    let board = Board::new();
    for c in Cell::list() {
        assert!(board.is_notes(&c));
        assert!(!board.is_digit(&c));
        assert!(!board.is_given(&c));
        assert_eq!(board.get_digit(&c), None);
        assert_eq!(board.count_notes(&c), 9);
        assert_eq!(board.get_notes(&c), Some(&BitSet::full()));
        assert_eq!(*board.get_data(&c), CellData::default());
    }
    assert_eq!(board.cells_unsolved().len(), 81);
    assert!(board.iter_solved().is_empty());
    assert!(board.given().is_empty());
    assert_eq!(board, Board::from_string(""));
}

#[test]
fn board_text_round_trips() {
    let board = Board::from_string(PUZZLE);
    assert_eq!(board.to_string(), PUZZLE);
    for (i, byte) in PUZZLE.bytes().enumerate() {
        let c = cell(i as u8);
        if byte == b'.' {
            assert!(!board.is_given(&c));
            assert_eq!(board.get_digit(&c), None);
            assert_eq!(board.count_notes(&c), 9);
        } else {
            assert!(board.is_given(&c));
            assert_eq!(board.get_digit(&c), Some(digit(byte - b'1')));
            assert_eq!(board.get_notes(&c), None);
            assert_eq!(board.count_notes(&c), 0);
        }
    }
    assert_eq!(board.given().len(), 30);
    assert_eq!(board.given(), board.cells_solved());
}

#[test]
fn malformed_text_leaves_cells_unsolved() {
    let board = Board::from_string("1x0 9");
    assert_eq!(indices(&board.iter_solved()), vec![0, 4]);
    assert_eq!(board.get_digit(&cell(0)), Some(digit(0)));
    assert_eq!(board.get_digit(&cell(4)), Some(digit(8)));
    assert_eq!(board.count_notes(&cell(2)), 9);
    assert_eq!(board.count_notes(&cell(80)), 9);
    assert!(board.to_string().starts_with("1...9...."));
    assert_eq!(board.to_string().len(), 81);

    let long = format!("{}{}", ".".repeat(81), "5555");
    assert_eq!(Board::from_string(&long), Board::new());

    let wide = Board::from_string("é1");
    assert_eq!(indices(&wide.iter_solved()), vec![2]);
    assert_eq!(Board::from_bytes(b".2"), Board::from_string(".2"));
}

#[test]
fn input_solution_solves_the_cell() {
    let mut board = Board::new();
    board.input_solution(candidate(40, 6));
    assert_eq!(board.get_digit(&cell(40)), Some(digit(6)));
    assert!(board.is_digit(&cell(40)));
    assert!(!board.is_given(&cell(40)));
    assert!(!board.has_note(&cell(40), digit(6)));
    assert_eq!(indices(&board.iter_solved()), vec![40]);
    assert_eq!(indices(&board.iter_with_digit(digit(6))), vec![40]);
    assert!(board.iter_with_digit(digit(5)).is_empty());
    assert_eq!(board.cells_unsolved().len(), 80);
    board.set_digit(cell(40), digit(2));
    assert_eq!(board.get_digit(&cell(40)), Some(digit(2)));
}

#[test]
fn input_elimination_strikes_one_note() {
    let mut board = Board::new();
    assert_eq!(board.input_elimination(candidate(3, 4)), Ok(()));
    assert!(!board.has_note(&cell(3), digit(4)));
    assert!(board.has_note(&cell(3), digit(5)));
    assert_eq!(board.count_notes(&cell(3)), 8);
    assert_eq!(board.cells_with_note(digit(4)).len(), 80);
    assert!(!board.iter_with_note(digit(4)).contains(&cell(3)));
    assert_eq!(board.iter_with_note(digit(5)).len(), 81);
}

#[test]
fn input_elimination_reports_and_keeps_the_board() {
    let mut board = Board::from_string("7");
    let before = board.clone();
    assert_eq!(board.input_elimination(candidate(0, 6)), Err(BoardError::CellSolved));
    assert_eq!(board.input_elimination(candidate(0, 1)), Err(BoardError::CellSolved));
    assert_eq!(board, before);

    assert_eq!(board.input_elimination(candidate(1, 1)), Ok(()));
    let struck = board.clone();
    assert_eq!(board.input_elimination(candidate(1, 1)), Err(BoardError::NoteAbsent));
    assert_eq!(board, struck);
}

#[test]
fn reset_keeps_the_givens_and_clear_does_not() {
    let mut board = Board::from_string(PUZZLE);
    let loaded = board.clone();
    board.input_solution(candidate(2, 3));
    board.input_elimination(candidate(3, 0)).unwrap();
    assert_ne!(board, loaded);
    board.reset();
    assert_eq!(board, loaded);
    board.clear();
    assert_eq!(board, Board::new());
}
