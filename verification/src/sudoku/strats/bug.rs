use crate::bitset::{ascending, indices, BitSet};
use crate::sudoku::board::{Board, BoardModel};
use crate::sudoku::pos::candidate::{candidate_of, Candidate};
use crate::sudoku::pos::cell::Cell;
use crate::sudoku::pos::digit::Digit;
use crate::sudoku::pos::units::{cell_block, cell_col, cell_row, unit_cells, UnitClass};
use crate::sudoku::strats::{ResultModel, StrategyResult};
use crate::util::{first_some, lemma_first_some_hit, lemma_first_some_none};
use vstd::prelude::*;

verus! {

/// The unsolved cells that do not have exactly two notes.
pub open spec fn odd_cells(board: BoardModel) -> Set<int> {
    Set::new(|c: int| 0 <= c < 81 && !board.is_solved(c) && board.notes_at(c).len() != 2)
}

/// Whether exactly three cells of the unit numbered `u` have the digit numbered `d` as a note.
pub open spec fn noted_thrice(board: BoardModel, u: int, d: int) -> bool {
    unit_cells(u).intersect(board.with_note(d)).len() == 3
}

/// Whether the digit numbered `d` is noted thrice in the row, the column and the block of
/// the cell numbered `cell`.
pub open spec fn is_bug_digit(board: BoardModel, cell: int, d: int) -> bool {
    &&& noted_thrice(board, cell_row(cell), d)
    &&& noted_thrice(board, 9 + cell_col(cell), d)
    &&& noted_thrice(board, 18 + cell_block(cell), d)
}

/// The test of one note of the cell numbered `cell`.
pub open spec fn bug_digit_test(board: BoardModel, cell: int) -> spec_fn(int) -> Option<int> {
    |d: int|
        if is_bug_digit(board, cell, d) {
            Some(d)
        } else {
            None
        }
}

/// What "Bug+1" finds.
///
/// One unsolved cell alone must have other than two notes, and it must have three. Its
/// first note, in ascending order, that is noted thrice in each of its units is placed.
pub open spec fn bug_plus_one(board: BoardModel) -> ResultModel {
    let odd = odd_cells(board);
    if odd.len() != 1 {
        ResultModel::empty()
    } else {
        let cell = odd.choose();
        if board.notes_at(cell).len() != 3 {
            ResultModel::empty()
        } else {
            match first_some(ascending(board.notes_at(cell), 9), bug_digit_test(board, cell)) {
                None => ResultModel::empty(),
                Some(d) => ResultModel::solving(Set::<int>::empty().insert(candidate_of(cell, d))),
            }
        }
    }
}

/// The unsolved cells that do not have exactly two notes.
pub fn non_bivalue_cells(board: &Board) -> (r: BitSet<Cell>)
    ensures
        r@ == odd_cells(board@),
{
    let cells = Cell::list();
    let mut set: BitSet<Cell> = BitSet::new();
    let mut i: usize = 0;
    while i < 81
        invariant
            0 <= i <= 81,
            cells@.len() == 81,
            forall|j: int| 0 <= j < 81 ==> (#[trigger] cells@[j])@ == j,
            set@ == Set::new(|c: int| 0 <= c < i && odd_cells(board@).contains(c)),
        decreases 81 - i,
    {
        let cell = cells[i];
        let ghost before = set@;
        if board.is_notes(&cell) && board.count_notes(&cell) != 2 {
            set.insert(cell);
        }
        proof {
            assert forall|c: int|
                set@.contains(c) == (0 <= c < i + 1 && odd_cells(board@).contains(c)) by {
                assert(before.contains(c) == (0 <= c < i && odd_cells(board@).contains(c)));
            }
            assert(set@ =~= Set::new(|c: int| 0 <= c < i + 1 && odd_cells(board@).contains(c)));
        }
        i += 1;
    }
    proof {
        assert(set@ =~= odd_cells(board@));
    }
    set
}

/// Whether `digit` is noted thrice in the row, the column and the block of `cell`.
pub fn is_noted_thrice_around(board: &Board, cell: Cell, digit: Digit) -> (r: bool)
    ensures
        r == is_bug_digit(board@, cell@, digit@),
{
    let places = board.cells_with_note(digit);
    let units = cell.units();
    let in_row = units[0].cells_set().intersection(places).len() == 3;
    let in_col = units[1].cells_set().intersection(places).len() == 3;
    let in_block = units[2].cells_set().intersection(places).len() == 3;
    in_row && in_col && in_block
}

/// Places the one digit that keeps a board of cells with two notes, but for one cell with
/// three, from having no or several solutions.
pub fn find_bug_plus_one(board: &Board) -> (r: StrategyResult)
    ensures
        r@ == bug_plus_one(board@),
{
    let odd = non_bivalue_cells(board);
    proof {
        odd.lemma_finite();
    }
    let bug_cell = match odd.only() {
        Some(cell) => cell,
        None => {
            return StrategyResult::default();
        },
    };
    proof {
        assert(odd@.contains(bug_cell@));
        assert(odd@.len() == 1);
        assert(odd@.contains(odd@.choose()));
        assert(odd@.choose() == bug_cell@);
    }
    let bug_notes = board.get_notes(&bug_cell).unwrap();
    if bug_notes.len() != 3 {
        return StrategyResult::default();
    }
    let digits = bug_notes.to_vec();
    let ghost want = ascending(board@.notes_at(bug_cell@), 9);
    let ghost test = bug_digit_test(board@, bug_cell@);
    proof {
        assert(want.len() == digits@.len()) by {
            assert(indices(digits@).len() == digits@.len());
        }
    }
    let mut j: usize = 0;
    while j < digits.len()
        invariant
            0 <= j <= digits.len(),
            want == indices(digits@),
            want == ascending(board@.notes_at(bug_cell@), 9),
            test == bug_digit_test(board@, bug_cell@),
            forall|a: int| 0 <= a < j ==> test(#[trigger] want[a]) is None,
            odd_cells(board@).len() == 1,
            odd_cells(board@).choose() == bug_cell@,
            board@.notes_at(bug_cell@).len() == 3,
        decreases digits.len() - j,
    {
        let digit = digits[j];
        proof {
            assert(want[j as int] == digit@);
        }
        if is_noted_thrice_around(board, bug_cell, digit) {
            let mut solutions: BitSet<Candidate> = BitSet::new();
            solutions.insert(Candidate::from_cell_and_digit(bug_cell, digit));
            proof {
                lemma_first_some_hit(want, test, j as int);
            }
            return StrategyResult::with_solutions(solutions);
        }
        j += 1;
    }
    proof {
        lemma_first_some_none(want, test);
    }
    StrategyResult::default()
}

} // verus!
