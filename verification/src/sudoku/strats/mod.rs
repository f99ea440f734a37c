pub mod bug;
pub mod chains;
pub mod fish;
pub mod hidden_subsets;
pub mod intersections;
pub mod link;
pub mod naked_subsets;
pub mod revise_notes;
pub mod singles;
pub mod strategy;

use crate::bitset::{indices, BitSet};
use crate::sudoku::board::{Board, BoardModel};
use crate::sudoku::pos::candidate::Candidate;
use crate::sudoku::pos::cell::Cell;
use crate::sudoku::pos::digit::Digit;
use vstd::prelude::*;

verus! {

/// What a strategy found: candidates to place, candidates to strike, and two sets of
/// candidates that only serve to show the deduction.
#[derive(Copy, PartialEq, Eq, Debug)]
pub struct StrategyResult {
    pub solutions: BitSet<Candidate>,
    pub eliminations: BitSet<Candidate>,
    pub highlights: BitSet<Candidate>,
    pub highlights2: BitSet<Candidate>,
}

impl Clone for StrategyResult {
    fn clone(&self) -> (r: Self)
        ensures
            r == *self,
    {
        *self
    }
}

/// The model of a result: four sets of candidate numbers.
pub struct ResultModel {
    pub solutions: Set<int>,
    pub eliminations: Set<int>,
    pub highlights: Set<int>,
    pub highlights2: Set<int>,
}

impl ResultModel {
    /// The result that holds nothing.
    pub open spec fn empty() -> ResultModel {
        ResultModel {
            solutions: Set::empty(),
            eliminations: Set::empty(),
            highlights: Set::empty(),
            highlights2: Set::empty(),
        }
    }

    /// The result that places `solutions` and does nothing else.
    pub open spec fn solving(solutions: Set<int>) -> ResultModel {
        ResultModel { solutions, ..ResultModel::empty() }
    }

    /// The result that strikes `eliminations` and shows `highlights`.
    pub open spec fn striking(eliminations: Set<int>, highlights: Set<int>) -> ResultModel {
        ResultModel { eliminations, highlights, ..ResultModel::empty() }
    }

    /// Whether the result places or strikes anything.
    pub open spec fn is_nontrivial(self) -> bool {
        self.solutions != Set::<int>::empty() || self.eliminations != Set::<int>::empty()
    }

    /// The result, if it places or strikes anything.
    pub open spec fn if_nontrivial(self) -> Option<ResultModel> {
        if self.is_nontrivial() {
            Some(self)
        } else {
            None
        }
    }
}

impl View for StrategyResult {
    type V = ResultModel;

    open spec fn view(&self) -> ResultModel {
        ResultModel {
            solutions: self.solutions@,
            eliminations: self.eliminations@,
            highlights: self.highlights@,
            highlights2: self.highlights2@,
        }
    }
}

impl Default for StrategyResult {
    /// The result that holds nothing.
    fn default() -> (r: StrategyResult)
        ensures
            r@ == ResultModel::empty(),
    {
        StrategyResult {
            solutions: BitSet::new(),
            eliminations: BitSet::new(),
            highlights: BitSet::new(),
            highlights2: BitSet::new(),
        }
    }
}

impl StrategyResult {
    /// Whether the result places or strikes anything.
    pub fn is_nontrivial(&self) -> (r: bool)
        ensures
            r == self@.is_nontrivial(),
    {
        !self.solutions.is_empty() || !self.eliminations.is_empty()
    }

    /// The result that places `solutions` and does nothing else.
    pub fn with_solutions(solutions: BitSet<Candidate>) -> (r: StrategyResult)
        ensures
            r@ == ResultModel::solving(solutions@),
    {
        StrategyResult {
            solutions,
            eliminations: BitSet::new(),
            highlights: BitSet::new(),
            highlights2: BitSet::new(),
        }
    }

    /// The result that strikes `eliminations` and shows `highlights`.
    pub fn with_eliminations(
        eliminations: BitSet<Candidate>,
        highlights: BitSet<Candidate>,
    ) -> (r: StrategyResult)
        ensures
            r@ == ResultModel::striking(eliminations@, highlights@),
    {
        StrategyResult {
            solutions: BitSet::new(),
            eliminations,
            highlights,
            highlights2: BitSet::new(),
        }
    }
}

/// The candidates that stand for the digit numbered `digit` in one of `cells`.
pub open spec fn candidates_of_cells(cells: Set<int>, digit: int) -> Set<int> {
    Set::new(|k: int| 0 <= k < 729 && k % 9 == digit && cells.contains(k / 9))
}

/// The candidates that stand for one of `digits` in the cell numbered `cell`.
pub open spec fn candidates_of_digits(cell: int, digits: Set<int>) -> Set<int> {
    Set::new(|k: int| 0 <= k < 729 && k / 9 == cell && digits.contains(k % 9))
}

/// The candidates that stand for `digit` in one of `cells`.
pub fn digit_candidates(cells: BitSet<Cell>, digit: Digit) -> (r: BitSet<Candidate>)
    ensures
        r@ == candidates_of_cells(cells@, digit@),
{
    let mut out: BitSet<Candidate> = BitSet::new();
    let mut it = cells.iter();
    proof {
        assert(out@ =~= candidates_of_cells(cells@.difference(it@), digit@));
    }
    loop
        invariant
            it@.subset_of(cells@),
            out@ == candidates_of_cells(cells@.difference(it@), digit@),
        decreases it@.len(),
    {
        let ghost left = it@;
        let ghost done = out@;
        match it.next() {
            None => {
                proof {
                    assert(cells@.difference(it@) =~= cells@);
                }
                return out;
            },
            Some(cell) => {
                let candidate = Candidate::from_cell_and_digit(cell, digit);
                out.insert(candidate);
                proof {
                    assert forall|k: int|
                        out@.contains(k) == candidates_of_cells(
                            cells@.difference(it@),
                            digit@,
                        ).contains(k) by {
                        assert(done.contains(k) == candidates_of_cells(
                            cells@.difference(left),
                            digit@,
                        ).contains(k));
                    }
                    assert(out@ =~= candidates_of_cells(cells@.difference(it@), digit@));
                }
            },
        }
    }
}

/// The candidates that stand for one of `digits` in `cell`.
pub fn cell_candidates(cell: Cell, digits: BitSet<Digit>) -> (r: BitSet<Candidate>)
    ensures
        r@ == candidates_of_digits(cell@, digits@),
{
    let mut out: BitSet<Candidate> = BitSet::new();
    let mut it = digits.iter();
    proof {
        use_type_invariant(&cell);
        assert(out@ =~= candidates_of_digits(cell@, digits@.difference(it@)));
    }
    loop
        invariant
            0 <= cell@ < 81,
            it@.subset_of(digits@),
            out@ == candidates_of_digits(cell@, digits@.difference(it@)),
        decreases it@.len(),
    {
        let ghost left = it@;
        let ghost done = out@;
        match it.next() {
            None => {
                proof {
                    assert(digits@.difference(it@) =~= digits@);
                }
                return out;
            },
            Some(digit) => {
                let candidate = Candidate::from_cell_and_digit(cell, digit);
                out.insert(candidate);
                proof {
                    assert forall|k: int|
                        out@.contains(k) == candidates_of_digits(
                            cell@,
                            digits@.difference(it@),
                        ).contains(k) by {
                        assert(done.contains(k) == candidates_of_digits(
                            cell@,
                            digits@.difference(left),
                        ).contains(k));
                        assert(0 <= digit@ < 9);
                        assert((k == candidate@) == (k / 9 == cell@ && k % 9 == digit@));
                        assert(it@ == left.remove(digit@));
                    }
                    assert(out@ =~= candidates_of_digits(cell@, digits@.difference(it@)));
                }
            },
        }
    }
}


/// The model of what a search found, if it found anything.
pub open spec fn option_view(found: Option<StrategyResult>) -> Option<ResultModel> {
    match found {
        Some(result) => Some(result@),
        None => None,
    }
}

/// The result of a search that may have found nothing.
pub open spec fn or_empty(found: Option<ResultModel>) -> ResultModel {
    match found {
        Some(result) => result,
        None => ResultModel::empty(),
    }
}

/// The numbers below `n`, in ascending order.
pub open spec fn range(n: int) -> Seq<int> {
    Seq::new(n as nat, |i: int| i)
}

/// The digits that are a note of at least one of the cells of a list.
pub open spec fn notes_of_cells(board: BoardModel, cells: Seq<int>) -> Set<int> {
    Set::new(
        |d: int| exists|j: int| 0 <= j < cells.len() && board.has_note(#[trigger] cells[j], d),
    )
}

/// The candidates that stand for one of `digits` as a note of one of `cells`.
pub open spec fn noted_candidates(board: BoardModel, cells: Set<int>, digits: Set<int>) -> Set<
    int,
> {
    Set::new(
        |k: int|
            0 <= k < 729 && cells.contains(k / 9) && digits.contains(k % 9) && board.has_note(
                k / 9,
                k % 9,
            ),
    )
}

/// The digits that are a note of at least one of the cells of a list.
pub fn notes_union(board: &Board, cells: &Vec<Cell>) -> (r: BitSet<Digit>)
    ensures
        r@ == notes_of_cells(board@, indices(cells@)),
{
    let mut digits: BitSet<Digit> = BitSet::new();
    let mut j: usize = 0;
    let ghost list = indices(cells@);
    proof {
        assert(digits@ =~= notes_of_cells(board@, list.take(0)));
    }
    while j < cells.len()
        invariant
            0 <= j <= cells.len(),
            list == indices(cells@),
            digits@ == notes_of_cells(board@, list.take(j as int)),
        decreases cells.len() - j,
    {
        let ghost before = digits@;
        let cell = cells[j];
        match board.get_notes(&cell) {
            Some(notes) => {
                digits = digits.union(*notes);
            },
            None => {},
        }
        proof {
            let short = list.take(j as int);
            let long = list.take(j as int + 1);
            assert(long[j as int] == cell@);
            assert forall|d: int|
                digits@.contains(d) == notes_of_cells(board@, long).contains(d) by {
                if before.contains(d) {
                    let a = choose|a: int|
                        0 <= a < short.len() && board@.has_note(#[trigger] short[a], d);
                    assert(long[a] == short[a]);
                }
                if board@.has_note(cell@, d) {
                    assert(board@.has_note(long[j as int], d));
                }
                if notes_of_cells(board@, long).contains(d) {
                    let a = choose|a: int|
                        0 <= a < long.len() && board@.has_note(#[trigger] long[a], d);
                    if a < j {
                        assert(short[a] == long[a]);
                    }
                }
            }
            assert(digits@ =~= notes_of_cells(board@, long));
        }
        j += 1;
    }
    proof {
        assert(list.take(j as int) =~= list);
    }
    digits
}

/// The candidates that stand for one of `digits` as a note of one of `cells`.
pub fn noted(board: &Board, cells: BitSet<Cell>, digits: BitSet<Digit>) -> (r: BitSet<Candidate>)
    ensures
        r@ == noted_candidates(board@, cells@, digits@),
{
    let mut out: BitSet<Candidate> = BitSet::new();
    let mut it = cells.iter();
    proof {
        assert(out@ =~= noted_candidates(board@, cells@.difference(it@), digits@));
    }
    loop
        invariant
            it@.subset_of(cells@),
            out@ == noted_candidates(board@, cells@.difference(it@), digits@),
        decreases it@.len(),
    {
        let ghost left = it@;
        let ghost done = out@;
        match it.next() {
            None => {
                proof {
                    assert(cells@.difference(it@) =~= cells@);
                }
                return out;
            },
            Some(cell) => {
                match board.get_notes(&cell) {
                    Some(notes) => {
                        out = out.union(cell_candidates(cell, notes.intersection(digits)));
                    },
                    None => {},
                }
                proof {
                    assert forall|k: int|
                        out@.contains(k) == noted_candidates(
                            board@,
                            cells@.difference(it@),
                            digits@,
                        ).contains(k) by {
                        assert(done.contains(k) == noted_candidates(
                            board@,
                            cells@.difference(left),
                            digits@,
                        ).contains(k));
                        assert(it@ == left.remove(cell@));
                    }
                    assert(out@ =~= noted_candidates(board@, cells@.difference(it@), digits@));
                }
            },
        }
    }
}

} // verus!
