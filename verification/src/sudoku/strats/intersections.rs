use crate::bitset::BitSet;
use crate::sudoku::board::{Board, BoardModel};
use crate::sudoku::pos::cell::Cell;
use crate::sudoku::pos::digit::Digit;
use crate::sudoku::pos::units::{unit_cells, UnitClass};
use crate::sudoku::strats::{
    candidates_of_cells, digit_candidates, option_view, or_empty, range, ResultModel,
    StrategyResult,
};
use crate::util::{first_some, lemma_first_some_hit, lemma_first_some_none};
use vstd::prelude::*;

verus! {

/// The test of one cover unit: its number, if it holds all of `cells`.
pub open spec fn cover_test(cells: Set<int>, first: int) -> spec_fn(int) -> Option<int> {
    |i: int|
        if cells.subset_of(unit_cells(first + i)) {
            Some(first + i)
        } else {
            None
        }
}

/// The first of the `count` units from `first` on that holds all of `cells`.
pub open spec fn first_cover(cells: Set<int>, first: int, count: int) -> Option<int> {
    first_some(range(count), cover_test(cells, first))
}

/// What the digit numbered `x` gives in the base unit numbered `base`.
///
/// At least two cells of the base unit must have the digit as a note, and one cover unit
/// must hold them all; the digit is then struck from the other cells of the first such
/// cover unit.
pub open spec fn intersection_at(
    board: BoardModel,
    x: int,
    base: int,
    cover_first: int,
    cover_count: int,
) -> Option<ResultModel> {
    let base_cells = unit_cells(base).intersect(board.with_note(x));
    if base_cells.len() < 2 {
        None
    } else {
        match first_cover(base_cells, cover_first, cover_count) {
            None => None,
            Some(cover) => ResultModel::striking(
                candidates_of_cells(
                    unit_cells(cover).intersect(board.with_note(x)).difference(base_cells),
                    x,
                ),
                Set::empty(),
            ).if_nontrivial(),
        }
    }
}

/// The test of one base unit for the digit numbered `x`.
pub open spec fn intersection_test(
    board: BoardModel,
    x: int,
    base_first: int,
    cover_first: int,
    cover_count: int,
) -> spec_fn(int) -> Option<ResultModel> {
    |i: int| intersection_at(board, x, base_first + i, cover_first, cover_count)
}

/// The search of the base units for one digit.
pub open spec fn intersection_search(
    board: BoardModel,
    base_first: int,
    base_count: int,
    cover_first: int,
    cover_count: int,
) -> spec_fn(int) -> Option<ResultModel> {
    |x: int|
        first_some(
            range(base_count),
            intersection_test(board, x, base_first, cover_first, cover_count),
        )
}

/// What an intersection strategy finds: the first digit, in ascending order, and for it
/// the first base unit, in ascending order, that strike a note.
///
/// "Intersection Pointing" has the blocks as base units and the lines as cover units,
/// "Intersection Claiming" the lines as base units and the blocks as cover units.
pub open spec fn intersection(
    board: BoardModel,
    base_first: int,
    base_count: int,
    cover_first: int,
    cover_count: int,
) -> ResultModel {
    or_empty(
        first_some(
            range(9),
            intersection_search(board, base_first, base_count, cover_first, cover_count),
        ),
    )
}

/// The cells of the first unit of the kind `Cover` that holds all of `cells`.
pub fn find_cover<Cover: UnitClass>(cells: BitSet<Cell>) -> (r: Option<BitSet<Cell>>)
    ensures
        r is Some <==> first_cover(cells@, Cover::spec_first(), Cover::spec_count()) is Some,
        r is Some ==> r.unwrap()@ == unit_cells(
            first_cover(cells@, Cover::spec_first(), Cover::spec_count()).unwrap(),
        ),
{
    let covers = Cover::all_vec();
    let ghost test = cover_test(cells@, Cover::spec_first());
    let ghost count = Cover::spec_count();
    proof {
        Cover::lemma_class_range();
    }
    let mut i: usize = 0;
    while i < covers.len()
        invariant
            0 <= i <= covers.len(),
            covers@.len() == count,
            count == Cover::spec_count(),
            forall|j: int|
                0 <= j < covers@.len() ==> (#[trigger] covers@[j]).spec_unit()
                    == Cover::spec_first() + j,
            test == cover_test(cells@, Cover::spec_first()),
            forall|j: int| 0 <= j < i ==> test(#[trigger] range(count)[j]) is None,
        decreases covers.len() - i,
    {
        let cover_cells = covers[i].cells_set();
        proof {
            assert(range(count)[i as int] == i);
        }
        if cells.is_subset(&cover_cells) {
            proof {
                lemma_first_some_hit(range(count), test, i as int);
            }
            return Some(cover_cells);
        }
        i += 1;
    }
    proof {
        lemma_first_some_none(range(count), test);
    }
    None
}

/// Searches the base units for the digit `x`.
pub fn find_intersection_for_digit<Base: UnitClass, Cover: UnitClass>(
    board: &Board,
    x: Digit,
) -> (r: Option<StrategyResult>)
    ensures
        option_view(r) == intersection_search(
            board@,
            Base::spec_first(),
            Base::spec_count(),
            Cover::spec_first(),
            Cover::spec_count(),
        )(x@),
{
    let x_cells = board.cells_with_note(x);
    let bases = Base::all_vec();
    let ghost count = Base::spec_count();
    let ghost test = intersection_test(
        board@,
        x@,
        Base::spec_first(),
        Cover::spec_first(),
        Cover::spec_count(),
    );
    proof {
        Base::lemma_class_range();
    }
    let mut i: usize = 0;
    while i < bases.len()
        invariant
            0 <= i <= bases.len(),
            bases@.len() == count,
            count == Base::spec_count(),
            forall|j: int|
                0 <= j < bases@.len() ==> (#[trigger] bases@[j]).spec_unit() == Base::spec_first()
                    + j,
            x_cells@ == board@.with_note(x@),
            test == intersection_test(
                board@,
                x@,
                Base::spec_first(),
                Cover::spec_first(),
                Cover::spec_count(),
            ),
            forall|j: int| 0 <= j < i ==> test(#[trigger] range(count)[j]) is None,
        decreases bases.len() - i,
    {
        let base_cells = bases[i].cells_set().intersection(x_cells);
        proof {
            assert(range(count)[i as int] == i);
        }
        if base_cells.len() >= 2 {
            match find_cover::<Cover>(base_cells) {
                Some(cover_cells) => {
                    let eliminations = digit_candidates(
                        cover_cells.intersection(x_cells).difference(base_cells),
                        x,
                    );
                    if !eliminations.is_empty() {
                        proof {
                            lemma_first_some_hit(range(count), test, i as int);
                        }
                        return Some(
                            StrategyResult::with_eliminations(eliminations, BitSet::new()),
                        );
                    }
                },
                None => {},
            }
        }
        i += 1;
    }
    proof {
        lemma_first_some_none(range(count), test);
    }
    None
}

/// Searches the digits in ascending order, and for each the units of the kind `Base`, for
/// cells that one unit of the kind `Cover` holds and that strike a note there.
pub fn find_intersection<Base: UnitClass, Cover: UnitClass>(board: &Board) -> (r: StrategyResult)
    ensures
        r@ == intersection(
            board@,
            Base::spec_first(),
            Base::spec_count(),
            Cover::spec_first(),
            Cover::spec_count(),
        ),
{
    let digits = Digit::list();
    let ghost search = intersection_search(
        board@,
        Base::spec_first(),
        Base::spec_count(),
        Cover::spec_first(),
        Cover::spec_count(),
    );
    let mut x: usize = 0;
    while x < 9
        invariant
            0 <= x <= 9,
            digits@.len() == 9,
            forall|j: int| 0 <= j < 9 ==> (#[trigger] digits@[j])@ == j,
            search == intersection_search(
                board@,
                Base::spec_first(),
                Base::spec_count(),
                Cover::spec_first(),
                Cover::spec_count(),
            ),
            forall|j: int| 0 <= j < x ==> search(#[trigger] range(9)[j]) is None,
        decreases 9 - x,
    {
        proof {
            assert(range(9)[x as int] == x);
        }
        match find_intersection_for_digit::<Base, Cover>(board, digits[x]) {
            Some(result) => {
                proof {
                    lemma_first_some_hit(range(9), search, x as int);
                }
                return result;
            },
            None => {},
        }
        x += 1;
    }
    proof {
        lemma_first_some_none(range(9), search);
    }
    StrategyResult::default()
}

} // verus!
