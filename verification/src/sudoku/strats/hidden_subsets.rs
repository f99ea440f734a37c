use crate::bitset::{ascending, indices, numbers_below, BitSet};
use crate::sudoku::board::{Board, BoardModel};
use crate::sudoku::pos::cell::Cell;
use crate::sudoku::pos::digit::Digit;
use crate::sudoku::pos::units::{unit_cell, unit_cells, Unit, UnitClass};
use crate::sudoku::strats::{
    noted, noted_candidates, notes_of_cells, notes_union, option_view, or_empty, range,
    ResultModel, StrategyResult,
};
use crate::util::{
    combinations, combinations_of, first_some, lemma_combinations_map, lemma_first_some_hit,
    lemma_first_some_none,
};
use vstd::prelude::*;

verus! {

/// The cells of the unit numbered `u`, place by place.
pub open spec fn unit_places(u: int) -> Seq<int> {
    Seq::new(9, |k: int| unit_cell(u, k))
}

/// The cells of the unit numbered `u` that have one of the digits of a list as a note.
pub open spec fn cells_noting(board: BoardModel, u: int, digits: Seq<int>) -> Set<int> {
    Set::new(
        |c: int|
            unit_cells(u).contains(c) && exists|j: int|
                0 <= j < digits.len() && board.has_note(c, #[trigger] digits[j]),
    )
}

/// What a hidden subset of `n` digits, the digits of `combo`, gives in the unit numbered `u`.
///
/// It needs the cells of the unit that have one of the digits as a note to be `n` in all.
/// Every other note is then struck from those cells; their notes of the subset are shown.
pub open spec fn hidden_subset_at(board: BoardModel, u: int, combo: Seq<int>, n: nat) -> Option<
    ResultModel,
> {
    let cells = cells_noting(board, u, combo);
    let eliminations = noted_candidates(
        board,
        cells,
        numbers_below(9).difference(combo.to_set()),
    );
    if cells.len() == n && eliminations != Set::<int>::empty() {
        Some(ResultModel::striking(eliminations, noted_candidates(board, cells, combo.to_set())))
    } else {
        None
    }
}

/// The test of one combination of digits in the unit numbered `u`.
pub open spec fn hidden_subset_test(board: BoardModel, u: int, n: nat) -> spec_fn(
    Seq<int>,
) -> Option<ResultModel> {
    |combo: Seq<int>| hidden_subset_at(board, u, combo, n)
}

/// The first hidden subset of `n` digits in the unit numbered `u` that strikes a note:
/// the combinations of the digits noted in the unit are tried in lexicographic order.
pub open spec fn hidden_subset_in_unit(board: BoardModel, u: int, n: nat) -> Option<ResultModel> {
    first_some(
        combinations_of(ascending(notes_of_cells(board, unit_places(u)), 9), n),
        hidden_subset_test(board, u, n),
    )
}

/// The search of one unit.
pub open spec fn hidden_subset_search(board: BoardModel, n: nat) -> spec_fn(int) -> Option<
    ResultModel,
> {
    |u: int| hidden_subset_in_unit(board, u, n)
}

/// What "Hidden Pair", "Hidden Triple" and "Hidden Quad" find, for `n` of 2, 3 and 4: the
/// first hidden subset that strikes a note, the units taken in ascending order.
pub open spec fn hidden_subset(board: BoardModel, n: nat) -> ResultModel {
    or_empty(first_some(range(27), hidden_subset_search(board, n)))
}

/// The cells of `unit` that have one of `digits` as a note.
pub fn cells_with_notes(board: &Board, unit: Unit, digits: &Vec<Digit>) -> (r: BitSet<Cell>)
    ensures
        r@ == cells_noting(board@, unit@, indices(digits@)),
{
    let in_unit = unit.cells_set();
    let mut cells: BitSet<Cell> = BitSet::new();
    let mut j: usize = 0;
    let ghost list = indices(digits@);
    proof {
        assert(cells@ =~= cells_noting(board@, unit@, list.take(0)));
    }
    while j < digits.len()
        invariant
            0 <= j <= digits.len(),
            list == indices(digits@),
            in_unit@ == unit_cells(unit@),
            cells@ == cells_noting(board@, unit@, list.take(j as int)),
        decreases digits.len() - j,
    {
        let ghost before = cells@;
        let digit = digits[j];
        cells = cells.union(in_unit.intersection(board.cells_with_note(digit)));
        proof {
            let short = list.take(j as int);
            let long = list.take(j as int + 1);
            assert(long[j as int] == digit@);
            assert forall|c: int|
                cells@.contains(c) == cells_noting(board@, unit@, long).contains(c) by {
                if before.contains(c) {
                    let a = choose|a: int|
                        0 <= a < short.len() && board@.has_note(c, #[trigger] short[a]);
                    assert(long[a] == short[a]);
                }
                if board@.has_note(c, digit@) {
                    assert(board@.has_note(c, long[j as int]));
                }
                if cells_noting(board@, unit@, long).contains(c) {
                    let a = choose|a: int|
                        0 <= a < long.len() && board@.has_note(c, #[trigger] long[a]);
                    if a < j {
                        assert(short[a] == long[a]);
                    }
                }
            }
            assert(cells@ =~= cells_noting(board@, unit@, long));
        }
        j += 1;
    }
    proof {
        assert(list.take(j as int) =~= list);
    }
    cells
}

/// Searches one unit for a hidden subset of `N` digits that strikes a note.
pub fn find_hidden_subset_in_unit<const N: usize>(board: &Board, unit: Unit) -> (r: Option<
    StrategyResult,
>)
    ensures
        option_view(r) == hidden_subset_in_unit(board@, unit@, N as nat),
{
    let unit_cells_list = unit.cells_vec();
    let unsolved_digits = notes_union(board, &unit_cells_list);
    let digits = unsolved_digits.to_vec();
    let combos = combinations(&digits, N);
    let ghost want = combinations_of(ascending(notes_of_cells(board@, unit_places(unit@)), 9), N as nat);
    let ghost test = hidden_subset_test(board@, unit@, N as nat);
    proof {
        assert(indices(unit_cells_list@) =~= unit_places(unit@));
        lemma_combinations_map(digits@, |d: Digit| d@, N as nat);
        assert(indices(digits@) =~= digits@.map_values(|d: Digit| d@));
        let views = combos@.map_values(|combo: Vec<Digit>| combo@);
        assert(views.map_values(|combo: Seq<Digit>| combo.map_values(|d: Digit| d@)) == want);
        assert forall|a: int| 0 <= a < combos@.len() implies indices(
            (#[trigger] combos@[a])@,
        ) == want[a] by {
            assert(views[a] == combos@[a]@);
            assert(indices(combos@[a]@) =~= views[a].map_values(|d: Digit| d@));
        }
    }
    let mut j: usize = 0;
    while j < combos.len()
        invariant
            0 <= j <= combos.len(),
            combos@.len() == want.len(),
            forall|a: int| 0 <= a < combos@.len() ==> indices((#[trigger] combos@[a])@) == want[a],
            forall|a: int| 0 <= a < j ==> test(#[trigger] want[a]) is None,
            test == hidden_subset_test(board@, unit@, N as nat),
            want == combinations_of(
                ascending(notes_of_cells(board@, unit_places(unit@)), 9),
                N as nat,
            ),
        decreases combos.len() - j,
    {
        let combo = &combos[j];
        let cell_set = cells_with_notes(board, unit, combo);
        if cell_set.len() == N {
            let digit_set = BitSet::from_slice(combo.as_slice());
            let eliminations = noted(board, cell_set, digit_set.complement());
            if !eliminations.is_empty() {
                let highlights = noted(board, cell_set, digit_set);
                proof {
                    lemma_first_some_hit(want, test, j as int);
                }
                return Some(StrategyResult::with_eliminations(eliminations, highlights));
            }
        }
        j += 1;
    }
    proof {
        lemma_first_some_none(want, test);
    }
    None
}

/// Searches the units in ascending order for a hidden subset of `N` digits that strikes a
/// note.
pub fn find_hidden_subset<const N: usize>(board: &Board) -> (r: StrategyResult)
    ensures
        r@ == hidden_subset(board@, N as nat),
{
    let units = Unit::list();
    let ghost search = hidden_subset_search(board@, N as nat);
    let mut i: usize = 0;
    while i < 27
        invariant
            0 <= i <= 27,
            units@.len() == 27,
            forall|j: int| 0 <= j < 27 ==> (#[trigger] units@[j])@ == j,
            search == hidden_subset_search(board@, N as nat),
            forall|u: int| 0 <= u < i ==> search(#[trigger] range(27)[u]) is None,
        decreases 27 - i,
    {
        match find_hidden_subset_in_unit::<N>(board, units[i]) {
            Some(result) => {
                proof {
                    assert(range(27)[i as int] == i);
                    lemma_first_some_hit(range(27), search, i as int);
                }
                return result;
            },
            None => {
                proof {
                    assert(range(27)[i as int] == i);
                }
            },
        }
        i += 1;
    }
    proof {
        lemma_first_some_none(range(27), search);
    }
    StrategyResult::default()
}

} // verus!
