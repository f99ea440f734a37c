use crate::bitset::{ascending, indices, BitSet};
use crate::sudoku::board::{Board, BoardModel};
use crate::sudoku::pos::cell::Cell;
use crate::sudoku::pos::units::{unit_cells, Unit, UnitClass};
use crate::sudoku::strats::{
    noted, noted_candidates, notes_of_cells, notes_union, option_view, or_empty, range,
    ResultModel, StrategyResult,
};
use crate::util::{
    combinations, combinations_of, first_some, lemma_combinations_map, lemma_first_some_hit,
    lemma_first_some_none,
};
use vstd::prelude::*;

verus! {

/// What a naked subset of `n` cells, the cells of `combo`, gives in the unit numbered `u`.
///
/// It needs the notes of the cells to be `n` digits in all. Those digits are then struck
/// from the other unsolved cells of the unit; the notes of the subset are shown.
pub open spec fn naked_subset_at(board: BoardModel, u: int, combo: Seq<int>, n: nat) -> Option<
    ResultModel,
> {
    let digits = notes_of_cells(board, combo);
    let others = unit_cells(u).intersect(board.unsolved()).difference(combo.to_set());
    let eliminations = noted_candidates(board, others, digits);
    if digits.len() == n && eliminations != Set::<int>::empty() {
        Some(
            ResultModel::striking(eliminations, noted_candidates(board, combo.to_set(), digits)),
        )
    } else {
        None
    }
}

/// The test of one combination of cells of the unit numbered `u`.
pub open spec fn naked_subset_test(board: BoardModel, u: int, n: nat) -> spec_fn(Seq<int>) -> Option<
    ResultModel,
> {
    |combo: Seq<int>| naked_subset_at(board, u, combo, n)
}

/// The first naked subset of `n` cells in the unit numbered `u` that strikes a note:
/// the combinations of the unsolved cells of the unit are tried in lexicographic order.
pub open spec fn naked_subset_in_unit(board: BoardModel, u: int, n: nat) -> Option<ResultModel> {
    first_some(
        combinations_of(ascending(unit_cells(u).intersect(board.unsolved()), 81), n),
        naked_subset_test(board, u, n),
    )
}

/// The search of one unit.
pub open spec fn naked_subset_search(board: BoardModel, n: nat) -> spec_fn(int) -> Option<
    ResultModel,
> {
    |u: int| naked_subset_in_unit(board, u, n)
}

/// What "Naked Pair", "Naked Triple" and "Naked Quad" find, for `n` of 2, 3 and 4: the first
/// naked subset that strikes a note, the units taken in ascending order.
pub open spec fn naked_subset(board: BoardModel, n: nat) -> ResultModel {
    or_empty(first_some(range(27), naked_subset_search(board, n)))
}

/// Searches one unit for a naked subset of `N` cells that strikes a note.
pub fn find_naked_subset_in_unit<const N: usize>(board: &Board, unit: Unit) -> (r: Option<
    StrategyResult,
>)
    ensures
        option_view(r) == naked_subset_in_unit(board@, unit@, N as nat),
{
    let unsolved_cells = unit.cells_set().intersection(board.cells_unsolved());
    let cells = unsolved_cells.to_vec();
    let combos = combinations(&cells, N);
    let ghost pool = ascending(unit_cells(unit@).intersect(board@.unsolved()), 81);
    let ghost want = combinations_of(pool, N as nat);
    let ghost test = naked_subset_test(board@, unit@, N as nat);
    proof {
        lemma_combinations_map(cells@, |c: Cell| c@, N as nat);
        assert(indices(cells@) =~= cells@.map_values(|c: Cell| c@));
        let views = combos@.map_values(|combo: Vec<Cell>| combo@);
        assert(views.map_values(|combo: Seq<Cell>| combo.map_values(|c: Cell| c@)) == want);
        assert forall|a: int| 0 <= a < combos@.len() implies indices(
            (#[trigger] combos@[a])@,
        ) == want[a] by {
            assert(views[a] == combos@[a]@);
            assert(indices(combos@[a]@) =~= views[a].map_values(|c: Cell| c@));
        }
    }
    let mut j: usize = 0;
    while j < combos.len()
        invariant
            0 <= j <= combos.len(),
            combos@.len() == want.len(),
            forall|a: int| 0 <= a < combos@.len() ==> indices((#[trigger] combos@[a])@) == want[a],
            forall|a: int| 0 <= a < j ==> test(#[trigger] want[a]) is None,
            test == naked_subset_test(board@, unit@, N as nat),
            want == combinations_of(
                ascending(unit_cells(unit@).intersect(board@.unsolved()), 81),
                N as nat,
            ),
            unsolved_cells@ == unit_cells(unit@).intersect(board@.unsolved()),
        decreases combos.len() - j,
    {
        let combo = &combos[j];
        let digit_set = notes_union(board, combo);
        if digit_set.len() == N {
            let cell_set = BitSet::from_slice(combo.as_slice());
            let eliminations = noted(board, unsolved_cells.difference(cell_set), digit_set);
            if !eliminations.is_empty() {
                let highlights = noted(board, cell_set, digit_set);
                proof {
                    lemma_first_some_hit(want, test, j as int);
                }
                return Some(StrategyResult::with_eliminations(eliminations, highlights));
            }
        }
        j += 1;
    }
    proof {
        lemma_first_some_none(want, test);
    }
    None
}

/// Searches the units in ascending order for a naked subset of `N` cells that strikes a note.
pub fn find_naked_subset<const N: usize>(board: &Board) -> (r: StrategyResult)
    ensures
        r@ == naked_subset(board@, N as nat),
{
    let units = Unit::list();
    let ghost search = naked_subset_search(board@, N as nat);
    let mut i: usize = 0;
    while i < 27
        invariant
            0 <= i <= 27,
            units@.len() == 27,
            forall|j: int| 0 <= j < 27 ==> (#[trigger] units@[j])@ == j,
            search == naked_subset_search(board@, N as nat),
            forall|u: int| 0 <= u < i ==> search(#[trigger] range(27)[u]) is None,
        decreases 27 - i,
    {
        match find_naked_subset_in_unit::<N>(board, units[i]) {
            Some(result) => {
                proof {
                    assert(range(27)[i as int] == i);
                    lemma_first_some_hit(range(27), search, i as int);
                }
                return result;
            },
            None => {
                proof {
                    assert(range(27)[i as int] == i);
                }
            },
        }
        i += 1;
    }
    proof {
        lemma_first_some_none(range(27), search);
    }
    StrategyResult::default()
}

} // verus!
