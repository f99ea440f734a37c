use crate::bitset::{union_of, BitSet};
use crate::sudoku::board::{Board, BoardModel};
use crate::sudoku::pos::cell::Cell;
use crate::sudoku::pos::digit::Digit;
use crate::sudoku::pos::units::{unit_cells, Col, Row, UnitClass};
use crate::sudoku::strats::{
    candidates_of_cells, digit_candidates, option_view, or_empty, range, ResultModel,
    StrategyResult,
};
use crate::util::{
    combinations, combinations_of, first_some, lemma_combinations_map, lemma_first_some_hit,
    lemma_first_some_none,
};
use vstd::prelude::*;

verus! {

/// For each of the `count` units from `first` on, in ascending order, the cells of the unit
/// that have the digit numbered `x` as a note; units without such a cell are left out.
pub open spec fn fish_sets(board: BoardModel, x: int, first: int, count: int) -> Seq<Set<int>>
    decreases count,
{
    if count <= 0 {
        Seq::empty()
    } else {
        let rest = fish_sets(board, x, first, count - 1);
        let here = unit_cells(first + count - 1).intersect(board.with_note(x));
        if here == Set::<int>::empty() {
            rest
        } else {
            rest.push(here)
        }
    }
}

/// The test of one combination of cover units: the union of their cells, if it holds all
/// of `base_cells`.
pub open spec fn fish_cover_test(base_cells: Set<int>) -> spec_fn(Seq<Set<int>>) -> Option<
    Set<int>,
> {
    |combo: Seq<Set<int>>|
        if base_cells.subset_of(union_of(combo)) {
            Some(union_of(combo))
        } else {
            None
        }
}

/// The cells of the first combination of `n` cover units that holds all of `base_cells`.
pub open spec fn fish_cover(
    board: BoardModel,
    n: nat,
    x: int,
    base_cells: Set<int>,
    cover_first: int,
    cover_count: int,
) -> Option<Set<int>> {
    first_some(
        combinations_of(fish_sets(board, x, cover_first, cover_count), n),
        fish_cover_test(base_cells),
    )
}

/// What the digit numbered `x` gives for base units with the cells `base_cells`: the digit
/// is struck from the cells of the first covering combination that are no base cells.
pub open spec fn fish_at(
    board: BoardModel,
    n: nat,
    x: int,
    base_cells: Set<int>,
    cover_first: int,
    cover_count: int,
) -> Option<ResultModel> {
    match fish_cover(board, n, x, base_cells, cover_first, cover_count) {
        None => None,
        Some(cover_cells) => ResultModel::striking(
            candidates_of_cells(cover_cells.difference(base_cells), x),
            Set::empty(),
        ).if_nontrivial(),
    }
}

/// The test of one combination of base units for the digit numbered `x`.
pub open spec fn fish_test(
    board: BoardModel,
    n: nat,
    x: int,
    cover_first: int,
    cover_count: int,
) -> spec_fn(Seq<Set<int>>) -> Option<ResultModel> {
    |combo: Seq<Set<int>>| fish_at(board, n, x, union_of(combo), cover_first, cover_count)
}

/// The search of the combinations of base units for one digit.
pub open spec fn fish_search(
    board: BoardModel,
    n: nat,
    base_first: int,
    base_count: int,
    cover_first: int,
    cover_count: int,
) -> spec_fn(int) -> Option<ResultModel> {
    |x: int|
        first_some(
            combinations_of(fish_sets(board, x, base_first, base_count), n),
            fish_test(board, n, x, cover_first, cover_count),
        )
}

/// What a fish of `n` base units finds: the first digit, in ascending order, and for it the
/// first combination of base units, in lexicographic order, that strike a note.
pub open spec fn fish(
    board: BoardModel,
    n: nat,
    base_first: int,
    base_count: int,
    cover_first: int,
    cover_count: int,
) -> ResultModel {
    or_empty(
        first_some(
            range(9),
            fish_search(board, n, base_first, base_count, cover_first, cover_count),
        ),
    )
}

/// What "X-Wing", "Swordfish" and "Jellyfish" find, for `n` of 2, 3 and 4: a fish with rows as
/// base units and columns as cover units or, where there is none, one with columns as base
/// units and rows as cover units.
pub open spec fn basic_fish(board: BoardModel, n: nat) -> ResultModel {
    let by_rows = fish(board, n, 0, 9, 9, 9);
    if by_rows.is_nontrivial() {
        by_rows
    } else {
        fish(board, n, 9, 9, 0, 9)
    }
}

/// The models of a list of sets.
pub open spec fn set_views(sets: Seq<BitSet<Cell>>) -> Seq<Set<int>> {
    sets.map_values(|s: BitSet<Cell>| s@)
}

/// For each unit of the kind `U`, in ascending order, the cells of the unit that have `x`
/// as a note; units without such a cell are left out.
pub fn unit_note_sets<U: UnitClass>(board: &Board, x: Digit) -> (r: Vec<BitSet<Cell>>)
    ensures
        set_views(r@) == fish_sets(board@, x@, U::spec_first(), U::spec_count()),
{
    let x_cells = board.cells_with_note(x);
    let units = U::all_vec();
    let mut out: Vec<BitSet<Cell>> = Vec::new();
    let mut i: usize = 0;
    proof {
        U::lemma_class_range();
        assert(set_views(out@) =~= fish_sets(board@, x@, U::spec_first(), 0));
    }
    while i < units.len()
        invariant
            0 <= i <= units.len(),
            units@.len() == U::spec_count(),
            forall|j: int|
                0 <= j < units@.len() ==> (#[trigger] units@[j]).spec_unit() == U::spec_first()
                    + j,
            x_cells@ == board@.with_note(x@),
            set_views(out@) == fish_sets(board@, x@, U::spec_first(), i as int),
        decreases units.len() - i,
    {
        let here = units[i].cells_set().intersection(x_cells);
        let ghost before = set_views(out@);
        if here.is_nonempty() {
            out.push(here);
            proof {
                assert(set_views(out@) =~= before.push(here@));
            }
        }
        i += 1;
    }
    out
}

/// The combinations of `N` sets of a list, each with the union of its sets.
fn unions_of_combinations<const N: usize>(sets: &Vec<BitSet<Cell>>) -> (r: Vec<BitSet<Cell>>)
    ensures
        r@.len() == combinations_of(set_views(sets@), N as nat).len(),
        forall|a: int|
            0 <= a < r@.len() ==> (#[trigger] r@[a])@ == union_of(
                combinations_of(set_views(sets@), N as nat)[a],
            ),
{
    let combos = combinations(sets, N);
    let ghost want = combinations_of(set_views(sets@), N as nat);
    proof {
        lemma_combinations_map(sets@, |s: BitSet<Cell>| s@, N as nat);
        let views = combos@.map_values(|combo: Vec<BitSet<Cell>>| combo@);
        assert(views.map_values(|combo: Seq<BitSet<Cell>>| combo.map_values(|s: BitSet<Cell>| s@))
            == want);
        assert forall|a: int| 0 <= a < combos@.len() implies set_views(
            (#[trigger] combos@[a])@,
        ) == want[a] by {
            assert(views[a] == combos@[a]@);
        }
    }
    let mut out: Vec<BitSet<Cell>> = Vec::new();
    let mut j: usize = 0;
    while j < combos.len()
        invariant
            0 <= j <= combos.len(),
            combos@.len() == want.len(),
            forall|a: int|
                0 <= a < combos@.len() ==> set_views((#[trigger] combos@[a])@) == want[a],
            out@.len() == j,
            forall|a: int| 0 <= a < j ==> (#[trigger] out@[a])@ == union_of(want[a]),
        decreases combos.len() - j,
    {
        let all = BitSet::sum(&combos[j]);
        out.push(all);
        j += 1;
    }
    out
}

/// The cells of the first combination of `N` units of the kind `Cover` that holds all of
/// `base_cells`, the units taken by their cells with `x` as a note.
pub fn find_fish_cover<const N: usize, Cover: UnitClass>(
    board: &Board,
    x: Digit,
    base_cells: BitSet<Cell>,
) -> (r: Option<BitSet<Cell>>)
    ensures
        r is Some <==> fish_cover(
            board@,
            N as nat,
            x@,
            base_cells@,
            Cover::spec_first(),
            Cover::spec_count(),
        ) is Some,
        r is Some ==> Some(r.unwrap()@) == fish_cover(
            board@,
            N as nat,
            x@,
            base_cells@,
            Cover::spec_first(),
            Cover::spec_count(),
        ),
{
    let sets = unit_note_sets::<Cover>(board, x);
    let covers = unions_of_combinations::<N>(&sets);
    let ghost want = combinations_of(
        fish_sets(board@, x@, Cover::spec_first(), Cover::spec_count()),
        N as nat,
    );
    let ghost test = fish_cover_test(base_cells@);
    let mut j: usize = 0;
    while j < covers.len()
        invariant
            0 <= j <= covers.len(),
            covers@.len() == want.len(),
            forall|a: int| 0 <= a < covers@.len() ==> (#[trigger] covers@[a])@ == union_of(want[a]),
            test == fish_cover_test(base_cells@),
            want == combinations_of(
                fish_sets(board@, x@, Cover::spec_first(), Cover::spec_count()),
                N as nat,
            ),
            forall|a: int| 0 <= a < j ==> test(#[trigger] want[a]) is None,
        decreases covers.len() - j,
    {
        if base_cells.is_subset(&covers[j]) {
            proof {
                lemma_first_some_hit(want, test, j as int);
            }
            return Some(covers[j]);
        }
        j += 1;
    }
    proof {
        lemma_first_some_none(want, test);
    }
    None
}

/// Searches the combinations of `N` units of the kind `Base` for the digit `x`.
pub fn find_fish_for_digit<const N: usize, Base: UnitClass, Cover: UnitClass>(
    board: &Board,
    x: Digit,
) -> (r: Option<StrategyResult>)
    ensures
        option_view(r) == fish_search(
            board@,
            N as nat,
            Base::spec_first(),
            Base::spec_count(),
            Cover::spec_first(),
            Cover::spec_count(),
        )(x@),
{
    let sets = unit_note_sets::<Base>(board, x);
    let bases = unions_of_combinations::<N>(&sets);
    let ghost want = combinations_of(
        fish_sets(board@, x@, Base::spec_first(), Base::spec_count()),
        N as nat,
    );
    let ghost test = fish_test(board@, N as nat, x@, Cover::spec_first(), Cover::spec_count());
    let mut j: usize = 0;
    while j < bases.len()
        invariant
            0 <= j <= bases.len(),
            bases@.len() == want.len(),
            forall|a: int| 0 <= a < bases@.len() ==> (#[trigger] bases@[a])@ == union_of(want[a]),
            test == fish_test(board@, N as nat, x@, Cover::spec_first(), Cover::spec_count()),
            want == combinations_of(
                fish_sets(board@, x@, Base::spec_first(), Base::spec_count()),
                N as nat,
            ),
            forall|a: int| 0 <= a < j ==> test(#[trigger] want[a]) is None,
        decreases bases.len() - j,
    {
        let base_cells = bases[j];
        match find_fish_cover::<N, Cover>(board, x, base_cells) {
            Some(cover_cells) => {
                let eliminations = digit_candidates(cover_cells.difference(base_cells), x);
                if !eliminations.is_empty() {
                    proof {
                        lemma_first_some_hit(want, test, j as int);
                    }
                    return Some(StrategyResult::with_eliminations(eliminations, BitSet::new()));
                }
            },
            None => {},
        }
        j += 1;
    }
    proof {
        lemma_first_some_none(want, test);
    }
    None
}

/// Searches the digits in ascending order for a fish of `N` units of the kind `Base` that
/// units of the kind `Cover` cover.
pub fn find_fish<const N: usize, Base: UnitClass, Cover: UnitClass>(board: &Board) -> (r:
    StrategyResult)
    ensures
        r@ == fish(
            board@,
            N as nat,
            Base::spec_first(),
            Base::spec_count(),
            Cover::spec_first(),
            Cover::spec_count(),
        ),
{
    let digits = Digit::list();
    let ghost search = fish_search(
        board@,
        N as nat,
        Base::spec_first(),
        Base::spec_count(),
        Cover::spec_first(),
        Cover::spec_count(),
    );
    let mut x: usize = 0;
    while x < 9
        invariant
            0 <= x <= 9,
            digits@.len() == 9,
            forall|j: int| 0 <= j < 9 ==> (#[trigger] digits@[j])@ == j,
            search == fish_search(
                board@,
                N as nat,
                Base::spec_first(),
                Base::spec_count(),
                Cover::spec_first(),
                Cover::spec_count(),
            ),
            forall|j: int| 0 <= j < x ==> search(#[trigger] range(9)[j]) is None,
        decreases 9 - x,
    {
        proof {
            assert(range(9)[x as int] == x);
        }
        match find_fish_for_digit::<N, Base, Cover>(board, digits[x]) {
            Some(result) => {
                proof {
                    lemma_first_some_hit(range(9), search, x as int);
                }
                return result;
            },
            None => {},
        }
        x += 1;
    }
    proof {
        lemma_first_some_none(range(9), search);
    }
    StrategyResult::default()
}

/// Searches for a fish of `N` rows that columns cover and then, where there is none, for
/// one of `N` columns that rows cover.
pub fn find_basic_fish<const N: usize>(board: &Board) -> (r: StrategyResult)
    ensures
        r@ == basic_fish(board@, N as nat),
{
    let result = find_fish::<N, Row, Col>(board);
    if result.is_nontrivial() {
        return result;
    }
    find_fish::<N, Col, Row>(board)
}

} // verus!
