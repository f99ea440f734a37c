use crate::bitset::BitSet;
use crate::sudoku::board::{Board, BoardModel};
use crate::sudoku::pos::candidate::Candidate;
use crate::sudoku::pos::cell::Cell;
use crate::sudoku::pos::digit::Digit;
use crate::sudoku::pos::units::{unit_cells, Unit, UnitClass};
use crate::sudoku::strats::{ResultModel, StrategyResult};
use vstd::prelude::*;

verus! {

/// Whether `x` is the only member of `s`.
pub open spec fn sole_member(s: Set<int>, x: int) -> bool {
    s == Set::<int>::empty().insert(x)
}

/// A set with a sole member has one member, and no other set has.
pub proof fn lemma_sole_member(s: Set<int>, x: int)
    requires
        s.finite(),
    ensures
        sole_member(s, x) ==> s.len() == 1,
        s.len() != 1 ==> !sole_member(s, x),
{
    if sole_member(s, x) {
        assert(s.remove(x) =~= Set::<int>::empty());
        assert(s.len() == s.remove(x).len() + 1);
    }
}

/// A set has at most one sole member.
pub proof fn lemma_sole_member_unique(s: Set<int>, x: int, y: int)
    requires
        sole_member(s, x),
        sole_member(s, y),
    ensures
        x == y,
{
    assert(s.contains(x));
    assert(Set::<int>::empty().insert(y).contains(x));
}

/// Whether one of the units below `units` has the cell of the candidate `k` as its only
/// unsolved cell, and that cell has the digit of `k` as its only note.
pub open spec fn is_full_house(board: BoardModel, k: int, units: int) -> bool {
    &&& sole_member(board.notes_at(k / 9), k % 9)
    &&& exists|u: int|
        0 <= u < units && sole_member(#[trigger] unit_cells(u).intersect(board.unsolved()), k / 9)
}

/// What "Full House" finds: the last unsolved cell of a unit takes its last note.
pub open spec fn full_house(board: BoardModel) -> ResultModel {
    ResultModel::solving(Set::new(|k: int| 0 <= k < 729 && is_full_house(board, k, 27)))
}

/// One more unit adds the candidate found in it, if one was found.
proof fn lemma_full_house_step(
    board: BoardModel,
    i: int,
    found: Option<int>,
    before: Set<int>,
    after: Set<int>,
)
    requires
        0 <= i,
        before == Set::new(|k: int| 0 <= k < 729 && is_full_house(board, k, i)),
        found is Some ==> {
            let k = found.unwrap();
            &&& 0 <= k < 729
            &&& sole_member(unit_cells(i).intersect(board.unsolved()), k / 9)
            &&& sole_member(board.notes_at(k / 9), k % 9)
            &&& after == before.insert(k)
        },
        found is None ==> after == before,
        found is None ==> forall|c: int, d: int|
            !(#[trigger] sole_member(unit_cells(i).intersect(board.unsolved()), c)
                && #[trigger] sole_member(board.notes_at(c), d)),
    ensures
        after == Set::new(|k: int| 0 <= k < 729 && is_full_house(board, k, i + 1)),
{
    let here = unit_cells(i).intersect(board.unsolved());
    assert forall|k: int|
        after.contains(k) == (0 <= k < 729 && is_full_house(board, k, i + 1)) by {
        if is_full_house(board, k, i) {
            let u = choose|u: int|
                0 <= u < i && sole_member(
                    #[trigger] unit_cells(u).intersect(board.unsolved()),
                    k / 9,
                );
            assert(0 <= u < i + 1);
        }
        if is_full_house(board, k, i + 1) && !is_full_house(board, k, i) {
            let u = choose|u: int|
                0 <= u < i + 1 && sole_member(
                    #[trigger] unit_cells(u).intersect(board.unsolved()),
                    k / 9,
                );
            assert(u == i);
            assert(sole_member(here, k / 9));
            assert(sole_member(board.notes_at(k / 9), k % 9));
            if found is Some {
                let f = found.unwrap();
                lemma_sole_member_unique(here, k / 9, f / 9);
                lemma_sole_member_unique(board.notes_at(k / 9), k % 9, f % 9);
                assert(k == f);
            }
        }
        if found == Some(k) {
            assert(sole_member(unit_cells(i).intersect(board.unsolved()), k / 9));
            assert(is_full_house(board, k, i + 1));
        }
    }
    assert(after =~= Set::new(|k: int| 0 <= k < 729 && is_full_house(board, k, i + 1)));
}

/// Places, in every unit with one unsolved cell, the one note of that cell.
pub fn find_full_house(board: &Board) -> (r: StrategyResult)
    ensures
        r@ == full_house(board@),
{
    let mut solutions: BitSet<Candidate> = BitSet::new();
    let units = Unit::list();
    let unsolved = board.cells_unsolved();
    let mut i: usize = 0;
    proof {
        assert(solutions@ =~= Set::new(|k: int| 0 <= k < 729 && is_full_house(board@, k, 0)));
    }
    while i < 27
        invariant
            0 <= i <= 27,
            units@.len() == 27,
            forall|j: int| 0 <= j < 27 ==> (#[trigger] units@[j])@ == j,
            unsolved@ == board@.unsolved(),
            solutions@ == Set::new(|k: int| 0 <= k < 729 && is_full_house(board@, k, i as int)),
        decreases 27 - i,
    {
        let unit = units[i];
        let open = unit.cells_set().intersection(unsolved);
        let ghost before = solutions@;
        let ghost here = unit_cells(i as int).intersect(board@.unsolved());
        proof {
            open.lemma_finite();
        }
        let mut found: Option<Candidate> = None;
        match open.only() {
            Some(cell) => {
                proof {
                    assert(open@.contains(cell@));
                }
                let notes = board.get_notes(&cell).unwrap();
                proof {
                    notes.lemma_finite();
                }
                match notes.only() {
                    Some(digit) => {
                        let candidate = Candidate::from_cell_and_digit(cell, digit);
                        solutions.insert(candidate);
                        found = Some(candidate);
                    },
                    None => {
                        proof {
                            assert forall|c: int, d: int|
                                !(sole_member(here, c) && sole_member(
                                    board@.notes_at(c),
                                    d,
                                )) by {
                                if sole_member(here, c) {
                                    lemma_sole_member_unique(here, c, cell@);
                                    lemma_sole_member(board@.notes_at(cell@), d);
                                }
                            }
                        }
                    },
                }
            },
            None => {
                proof {
                    assert forall|c: int, d: int|
                        !(sole_member(here, c) && sole_member(board@.notes_at(c), d)) by {
                        lemma_sole_member(here, c);
                    }
                }
            },
        }
        proof {
            lemma_full_house_step(
                board@,
                i as int,
                match found {
                    Some(candidate) => Some(candidate@),
                    None => None,
                },
                before,
                solutions@,
            );
        }
        i += 1;
    }
    StrategyResult::with_solutions(solutions)
}

/// What "Naked Single" finds: a cell with one note takes it.
pub open spec fn naked_single(board: BoardModel) -> ResultModel {
    ResultModel::solving(
        Set::new(|k: int| 0 <= k < 729 && sole_member(board.notes_at(k / 9), k % 9)),
    )
}

/// Places, in every unsolved cell with one note, that note.
pub fn find_naked_single(board: &Board) -> (r: StrategyResult)
    ensures
        r@ == naked_single(board@),
{
    let mut solutions: BitSet<Candidate> = BitSet::new();
    let cells = Cell::list();
    let mut i: usize = 0;
    proof {
        assert(solutions@ =~= Set::new(
            |k: int| 0 <= k < 0 && sole_member(board@.notes_at(k / 9), k % 9),
        ));
    }
    while i < 81
        invariant
            0 <= i <= 81,
            cells@.len() == 81,
            forall|j: int| 0 <= j < 81 ==> (#[trigger] cells@[j])@ == j,
            solutions@ == Set::new(
                |k: int| 0 <= k < 9 * i && sole_member(board@.notes_at(k / 9), k % 9),
            ),
        decreases 81 - i,
    {
        let cell = cells[i];
        let ghost before = solutions@;
        let mut found: Option<Candidate> = None;
        match board.get_notes(&cell) {
            Some(notes) => {
                proof {
                    notes.lemma_finite();
                }
                match notes.only() {
                    Some(digit) => {
                        let candidate = Candidate::from_cell_and_digit(cell, digit);
                        solutions.insert(candidate);
                        found = Some(candidate);
                    },
                    None => {
                        proof {
                            assert forall|d: int| !sole_member(board@.notes_at(cell@), d) by {
                                lemma_sole_member(board@.notes_at(cell@), d);
                            }
                        }
                    },
                }
            },
            None => {
                proof {
                    assert forall|d: int| !sole_member(board@.notes_at(cell@), d) by {
                        assert(!Set::<int>::empty().contains(d));
                        assert(Set::<int>::empty().insert(d).contains(d));
                    }
                }
            },
        }
        proof {
            assert forall|k: int|
                solutions@.contains(k) == (0 <= k < 9 * (i + 1) && sole_member(
                    board@.notes_at(k / 9),
                    k % 9,
                )) by {
                if found is Some && found.unwrap()@ == k {
                    assert(k / 9 == i);
                }
                if 9 * i <= k < 9 * (i + 1) && sole_member(board@.notes_at(k / 9), k % 9) {
                    assert(k / 9 == i);
                    assert(board@.notes_at(k / 9).contains(k % 9));
                }
            }
            assert(solutions@ =~= Set::new(
                |k: int| 0 <= k < 9 * (i + 1) && sole_member(board@.notes_at(k / 9), k % 9),
            ));
        }
        i += 1;
    }
    proof {
        assert(solutions@ =~= naked_single(board@).solutions);
    }
    StrategyResult::with_solutions(solutions)
}

/// Whether one of the units below `units` has the cell of the candidate `k` as its only
/// cell with the digit of `k` as a note.
pub open spec fn is_hidden_single(board: BoardModel, k: int, units: int) -> bool {
    exists|u: int|
        0 <= u < units && sole_member(
            #[trigger] unit_cells(u).intersect(board.with_note(k % 9)),
            k / 9,
        )
}

/// What "Hidden Single" finds: a digit with one place left in a unit goes there.
pub open spec fn hidden_single(board: BoardModel) -> ResultModel {
    ResultModel::solving(Set::new(|k: int| 0 <= k < 729 && is_hidden_single(board, k, 27)))
}

/// One more unit adds the candidate found in it, if one was found.
proof fn lemma_hidden_single_step(
    board: BoardModel,
    x: int,
    i: int,
    found: Option<int>,
    done: Set<int>,
    before: Set<int>,
    after: Set<int>,
)
    requires
        0 <= x < 9,
        0 <= i,
        before == Set::new(
            |k: int|
                0 <= k < 729 && (done.contains(k) || (k % 9 == x && is_hidden_single(board, k, i))),
        ),
        found is Some ==> {
            let k = found.unwrap();
            &&& 0 <= k < 729
            &&& k % 9 == x
            &&& sole_member(unit_cells(i).intersect(board.with_note(x)), k / 9)
            &&& after == before.insert(k)
        },
        found is None ==> after == before,
        found is None ==> forall|c: int|
            !#[trigger] sole_member(unit_cells(i).intersect(board.with_note(x)), c),
    ensures
        after == Set::new(
            |k: int|
                0 <= k < 729 && (done.contains(k) || (k % 9 == x && is_hidden_single(
                    board,
                    k,
                    i + 1,
                ))),
        ),
{
    let here = unit_cells(i).intersect(board.with_note(x));
    assert forall|k: int|
        after.contains(k) == (0 <= k < 729 && (done.contains(k) || (k % 9 == x
            && is_hidden_single(board, k, i + 1)))) by {
        if k % 9 == x && is_hidden_single(board, k, i) {
            let u = choose|u: int|
                0 <= u < i && sole_member(
                    #[trigger] unit_cells(u).intersect(board.with_note(k % 9)),
                    k / 9,
                );
            assert(0 <= u < i + 1);
        }
        if k % 9 == x && is_hidden_single(board, k, i + 1) && !is_hidden_single(board, k, i) {
            let u = choose|u: int|
                0 <= u < i + 1 && sole_member(
                    #[trigger] unit_cells(u).intersect(board.with_note(k % 9)),
                    k / 9,
                );
            assert(u == i);
            assert(sole_member(here, k / 9));
            if found is Some {
                let f = found.unwrap();
                lemma_sole_member_unique(here, k / 9, f / 9);
                assert(k == f);
            }
        }
        if found == Some(k) {
            assert(sole_member(unit_cells(i).intersect(board.with_note(k % 9)), k / 9));
            assert(is_hidden_single(board, k, i + 1));
        }
    }
    assert(after =~= Set::new(
        |k: int|
            0 <= k < 729 && (done.contains(k) || (k % 9 == x && is_hidden_single(
                board,
                k,
                i + 1,
            ))),
    ));
}

/// Places every digit that has one cell left in some unit into that cell.
pub fn find_hidden_single(board: &Board) -> (r: StrategyResult)
    ensures
        r@ == hidden_single(board@),
{
    let mut solutions: BitSet<Candidate> = BitSet::new();
    let digits = Digit::list();
    let units = Unit::list();
    let mut x: usize = 0;
    proof {
        assert(solutions@ =~= Set::new(
            |k: int| 0 <= k < 729 && k % 9 < 0 && is_hidden_single(board@, k, 27),
        ));
    }
    while x < 9
        invariant
            0 <= x <= 9,
            digits@.len() == 9,
            forall|j: int| 0 <= j < 9 ==> (#[trigger] digits@[j])@ == j,
            units@.len() == 27,
            forall|j: int| 0 <= j < 27 ==> (#[trigger] units@[j])@ == j,
            solutions@ == Set::new(
                |k: int| 0 <= k < 729 && k % 9 < x && is_hidden_single(board@, k, 27),
            ),
        decreases 9 - x,
    {
        let digit = digits[x];
        let x_cells = board.cells_with_note(digit);
        let ghost done = solutions@;
        let mut i: usize = 0;
        proof {
            assert(solutions@ =~= Set::new(
                |k: int|
                    0 <= k < 729 && (done.contains(k) || (k % 9 == x && is_hidden_single(
                        board@,
                        k,
                        0,
                    ))),
            ));
        }
        while i < 27
            invariant
                0 <= i <= 27,
                0 <= x < 9,
                digit@ == x,
                x_cells@ == board@.with_note(x as int),
                units@.len() == 27,
                forall|j: int| 0 <= j < 27 ==> (#[trigger] units@[j])@ == j,
                done == Set::new(
                    |k: int| 0 <= k < 729 && k % 9 < x && is_hidden_single(board@, k, 27),
                ),
                solutions@ == Set::new(
                    |k: int|
                        0 <= k < 729 && (done.contains(k) || (k % 9 == x && is_hidden_single(
                            board@,
                            k,
                            i as int,
                        ))),
                ),
            decreases 27 - i,
        {
            let unit = units[i];
            let places = unit.cells_set().intersection(x_cells);
            let ghost before = solutions@;
            let ghost here = unit_cells(i as int).intersect(board@.with_note(x as int));
            let mut found: Option<Candidate> = None;
            proof {
                places.lemma_finite();
            }
            match places.only() {
                Some(cell) => {
                    let candidate = Candidate::from_cell_and_digit(cell, digit);
                    solutions.insert(candidate);
                    found = Some(candidate);
                },
                None => {
                    proof {
                        assert forall|c: int| !sole_member(here, c) by {
                            lemma_sole_member(here, c);
                        }
                    }
                },
            }
            proof {
                lemma_hidden_single_step(
                    board@,
                    x as int,
                    i as int,
                    match found {
                        Some(candidate) => Some(candidate@),
                        None => None,
                    },
                    done,
                    before,
                    solutions@,
                );
            }
            i += 1;
        }
        proof {
            assert(solutions@ =~= Set::new(
                |k: int| 0 <= k < 729 && k % 9 < x + 1 && is_hidden_single(board@, k, 27),
            ));
        }
        x += 1;
    }
    proof {
        assert(solutions@ =~= hidden_single(board@).solutions);
    }
    StrategyResult::with_solutions(solutions)
}

} // verus!
