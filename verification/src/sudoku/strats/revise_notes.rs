use crate::bitset::BitSet;
use crate::sudoku::board::{Board, BoardModel};
use crate::sudoku::pos::candidate::Candidate;
use crate::sudoku::pos::cell::are_peers;
use crate::sudoku::strats::{digit_candidates, ResultModel, StrategyResult};
use vstd::prelude::*;

verus! {

/// The notes that a solved cell rules out: the digit of a solved cell, as a note of a
/// cell that shares a unit with it.
pub open spec fn stale_notes(board: BoardModel) -> Set<int> {
    Set::new(
        |k: int|
            0 <= k < 729 && board.has_note(k / 9, k % 9) && exists|s: int|
                0 <= s < 81 && #[trigger] board.digit_at(s) == Some(k % 9) && are_peers(s, k / 9),
    )
}

/// What "Revise Notes" finds on a board: every stale note is struck.
pub open spec fn revise_notes(board: BoardModel) -> ResultModel {
    ResultModel::striking(stale_notes(board), Set::empty())
}

/// The stale notes that the solved cells below `bound` rule out.
spec fn stale_notes_below(board: BoardModel, bound: int) -> Set<int> {
    Set::new(
        |k: int|
            0 <= k < 729 && board.has_note(k / 9, k % 9) && exists|s: int|
                0 <= s < bound && #[trigger] board.digit_at(s) == Some(k % 9) && are_peers(
                    s,
                    k / 9,
                ),
    )
}

/// Strikes, for every solved cell, its digit from the notes of the cells that share a
/// unit with it.
pub fn find_revise_notes(board: &Board) -> (r: StrategyResult)
    ensures
        r@ == revise_notes(board@),
{
    let mut eliminations: BitSet<Candidate> = BitSet::new();
    let cells = crate::sudoku::pos::cell::Cell::list();
    let mut i: usize = 0;
    proof {
        assert(eliminations@ =~= stale_notes_below(board@, 0));
    }
    while i < 81
        invariant
            0 <= i <= 81,
            cells@.len() == 81,
            forall|j: int| 0 <= j < 81 ==> (#[trigger] cells@[j])@ == j,
            eliminations@ == stale_notes_below(board@, i as int),
        decreases 81 - i,
    {
        let cell = cells[i];
        let ghost before = eliminations@;
        match board.get_digit(&cell) {
            Some(digit) => {
                let struck = digit_candidates(
                    cell.neighbors().intersection(board.cells_with_note(digit)),
                    digit,
                );
                eliminations = eliminations.union(struck);
                proof {
                    assert forall|k: int|
                        eliminations@.contains(k) == stale_notes_below(
                            board@,
                            i as int + 1,
                        ).contains(k) by {
                        if before.contains(k) {
                            let s = choose|s: int|
                                0 <= s < i && #[trigger] board@.digit_at(s) == Some(k % 9)
                                    && are_peers(s, k / 9);
                            assert(0 <= s < i + 1);
                        }
                        if struck@.contains(k) {
                            assert(board@.digit_at(i as int) == Some(k % 9));
                        }
                        if stale_notes_below(board@, i as int + 1).contains(k) {
                            let s = choose|s: int|
                                0 <= s < i + 1 && #[trigger] board@.digit_at(s) == Some(k % 9)
                                    && are_peers(s, k / 9);
                            if s < i {
                                assert(before.contains(k));
                            } else {
                                assert(struck@.contains(k));
                            }
                        }
                    }
                    assert(eliminations@ =~= stale_notes_below(board@, i as int + 1));
                }
            },
            None => {
                proof {
                    assert forall|k: int|
                        eliminations@.contains(k) == stale_notes_below(
                            board@,
                            i as int + 1,
                        ).contains(k) by {
                        if before.contains(k) {
                            let s = choose|s: int|
                                0 <= s < i && #[trigger] board@.digit_at(s) == Some(k % 9)
                                    && are_peers(s, k / 9);
                            assert(0 <= s < i + 1);
                        }
                        if stale_notes_below(board@, i as int + 1).contains(k) {
                            let s = choose|s: int|
                                0 <= s < i + 1 && #[trigger] board@.digit_at(s) == Some(k % 9)
                                    && are_peers(s, k / 9);
                            assert(s < i);
                        }
                    }
                    assert(eliminations@ =~= stale_notes_below(board@, i as int + 1));
                }
            },
        }
        i += 1;
    }
    proof {
        assert(stale_notes_below(board@, 81) =~= stale_notes(board@));
    }
    StrategyResult::with_eliminations(eliminations, BitSet::new())
}

} // verus!
