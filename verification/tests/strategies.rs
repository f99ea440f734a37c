use sudoku_solver::bitset::BitSet;
use sudoku_solver::sudoku::pos::{Block, Candidate, Cell, Col, Digit, Line, Row, Unit};
use sudoku_solver::sudoku::strats::bug::{find_bug_plus_one, non_bivalue_cells};
use sudoku_solver::sudoku::strats::chains::{
    backtrack_chain, chain_highlights, find_chain, Parents, Parity, QueueItem,
};
use sudoku_solver::sudoku::strats::fish::{find_basic_fish, find_fish};
use sudoku_solver::sudoku::strats::hidden_subsets::find_hidden_subset;
use sudoku_solver::sudoku::strats::intersections::find_intersection;
use sudoku_solver::sudoku::strats::link::{
    Bilocal, BilocalBlock, BilocalCol, BilocalRow, Bivalue, LinkGraph, Strong, Weak, WeakBlock,
    WeakCell, WeakCol, WeakRow, WeakUnit,
};
use sudoku_solver::sudoku::strats::naked_subsets::find_naked_subset;
use sudoku_solver::sudoku::strats::revise_notes::find_revise_notes;
use sudoku_solver::sudoku::strats::singles::{
    find_full_house, find_hidden_single, find_naked_single,
};
use sudoku_solver::sudoku::strats::{cell_candidates, digit_candidates, noted, notes_union};
use sudoku_solver::sudoku::{strategy_list, Board, Strategy, StrategyKind, StrategyResult};

const SOLVED: &str =
    "534678912672195348198342567859761423426853791713924856961537284287419635345286179";

fn cell(index: usize) -> Cell {
    Cell::from_index_checked(index).unwrap()
}

fn digit(index: usize) -> Digit {
    Digit::from_index_checked(index).unwrap()
}

fn candidate(index: usize) -> Candidate {
    Candidate::from_index_checked(index).unwrap()
}

fn numbers(set: &BitSet<Candidate>) -> Vec<usize> {
    set.to_vec().into_iter().map(|c| c.as_index()).collect()
}

/// Strikes every note of the cell that is not listed.
fn keep(board: &mut Board, cell_index: usize, notes: &[usize]) {
    for d in 0..9 {
        if !notes.contains(&d) && board.has_note(&cell(cell_index), digit(d)) {
            board
                .input_elimination(Candidate::from_cell_and_digit(cell(cell_index), digit(d)))
                .unwrap();
        }
    }
}

/// Strikes one note from each of the listed cells.
fn strike(board: &mut Board, digit_index: usize, cells: &[usize]) {
    for &c in cells {
        board
            .input_elimination(Candidate::from_cell_and_digit(cell(c), digit(digit_index)))
            .unwrap();
    }
}

fn apply(board: &mut Board, result: &StrategyResult) {
    for c in result.solutions.to_vec() {
        board.input_solution(c);
    }
    for c in result.eliminations.to_vec() {
        let _ = board.input_elimination(c);
    }
}

#[test]
fn revise_notes_strikes_the_digit_from_the_neighbors() {
    let board = Board::from_string("5");
    let result = find_revise_notes(&board);
    let expected: Vec<usize> = [1, 2, 3, 4, 5, 6, 7, 8, 9, 10, 11, 18, 19, 20, 27, 36, 45, 54, 63, 72]
        .iter()
        .map(|c| c * 9 + 4)
        .collect();
    assert_eq!(numbers(&result.eliminations), expected);
    assert!(result.solutions.is_empty());
    assert!(result.highlights.is_empty());
    assert!(result.highlights2.is_empty());
    assert!(result.is_nontrivial());
    assert!(!find_revise_notes(&Board::new()).is_nontrivial());
}

#[test]
fn revise_notes_is_done_after_one_pass() {
    let mut board = Board::from_string("53..7....6..195....98....6.8...6...34..8.3..17...2...6.6....28....419..5....8..79");
    let result = find_revise_notes(&board);
    assert!(result.is_nontrivial());
    apply(&mut board, &result);
    assert_eq!(find_revise_notes(&board), StrategyResult::default());
}

#[test]
fn singles_find_the_last_cell_of_a_row() {
    let mut board = Board::from_string("12345678");
    assert!(!find_full_house(&board).is_nontrivial());
    assert!(!find_naked_single(&board).is_nontrivial());
    let revise = find_revise_notes(&board);
    apply(&mut board, &revise);
    assert_eq!(board.count_notes(&cell(8)), 1);

    let full_house = find_full_house(&board);
    assert_eq!(numbers(&full_house.solutions), vec![80]);
    assert!(full_house.eliminations.is_empty());
    assert_eq!(find_naked_single(&board), full_house);
    assert_eq!(find_hidden_single(&board), full_house);
}

#[test]
fn naked_single_needs_no_unit() {
    let mut board = Board::new();
    keep(&mut board, 40, &[6]);
    keep(&mut board, 41, &[2, 3]);
    assert_eq!(numbers(&find_naked_single(&board).solutions), vec![40 * 9 + 6]);
    assert!(!find_full_house(&board).is_nontrivial());
}

#[test]
fn hidden_single_finds_the_only_place_of_a_digit() {
    let mut board = Board::new();
    strike(&mut board, 3, &[0, 1, 2, 3, 4, 5, 6, 7]);
    let result = find_hidden_single(&board);
    assert_eq!(numbers(&result.solutions), vec![8 * 9 + 3]);
    assert!(!find_naked_single(&board).is_nontrivial());
}

#[test]
fn naked_pair_strikes_its_digits_from_the_unit() {
    let mut board = Board::new();
    keep(&mut board, 0, &[0, 1]);
    keep(&mut board, 1, &[0, 1]);
    keep(&mut board, 2, &[0, 1, 2]);
    let result = find_naked_subset::<2>(&board);
    assert_eq!(
        numbers(&result.eliminations),
        vec![18, 19, 27, 28, 36, 37, 45, 46, 54, 55, 63, 64, 72, 73]
    );
    assert_eq!(numbers(&result.highlights), vec![0, 1, 9, 10]);
    assert!(result.solutions.is_empty());
    assert!(result.highlights2.is_empty());

    apply(&mut board, &result);
    assert_eq!(board.get_notes(&cell(2)), Some(&BitSet::singleton(digit(2))));
    let next = find_naked_subset::<2>(&board);
    assert_eq!(numbers(&next.eliminations), vec![81, 82, 90, 91, 99, 100, 162, 163, 171, 172, 180, 181]);
}

#[test]
fn naked_triple_needs_three_digits_in_three_cells() {
    let mut board = Board::new();
    keep(&mut board, 0, &[0, 1]);
    keep(&mut board, 9, &[1, 2]);
    keep(&mut board, 18, &[0, 2]);
    assert!(!find_naked_subset::<2>(&board).is_nontrivial());
    let result = find_naked_subset::<3>(&board);
    let mut expected = Vec::new();
    for c in [27, 36, 45, 54, 63, 72] {
        for d in 0..3 {
            expected.push(c * 9 + d);
        }
    }
    assert_eq!(numbers(&result.eliminations), expected);
    assert_eq!(numbers(&result.highlights), vec![0, 1, 82, 83, 162, 164]);
    assert!(!find_naked_subset::<4>(&Board::new()).is_nontrivial());
}

#[test]
fn hidden_pair_strikes_the_other_notes_of_its_cells() {
    let mut board = Board::new();
    strike(&mut board, 7, &[2, 3, 4, 5, 6, 7, 8]);
    strike(&mut board, 8, &[2, 3, 4, 5, 6, 7, 8]);
    let result = find_hidden_subset::<2>(&board);
    assert_eq!(
        numbers(&result.eliminations),
        vec![0, 1, 2, 3, 4, 5, 6, 9, 10, 11, 12, 13, 14, 15]
    );
    assert_eq!(numbers(&result.highlights), vec![7, 8, 16, 17]);
    assert!(!find_hidden_subset::<2>(&Board::new()).is_nontrivial());
    assert!(!find_hidden_subset::<3>(&board).is_nontrivial());
}

#[test]
fn intersection_pointing_strikes_along_the_line() {
    let mut board = Board::new();
    strike(&mut board, 0, &[2, 9, 10, 11, 18, 19, 20]);
    let result = find_intersection::<Block, Line>(&board);
    assert_eq!(numbers(&result.eliminations), vec![27, 36, 45, 54, 63, 72]);
    assert!(result.highlights.is_empty());
    assert!(!find_intersection::<Block, Line>(&Board::new()).is_nontrivial());
}

#[test]
fn intersection_claiming_strikes_within_the_block() {
    let mut board = Board::new();
    strike(&mut board, 5, &[3, 4, 5, 6, 7, 8]);
    let result = find_intersection::<Line, Block>(&board);
    let expected: Vec<usize> = [9, 10, 11, 18, 19, 20].iter().map(|c| c * 9 + 5).collect();
    assert_eq!(numbers(&result.eliminations), expected);
    assert!(!find_intersection::<Line, Block>(&Board::new()).is_nontrivial());
}

#[test]
fn x_wing_strikes_the_cover_columns() {
    let mut board = Board::new();
    strike(&mut board, 0, &[2, 3, 4, 5, 6, 7, 8, 11, 12, 13, 14, 15, 16, 17]);
    let expected: Vec<usize> = [18, 19, 27, 28, 36, 37, 45, 46, 54, 55, 63, 64, 72, 73]
        .iter()
        .map(|c| c * 9)
        .collect();
    let by_rows = find_fish::<2, Row, Col>(&board);
    assert_eq!(numbers(&by_rows.eliminations), expected);
    assert_eq!(find_basic_fish::<2>(&board), by_rows);
    assert!(!find_basic_fish::<2>(&Board::new()).is_nontrivial());
    assert!(!find_basic_fish::<3>(&Board::new()).is_nontrivial());
}

#[test]
fn x_wing_by_columns_is_found_after_rows() {
    let mut board = Board::new();
    let mut struck = Vec::new();
    for r in 2..9 {
        struck.push(r * 9);
        struck.push(r * 9 + 1);
    }
    strike(&mut board, 4, &struck);
    assert!(!find_fish::<2, Row, Col>(&board).is_nontrivial());
    let result = find_basic_fish::<2>(&board);
    let expected: Vec<usize> = (2..9).chain(11..18).map(|c| c * 9 + 4).collect();
    assert_eq!(numbers(&result.eliminations), expected);
    assert_eq!(find_fish::<2, Col, Row>(&board), result);
}

fn bug_board() -> Board {
    let mut text = vec![b'5'; 81];
    for c in [0, 1, 4, 9, 36] {
        text[c] = b'.';
    }
    let mut board = Board::from_bytes(&text);
    keep(&mut board, 0, &[0, 1, 2]);
    keep(&mut board, 1, &[0, 1]);
    keep(&mut board, 4, &[0, 2]);
    keep(&mut board, 9, &[0, 1]);
    keep(&mut board, 36, &[0, 2]);
    board
}

#[test]
fn bug_plus_one_places_the_digit_noted_thrice() {
    let board = bug_board();
    assert_eq!(non_bivalue_cells(&board), BitSet::singleton(cell(0)));
    let result = find_bug_plus_one(&board);
    assert_eq!(numbers(&result.solutions), vec![0]);
    assert!(result.eliminations.is_empty());
}

#[test]
fn bug_plus_one_needs_one_cell_with_three_notes() {
    assert!(!find_bug_plus_one(&Board::new()).is_nontrivial());

    let mut two_odd = bug_board();
    two_odd.input_elimination(candidate(9)).unwrap();
    assert!(!find_bug_plus_one(&two_odd).is_nontrivial());

    let mut four_notes = Board::from_bytes(&{
        let mut text = vec![b'5'; 81];
        text[0] = b'.';
        text
    });
    keep(&mut four_notes, 0, &[0, 1, 2, 3]);
    assert!(!find_bug_plus_one(&four_notes).is_nontrivial());

    let mut no_digit = bug_board();
    keep(&mut no_digit, 4, &[1, 2]);
    keep(&mut no_digit, 36, &[1, 2]);
    assert!(!find_bug_plus_one(&no_digit).is_nontrivial());
}

fn neighbors(graph: &LinkGraph, index: usize) -> Vec<usize> {
    graph.neighbors(&candidate(index)).into_iter().map(|c| c.as_index()).collect()
}

#[test]
fn link_graphs_keep_the_order_of_their_links() {
    let mut graph = LinkGraph::new::<Bivalue>(&Board::from_string(SOLVED));
    assert!(neighbors(&graph, 5).is_empty());
    graph.insert(candidate(5), candidate(700));
    graph.insert(candidate(5), candidate(3));
    graph.insert(candidate(700), candidate(5));
    graph.insert(candidate(5), candidate(3));
    assert_eq!(neighbors(&graph, 5), vec![700, 3, 3]);
    assert_eq!(neighbors(&graph, 700), vec![5]);
    assert!(neighbors(&graph, 3).is_empty());
}

#[test]
fn strong_links_join_the_two_candidates_of_a_group() {
    let mut board = Board::new();
    keep(&mut board, 0, &[2, 5]);
    keep(&mut board, 1, &[2, 5, 6]);
    let bivalue = LinkGraph::new::<Bivalue>(&board);
    assert_eq!(neighbors(&bivalue, 2), vec![5]);
    assert_eq!(neighbors(&bivalue, 5), vec![2]);
    assert!(neighbors(&bivalue, 11).is_empty());

    let mut rows = Board::new();
    strike(&mut rows, 0, &[2, 3, 4, 5, 6, 7, 8]);
    assert_eq!(neighbors(&LinkGraph::new::<BilocalRow>(&rows), 0), vec![9]);
    assert_eq!(neighbors(&LinkGraph::new::<BilocalRow>(&rows), 9), vec![0]);
    assert!(neighbors(&LinkGraph::new::<BilocalCol>(&rows), 0).is_empty());
    assert!(neighbors(&LinkGraph::new::<BilocalBlock>(&rows), 0).is_empty());
    assert_eq!(neighbors(&LinkGraph::new::<Bilocal>(&rows), 0), vec![9]);
    assert_eq!(neighbors(&LinkGraph::new::<Strong>(&rows), 9), vec![0]);
}

#[test]
fn weak_links_join_every_two_candidates_of_a_group() {
    let mut board = Board::new();
    keep(&mut board, 0, &[2, 5, 7]);
    let cells = LinkGraph::new::<WeakCell>(&board);
    assert_eq!(neighbors(&cells, 2), vec![5, 7]);
    assert_eq!(neighbors(&cells, 5), vec![2, 7]);
    assert_eq!(neighbors(&cells, 7), vec![2, 5]);

    let mut rows = Board::new();
    strike(&mut rows, 0, &[3, 4, 5, 6, 7, 8]);
    assert_eq!(neighbors(&LinkGraph::new::<WeakRow>(&rows), 0), vec![9, 18]);
    assert_eq!(neighbors(&LinkGraph::new::<WeakRow>(&rows), 18), vec![0, 9]);
    assert_eq!(neighbors(&LinkGraph::new::<WeakCol>(&rows), 0).len(), 8);
    assert_eq!(neighbors(&LinkGraph::new::<WeakBlock>(&rows), 0).len(), 8);
    assert_eq!(neighbors(&LinkGraph::new::<WeakUnit>(&rows), 0).len(), 18);
    assert_eq!(neighbors(&LinkGraph::new::<WeakUnit>(&rows), 0)[..2], [9, 18]);
    assert_eq!(neighbors(&LinkGraph::new::<Weak>(&rows), 0).len(), 26);
    assert_eq!(neighbors(&LinkGraph::new::<Weak>(&rows), 0)[..8], [1, 2, 3, 4, 5, 6, 7, 8]);
}

#[test]
fn chains_are_traced_back_to_their_root() {
    let mut parents = Parents::new();
    assert_eq!(parents.get(&candidate(4)), None);
    parents.insert(candidate(4), candidate(3));
    parents.insert(candidate(3), candidate(700));
    parents.insert(candidate(9), candidate(3));
    parents.insert(candidate(9), candidate(4));
    assert_eq!(parents.get(&candidate(9)), Some(candidate(4)));
    let chain = backtrack_chain(candidate(9), &parents);
    assert_eq!(chain, vec![candidate(700), candidate(3), candidate(4), candidate(9)]);
    assert_eq!(backtrack_chain(candidate(1), &parents), vec![candidate(1)]);

    let (even, odd) = chain_highlights(&chain);
    assert_eq!(numbers(&even), vec![4, 700]);
    assert_eq!(numbers(&odd), vec![3, 9]);

    assert_eq!(Parity::Even.flip(), Parity::Odd);
    assert_eq!(Parity::Odd.flip(), Parity::Even);
    let item = QueueItem::new(candidate(9), Parity::Odd);
    assert_eq!(item.vertex, candidate(9));
    assert_eq!(item.parity, Parity::Odd);
}

#[test]
fn shortest_chain_strikes_what_sees_both_ends() {
    let mut board = Board::new();
    strike(&mut board, 0, &[2, 3, 4, 5, 6, 7, 8]);
    let result = find_chain::<Bilocal, Bilocal>(&board);
    assert_eq!(numbers(&result.eliminations), vec![81, 90, 99, 162, 171, 180]);
    assert_eq!(numbers(&result.highlights), vec![0]);
    assert_eq!(numbers(&result.highlights2), vec![9]);
    assert!(result.solutions.is_empty());
    assert_eq!(find_chain::<Bilocal, WeakUnit>(&board), result);
    assert_eq!(Strategy::new(StrategyKind::XChainSimple).find(&board), result);
    assert!(!find_chain::<Bivalue, WeakUnit>(&board).is_nontrivial());
    assert!(!find_chain::<Strong, Weak>(&Board::new()).is_nontrivial());
}

#[test]
fn helper_sets_of_candidates() {
    let mut board = Board::new();
    keep(&mut board, 3, &[1, 2]);
    keep(&mut board, 4, &[2, 8]);
    let cells = BitSet::from_slice(&[cell(3), cell(4)]);
    let digits = BitSet::from_slice(&[digit(2), digit(8)]);
    assert_eq!(numbers(&noted(&board, cells, digits)), vec![29, 38, 44]);
    assert_eq!(numbers(&digit_candidates(cells, digit(0))), vec![27, 36]);
    assert_eq!(numbers(&cell_candidates(cell(80), digits)), vec![722, 728]);
    assert_eq!(notes_union(&board, &vec![cell(3), cell(4)]).len(), 3);
    assert_eq!(Unit::list().len(), 27);
}

#[test]
fn strategies_are_named_and_ordered() {
    let names: Vec<&str> = strategy_list().iter().map(|s| s.name()).collect();
    assert_eq!(
        names,
        vec![
            "Revise Notes",
            "Full House",
            "Naked Single",
            "Hidden Single",
            "Naked Pair",
            "Hidden Pair",
            "Intersection Pointing",
            "Intersection Claiming",
            "Naked Triple",
            "Hidden Triple",
            "Naked Quad",
            "Hidden Quad",
            "X-Wing",
            "Swordfish",
            "Jellyfish",
            "Bug+1",
            "X-Chain Simple",
            "X-Chain",
            "XY-Chain",
            "AIC",
        ]
    );
    assert_eq!(Strategy::new(StrategyKind::NakedPair), strategy_list()[4]);
    assert_ne!(Strategy::new(StrategyKind::NakedPair), strategy_list()[5]);
    assert_eq!(strategy_list()[12].kind(), StrategyKind::XWing);
}

#[test]
fn solved_board_gives_no_deduction() {
    let board = Board::from_string(SOLVED);
    assert!(board.cells_unsolved().is_empty());
    for strategy in strategy_list() {
        assert_eq!(strategy.find(&board), StrategyResult::default(), "{}", strategy.name());
    }
}

#[test]
fn strategies_are_pure() {
    let mut board = Board::from_string("53..7....6..195....98....6.8...6...34..8.3..17...2...6.6....28....419..5....8..79");
    let revise = find_revise_notes(&board);
    apply(&mut board, &revise);
    let before = board.clone();
    for strategy in strategy_list() {
        let first = strategy.find(&board);
        let second = strategy.find(&board);
        assert_eq!(first, second, "{}", strategy.name());
        assert_eq!(board, before);
    }
}
