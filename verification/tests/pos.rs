use sudoku_solver::bitset::BitSet;
use sudoku_solver::sudoku::pos::{
    Block, Candidate, Cell, Col, Digit, Line, LineType, ParseDigitError, Row, Unit, UnitClass,
    UnitType, UNITS,
};

#[test]
fn pos_make_cell_ids() {
    for row in Row::list() {
        for col in Col::list() {
            let cell = Cell::from_row_and_col(row, col);

            let name = cell.to_string();

            println!("const {name}: CellId = CellId::new(Row::{row:?}, Col::{col:?});");
        }
    }
}

fn indices(cells: &[Cell]) -> Vec<usize> {
    cells.iter().map(|c| c.as_index()).collect()
}

#[test]
fn bounded_types_check_their_range() {
    assert!(Digit::new(8).is_some());
    assert!(Digit::new(9).is_none());
    assert!(Digit::new_checked(0).is_some());
    assert!(Digit::new_checked(200).is_none());
    assert!(Row::new(9).is_none());
    assert!(Col::new(8).is_some());
    assert!(Block::new(9).is_none());
    assert!(Line::new(17).is_some());
    assert!(Line::new(18).is_none());
    assert!(Unit::new(26).is_some());
    assert!(Unit::new(27).is_none());
    assert!(Cell::new(80).is_some());
    assert!(Cell::new(81).is_none());
    assert!(Candidate::new(728).is_some());
    assert!(Candidate::new(729).is_none());
    assert_eq!(Cell::from_index_checked(80).map(|c| c.as_index()), Some(80));
    assert_eq!(Cell::from_index_checked(81), None);
    assert_eq!(Digit::new_unchecked(3).as_index(), 3);
    assert_eq!(Candidate::from_index_unchecked(700).as_index(), 700);
}

#[test]
fn lists_enumerate_all_values_in_order() {
    assert_eq!(Digit::list().iter().map(|d| d.as_index()).collect::<Vec<_>>(), (0..9).collect::<Vec<_>>());
    assert_eq!(Row::list().len(), 9);
    assert_eq!(Line::list().len(), 18);
    assert_eq!(Unit::list().len(), 27);
    assert_eq!(indices(&Cell::list()), (0..81).collect::<Vec<_>>());
    assert_eq!(Candidate::list().len(), 729);
    assert_eq!(Candidate::list()[728].as_index(), 728);
    assert_eq!(Unit::all_vec().len(), 27);
    assert_eq!(Line::all_vec().len(), 18);
    assert_eq!(Block::all_vec()[4].unit().as_index(), 22);
}

#[test]
fn cell_decomposition_round_trips() {
    for row in Row::list() {
        for col in Col::list() {
            let cell = Cell::from_row_and_col(row, col);
            assert_eq!(cell.as_index(), row.as_index() * 9 + col.as_index());
            assert_eq!(cell.row(), row);
            assert_eq!(cell.col(), col);
        }
    }
}

#[test]
fn blocks_group_three_by_three() {
    let expected = [
        0, 0, 0, 1, 1, 1, 2, 2, 2, 0, 0, 0, 1, 1, 1, 2, 2, 2, 0, 0, 0, 1, 1, 1, 2, 2, 2, 3, 3, 3,
        4, 4, 4, 5, 5, 5, 3, 3, 3, 4, 4, 4, 5, 5, 5, 3, 3, 3, 4, 4, 4, 5, 5, 5, 6, 6, 6, 7, 7, 7,
        8, 8, 8, 6, 6, 6, 7, 7, 7, 8, 8, 8, 6, 6, 6, 7, 7, 7, 8, 8, 8,
    ];
    for cell in Cell::list() {
        assert_eq!(cell.block().as_index(), expected[cell.as_index()]);
    }
    assert_eq!(Cell::new(40).unwrap().units().map(|u| u.as_index()), [4, 13, 22]);
}

#[test]
fn every_cell_has_twenty_neighbors() {
    for cell in Cell::list() {
        let neighbors = cell.iter_neighbors();
        assert_eq!(neighbors.len(), 20);
        assert!(!neighbors.contains(&cell));
        let set = cell.neighbors();
        assert_eq!(set.len(), 20);
        assert!(!set.contains(cell));
        for other in &neighbors {
            assert!(
                other.row() == cell.row()
                    || other.col() == cell.col()
                    || other.block() == cell.block()
            );
        }
        let mut sorted = indices(&neighbors);
        sorted.dedup();
        assert_eq!(sorted.len(), 20);
    }
    assert_eq!(
        indices(&Cell::new(0).unwrap().iter_neighbors()),
        vec![1, 2, 3, 4, 5, 6, 7, 8, 9, 10, 11, 18, 19, 20, 27, 36, 45, 54, 63, 72]
    );
}

#[test]
fn units_hold_their_nine_cells() {
    assert_eq!(indices(&Row::new(1).unwrap().iter_cells()), (9..18).collect::<Vec<_>>());
    assert_eq!(
        indices(&Col::new(2).unwrap().iter_cells()),
        vec![2, 11, 20, 29, 38, 47, 56, 65, 74]
    );
    assert_eq!(
        indices(&Block::new(4).unwrap().iter_cells()),
        vec![30, 31, 32, 39, 40, 41, 48, 49, 50]
    );
    for unit in Unit::list() {
        let cells = unit.array();
        let table: Vec<usize> = UNITS[unit.as_index()].iter().map(|&c| c as usize).collect();
        assert_eq!(indices(&cells), table);
        assert_eq!(indices(&unit.cells_vec()), table);
        let set = unit.cells_set();
        assert_eq!(set.len(), 9);
        assert_eq!(set, BitSet::from_slice(&cells));
        for k in 0..9 {
            assert_eq!(unit.cell_at(k), cells[k]);
        }
    }
    assert_eq!(
        indices(&Unit::new(26).unwrap().cells()),
        vec![60, 61, 62, 69, 70, 71, 78, 79, 80]
    );
}

#[test]
fn lines_and_units_know_their_kind() {
    let row = Row::new(3).unwrap();
    let col = Col::new(5).unwrap();
    let block = Block::new(7).unwrap();
    assert_eq!(Line::from_row(row).as_index(), 3);
    assert_eq!(Line::from_col(col).as_index(), 14);
    assert_eq!(Unit::from_row(row).as_index(), 3);
    assert_eq!(Unit::from_col(col).as_index(), 14);
    assert_eq!(Unit::from_block(block).as_index(), 25);
    assert_eq!(Unit::from_line(Line::from_col(col)).as_index(), 14);
    assert!(matches!(Line::new(3).unwrap().line_type(), LineType::Row(r) if r == row));
    assert!(matches!(Line::new(14).unwrap().line_type(), LineType::Col(c) if c == col));
    assert!(matches!(Unit::new(3).unwrap().unit_type(), UnitType::Row(r) if r == row));
    assert!(matches!(Unit::new(14).unwrap().unit_type(), UnitType::Col(c) if c == col));
    assert!(matches!(Unit::new(25).unwrap().unit_type(), UnitType::Block(b) if b == block));
}

#[test]
fn candidates_pack_cell_and_digit() {
    let cell = Cell::new(80).unwrap();
    let digit = Digit::new(8).unwrap();
    let candidate = Candidate::from_cell_and_digit(cell, digit);
    assert_eq!(candidate.as_index(), 728);
    assert_eq!(candidate.cell(), cell);
    assert_eq!(candidate.digit(), digit);
    assert_eq!(candidate.as_tuple(), (cell, digit));
    let other = Candidate::new(40).unwrap();
    assert_eq!(other.cell().as_index(), 4);
    assert_eq!(other.digit().as_index(), 4);
}

#[test]
fn positions_have_their_text() {
    assert_eq!(Digit::new(0).unwrap().to_string(), "1");
    assert_eq!(Digit::new(8).unwrap().to_string(), "9");
    assert_eq!(Row::new(0).unwrap().to_string(), "A");
    assert_eq!(Row::new(8).unwrap().to_char(), 'I');
    assert_eq!(Col::new(4).unwrap().to_string(), "5");
    assert_eq!(Block::new(8).unwrap().to_string(), "9");
    assert_eq!(Line::new(0).unwrap().to_string(), "1");
    assert_eq!(Line::new(9).unwrap().to_string(), "10");
    assert_eq!(Line::new(17).unwrap().to_string(), "18");
    assert_eq!(Cell::new(0).unwrap().to_string(), "A1");
    assert_eq!(Cell::new(80).unwrap().to_string(), "I9");
    assert_eq!(Cell::new(13).unwrap().to_string(), "B5");
    assert_eq!(Candidate::new(13 * 9 + 2).unwrap().to_string(), "B5#3");
}

#[test]
fn text_is_read_back() {
    assert_eq!(Row::try_from_char('C').map(|r| r.as_index()), Ok(2));
    assert_eq!(Row::try_from_char('J'), Err(()));
    assert_eq!(Row::try_from_char('a'), Err(()));
    assert_eq!(Cell::parse("B5").map(|c| c.as_index()), Ok(13));
    assert_eq!("I9".parse::<Cell>().map(|c| c.as_index()), Ok(80));
    assert_eq!(Cell::parse("B"), Err(()));
    assert_eq!(Cell::parse("B0"), Err(()));
    assert_eq!(Cell::parse("Z1"), Err(()));
    assert_eq!(Cell::parse(""), Err(()));
    assert_eq!(Digit::parse("1").map(|d| d.as_index()), Ok(0));
    assert_eq!("9".parse::<Digit>().map(|d| d.as_index()), Ok(8));
    assert_eq!(Digit::parse("0"), Err(ParseDigitError));
    assert_eq!(Digit::parse("10"), Err(ParseDigitError));
    assert_eq!(Digit::parse("."), Err(ParseDigitError));
    assert_eq!(Digit::parse(""), Err(ParseDigitError));
    assert_eq!(Digit::from_number(Some(5)).map(|d| d.as_index()), Ok(4));
    assert_eq!(Digit::from_number(Some(0)), Err(ParseDigitError));
    assert_eq!(Digit::from_number(None), Err(ParseDigitError));
}

#[test]
fn conversions_keep_the_numbering() {
    let row = Row::new(3).unwrap();
    let col = Col::new(5).unwrap();
    let block = Block::new(7).unwrap();
    assert_eq!(Line::from(row), Line::new(3).unwrap());
    assert_eq!(Line::from(col), Line::new(14).unwrap());
    assert_eq!(Unit::from(row), Unit::new(3).unwrap());
    assert_eq!(Unit::from(col), Unit::new(14).unwrap());
    assert_eq!(Unit::from(Line::from(col)), Unit::new(14).unwrap());
    assert_eq!(Unit::from(block), Unit::new(25).unwrap());
    let cell = Cell::new(13).unwrap();
    let digit = Digit::new(2).unwrap();
    assert_eq!(Candidate::from((cell, digit)), Candidate::new(119).unwrap());
    assert_eq!(char::from(row), 'D');
}
