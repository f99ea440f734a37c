use sudoku_solver::bitset::BitSet;
use sudoku_solver::set::{Element, MaskSet};
use sudoku_solver::sudoku::cell::CellContent;
use sudoku_solver::sudoku::id::{boxes, cells, CellId, Col, Digit, Row, COLS, DIGITS, ROWS};
use sudoku_solver::sudoku::pos;

#[test]
fn id_make_cell_ids() {
    for row in ROWS {
        for col in COLS {
            let id = CellId::new(row, col);

            let name = id.to_string();

            println!("const {name}: CellId = CellId::new(Row::{row:?}, Col::{col:?});");
        }
    }
}

#[test]
fn ids_have_their_text() {
    assert_eq!(CellId::new(Row::A, Col::One).to_string(), "A1");
    assert_eq!(CellId::new(Row::I, Col::Nine).to_string(), "I9");
    assert_eq!(CellId::new(Row::D, Col::Seven).to_string(), "D7");
    assert_eq!(Row::E.to_string(), "E");
    assert_eq!(Col::Five.to_string(), "5");
    assert_eq!(Digit::One.to_string(), "1");
    assert_eq!(Digit::Nine.to_string(), "9");
    let texts: Vec<String> = DIGITS.iter().map(|d| d.to_string()).collect();
    assert_eq!(texts, vec!["1", "2", "3", "4", "5", "6", "7", "8", "9"]);
}

#[test]
fn digits_are_read_from_characters() {
    assert_eq!(Digit::try_from_char('1'), Ok(Digit::One));
    assert_eq!(Digit::try_from_char('7'), Ok(Digit::Seven));
    assert_eq!(Digit::try_from_char('9'), Ok(Digit::Nine));
    assert_eq!(Digit::try_from_char('0'), Err(()));
    assert_eq!(Digit::try_from_char('.'), Err(()));
    assert_eq!(Digit::try_from_char('A'), Err(()));
}

#[test]
fn cells_and_boxes_are_listed_row_by_row() {
    let all = cells();
    assert_eq!(all.len(), 81);
    assert_eq!(all[0], CellId::new(Row::A, Col::One));
    assert_eq!(all[9], CellId::new(Row::B, Col::One));
    assert_eq!(all[80], CellId::new(Row::I, Col::Nine));
    assert_eq!(all[13].to_string(), "B5");

    let all_boxes = boxes();
    assert_eq!(all_boxes.len(), 9);
    let names: Vec<String> = all_boxes[4].iter().map(|c| c.to_string()).collect();
    assert_eq!(names, vec!["D4", "D5", "D6", "E4", "E5", "E6", "F4", "F5", "F6"]);
    assert_eq!(all_boxes[8][8], CellId::new(Row::I, Col::Nine));
    assert_eq!(all_boxes[2][0], CellId::new(Row::A, Col::Seven));
}

fn digit(index: u8) -> pos::Digit {
    pos::Digit::new(index).unwrap()
}

#[test]
fn cell_content_tells_digits_from_notes() {
    let given = CellContent::new_given(digit(4));
    assert!(given.is_digit() && given.is_given() && !given.is_notes());
    assert!(given.has_digit(digit(4)) && !given.has_digit(digit(3)));
    assert_eq!(given.get_digit(), Some(digit(4)));
    assert_eq!(given.get_notes(), None);
    assert!(!given.has_note(digit(4)));

    let found = CellContent::new_digit(digit(4));
    assert!(found.is_digit() && !found.is_given());
    assert_ne!(found, given);

    let open = CellContent::default();
    assert!(open.is_notes() && !open.is_digit() && !open.is_given());
    assert_eq!(open.get_digit(), None);
    assert!(!open.has_digit(digit(0)));
    assert!(open.has_note(digit(0)) && open.has_note(digit(8)));
    assert_eq!(open.get_notes(), Some(&BitSet::full()));

    let some = CellContent::Notes(BitSet::singleton(digit(2)));
    assert!(some.has_note(digit(2)) && !some.has_note(digit(3)));
}

fn digits(set: MaskSet<pos::Digit>) -> Vec<usize> {
    set.to_vec().into_iter().map(|d| d.as_index()).collect()
}

#[test]
fn mask_sets_follow_their_bits() {
    let empty: MaskSet<pos::Digit> = MaskSet::empty();
    assert!(empty.is_empty() && !empty.is_nonempty());
    let full: MaskSet<pos::Digit> = MaskSet::full();
    assert_eq!(digits(full), vec![0, 1, 2, 3, 4, 5, 6, 7, 8]);
    assert_eq!(pos::Digit::full_repr(), 0b1_1111_1111);
    assert_eq!(pos::Digit::empty_repr(), 0);
    assert_eq!(digit(3).into_set_repr(), 0b1000);

    let a: MaskSet<pos::Digit> = MaskSet::from_bits(0b0_0110_0101);
    let b: MaskSet<pos::Digit> = MaskSet::from_bits(0b1_0000_0110);
    assert_eq!(digits(a), vec![0, 2, 5, 6]);
    assert!(a.contains(digit(5)) && !a.contains(digit(1)));
    assert!(a.is_nonempty());
    assert_eq!(digits(a.bitand(b)), vec![2]);
    assert_eq!(digits(a.bitor(b)), vec![0, 1, 2, 5, 6, 8]);
    assert_eq!(digits(a.bitxor(b)), vec![0, 1, 5, 6, 8]);
    assert_eq!(digits(a.not()), vec![1, 3, 4, 7, 8]);
    assert_eq!(digits(a.sub(b)), vec![0, 5, 6]);
    assert_eq!(digits(MaskSet::singleton(digit(7))), vec![7]);
    assert!(a.sub(a).is_empty());
}
