use crate::sudoku::pos::candidate::Candidate;
use crate::sudoku::pos::cell::Cell;
use crate::sudoku::pos::digit::Digit;
use crate::sudoku::pos::units::{Block, Col, Line, Row};
use std::str::FromStr;
use vstd::prelude::*;
use vstd::std_specs::convert::FromSpecImpl;
use vstd::string::{StrSliceExecFns, StringExecFns};

verus! {

/// The letters of the rows, from the first row to the last.
pub const ROW_CHARS: [char; 9] = ['A', 'B', 'C', 'D', 'E', 'F', 'G', 'H', 'I'];

/// The characters of the numbers from one to nine.
pub const NUMBER_CHARS: [char; 9] = ['1', '2', '3', '4', '5', '6', '7', '8', '9'];

/// The letter of the row numbered `row`.
pub open spec fn row_char(row: int) -> char {
    ROW_CHARS@[row]
}

/// The character of the number that is one more than `index`.
pub open spec fn number_char(index: int) -> char {
    NUMBER_CHARS@[index]
}

/// The place of a character in a table of nine different characters.
pub open spec fn place_in(table: Seq<char>, c: char) -> Option<int> {
    if exists|i: int| 0 <= i < table.len() && table[i] == c {
        Some(choose|i: int| 0 <= i < table.len() && table[i] == c)
    } else {
        None
    }
}

/// The place of a character in one of the two tables.
fn find_char(table: &[char; 9], c: char) -> (r: Option<usize>)
    requires
        *table == ROW_CHARS || *table == NUMBER_CHARS,
    ensures
        r is Some <==> place_in(table@, c) is Some,
        r is Some ==> r.unwrap() < 9 && table@[r.unwrap() as int] == c && place_in(table@, c)
            == Some(r.unwrap() as int),
{
    let mut i: usize = 0;
    while i < 9
        invariant
            0 <= i <= 9,
            *table == ROW_CHARS || *table == NUMBER_CHARS,
            forall|j: int| 0 <= j < i ==> table@[j] != c,
        decreases 9 - i,
    {
        if table[i] == c {
            proof {
                let p = choose|p: int| 0 <= p < table@.len() && table@[p] == c;
                assert(forall|a: int, b: int|
                    0 <= a < 9 && 0 <= b < 9 && a != b ==> table@[a] != table@[b]);
                assert(p == i);
            }
            return Some(i);
        }
        i += 1;
    }
    None
}

/// The text of one character of a table.
fn char_text(table: &[char; 9], index: usize) -> (r: &'static str)
    requires
        *table == ROW_CHARS || *table == NUMBER_CHARS,
        index < 9,
    ensures
        r@ == seq![table@[index as int]],
{
    proof {
        reveal_strlit("A");
        reveal_strlit("B");
        reveal_strlit("C");
        reveal_strlit("D");
        reveal_strlit("E");
        reveal_strlit("F");
        reveal_strlit("G");
        reveal_strlit("H");
        reveal_strlit("I");
        reveal_strlit("1");
        reveal_strlit("2");
        reveal_strlit("3");
        reveal_strlit("4");
        reveal_strlit("5");
        reveal_strlit("6");
        reveal_strlit("7");
        reveal_strlit("8");
        reveal_strlit("9");
    }
    let c = table[index];
    let r = if c == 'A' {
        "A"
    } else if c == 'B' {
        "B"
    } else if c == 'C' {
        "C"
    } else if c == 'D' {
        "D"
    } else if c == 'E' {
        "E"
    } else if c == 'F' {
        "F"
    } else if c == 'G' {
        "G"
    } else if c == 'H' {
        "H"
    } else if c == 'I' {
        "I"
    } else if c == '1' {
        "1"
    } else if c == '2' {
        "2"
    } else if c == '3' {
        "3"
    } else if c == '4' {
        "4"
    } else if c == '5' {
        "5"
    } else if c == '6' {
        "6"
    } else if c == '7' {
        "7"
    } else if c == '8' {
        "8"
    } else {
        "9"
    };
    proof {
        assert(r@ =~= seq![c]);
    }
    r
}

impl Digit {
    /// The digit as it is shown: the characters `1` to `9`.
    pub fn to_string(&self) -> (r: String)
        ensures
            r@ == seq![number_char(self@)],
    {
        char_text(&NUMBER_CHARS, self.as_index()).to_owned()
    }
}

impl Row {
    /// The letter of the row.
    pub fn to_char(self) -> (r: char)
        ensures
            r == row_char(self@),
    {
        ROW_CHARS[self.as_index()]
    }

    /// The row with the given letter, if it is one of `A` to `I`.
    pub fn try_from_char(value: char) -> (r: Result<Row, ()>)
        ensures
            r is Ok <==> place_in(ROW_CHARS@, value) is Some,
            r is Ok ==> row_char(r.unwrap()@) == value,
    {
        match find_char(&ROW_CHARS, value) {
            Some(index) => Ok(Row::from_index_unchecked(index)),
            None => Err(()),
        }
    }

    /// The row as it is shown: its letter.
    pub fn to_string(&self) -> (r: String)
        ensures
            r@ == seq![row_char(self@)],
    {
        char_text(&ROW_CHARS, self.as_index()).to_owned()
    }
}

impl Col {
    /// The column as it is shown: its number, counted from one.
    pub fn to_string(&self) -> (r: String)
        ensures
            r@ == seq![number_char(self@)],
    {
        char_text(&NUMBER_CHARS, self.as_index()).to_owned()
    }
}

impl Block {
    /// The block as it is shown: its number, counted from one.
    pub fn to_string(&self) -> (r: String)
        ensures
            r@ == seq![number_char(self@)],
    {
        char_text(&NUMBER_CHARS, self.as_index()).to_owned()
    }
}

/// The decimal digits of a number from 1 to 18.
pub open spec fn line_text(number: int) -> Seq<char> {
    if number < 10 {
        seq![number_char(number - 1)]
    } else if number == 10 {
        seq!['1', '0']
    } else {
        seq!['1', number_char(number - 11)]
    }
}

impl Line {
    /// The line as it is shown: its number, counted from one.
    pub fn to_string(&self) -> (r: String)
        ensures
            r@ == line_text(self@ + 1),
    {
        let number = self.as_index() + 1;
        if number < 10 {
            char_text(&NUMBER_CHARS, number - 1).to_owned()
        } else if number == 10 {
            proof {
                reveal_strlit("10");
            }
            let r = "10".to_owned();
            proof {
                assert(r@ =~= seq!['1', '0']);
            }
            r
        } else {
            proof {
                reveal_strlit("1");
            }
            let mut r = "1".to_owned();
            r.append(char_text(&NUMBER_CHARS, number - 11));
            proof {
                assert(r@ =~= seq!['1', number_char(number - 11)]);
            }
            r
        }
    }
}

/// The name of the cell numbered `c`: the letter of its row and the number of its column.
pub open spec fn cell_name(c: int) -> Seq<char> {
    seq![row_char(c / 9), number_char(c % 9)]
}

/// The cell that a text names, if its first two characters are the letter of a row and
/// the number of a column.
pub open spec fn named_cell(text: Seq<char>) -> Option<int> {
    if text.len() >= 2 && place_in(ROW_CHARS@, text[0]) is Some && place_in(
        NUMBER_CHARS@,
        text[1],
    ) is Some {
        Some(
            place_in(ROW_CHARS@, text[0]).unwrap() * 9 + place_in(
                NUMBER_CHARS@,
                text[1],
            ).unwrap(),
        )
    } else {
        None
    }
}

impl Cell {
    /// The cell as it is shown: the letter of its row and the number of its column.
    pub fn to_string(&self) -> (r: String)
        ensures
            r@ == cell_name(self@),
    {
        let mut r = char_text(&ROW_CHARS, self.row().as_index()).to_owned();
        r.append(char_text(&NUMBER_CHARS, self.col().as_index()));
        proof {
            assert(r@ =~= cell_name(self@));
        }
        r
    }

    /// The cell that a text names by the letter of its row and the number of its column.
    pub fn parse(text: &str) -> (r: Result<Cell, ()>)
        ensures
            r is Ok <==> named_cell(text@) is Some,
            r is Ok ==> Some(r.unwrap()@) == named_cell(text@),
    {
        if text.unicode_len() < 2 {
            return Err(());
        }
        let row = match find_char(&ROW_CHARS, text.get_char(0)) {
            Some(index) => Row::from_index_unchecked(index),
            None => {
                return Err(());
            },
        };
        let col = match find_char(&NUMBER_CHARS, text.get_char(1)) {
            Some(index) => Col::from_index_unchecked(index),
            None => {
                return Err(());
            },
        };
        Ok(Cell::from_row_and_col(row, col))
    }
}

/// The name of the candidate numbered `k`: the name of its cell, a `#`, and its digit.
pub open spec fn candidate_name(k: int) -> Seq<char> {
    cell_name(k / 9) + seq!['#', number_char(k % 9)]
}

impl Candidate {
    /// The candidate as it is shown: its cell, a `#`, and its digit.
    pub fn to_string(&self) -> (r: String)
        ensures
            r@ == candidate_name(self@),
    {
        let mut r = self.cell().to_string();
        proof {
            reveal_strlit("#");
        }
        r.append("#");
        r.append(char_text(&NUMBER_CHARS, self.digit().as_index()));
        proof {
            assert(r@ =~= candidate_name(self@));
        }
        r
    }
}

/// A text did not stand for a digit.
#[derive(Clone, Copy, Debug, PartialEq, Eq)]
pub struct ParseDigitError;

/// The number that a text stands for in decimal, if it stands for one below 256:
/// what `str::parse::<u8>` gives.
pub uninterp spec fn parsed_u8(text: Seq<char>) -> Option<u8>;

/// Reads a number with `str::parse::<u8>`; a text that stands for no such number gives
/// nothing.
#[verifier::external_body]
fn parse_u8(text: &str) -> (r: Option<u8>)
    ensures
        r == parsed_u8(text@),
{
    text.parse::<u8>().ok()
}

/// The number of the digit that is shown as `number`, if `number` is one from 1 to 9.
pub open spec fn digit_of_number(number: Option<u8>) -> Option<int> {
    match number {
        Some(n) => if 1 <= n <= 9 {
            Some(n - 1)
        } else {
            None
        },
        None => None,
    }
}

impl Digit {
    /// The digit that is shown as `number`, where `number` is one from 1 to 9.
    pub fn from_number(number: Option<u8>) -> (r: Result<Digit, ParseDigitError>)
        ensures
            r is Ok <==> digit_of_number(number) is Some,
            r is Ok ==> Some(r.unwrap()@) == digit_of_number(number),
    {
        match number {
            Some(n) => {
                if 1 <= n && n <= 9 {
                    Ok(Digit::new_unchecked(n - 1))
                } else {
                    Err(ParseDigitError)
                }
            },
            None => Err(ParseDigitError),
        }
    }

    /// The digit that a text stands for: the text is read as a decimal number, which
    /// must be one from 1 to 9.
    pub fn parse(text: &str) -> (r: Result<Digit, ParseDigitError>)
        ensures
            r is Ok <==> digit_of_number(parsed_u8(text@)) is Some,
            r is Ok ==> Some(r.unwrap()@) == digit_of_number(parsed_u8(text@)),
    {
        Digit::from_number(parse_u8(text))
    }
}

impl FromStr for Digit {
    type Err = ParseDigitError;

    /// The digit that a text stands for: the text is read as a decimal number, which
    /// must be one from 1 to 9.
    fn from_str(s: &str) -> (r: Result<Self, Self::Err>)
        ensures
            r is Ok <==> digit_of_number(parsed_u8(s@)) is Some,
            r is Ok ==> Some(r.unwrap()@) == digit_of_number(parsed_u8(s@)),
    {
        Digit::parse(s)
    }
}

impl FromStr for Cell {
    type Err = ();

    /// The cell that a text names by the letter of its row and the number of its column.
    fn from_str(s: &str) -> (r: Result<Self, Self::Err>)
        ensures
            r is Ok <==> named_cell(s@) is Some,
            r is Ok ==> Some(r.unwrap()@) == named_cell(s@),
    {
        Cell::parse(s)
    }
}


impl From<Row> for char {
    fn from(row: Row) -> (r: char) {
        row.to_char()
    }
}

impl FromSpecImpl<Row> for char {
    open spec fn obeys_from_spec() -> bool {
        true
    }

    open spec fn from_spec(row: Row) -> char {
        row_char(row@)
    }
}

} // verus!
