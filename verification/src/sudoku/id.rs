use crate::sudoku::pos::text::{number_char, row_char};
use vstd::prelude::*;
use vstd::string::StringExecFns;

verus! {

/// A digit of the puzzle, by name.
#[derive(Clone, Copy, Eq, PartialEq, Debug, Hash, Structural)]
pub enum Digit {
    One,
    Two,
    Three,
    Four,
    Five,
    Six,
    Seven,
    Eight,
    Nine,
}

/// All values of the kind, in ascending order.
pub const DIGITS: [Digit; 9] = [
    Digit::One,
    Digit::Two,
    Digit::Three,
    Digit::Four,
    Digit::Five,
    Digit::Six,
    Digit::Seven,
    Digit::Eight,
    Digit::Nine,
];

impl View for Digit {
    type V = int;

    /// The number of the value, counted from zero.
    open spec fn view(&self) -> int {
        match self {
            Digit::One => 0,
            Digit::Two => 1,
            Digit::Three => 2,
            Digit::Four => 3,
            Digit::Five => 4,
            Digit::Six => 5,
            Digit::Seven => 6,
            Digit::Eight => 7,
            Digit::Nine => 8,
        }
    }
}

impl Digit {
    /// The value as it is shown.
    pub fn to_string(&self) -> (r: String)
        ensures
            r@ == seq![number_char(self@)],
    {
        proof {
            reveal_strlit("1");
            reveal_strlit("2");
            reveal_strlit("3");
            reveal_strlit("4");
            reveal_strlit("5");
            reveal_strlit("6");
            reveal_strlit("7");
            reveal_strlit("8");
            reveal_strlit("9");
        }
        let text = match self {
            Digit::One => "1",
            Digit::Two => "2",
            Digit::Three => "3",
            Digit::Four => "4",
            Digit::Five => "5",
            Digit::Six => "6",
            Digit::Seven => "7",
            Digit::Eight => "8",
            Digit::Nine => "9",
        };
        proof {
            assert(text@ =~= seq![number_char(self@)]);
        }
        text.to_owned()
    }

    /// The digit that a character stands for, if it is one of `1` to `9`.
    pub fn try_from_char(value: char) -> (r: Result<Digit, ()>)
        ensures
            r is Ok <==> '1' <= value <= '9',
            r is Ok ==> number_char(r.unwrap()@) == value,
    {
        match value {
            '1' => Ok(Digit::One),
            '2' => Ok(Digit::Two),
            '3' => Ok(Digit::Three),
            '4' => Ok(Digit::Four),
            '5' => Ok(Digit::Five),
            '6' => Ok(Digit::Six),
            '7' => Ok(Digit::Seven),
            '8' => Ok(Digit::Eight),
            '9' => Ok(Digit::Nine),
            _ => Err(()),
        }
    }
}

/// A row of the grid, by letter.
#[derive(Clone, Copy, Eq, PartialEq, Debug, Hash, Structural)]
pub enum Row {
    A,
    B,
    C,
    D,
    E,
    F,
    G,
    H,
    I,
}

/// All values of the kind, in ascending order.
pub const ROWS: [Row; 9] = [
    Row::A,
    Row::B,
    Row::C,
    Row::D,
    Row::E,
    Row::F,
    Row::G,
    Row::H,
    Row::I,
];

impl View for Row {
    type V = int;

    /// The number of the value, counted from zero.
    open spec fn view(&self) -> int {
        match self {
            Row::A => 0,
            Row::B => 1,
            Row::C => 2,
            Row::D => 3,
            Row::E => 4,
            Row::F => 5,
            Row::G => 6,
            Row::H => 7,
            Row::I => 8,
        }
    }
}

impl Row {
    /// The value as it is shown.
    pub fn to_string(&self) -> (r: String)
        ensures
            r@ == seq![row_char(self@)],
    {
        proof {
            reveal_strlit("A");
            reveal_strlit("B");
            reveal_strlit("C");
            reveal_strlit("D");
            reveal_strlit("E");
            reveal_strlit("F");
            reveal_strlit("G");
            reveal_strlit("H");
            reveal_strlit("I");
        }
        let text = match self {
            Row::A => "A",
            Row::B => "B",
            Row::C => "C",
            Row::D => "D",
            Row::E => "E",
            Row::F => "F",
            Row::G => "G",
            Row::H => "H",
            Row::I => "I",
        };
        proof {
            assert(text@ =~= seq![row_char(self@)]);
        }
        text.to_owned()
    }
}

/// A column of the grid, by name.
#[derive(Clone, Copy, Eq, PartialEq, Debug, Hash, Structural)]
pub enum Col {
    One,
    Two,
    Three,
    Four,
    Five,
    Six,
    Seven,
    Eight,
    Nine,
}

/// All values of the kind, in ascending order.
pub const COLS: [Col; 9] = [
    Col::One,
    Col::Two,
    Col::Three,
    Col::Four,
    Col::Five,
    Col::Six,
    Col::Seven,
    Col::Eight,
    Col::Nine,
];

impl View for Col {
    type V = int;

    /// The number of the value, counted from zero.
    open spec fn view(&self) -> int {
        match self {
            Col::One => 0,
            Col::Two => 1,
            Col::Three => 2,
            Col::Four => 3,
            Col::Five => 4,
            Col::Six => 5,
            Col::Seven => 6,
            Col::Eight => 7,
            Col::Nine => 8,
        }
    }
}

impl Col {
    /// The value as it is shown.
    pub fn to_string(&self) -> (r: String)
        ensures
            r@ == seq![number_char(self@)],
    {
        proof {
            reveal_strlit("1");
            reveal_strlit("2");
            reveal_strlit("3");
            reveal_strlit("4");
            reveal_strlit("5");
            reveal_strlit("6");
            reveal_strlit("7");
            reveal_strlit("8");
            reveal_strlit("9");
        }
        let text = match self {
            Col::One => "1",
            Col::Two => "2",
            Col::Three => "3",
            Col::Four => "4",
            Col::Five => "5",
            Col::Six => "6",
            Col::Seven => "7",
            Col::Eight => "8",
            Col::Nine => "9",
        };
        proof {
            assert(text@ =~= seq![number_char(self@)]);
        }
        text.to_owned()
    }
}

/// A cell of the grid, by its row and its column.
#[derive(Clone, Copy, Eq, PartialEq, Debug, Hash, Structural)]
pub struct CellId {
    pub row: Row,
    pub col: Col,
}

impl CellId {
    /// The cell in the given row and column.
    pub fn new(row: Row, col: Col) -> (r: CellId)
        ensures
            r.row == row,
            r.col == col,
    {
        CellId { row, col }
    }

    /// The cell as it is shown: the letter of its row and the number of its column.
    pub fn to_string(&self) -> (r: String)
        ensures
            r@ == seq![row_char(self.row@), number_char(self.col@)],
    {
        let mut text = self.row.to_string();
        let col = self.col.to_string();
        text.append(col.as_str());
        proof {
            assert(text@ =~= seq![row_char(self.row@), number_char(self.col@)]);
        }
        text
    }
}

/// The nine cells of a box.
pub type Unit = [CellId; 9];

/// All 81 cells, row by row.
pub fn cells() -> (r: Vec<CellId>)
    ensures
        r@.len() == 81,
        forall|i: int|
            0 <= i < 81 ==> (#[trigger] r@[i]).row@ == i / 9 && r@[i].col@ == i % 9,
{
    let mut out: Vec<CellId> = Vec::new();
    let mut i: usize = 0;
    while i < 9
        invariant
            0 <= i <= 9,
            out@.len() == 9 * i,
            forall|k: int|
                0 <= k < 9 * i ==> (#[trigger] out@[k]).row@ == k / 9 && out@[k].col@ == k % 9,
        decreases 9 - i,
    {
        let mut j: usize = 0;
        while j < 9
            invariant
                0 <= i < 9,
                0 <= j <= 9,
                out@.len() == 9 * i + j,
                forall|k: int|
                    0 <= k < 9 * i + j ==> (#[trigger] out@[k]).row@ == k / 9 && out@[k].col@ == k
                        % 9,
            decreases 9 - j,
        {
            out.push(CellId::new(ROWS[i], COLS[j]));
            j += 1;
        }
        i += 1;
    }
    out
}

/// The nine boxes, each with its cells row by row.
pub fn boxes() -> (r: Vec<Unit>)
    ensures
        r@.len() == 9,
        forall|b: int, k: int|
            0 <= b < 9 && 0 <= k < 9 ==> (#[trigger] r@[b]@[k]).row@ == (b / 3) * 3 + k / 3
                && r@[b]@[k].col@ == (b % 3) * 3 + k % 3,
{
    let mut out: Vec<Unit> = Vec::new();
    let mut b: usize = 0;
    while b < 9
        invariant
            0 <= b <= 9,
            out@.len() == b,
            forall|a: int, k: int|
                0 <= a < b && 0 <= k < 9 ==> (#[trigger] out@[a]@[k]).row@ == (a / 3) * 3 + k / 3
                    && out@[a]@[k].col@ == (a % 3) * 3 + k % 3,
        decreases 9 - b,
    {
        let r = (b / 3) * 3;
        let c = (b % 3) * 3;
        let unit = [
            CellId::new(ROWS[r], COLS[c]),
            CellId::new(ROWS[r], COLS[c + 1]),
            CellId::new(ROWS[r], COLS[c + 2]),
            CellId::new(ROWS[r + 1], COLS[c]),
            CellId::new(ROWS[r + 1], COLS[c + 1]),
            CellId::new(ROWS[r + 1], COLS[c + 2]),
            CellId::new(ROWS[r + 2], COLS[c]),
            CellId::new(ROWS[r + 2], COLS[c + 1]),
            CellId::new(ROWS[r + 2], COLS[c + 2]),
        ];
        out.push(unit);
        b += 1;
    }
    out
}

} // verus!
