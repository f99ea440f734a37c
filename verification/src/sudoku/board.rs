use crate::bitset::{ascending, indices, numbers_below, BitSet};
use crate::sudoku::pos::candidate::Candidate;
use crate::sudoku::pos::cell::Cell;
use crate::sudoku::pos::digit::Digit;
use vstd::prelude::*;
use vstd::string::{StringExecFns, StringSliceAdditionalSpecFns};

verus! {

/// What a cell holds: its digit, once solved, or else the digits that are still possible.
#[derive(Copy, PartialEq, Eq, Debug)]
pub enum CellData {
    Digit(Digit),
    Notes(BitSet<Digit>),
}

impl Clone for CellData {
    fn clone(&self) -> (r: Self)
        ensures
            r == *self,
    {
        *self
    }
}

/// The model of a cell's content: the number of its digit, or the numbers of its notes.
pub enum CellState {
    Solved(int),
    Open(Set<int>),
}

impl View for CellData {
    type V = CellState;

    open spec fn view(&self) -> CellState {
        match self {
            CellData::Digit(digit) => CellState::Solved(digit@),
            CellData::Notes(notes) => CellState::Open(notes@),
        }
    }
}

impl Default for CellData {
    /// An unsolved cell in which every digit is still possible.
    fn default() -> (r: CellData)
        ensures
            r@ == CellState::Open(numbers_below(9)),
    {
        CellData::Notes(BitSet::full())
    }
}

/// The model of a board: the content of each of the 81 cells, and which cells were given.
pub struct BoardModel {
    pub cells: Seq<CellState>,
    pub given: Set<int>,
}

impl BoardModel {
    /// There are 81 cells, digits and notes lie below 9, and the given cells are cells.
    pub open spec fn wf(self) -> bool {
        &&& self.cells.len() == 81
        &&& forall|c: int|
            0 <= c < 81 ==> match #[trigger] self.cells[c] {
                CellState::Solved(d) => 0 <= d < 9,
                CellState::Open(notes) => notes.subset_of(numbers_below(9)),
            }
        &&& self.given.subset_of(numbers_below(81))
    }

    /// The board on which no cell is solved or given and every digit is possible everywhere.
    pub open spec fn fresh() -> BoardModel {
        BoardModel {
            cells: Seq::new(81, |c: int| CellState::Open(numbers_below(9))),
            given: Set::empty(),
        }
    }

    /// Whether the cell numbered `c` is solved.
    pub open spec fn is_solved(self, c: int) -> bool {
        self.cells[c] is Solved
    }

    /// The digit of the cell numbered `c`, if it is solved.
    pub open spec fn digit_at(self, c: int) -> Option<int> {
        match self.cells[c] {
            CellState::Solved(d) => Some(d),
            CellState::Open(_) => None,
        }
    }

    /// The notes of the cell numbered `c`; a solved cell has none.
    pub open spec fn notes_at(self, c: int) -> Set<int> {
        match self.cells[c] {
            CellState::Solved(_) => Set::empty(),
            CellState::Open(notes) => notes,
        }
    }

    /// Whether the cell numbered `c` is unsolved and has the digit numbered `d` as a note.
    pub open spec fn has_note(self, c: int, d: int) -> bool {
        self.notes_at(c).contains(d)
    }

    /// The solved cells.
    pub open spec fn solved(self) -> Set<int> {
        Set::new(|c: int| 0 <= c < 81 && self.is_solved(c))
    }

    /// The unsolved cells.
    pub open spec fn unsolved(self) -> Set<int> {
        Set::new(|c: int| 0 <= c < 81 && !self.is_solved(c))
    }

    /// The cells solved to the digit numbered `d`.
    pub open spec fn with_digit(self, d: int) -> Set<int> {
        Set::new(|c: int| 0 <= c < 81 && self.digit_at(c) == Some(d))
    }

    /// The cells that have the digit numbered `d` as a note.
    pub open spec fn with_note(self, d: int) -> Set<int> {
        Set::new(|c: int| 0 <= c < 81 && self.has_note(c, d))
    }

    /// The board after the cell numbered `c` is solved to the digit numbered `d`.
    pub open spec fn set_digit(self, c: int, d: int) -> BoardModel {
        BoardModel { cells: self.cells.update(c, CellState::Solved(d)), given: self.given }
    }

    /// The board after the digit numbered `d` is struck from the notes of the cell numbered `c`.
    pub open spec fn eliminate(self, c: int, d: int) -> BoardModel {
        BoardModel {
            cells: self.cells.update(c, CellState::Open(self.notes_at(c).remove(d))),
            given: self.given,
        }
    }

    /// The board after every cell that was not given is unsolved again with all its notes.
    pub open spec fn reset(self) -> BoardModel {
        BoardModel {
            cells: Seq::new(
                81,
                |c: int|
                    if self.given.contains(c) {
                        self.cells[c]
                    } else {
                        CellState::Open(numbers_below(9))
                    },
            ),
            given: self.given,
        }
    }
}

/// Why a note could not be struck.
#[derive(Clone, Copy, PartialEq, Eq, Debug)]
pub enum BoardError {
    /// The cell is solved and has no notes.
    CellSolved,
    /// The cell does not have the digit as a note.
    NoteAbsent,
}

/// The 81 cells of a puzzle, each solved or with its notes, and the set of given cells.
#[derive(PartialEq, Eq, Debug)]
pub struct Board {
    cells: [CellData; 81],
    given: BitSet<Cell>,
}

impl Clone for Board {
    fn clone(&self) -> (r: Self)
        ensures
            r == *self,
    {
        proof {
            use_type_invariant(self);
        }
        Board { cells: self.cells, given: self.given }
    }
}

impl View for Board {
    type V = BoardModel;

    closed spec fn view(&self) -> BoardModel {
        BoardModel { cells: self.cells@.map_values(|data: CellData| data@), given: self.given@ }
    }
}

impl Board {
    /// The board holds 81 cells, and its model is well formed.
    #[verifier::type_invariant]
    pub closed spec fn inv(self) -> bool {
        &&& self.cells@.len() == 81
        &&& self@.wf()
    }

    /// The board on which no cell is solved or given.
    pub fn new() -> (r: Board)
        ensures
            r@ == BoardModel::fresh(),
    {
        let blank = CellData::default();
        proof {
            vstd::array::axiom_spec_array_fill_for_copy_type::<CellData, 81>(blank);
        }
        let cells = [blank;81];
        let r = Board { cells, given: BitSet::new() };
        proof {
            assert(r@.cells =~= BoardModel::fresh().cells);
        }
        r
    }

    /// The content of a cell.
    pub fn get_data(&self, cell: &Cell) -> (r: &CellData)
        ensures
            r@ == self@.cells[cell@],
    {
        proof {
            use_type_invariant(self);
        }
        &self.cells[cell.as_index()]
    }

    /// The digit of a cell, if the cell is solved.
    pub fn get_digit(&self, cell: &Cell) -> (r: Option<Digit>)
        ensures
            r is Some <==> self@.is_solved(cell@),
            r is Some ==> self@.digit_at(cell@) == Some(r.unwrap()@),
    {
        match self.get_data(cell) {
            CellData::Digit(digit) => Some(*digit),
            CellData::Notes(_) => None,
        }
    }

    /// The notes of a cell, if the cell is unsolved.
    pub fn get_notes(&self, cell: &Cell) -> (r: Option<&BitSet<Digit>>)
        ensures
            r is Some <==> !self@.is_solved(cell@),
            r is Some ==> r.unwrap()@ == self@.notes_at(cell@),
    {
        match self.get_data(cell) {
            CellData::Digit(_) => None,
            CellData::Notes(notes) => Some(notes),
        }
    }

    /// Whether a cell is solved.
    pub fn is_digit(&self, cell: &Cell) -> (r: bool)
        ensures
            r == self@.is_solved(cell@),
    {
        match self.get_data(cell) {
            CellData::Digit(_) => true,
            CellData::Notes(_) => false,
        }
    }

    /// Whether a cell is unsolved.
    pub fn is_notes(&self, cell: &Cell) -> (r: bool)
        ensures
            r == !self@.is_solved(cell@),
    {
        match self.get_data(cell) {
            CellData::Digit(_) => false,
            CellData::Notes(_) => true,
        }
    }

    /// Whether a cell was given.
    pub fn is_given(&self, cell: &Cell) -> (r: bool)
        ensures
            r == self@.given.contains(cell@),
    {
        self.given.contains(*cell)
    }

    /// The set of the given cells.
    pub fn given(&self) -> (r: BitSet<Cell>)
        ensures
            r@ == self@.given,
    {
        self.given
    }

    /// Whether a cell is unsolved and has `digit` as a note.
    pub fn has_note(&self, cell: &Cell, digit: Digit) -> (r: bool)
        ensures
            r == self@.has_note(cell@, digit@),
    {
        match self.get_notes(cell) {
            Some(notes) => notes.contains(digit),
            None => false,
        }
    }

    /// The number of notes of a cell; a solved cell has none.
    pub fn count_notes(&self, cell: &Cell) -> (r: usize)
        ensures
            r == self@.notes_at(cell@).len(),
    {
        match self.get_notes(cell) {
            Some(notes) => notes.len(),
            None => 0,
        }
    }

    /// Makes every cell unsolved with all its notes, and no cell given.
    pub fn clear(&mut self)
        ensures
            final(self)@ == BoardModel::fresh(),
    {
        *self = Board::new();
    }

    /// Makes every cell that was not given unsolved with all its notes.
    pub fn reset(&mut self)
        ensures
            final(self)@ == old(self)@.reset(),
    {
        proof {
            use_type_invariant(&*self);
        }
        let mut cells = self.cells;
        let mut k: usize = 0;
        while k < 81
            invariant
                0 <= k <= 81,
                self.inv(),
                forall|j: int| 0 <= j < k ==> (#[trigger] cells@[j])@ == self@.reset().cells[j],
                forall|j: int| k <= j < 81 ==> cells@[j] == self.cells@[j],
            decreases 81 - k,
        {
            let cell = Cell::from_index_unchecked(k);
            if !self.given.contains(cell) {
                cells[k] = CellData::default();
            }
            k += 1;
        }
        let ghost before = self@;
        let r = Board { cells, given: self.given };
        proof {
            assert(r@.cells =~= before.reset().cells);
        }
        *self = r;
    }

    /// Solves `cell` to `digit`.
    pub fn set_digit(&mut self, cell: Cell, digit: Digit)
        ensures
            final(self)@ == old(self)@.set_digit(cell@, digit@),
    {
        proof {
            use_type_invariant(&*self);
            use_type_invariant(&digit);
        }
        let ghost before = self@;
        let mut cells = self.cells;
        cells[cell.as_index()] = CellData::Digit(digit);
        proof {
            let after = cells@.map_values(|data: CellData| data@);
            assert(after =~= before.set_digit(cell@, digit@).cells);
            assert(before.set_digit(cell@, digit@).wf());
        }
        *self = Board { cells, given: self.given };
    }
}


impl Board {
    /// Solves the cell of `candidate` to the digit of `candidate`.
    pub fn input_solution(&mut self, candidate: Candidate)
        ensures
            final(self)@ == old(self)@.set_digit(candidate@ / 9, candidate@ % 9),
    {
        let (cell, digit) = candidate.as_tuple();
        self.set_digit(cell, digit);
    }

    /// Strikes the digit of `candidate` from the notes of its cell.
    ///
    /// A solved cell, or a cell without that note, is reported and the board stays as it is.
    pub fn input_elimination(&mut self, candidate: Candidate) -> (r: Result<(), BoardError>)
        ensures
            old(self)@.is_solved(candidate@ / 9) ==> r == Err::<(), BoardError>(
                BoardError::CellSolved,
            ) && final(self)@ == old(self)@,
            !old(self)@.is_solved(candidate@ / 9) && !old(self)@.has_note(
                candidate@ / 9,
                candidate@ % 9,
            ) ==> r == Err::<(), BoardError>(BoardError::NoteAbsent) && final(self)@ == old(
                self,
            )@,
            old(self)@.has_note(candidate@ / 9, candidate@ % 9) ==> r is Ok && final(self)@ == old(
                self,
            )@.eliminate(candidate@ / 9, candidate@ % 9),
    {
        let (cell, digit) = candidate.as_tuple();
        proof {
            use_type_invariant(&*self);
        }
        let ghost before = self@;
        match *self.get_data(&cell) {
            CellData::Digit(_) => Err(BoardError::CellSolved),
            CellData::Notes(notes) => {
                if !notes.contains(digit) {
                    Err(BoardError::NoteAbsent)
                } else {
                    let mut rest = notes;
                    rest.remove(digit);
                    proof {
                        use_type_invariant(&rest);
                    }
                    let mut cells = self.cells;
                    cells[cell.as_index()] = CellData::Notes(rest);
                    proof {
                        let after = cells@.map_values(|data: CellData| data@);
                        assert(after =~= before.eliminate(cell@, digit@).cells);
                        assert(before.eliminate(cell@, digit@).wf());
                    }
                    *self = Board { cells, given: self.given };
                    Ok(())
                }
            },
        }
    }

    /// The cells that `keep` selects, as a set.
    fn collect(&self, kind: Selection) -> (r: BitSet<Cell>)
        ensures
            r@ == Set::new(|c: int| 0 <= c < 81 && kind.selects(self@, c)),
    {
        let mut set: BitSet<Cell> = BitSet::new();
        let mut k: usize = 0;
        while k < 81
            invariant
                0 <= k <= 81,
                set@ == Set::new(|c: int| 0 <= c < k && kind.selects(self@, c)),
            decreases 81 - k,
        {
            let cell = Cell::from_index_unchecked(k);
            let hit = match kind {
                Selection::Solved => self.is_digit(&cell),
                Selection::Unsolved => self.is_notes(&cell),
                Selection::WithDigit(digit) => match self.get_digit(&cell) {
                    Some(d) => {
                        proof {
                            if d@ == digit@ {
                                d.lemma_view_injective(digit);
                            }
                        }
                        d == digit
                    },
                    None => false,
                },
                Selection::WithNote(digit) => self.has_note(&cell, digit),
            };
            let ghost before = set@;
            if hit {
                set.insert(cell);
            }
            proof {
                assert(hit == kind.selects(self@, k as int));
                assert forall|c: int|
                    set@.contains(c) == (0 <= c < k + 1 && kind.selects(self@, c)) by {
                    assert(before.contains(c) == (0 <= c < k && kind.selects(self@, c)));
                }
                assert(set@ =~= Set::new(|c: int| 0 <= c < k + 1 && kind.selects(self@, c)));
            }
            k += 1;
        }
        set
    }

    /// The set of the unsolved cells.
    pub fn cells_unsolved(&self) -> (r: BitSet<Cell>)
        ensures
            r@ == self@.unsolved(),
    {
        let r = self.collect(Selection::Unsolved);
        proof {
            assert(r@ =~= self@.unsolved());
        }
        r
    }

    /// The set of the solved cells.
    pub fn cells_solved(&self) -> (r: BitSet<Cell>)
        ensures
            r@ == self@.solved(),
    {
        let r = self.collect(Selection::Solved);
        proof {
            assert(r@ =~= self@.solved());
        }
        r
    }

    /// The set of the cells solved to `digit`.
    pub fn cells_with_digit(&self, digit: Digit) -> (r: BitSet<Cell>)
        ensures
            r@ == self@.with_digit(digit@),
    {
        let r = self.collect(Selection::WithDigit(digit));
        proof {
            assert(r@ =~= self@.with_digit(digit@));
        }
        r
    }

    /// The set of the cells that have `digit` as a note.
    pub fn cells_with_note(&self, digit: Digit) -> (r: BitSet<Cell>)
        ensures
            r@ == self@.with_note(digit@),
    {
        let r = self.collect(Selection::WithNote(digit));
        proof {
            assert(r@ =~= self@.with_note(digit@));
        }
        r
    }

    /// The solved cells, in ascending order.
    pub fn iter_solved(&self) -> (r: Vec<Cell>)
        ensures
            indices(r@) == ascending(self@.solved(), 81),
    {
        self.cells_solved().to_vec()
    }

    /// The unsolved cells, in ascending order.
    pub fn iter_unsolved(&self) -> (r: Vec<Cell>)
        ensures
            indices(r@) == ascending(self@.unsolved(), 81),
    {
        self.cells_unsolved().to_vec()
    }

    /// The cells solved to `digit`, in ascending order.
    pub fn iter_with_digit(&self, digit: Digit) -> (r: Vec<Cell>)
        ensures
            indices(r@) == ascending(self@.with_digit(digit@), 81),
    {
        self.cells_with_digit(digit).to_vec()
    }

    /// The cells that have `digit` as a note, in ascending order.
    pub fn iter_with_note(&self, digit: Digit) -> (r: Vec<Cell>)
        ensures
            indices(r@) == ascending(self@.with_note(digit@), 81),
    {
        self.cells_with_note(digit).to_vec()
    }
}

/// A way to select cells of a board.
#[derive(Clone, Copy)]
enum Selection {
    Solved,
    Unsolved,
    WithDigit(Digit),
    WithNote(Digit),
}

impl Selection {
    /// Whether the selection takes the cell numbered `c` of `board`.
    spec fn selects(self, board: BoardModel, c: int) -> bool {
        match self {
            Selection::Solved => board.is_solved(c),
            Selection::Unsolved => !board.is_solved(c),
            Selection::WithDigit(digit) => board.digit_at(c) == Some(digit@),
            Selection::WithNote(digit) => board.has_note(c, digit@),
        }
    }
}


/// Whether a byte is one of the characters `1` to `9`.
pub open spec fn is_digit_byte(byte: u8) -> bool {
    0x31 <= byte <= 0x39
}

/// Whether a text gives the cell numbered `c`: its byte at that place is a digit character.
pub open spec fn gives_cell(text: Seq<u8>, c: int) -> bool {
    0 <= c < text.len() && is_digit_byte(text[c])
}

/// The board that a text stands for, row by row: a cell whose byte is one of the characters
/// `1` to `9` is given that digit; any other cell is unsolved with all its notes.
pub open spec fn parse_board(text: Seq<u8>) -> BoardModel {
    BoardModel {
        cells: Seq::new(
            81,
            |c: int|
                if gives_cell(text, c) {
                    CellState::Solved(text[c] - 0x31)
                } else {
                    CellState::Open(numbers_below(9))
                },
        ),
        given: Set::new(|c: int| 0 <= c < 81 && gives_cell(text, c)),
    }
}

/// The character that stands for a cell: its digit, or a dot for an unsolved cell.
pub open spec fn cell_char(cell: CellState) -> char {
    match cell {
        CellState::Solved(d) => if d == 0 {
            '1'
        } else if d == 1 {
            '2'
        } else if d == 2 {
            '3'
        } else if d == 3 {
            '4'
        } else if d == 4 {
            '5'
        } else if d == 5 {
            '6'
        } else if d == 6 {
            '7'
        } else if d == 7 {
            '8'
        } else {
            '9'
        },
        CellState::Open(_) => '.',
    }
}

/// The text of a board: one character for each of the 81 cells, row by row.
pub open spec fn render_board(board: BoardModel) -> Seq<char> {
    Seq::new(81, |c: int| cell_char(board.cells[c]))
}

/// A board read from a text and written again shows the given digits where the text had
/// them; every other cell has all nine notes and is written as a dot.
pub proof fn law_board_round_trip(text: Seq<u8>)
    ensures
        parse_board(text).wf(),
        forall|c: int|
            0 <= c < 81 && gives_cell(text, c) ==> parse_board(text).given.contains(c)
                && #[trigger] render_board(parse_board(text))[c] as u8 == text[c],
        forall|c: int|
            0 <= c < 81 && !gives_cell(text, c) ==> !parse_board(text).given.contains(c)
                && parse_board(text).notes_at(c) == numbers_below(9) && parse_board(
                text,
            ).notes_at(c).len() == 9 && #[trigger] render_board(parse_board(text))[c] == '.',
{
    vstd::set_lib::lemma_int_range(0, 9);
    assert(numbers_below(9) =~= vstd::set_lib::set_int_range(0, 9));
}

impl Board {
    /// The board that the bytes of a text stand for.
    pub fn from_bytes(text: &[u8]) -> (r: Board)
        ensures
            r@ == parse_board(text@),
    {
        let mut board = Board::new();
        let mut given: BitSet<Cell> = BitSet::new();
        let mut cells = board.cells;
        let mut k: usize = 0;
        proof {
            use_type_invariant(&board);
            assert forall|j: int| 0 <= j < 81 implies (#[trigger] cells@[j])@ == CellState::Open(
                numbers_below(9),
            ) by {
                assert(board@.cells[j] == cells@[j]@);
            }
        }
        while k < 81
            invariant
                0 <= k <= 81,
                forall|j: int| 0 <= j < k ==> (#[trigger] cells@[j])@ == parse_board(text@).cells[j],
                forall|j: int|
                    k <= j < 81 ==> (#[trigger] cells@[j])@ == CellState::Open(numbers_below(9)),
                given@ == Set::new(|c: int| 0 <= c < k && gives_cell(text@, c)),
            decreases 81 - k,
        {
            let ghost before = given@;
            if k < text.len() && 0x31 <= text[k] && text[k] <= 0x39 {
                let digit = Digit::new_unchecked(text[k] - 0x31);
                cells[k] = CellData::Digit(digit);
                given.insert(Cell::from_index_unchecked(k));
            }
            proof {
                assert forall|c: int|
                    given@.contains(c) == (0 <= c < k + 1 && gives_cell(text@, c)) by {
                    assert(before.contains(c) == (0 <= c < k && gives_cell(text@, c)));
                }
                assert(given@ =~= Set::new(|c: int| 0 <= c < k + 1 && gives_cell(text@, c)));
            }
            k += 1;
        }
        proof {
            law_board_round_trip(text@);
            let after = cells@.map_values(|data: CellData| data@);
            assert(after =~= parse_board(text@).cells);
            assert(given@ =~= parse_board(text@).given);
        }
        Board { cells, given }
    }

    /// The board that a text stands for.
    pub fn from_string(text: &str) -> (r: Board)
        ensures
            r@ == parse_board(text.spec_bytes()),
    {
        Board::from_bytes(text.as_bytes())
    }

    /// The text of the board.
    pub fn to_string(&self) -> (r: String)
        ensures
            r@ == render_board(self@),
    {
        let mut out = String::from_str("");
        let mut k: usize = 0;
        proof {
            reveal_strlit("");
            use_type_invariant(self);
            assert(out@ =~= render_board(self@).take(0));
        }
        while k < 81
            invariant
                0 <= k <= 81,
                self.inv(),
                out@ == render_board(self@).take(k as int),
            decreases 81 - k,
        {
            let ghost before = out@;
            proof {
                reveal_strlit("1");
                reveal_strlit("2");
                reveal_strlit("3");
                reveal_strlit("4");
                reveal_strlit("5");
                reveal_strlit("6");
                reveal_strlit("7");
                reveal_strlit("8");
                reveal_strlit("9");
                reveal_strlit(".");
            }
            match self.cells[k] {
                CellData::Digit(digit) => {
                    let d = digit.as_index();
                    if d == 0 {
                        out.append("1");
                    } else if d == 1 {
                        out.append("2");
                    } else if d == 2 {
                        out.append("3");
                    } else if d == 3 {
                        out.append("4");
                    } else if d == 4 {
                        out.append("5");
                    } else if d == 5 {
                        out.append("6");
                    } else if d == 6 {
                        out.append("7");
                    } else if d == 7 {
                        out.append("8");
                    } else {
                        out.append("9");
                    }
                },
                CellData::Notes(_) => {
                    out.append(".");
                },
            }
            proof {
                let want = render_board(self@);
                assert(out@ =~= before.push(want[k as int]));
                assert(want.take(k as int + 1) =~= want.take(k as int).push(want[k as int]));
            }
            k += 1;
        }
        proof {
            assert(render_board(self@).take(81) =~= render_board(self@));
        }
        out
    }
}

} // verus!
