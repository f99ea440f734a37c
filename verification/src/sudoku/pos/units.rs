use crate::bitset::BitSet;
use crate::sudoku::pos::cell::Cell;
use vstd::prelude::*;
use vstd::std_specs::convert::FromSpecImpl;

verus! {

/// A row of the grid: one of 9, numbered from zero.
#[derive(Clone, Copy, Debug, PartialEq, Eq, Hash, Structural)]
pub struct Row(u8);

impl View for Row {
    type V = int;

    /// The number of the value.
    closed spec fn view(&self) -> int {
        self.0 as int
    }
}

impl Row {
    /// The number lies below 9.
    #[verifier::type_invariant]
    pub open spec fn wf(self) -> bool {
        0 <= self@ < 9
    }

    /// Values with the same number are the same value.
    pub proof fn lemma_view_injective(self, other: Self)
        requires
            self@ == other@,
        ensures
            self == other,
    {
    }

    /// The value numbered `value`, which the caller knows to lie below 9.
    pub fn new_unchecked(value: u8) -> (r: Self)
        requires
            value < 9,
        ensures
            r@ == value,
    {
        Row(value)
    }

    /// The value numbered `value`, if there is one.
    pub fn new(value: u8) -> (r: Option<Self>)
        ensures
            r is Some <==> value < 9,
            r is Some ==> r.unwrap()@ == value,
    {
        if value < 9 {
            Some(Row(value))
        } else {
            None
        }
    }

    /// All rows, in ascending order.
    pub fn list() -> (r: Vec<Self>)
        ensures
            r@.len() == 9,
            forall|i: int| 0 <= i < 9 ==> (#[trigger] r@[i])@ == i,
    {
        let mut out: Vec<Self> = Vec::new();
        let mut i: u8 = 0;
        while i < 9
            invariant
                i <= 9,
                out@.len() == i,
                forall|j: int| 0 <= j < i ==> (#[trigger] out@[j])@ == j,
            decreases 9 - i,
        {
            out.push(Row(i));
            i += 1;
        }
        out
    }

    /// The number of the value.
    pub fn as_index(self) -> (r: usize)
        ensures
            r == self@,
            r < 9,
    {
        proof {
            use_type_invariant(&self);
        }
        self.0 as usize
    }

    /// The value numbered `index`, which the caller knows to lie below 9.
    pub fn from_index_unchecked(index: usize) -> (r: Self)
        requires
            index < 9,
        ensures
            r@ == index,
    {
        Row(index as u8)
    }

    /// The value numbered `index`, if there is one.
    pub fn from_index_checked(index: usize) -> (r: Option<Self>)
        ensures
            r is Some <==> index < 9,
            r is Some ==> r.unwrap()@ == index,
    {
        if index < 9 {
            Some(Row(index as u8))
        } else {
            None
        }
    }
}

/// A column of the grid: one of 9, numbered from zero.
#[derive(Clone, Copy, Debug, PartialEq, Eq, Hash, Structural)]
pub struct Col(u8);

impl View for Col {
    type V = int;

    /// The number of the value.
    closed spec fn view(&self) -> int {
        self.0 as int
    }
}

impl Col {
    /// The number lies below 9.
    #[verifier::type_invariant]
    pub open spec fn wf(self) -> bool {
        0 <= self@ < 9
    }

    /// Values with the same number are the same value.
    pub proof fn lemma_view_injective(self, other: Self)
        requires
            self@ == other@,
        ensures
            self == other,
    {
    }

    /// The value numbered `value`, which the caller knows to lie below 9.
    pub fn new_unchecked(value: u8) -> (r: Self)
        requires
            value < 9,
        ensures
            r@ == value,
    {
        Col(value)
    }

    /// The value numbered `value`, if there is one.
    pub fn new(value: u8) -> (r: Option<Self>)
        ensures
            r is Some <==> value < 9,
            r is Some ==> r.unwrap()@ == value,
    {
        if value < 9 {
            Some(Col(value))
        } else {
            None
        }
    }

    /// All columns, in ascending order.
    pub fn list() -> (r: Vec<Self>)
        ensures
            r@.len() == 9,
            forall|i: int| 0 <= i < 9 ==> (#[trigger] r@[i])@ == i,
    {
        let mut out: Vec<Self> = Vec::new();
        let mut i: u8 = 0;
        while i < 9
            invariant
                i <= 9,
                out@.len() == i,
                forall|j: int| 0 <= j < i ==> (#[trigger] out@[j])@ == j,
            decreases 9 - i,
        {
            out.push(Col(i));
            i += 1;
        }
        out
    }

    /// The number of the value.
    pub fn as_index(self) -> (r: usize)
        ensures
            r == self@,
            r < 9,
    {
        proof {
            use_type_invariant(&self);
        }
        self.0 as usize
    }

    /// The value numbered `index`, which the caller knows to lie below 9.
    pub fn from_index_unchecked(index: usize) -> (r: Self)
        requires
            index < 9,
        ensures
            r@ == index,
    {
        Col(index as u8)
    }

    /// The value numbered `index`, if there is one.
    pub fn from_index_checked(index: usize) -> (r: Option<Self>)
        ensures
            r is Some <==> index < 9,
            r is Some ==> r.unwrap()@ == index,
    {
        if index < 9 {
            Some(Col(index as u8))
        } else {
            None
        }
    }
}

/// A block of three by three cells: one of 9, numbered from zero.
#[derive(Clone, Copy, Debug, PartialEq, Eq, Hash, Structural)]
pub struct Block(u8);

impl View for Block {
    type V = int;

    /// The number of the value.
    closed spec fn view(&self) -> int {
        self.0 as int
    }
}

impl Block {
    /// The number lies below 9.
    #[verifier::type_invariant]
    pub open spec fn wf(self) -> bool {
        0 <= self@ < 9
    }

    /// Values with the same number are the same value.
    pub proof fn lemma_view_injective(self, other: Self)
        requires
            self@ == other@,
        ensures
            self == other,
    {
    }

    /// The value numbered `value`, which the caller knows to lie below 9.
    pub fn new_unchecked(value: u8) -> (r: Self)
        requires
            value < 9,
        ensures
            r@ == value,
    {
        Block(value)
    }

    /// The value numbered `value`, if there is one.
    pub fn new(value: u8) -> (r: Option<Self>)
        ensures
            r is Some <==> value < 9,
            r is Some ==> r.unwrap()@ == value,
    {
        if value < 9 {
            Some(Block(value))
        } else {
            None
        }
    }

    /// All blocks, in ascending order.
    pub fn list() -> (r: Vec<Self>)
        ensures
            r@.len() == 9,
            forall|i: int| 0 <= i < 9 ==> (#[trigger] r@[i])@ == i,
    {
        let mut out: Vec<Self> = Vec::new();
        let mut i: u8 = 0;
        while i < 9
            invariant
                i <= 9,
                out@.len() == i,
                forall|j: int| 0 <= j < i ==> (#[trigger] out@[j])@ == j,
            decreases 9 - i,
        {
            out.push(Block(i));
            i += 1;
        }
        out
    }

    /// The number of the value.
    pub fn as_index(self) -> (r: usize)
        ensures
            r == self@,
            r < 9,
    {
        proof {
            use_type_invariant(&self);
        }
        self.0 as usize
    }

    /// The value numbered `index`, which the caller knows to lie below 9.
    pub fn from_index_unchecked(index: usize) -> (r: Self)
        requires
            index < 9,
        ensures
            r@ == index,
    {
        Block(index as u8)
    }

    /// The value numbered `index`, if there is one.
    pub fn from_index_checked(index: usize) -> (r: Option<Self>)
        ensures
            r is Some <==> index < 9,
            r is Some ==> r.unwrap()@ == index,
    {
        if index < 9 {
            Some(Block(index as u8))
        } else {
            None
        }
    }
}

/// A row or a column: the rows come first: one of 18, numbered from zero.
#[derive(Clone, Copy, Debug, PartialEq, Eq, Hash, Structural)]
pub struct Line(u8);

impl View for Line {
    type V = int;

    /// The number of the value.
    closed spec fn view(&self) -> int {
        self.0 as int
    }
}

impl Line {
    /// The number lies below 18.
    #[verifier::type_invariant]
    pub open spec fn wf(self) -> bool {
        0 <= self@ < 18
    }

    /// Values with the same number are the same value.
    pub proof fn lemma_view_injective(self, other: Self)
        requires
            self@ == other@,
        ensures
            self == other,
    {
    }

    /// The value numbered `value`, which the caller knows to lie below 18.
    pub fn new_unchecked(value: u8) -> (r: Self)
        requires
            value < 18,
        ensures
            r@ == value,
    {
        Line(value)
    }

    /// The value numbered `value`, if there is one.
    pub fn new(value: u8) -> (r: Option<Self>)
        ensures
            r is Some <==> value < 18,
            r is Some ==> r.unwrap()@ == value,
    {
        if value < 18 {
            Some(Line(value))
        } else {
            None
        }
    }

    /// All lines, in ascending order.
    pub fn list() -> (r: Vec<Self>)
        ensures
            r@.len() == 18,
            forall|i: int| 0 <= i < 18 ==> (#[trigger] r@[i])@ == i,
    {
        let mut out: Vec<Self> = Vec::new();
        let mut i: u8 = 0;
        while i < 18
            invariant
                i <= 18,
                out@.len() == i,
                forall|j: int| 0 <= j < i ==> (#[trigger] out@[j])@ == j,
            decreases 18 - i,
        {
            out.push(Line(i));
            i += 1;
        }
        out
    }

    /// The number of the value.
    pub fn as_index(self) -> (r: usize)
        ensures
            r == self@,
            r < 18,
    {
        proof {
            use_type_invariant(&self);
        }
        self.0 as usize
    }

    /// The value numbered `index`, which the caller knows to lie below 18.
    pub fn from_index_unchecked(index: usize) -> (r: Self)
        requires
            index < 18,
        ensures
            r@ == index,
    {
        Line(index as u8)
    }

    /// The value numbered `index`, if there is one.
    pub fn from_index_checked(index: usize) -> (r: Option<Self>)
        ensures
            r is Some <==> index < 18,
            r is Some ==> r.unwrap()@ == index,
    {
        if index < 18 {
            Some(Line(index as u8))
        } else {
            None
        }
    }
}

/// A row, a column or a block: rows first, then columns, then blocks: one of 27, numbered from zero.
#[derive(Clone, Copy, Debug, PartialEq, Eq, Hash, Structural)]
pub struct Unit(u8);

impl View for Unit {
    type V = int;

    /// The number of the value.
    closed spec fn view(&self) -> int {
        self.0 as int
    }
}

impl Unit {
    /// The number lies below 27.
    #[verifier::type_invariant]
    pub open spec fn wf(self) -> bool {
        0 <= self@ < 27
    }

    /// Values with the same number are the same value.
    pub proof fn lemma_view_injective(self, other: Self)
        requires
            self@ == other@,
        ensures
            self == other,
    {
    }

    /// The value numbered `value`, which the caller knows to lie below 27.
    pub fn new_unchecked(value: u8) -> (r: Self)
        requires
            value < 27,
        ensures
            r@ == value,
    {
        Unit(value)
    }

    /// The value numbered `value`, if there is one.
    pub fn new(value: u8) -> (r: Option<Self>)
        ensures
            r is Some <==> value < 27,
            r is Some ==> r.unwrap()@ == value,
    {
        if value < 27 {
            Some(Unit(value))
        } else {
            None
        }
    }

    /// All units, in ascending order.
    pub fn list() -> (r: Vec<Self>)
        ensures
            r@.len() == 27,
            forall|i: int| 0 <= i < 27 ==> (#[trigger] r@[i])@ == i,
    {
        let mut out: Vec<Self> = Vec::new();
        let mut i: u8 = 0;
        while i < 27
            invariant
                i <= 27,
                out@.len() == i,
                forall|j: int| 0 <= j < i ==> (#[trigger] out@[j])@ == j,
            decreases 27 - i,
        {
            out.push(Unit(i));
            i += 1;
        }
        out
    }

    /// The number of the value.
    pub fn as_index(self) -> (r: usize)
        ensures
            r == self@,
            r < 27,
    {
        proof {
            use_type_invariant(&self);
        }
        self.0 as usize
    }

    /// The value numbered `index`, which the caller knows to lie below 27.
    pub fn from_index_unchecked(index: usize) -> (r: Self)
        requires
            index < 27,
        ensures
            r@ == index,
    {
        Unit(index as u8)
    }

    /// The value numbered `index`, if there is one.
    pub fn from_index_checked(index: usize) -> (r: Option<Self>)
        ensures
            r is Some <==> index < 27,
            r is Some ==> r.unwrap()@ == index,
    {
        if index < 27 {
            Some(Unit(index as u8))
        } else {
            None
        }
    }
}

/// The cells of every unit, by the number of the unit: rows, then columns, then blocks.
pub const UNITS: [[u8; 9]; 27] = [
    // rows
    [0, 1, 2, 3, 4, 5, 6, 7, 8],
    [9, 10, 11, 12, 13, 14, 15, 16, 17],
    [18, 19, 20, 21, 22, 23, 24, 25, 26],
    [27, 28, 29, 30, 31, 32, 33, 34, 35],
    [36, 37, 38, 39, 40, 41, 42, 43, 44],
    [45, 46, 47, 48, 49, 50, 51, 52, 53],
    [54, 55, 56, 57, 58, 59, 60, 61, 62],
    [63, 64, 65, 66, 67, 68, 69, 70, 71],
    [72, 73, 74, 75, 76, 77, 78, 79, 80],
    // columns
    [0, 9, 18, 27, 36, 45, 54, 63, 72],
    [1, 10, 19, 28, 37, 46, 55, 64, 73],
    [2, 11, 20, 29, 38, 47, 56, 65, 74],
    [3, 12, 21, 30, 39, 48, 57, 66, 75],
    [4, 13, 22, 31, 40, 49, 58, 67, 76],
    [5, 14, 23, 32, 41, 50, 59, 68, 77],
    [6, 15, 24, 33, 42, 51, 60, 69, 78],
    [7, 16, 25, 34, 43, 52, 61, 70, 79],
    [8, 17, 26, 35, 44, 53, 62, 71, 80],
    // blocks
    [0, 1, 2, 9, 10, 11, 18, 19, 20],
    [3, 4, 5, 12, 13, 14, 21, 22, 23],
    [6, 7, 8, 15, 16, 17, 24, 25, 26],
    [27, 28, 29, 36, 37, 38, 45, 46, 47],
    [30, 31, 32, 39, 40, 41, 48, 49, 50],
    [33, 34, 35, 42, 43, 44, 51, 52, 53],
    [54, 55, 56, 63, 64, 65, 72, 73, 74],
    [57, 58, 59, 66, 67, 68, 75, 76, 77],
    [60, 61, 62, 69, 70, 71, 78, 79, 80],
];

/// The row of the cell numbered `c`.
pub open spec fn cell_row(c: int) -> int {
    c / 9
}

/// The column of the cell numbered `c`.
pub open spec fn cell_col(c: int) -> int {
    c % 9
}

/// The block of the cell numbered `c`.
pub open spec fn cell_block(c: int) -> int {
    (cell_row(c) / 3) * 3 + cell_col(c) / 3
}

/// Whether the cell numbered `c` lies in the unit numbered `u`.
pub open spec fn in_unit(c: int, u: int) -> bool {
    if u < 9 {
        cell_row(c) == u
    } else if u < 18 {
        cell_col(c) == u - 9
    } else {
        cell_block(c) == u - 18
    }
}

/// The number of the cell at place `k` of the unit numbered `u`.
pub open spec fn unit_cell(u: int, k: int) -> int {
    if u < 9 {
        9 * u + k
    } else if u < 18 {
        9 * k + (u - 9)
    } else {
        (((u - 18) / 3) * 3 + k / 3) * 9 + ((u - 18) % 3) * 3 + k % 3
    }
}

/// The numbers of the cells of the unit numbered `u`.
pub open spec fn unit_cells(u: int) -> Set<int> {
    Set::new(|c: int| 0 <= c < 81 && in_unit(c, u))
}

/// The nine places of a unit hold nine different cells, which are the cells of the unit.
pub proof fn lemma_unit_places(u: int)
    requires
        0 <= u < 27,
    ensures
        forall|k: int| 0 <= k < 9 ==> unit_cells(u).contains(#[trigger] unit_cell(u, k)),
        forall|c: int|
            unit_cells(u).contains(c) ==> exists|k: int| 0 <= k < 9 && #[trigger] unit_cell(u, k) == c,
        forall|j: int, k: int|
            0 <= j < 9 && 0 <= k < 9 && j != k ==> unit_cell(u, j) != unit_cell(u, k),
{
    assert forall|c: int| unit_cells(u).contains(c) implies exists|k: int|
        0 <= k < 9 && #[trigger] unit_cell(u, k) == c by {
        if u < 9 {
            assert(unit_cell(u, c % 9) == c);
        } else if u < 18 {
            assert(unit_cell(u, c / 9) == c);
        } else {
            let k = ((c / 9) % 3) * 3 + (c % 9) % 3;
            assert(unit_cell(u, k) == c);
        }
    }
}

impl Unit {
    /// The cells of the unit, place by place.
    pub fn cells(self) -> (r: [Cell; 9])
        ensures
            forall|k: int| 0 <= k < 9 ==> (#[trigger] r@[k])@ == unit_cell(self@, k),
    {
        [
            self.cell_at(0),
            self.cell_at(1),
            self.cell_at(2),
            self.cell_at(3),
            self.cell_at(4),
            self.cell_at(5),
            self.cell_at(6),
            self.cell_at(7),
            self.cell_at(8),
        ]
    }

    /// The set of the cells of the unit.
    pub fn cell_set(self) -> (r: BitSet<Cell>)
        ensures
            r@ == unit_cells(self@),
    {
        let mut set: BitSet<Cell> = BitSet::new();
        let mut k: usize = 0;
        while k < 9
            invariant
                0 <= k <= 9,
                forall|c: int|
                    set@.contains(c) <==> exists|j: int|
                        0 <= j < k && #[trigger] unit_cell(self@, j) == c,
            decreases 9 - k,
        {
            let ghost before = set@;
            set.insert(self.cell_at(k));
            proof {
                assert forall|c: int|
                    set@.contains(c) <==> exists|j: int|
                        0 <= j < k + 1 && #[trigger] unit_cell(self@, j) == c by {
                    if before.contains(c) {
                        let j = choose|j: int| 0 <= j < k && #[trigger] unit_cell(self@, j) == c;
                        assert(0 <= j < k + 1 && unit_cell(self@, j) == c);
                    }
                    if c == unit_cell(self@, k as int) {
                        assert(0 <= k < k + 1 && unit_cell(self@, k as int) == c);
                    }
                }
            }
            k += 1;
        }
        proof {
            use_type_invariant(&self);
            lemma_unit_places(self@);
            assert(set@ =~= unit_cells(self@));
        }
        set
    }

    /// The cell at place `k` of the unit.
    pub fn cell_at(self, k: usize) -> (r: Cell)
        requires
            k < 9,
        ensures
            r@ == unit_cell(self@, k as int),
    {
        let u = self.as_index();
        let c = UNITS[u][k];
        Cell::new_unchecked(c)
    }
}


/// A line is either a row or a column.
pub enum LineType {
    Row(Row),
    Col(Col),
}

/// A unit is a row, a column or a block.
pub enum UnitType {
    Row(Row),
    Col(Col),
    Block(Block),
}

impl Line {
    /// The line that is the given row.
    pub fn from_row(row: Row) -> (r: Line)
        ensures
            r@ == row@,
    {
        proof {
            use_type_invariant(&row);
        }
        Line(row.0)
    }

    /// The line that is the given column.
    pub fn from_col(col: Col) -> (r: Line)
        ensures
            r@ == col@ + 9,
    {
        proof {
            use_type_invariant(&col);
        }
        Line(col.0 + 9)
    }

    /// The row or the column that the line is.
    pub fn line_type(self) -> (r: LineType)
        ensures
            self@ < 9 ==> (r matches LineType::Row(row) && row@ == self@),
            self@ >= 9 ==> (r matches LineType::Col(col) && col@ == self@ - 9),
    {
        proof {
            use_type_invariant(&self);
        }
        if self.0 < 9 {
            LineType::Row(Row(self.0))
        } else {
            LineType::Col(Col(self.0 - 9))
        }
    }
}

impl Unit {
    /// The unit that is the given row.
    pub fn from_row(row: Row) -> (r: Unit)
        ensures
            r@ == row@,
    {
        proof {
            use_type_invariant(&row);
        }
        Unit(row.0)
    }

    /// The unit that is the given column.
    pub fn from_col(col: Col) -> (r: Unit)
        ensures
            r@ == col@ + 9,
    {
        proof {
            use_type_invariant(&col);
        }
        Unit(col.0 + 9)
    }

    /// The unit that is the given line.
    pub fn from_line(line: Line) -> (r: Unit)
        ensures
            r@ == line@,
    {
        match line.line_type() {
            LineType::Row(row) => Unit::from_row(row),
            LineType::Col(col) => Unit::from_col(col),
        }
    }

    /// The unit that is the given block.
    pub fn from_block(block: Block) -> (r: Unit)
        ensures
            r@ == block@ + 18,
    {
        proof {
            use_type_invariant(&block);
        }
        Unit(block.0 + 18)
    }

    /// The row, the column or the block that the unit is.
    pub fn unit_type(self) -> (r: UnitType)
        ensures
            self@ < 9 ==> (r matches UnitType::Row(row) && row@ == self@),
            9 <= self@ < 18 ==> (r matches UnitType::Col(col) && col@ == self@ - 9),
            18 <= self@ ==> (r matches UnitType::Block(block) && block@ == self@ - 18),
    {
        proof {
            use_type_invariant(&self);
        }
        if self.0 < 9 {
            UnitType::Row(Row(self.0))
        } else if self.0 < 18 {
            UnitType::Col(Col(self.0 - 9))
        } else {
            UnitType::Block(Block(self.0 - 18))
        }
    }
}

/// A kind of unit: the rows, the columns, the lines, the blocks, or all units.
///
/// The units of a kind are numbered, among all units, from `spec_first()` on.
pub trait UnitClass: Copy + Sized {
    /// The number, among all units, of the first unit of the kind.
    spec fn spec_first() -> int;

    /// How many units the kind has.
    spec fn spec_count() -> int;

    /// The number of this unit among all units.
    spec fn spec_unit(self) -> int;

    /// The units of a kind are units.
    proof fn lemma_class_range()
        ensures
            0 <= Self::spec_first(),
            0 <= Self::spec_count(),
            Self::spec_first() + Self::spec_count() <= 27,
    ;

    /// All units of the kind, in ascending order.
    fn all_vec() -> (r: Vec<Self>)
        ensures
            r@.len() == Self::spec_count(),
            forall|i: int|
                0 <= i < r@.len() ==> (#[trigger] r@[i]).spec_unit() == Self::spec_first() + i,
    ;

    /// This unit, as one of all units.
    fn unit(self) -> (r: Unit)
        ensures
            r@ == self.spec_unit(),
    ;

    /// The cells of the unit, place by place.
    fn array(self) -> (r: [Cell; 9])
        ensures
            forall|k: int| 0 <= k < 9 ==> (#[trigger] r@[k])@ == unit_cell(self.spec_unit(), k),
    {
        self.unit().cells()
    }

    /// The set of the cells of the unit.
    fn cells_set(self) -> (r: BitSet<Cell>)
        ensures
            r@ == unit_cells(self.spec_unit()),
    {
        self.unit().cell_set()
    }

    /// The cells of the unit as a list, place by place.
    fn cells_vec(self) -> (r: Vec<Cell>)
        ensures
            r@.len() == 9,
            forall|k: int| 0 <= k < 9 ==> (#[trigger] r@[k])@ == unit_cell(self.spec_unit(), k),
    {
        let cells = self.unit().cells();
        let mut out: Vec<Cell> = Vec::new();
        let mut k: usize = 0;
        while k < 9
            invariant
                0 <= k <= 9,
                out@.len() == k,
                forall|j: int| 0 <= j < 9 ==> (#[trigger] cells@[j])@ == unit_cell(self.spec_unit(), j),
                forall|j: int| 0 <= j < k ==> (#[trigger] out@[j])@ == unit_cell(self.spec_unit(), j),
            decreases 9 - k,
        {
            out.push(cells[k]);
            k += 1;
        }
        out
    }
}

impl UnitClass for Row {
    open spec fn spec_first() -> int {
        0
    }

    open spec fn spec_count() -> int {
        9
    }

    open spec fn spec_unit(self) -> int {
        self@
    }

    proof fn lemma_class_range() {
    }

    fn all_vec() -> (r: Vec<Self>) {
        Row::list()
    }

    fn unit(self) -> (r: Unit) {
        Unit::from_row(self)
    }
}

impl UnitClass for Col {
    open spec fn spec_first() -> int {
        9
    }

    open spec fn spec_count() -> int {
        9
    }

    open spec fn spec_unit(self) -> int {
        self@ + 9
    }

    proof fn lemma_class_range() {
    }

    fn all_vec() -> (r: Vec<Self>) {
        Col::list()
    }

    fn unit(self) -> (r: Unit) {
        Unit::from_col(self)
    }
}

impl UnitClass for Line {
    open spec fn spec_first() -> int {
        0
    }

    open spec fn spec_count() -> int {
        18
    }

    open spec fn spec_unit(self) -> int {
        self@
    }

    proof fn lemma_class_range() {
    }

    fn all_vec() -> (r: Vec<Self>) {
        Line::list()
    }

    fn unit(self) -> (r: Unit) {
        Unit::from_line(self)
    }
}

impl UnitClass for Block {
    open spec fn spec_first() -> int {
        18
    }

    open spec fn spec_count() -> int {
        9
    }

    open spec fn spec_unit(self) -> int {
        self@ + 18
    }

    proof fn lemma_class_range() {
    }

    fn all_vec() -> (r: Vec<Self>) {
        Block::list()
    }

    fn unit(self) -> (r: Unit) {
        Unit::from_block(self)
    }
}

impl UnitClass for Unit {
    open spec fn spec_first() -> int {
        0
    }

    open spec fn spec_count() -> int {
        27
    }

    open spec fn spec_unit(self) -> int {
        self@
    }

    proof fn lemma_class_range() {
    }

    fn all_vec() -> (r: Vec<Self>) {
        Unit::list()
    }

    fn unit(self) -> (r: Unit) {
        self
    }
}

impl Row {
    /// The cells of the row, from the first column to the last.
    pub fn iter_cells(self) -> (r: Vec<Cell>)
        ensures
            r@.len() == 9,
            forall|k: int| 0 <= k < 9 ==> (#[trigger] r@[k])@ == 9 * self@ + k,
    {
        proof {
            use_type_invariant(&self);
        }
        self.cells_vec()
    }
}

impl Col {
    /// The cells of the column, from the first row to the last.
    pub fn iter_cells(self) -> (r: Vec<Cell>)
        ensures
            r@.len() == 9,
            forall|k: int| 0 <= k < 9 ==> (#[trigger] r@[k])@ == 9 * k + self@,
    {
        proof {
            use_type_invariant(&self);
        }
        self.cells_vec()
    }
}

impl Block {
    /// The cells of the block, row by row.
    pub fn iter_cells(self) -> (r: Vec<Cell>)
        ensures
            r@.len() == 9,
            forall|k: int|
                0 <= k < 9 ==> (#[trigger] r@[k])@ == ((self@ / 3) * 3 + k / 3) * 9 + (self@ % 3)
                    * 3 + k % 3,
    {
        proof {
            use_type_invariant(&self);
        }
        self.cells_vec()
    }
}


/// The line with the given number.
pub open spec fn line_numbered(number: int) -> Line {
    choose|line: Line| line@ == number
}

/// The unit with the given number.
pub open spec fn unit_numbered(number: int) -> Unit {
    choose|unit: Unit| unit@ == number
}

impl From<Row> for Line {
    fn from(value: Row) -> (r: Line) {
        let r = Line::from_row(value);
        proof {
            let chosen = line_numbered(value@);
            assert(chosen@ == r@);
            r.lemma_view_injective(chosen);
        }
        r
    }
}

impl FromSpecImpl<Row> for Line {
    open spec fn obeys_from_spec() -> bool {
        true
    }

    open spec fn from_spec(value: Row) -> Line {
        line_numbered(value@)
    }
}

impl From<Col> for Line {
    fn from(value: Col) -> (r: Line) {
        let r = Line::from_col(value);
        proof {
            let chosen = line_numbered(value@ + 9);
            assert(chosen@ == r@);
            r.lemma_view_injective(chosen);
        }
        r
    }
}

impl FromSpecImpl<Col> for Line {
    open spec fn obeys_from_spec() -> bool {
        true
    }

    open spec fn from_spec(value: Col) -> Line {
        line_numbered(value@ + 9)
    }
}

impl From<Row> for Unit {
    fn from(value: Row) -> (r: Unit) {
        let r = Unit::from_row(value);
        proof {
            let chosen = unit_numbered(value@);
            assert(chosen@ == r@);
            r.lemma_view_injective(chosen);
        }
        r
    }
}

impl FromSpecImpl<Row> for Unit {
    open spec fn obeys_from_spec() -> bool {
        true
    }

    open spec fn from_spec(value: Row) -> Unit {
        unit_numbered(value@)
    }
}

impl From<Col> for Unit {
    fn from(value: Col) -> (r: Unit) {
        let r = Unit::from_col(value);
        proof {
            let chosen = unit_numbered(value@ + 9);
            assert(chosen@ == r@);
            r.lemma_view_injective(chosen);
        }
        r
    }
}

impl FromSpecImpl<Col> for Unit {
    open spec fn obeys_from_spec() -> bool {
        true
    }

    open spec fn from_spec(value: Col) -> Unit {
        unit_numbered(value@ + 9)
    }
}

impl From<Line> for Unit {
    fn from(value: Line) -> (r: Unit) {
        let r = Unit::from_line(value);
        proof {
            let chosen = unit_numbered(value@);
            assert(chosen@ == r@);
            r.lemma_view_injective(chosen);
        }
        r
    }
}

impl FromSpecImpl<Line> for Unit {
    open spec fn obeys_from_spec() -> bool {
        true
    }

    open spec fn from_spec(value: Line) -> Unit {
        unit_numbered(value@)
    }
}

impl From<Block> for Unit {
    fn from(value: Block) -> (r: Unit) {
        let r = Unit::from_block(value);
        proof {
            let chosen = unit_numbered(value@ + 18);
            assert(chosen@ == r@);
            r.lemma_view_injective(chosen);
        }
        r
    }
}

impl FromSpecImpl<Block> for Unit {
    open spec fn obeys_from_spec() -> bool {
        true
    }

    open spec fn from_spec(value: Block) -> Unit {
        unit_numbered(value@ + 18)
    }
}

} // verus!
