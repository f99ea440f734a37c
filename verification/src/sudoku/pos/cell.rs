use crate::bits::{BitsRepr, U64array};
use crate::bitset::{ascending, indices, BitSet, Element};
use crate::sudoku::pos::units::{
    cell_block, cell_col, cell_row, unit_cells, Block, Col, Row, Unit, UnitClass,
};
use vstd::prelude::*;

verus! {

/// A cell of the grid, row by row: one of 81, numbered from zero.
#[derive(Clone, Copy, Debug, PartialEq, Eq, Hash, Structural)]
pub struct Cell(u8);

impl View for Cell {
    type V = int;

    /// The number of the value.
    closed spec fn view(&self) -> int {
        self.0 as int
    }
}

impl Cell {
    /// The number lies below 81.
    #[verifier::type_invariant]
    pub open spec fn wf(self) -> bool {
        0 <= self@ < 81
    }

    /// Values with the same number are the same value.
    pub proof fn lemma_view_injective(self, other: Self)
        requires
            self@ == other@,
        ensures
            self == other,
    {
    }

    /// The value numbered `value`, which the caller knows to lie below 81.
    pub fn new_unchecked(value: u8) -> (r: Self)
        requires
            value < 81,
        ensures
            r@ == value,
    {
        Cell(value)
    }

    /// The value numbered `value`, if there is one.
    pub fn new(value: u8) -> (r: Option<Self>)
        ensures
            r is Some <==> value < 81,
            r is Some ==> r.unwrap()@ == value,
    {
        if value < 81 {
            Some(Cell(value))
        } else {
            None
        }
    }

    /// All cells, in ascending order.
    pub fn list() -> (r: Vec<Self>)
        ensures
            r@.len() == 81,
            forall|i: int| 0 <= i < 81 ==> (#[trigger] r@[i])@ == i,
    {
        let mut out: Vec<Self> = Vec::new();
        let mut i: u8 = 0;
        while i < 81
            invariant
                i <= 81,
                out@.len() == i,
                forall|j: int| 0 <= j < i ==> (#[trigger] out@[j])@ == j,
            decreases 81 - i,
        {
            out.push(Cell(i));
            i += 1;
        }
        out
    }

    /// The number of the value.
    pub fn as_index(self) -> (r: usize)
        ensures
            r == self@,
            r < 81,
    {
        proof {
            use_type_invariant(&self);
        }
        self.0 as usize
    }

    /// The value numbered `index`, which the caller knows to lie below 81.
    pub fn from_index_unchecked(index: usize) -> (r: Self)
        requires
            index < 81,
        ensures
            r@ == index,
    {
        Cell(index as u8)
    }

    /// The value numbered `index`, if there is one.
    pub fn from_index_checked(index: usize) -> (r: Option<Self>)
        ensures
            r is Some <==> index < 81,
            r is Some ==> r.unwrap()@ == index,
    {
        if index < 81 {
            Some(Cell(index as u8))
        } else {
            None
        }
    }
}

impl Element for Cell {
    type Repr = U64array<2>;

    open spec fn spec_max() -> nat {
        81
    }

    open spec fn spec_index(self) -> int {
        self@
    }

    proof fn lemma_capacity() {
        assert(<U64array<2> as BitsRepr>::spec_size() == 128);
    }

    proof fn lemma_index_injective(self, other: Self) {
        self.lemma_view_injective(other);
    }

    fn max() -> (r: usize) {
        81
    }

    fn index(self) -> (r: usize) {
        self.as_index()
    }

    fn from_index(index: usize) -> (r: Self) {
        Self::from_index_unchecked(index)
    }
}

/// Whether two cells are different and share a row, a column or a block.
pub open spec fn are_peers(a: int, b: int) -> bool {
    a != b && (cell_row(a) == cell_row(b) || cell_col(a) == cell_col(b) || cell_block(a)
        == cell_block(b))
}

/// The numbers of the cells that share a unit with the cell numbered `c`, without `c` itself.
pub open spec fn neighbors_of(c: int) -> Set<int> {
    Set::new(|x: int| 0 <= x < 81 && are_peers(c, x))
}

impl Cell {
    /// The cell in the given row and column.
    pub fn from_row_and_col(row: Row, col: Col) -> (r: Self)
        ensures
            r@ == row@ * 9 + col@,
            cell_row(r@) == row@,
            cell_col(r@) == col@,
    {
        Cell::from_index_unchecked(row.as_index() * 9 + col.as_index())
    }

    /// The row of the cell.
    pub fn row(self) -> (r: Row)
        ensures
            r@ == cell_row(self@),
    {
        Row::from_index_unchecked(self.as_index() / 9)
    }

    /// The column of the cell.
    pub fn col(self) -> (r: Col)
        ensures
            r@ == cell_col(self@),
    {
        Col::from_index_unchecked(self.as_index() % 9)
    }

    /// The block of the cell.
    pub fn block(self) -> (r: Block)
        ensures
            r@ == cell_block(self@),
    {
        Block::from_index_unchecked(
            (self.row().as_index() / 3) * 3 + (self.col().as_index() / 3),
        )
    }

    /// The row, the column and the block of the cell, as units.
    pub fn units(self) -> (r: [Unit; 3])
        ensures
            r@[0]@ == cell_row(self@),
            r@[1]@ == 9 + cell_col(self@),
            r@[2]@ == 18 + cell_block(self@),
    {
        [Unit::from_row(self.row()), Unit::from_col(self.col()), Unit::from_block(self.block())]
    }

    /// The set of the cells that share a unit with the cell, without the cell itself.
    pub fn neighbors(self) -> (r: BitSet<Cell>)
        ensures
            r@ == neighbors_of(self@),
            r@.len() == 20,
            !r@.contains(self@),
    {
        let in_block = self.block().cells_set();
        let in_row = self.row().cells_set();
        let in_col = self.col().cells_set();
        let mut set = in_block.union(in_row).union(in_col);
        set.remove(self);
        proof {
            use_type_invariant(&self);
            assert forall|x: int| set@.contains(x) == neighbors_of(self@).contains(x) by {
                if 0 <= x < 81 {
                    assert(unit_cells(cell_row(self@)).contains(x) == (cell_row(x) == cell_row(
                        self@,
                    )));
                    assert(unit_cells(9 + cell_col(self@)).contains(x) == (cell_col(x) == cell_col(
                        self@,
                    )));
                    assert(unit_cells(18 + cell_block(self@)).contains(x) == (cell_block(x)
                        == cell_block(self@)));
                }
            }
            assert(set@ =~= neighbors_of(self@));
            law_twenty_neighbors(self@);
        }
        set
    }

    /// The cells that share a unit with the cell, without the cell itself, in ascending order.
    pub fn iter_neighbors(self) -> (r: Vec<Cell>)
        ensures
            indices(r@) == ascending(neighbors_of(self@), 81),
            r@.len() == 20,
    {
        self.neighbors().to_vec()
    }
}


/// The cell of a row and a column lies in that row and in that column.
pub proof fn law_cell_round_trip(row: int, col: int)
    requires
        0 <= row < 9,
        0 <= col < 9,
    ensures
        0 <= row * 9 + col < 81,
        cell_row(row * 9 + col) == row,
        cell_col(row * 9 + col) == col,
{
}

/// The block of a cell is the block of three rows and three columns that holds it: the
/// blocks are numbered row by row.
pub proof fn law_cell_block(c: int)
    requires
        0 <= c < 81,
    ensures
        0 <= cell_block(c) < 9,
        cell_block(c) / 3 == cell_row(c) / 3,
        cell_block(c) % 3 == cell_col(c) / 3,
{
}


/// A number from 0 to 2 that is not `skip`, by its place among the two of them.
spec fn skipping(place: int, skip: int) -> int {
    if place < skip {
        place
    } else {
        place + 1
    }
}

/// The place of a number among those that are not `skip`.
spec fn place_skipping(x: int, skip: int) -> int {
    if x < skip {
        x
    } else {
        x - 1
    }
}

/// The neighbours of the cell numbered `c`, numbered from 0 to 19: the other cells of its
/// row, then the other cells of its column, then the cells of its block that lie in
/// another row and another column.
spec fn nth_neighbor(c: int, j: int) -> int {
    let r = cell_row(c);
    let k = cell_col(c);
    if j < 8 {
        9 * r + skipping(j, k)
    } else if j < 16 {
        9 * skipping(j - 8, r) + k
    } else {
        9 * ((r / 3) * 3 + skipping((j - 16) / 2, r % 3)) + (k / 3) * 3 + skipping(
            (j - 16) % 2,
            k % 3,
        )
    }
}

/// The number, from 0 to 19, of the neighbour `x` of the cell numbered `c`.
spec fn neighbor_place(c: int, x: int) -> int {
    let r = cell_row(c);
    let k = cell_col(c);
    if cell_row(x) == r {
        place_skipping(cell_col(x), k)
    } else if cell_col(x) == k {
        8 + place_skipping(cell_row(x), r)
    } else {
        16 + 2 * place_skipping(cell_row(x) % 3, r % 3) + place_skipping(cell_col(x) % 3, k % 3)
    }
}

/// Every cell has exactly twenty neighbours, and is none of them.
pub proof fn law_twenty_neighbors(c: int)
    requires
        0 <= c < 81,
    ensures
        neighbors_of(c).finite(),
        neighbors_of(c).len() == 20,
        !neighbors_of(c).contains(c),
{
    let places = vstd::set_lib::set_int_range(0, 20);
    let f = |j: int| nth_neighbor(c, j);
    vstd::set_lib::lemma_int_range(0, 20);
    assert forall|j: int| 0 <= j < 20 implies neighbors_of(c).contains(
        #[trigger] nth_neighbor(c, j),
    ) && neighbor_place(c, nth_neighbor(c, j)) == j by {
        lemma_nth_neighbor(c, j);
    }
    assert forall|x: int| neighbors_of(c).contains(x) implies 0 <= #[trigger] neighbor_place(c, x)
        < 20 && nth_neighbor(c, neighbor_place(c, x)) == x by {
        lemma_neighbor_place(c, x);
    }
    assert forall|x: int| neighbors_of(c).contains(x) == places.map(f).contains(x) by {
        if neighbors_of(c).contains(x) {
            let j = neighbor_place(c, x);
            assert(places.contains(j) && f(j) == x);
        }
        if places.map(f).contains(x) {
            let j = choose|j: int| places.contains(j) && x == f(j);
            assert(neighbors_of(c).contains(nth_neighbor(c, j)));
        }
    }
    assert(places.map(f) =~= neighbors_of(c));
    assert(vstd::relations::injective_on(f, places)) by {
        assert forall|a: int, b: int|
            places.contains(a) && places.contains(b) && #[trigger] f(a) == #[trigger] f(
                b,
            ) implies a == b by {
            assert(neighbor_place(c, nth_neighbor(c, a)) == a);
            assert(neighbor_place(c, nth_neighbor(c, b)) == b);
        }
    }
    vstd::set_lib::lemma_map_size(places, neighbors_of(c), f);
}

/// The neighbour at a place is a neighbour, and has that place.
proof fn lemma_nth_neighbor(c: int, j: int)
    requires
        0 <= c < 81,
        0 <= j < 20,
    ensures
        neighbors_of(c).contains(nth_neighbor(c, j)),
        neighbor_place(c, nth_neighbor(c, j)) == j,
{
    let r = cell_row(c);
    let k = cell_col(c);
    let x = nth_neighbor(c, j);
    if j < 8 {
        assert(cell_row(x) == r && cell_col(x) == skipping(j, k));
    } else if j < 16 {
        assert(cell_row(x) == skipping(j - 8, r) && cell_col(x) == k);
    } else {
        let a = skipping((j - 16) / 2, r % 3);
        let b = skipping((j - 16) % 2, k % 3);
        assert(0 <= a < 3 && 0 <= b < 3);
        assert(cell_row(x) == (r / 3) * 3 + a && cell_col(x) == (k / 3) * 3 + b);
        assert(cell_row(x) % 3 == a && cell_col(x) % 3 == b);
        assert(cell_row(x) / 3 == r / 3 && cell_col(x) / 3 == k / 3);
    }
}

/// A neighbour has a place, and is the neighbour at that place.
proof fn lemma_neighbor_place(c: int, x: int)
    requires
        0 <= c < 81,
        neighbors_of(c).contains(x),
    ensures
        0 <= neighbor_place(c, x) < 20,
        nth_neighbor(c, neighbor_place(c, x)) == x,
{
    let r = cell_row(c);
    let k = cell_col(c);
    let xr = cell_row(x);
    let xk = cell_col(x);
    assert(x == 9 * xr + xk);
    if xr == r {
    } else if xk == k {
    } else {
        assert(cell_block(x) == cell_block(c));
        assert(xr / 3 == r / 3 && xk / 3 == k / 3);
        let a = place_skipping(xr % 3, r % 3);
        let b = place_skipping(xk % 3, k % 3);
        assert(0 <= a < 2 && 0 <= b < 2);
        assert((2 * a + b) / 2 == a && (2 * a + b) % 2 == b);
        assert(skipping(a, r % 3) == xr % 3);
        assert(skipping(b, k % 3) == xk % 3);
        assert(xr == (r / 3) * 3 + xr % 3);
        assert(xk == (k / 3) * 3 + xk % 3);
    }
}

} // verus!
