use crate::bits::{BitsRepr, U64array};
use crate::bitset::Element;
use crate::sudoku::pos::cell::Cell;
use crate::sudoku::pos::digit::Digit;
use vstd::prelude::*;
use vstd::std_specs::convert::FromSpecImpl;

verus! {

/// A digit in a cell: nine times the number of the cell, plus the number of the digit: one of 729, numbered from zero.
#[derive(Clone, Copy, Debug, PartialEq, Eq, Hash, Structural)]
pub struct Candidate(u16);

impl View for Candidate {
    type V = int;

    /// The number of the value.
    closed spec fn view(&self) -> int {
        self.0 as int
    }
}

impl Candidate {
    /// The number lies below 729.
    #[verifier::type_invariant]
    pub open spec fn wf(self) -> bool {
        0 <= self@ < 729
    }

    /// Values with the same number are the same value.
    pub proof fn lemma_view_injective(self, other: Self)
        requires
            self@ == other@,
        ensures
            self == other,
    {
    }

    /// The value numbered `value`, which the caller knows to lie below 729.
    pub fn new_unchecked(value: u16) -> (r: Self)
        requires
            value < 729,
        ensures
            r@ == value,
    {
        Candidate(value)
    }

    /// The value numbered `value`, if there is one.
    pub fn new(value: u16) -> (r: Option<Self>)
        ensures
            r is Some <==> value < 729,
            r is Some ==> r.unwrap()@ == value,
    {
        if value < 729 {
            Some(Candidate(value))
        } else {
            None
        }
    }

    /// All candidates, in ascending order.
    pub fn list() -> (r: Vec<Self>)
        ensures
            r@.len() == 729,
            forall|i: int| 0 <= i < 729 ==> (#[trigger] r@[i])@ == i,
    {
        let mut out: Vec<Self> = Vec::new();
        let mut i: u16 = 0;
        while i < 729
            invariant
                i <= 729,
                out@.len() == i,
                forall|j: int| 0 <= j < i ==> (#[trigger] out@[j])@ == j,
            decreases 729 - i,
        {
            out.push(Candidate(i));
            i += 1;
        }
        out
    }

    /// The number of the value.
    pub fn as_index(self) -> (r: usize)
        ensures
            r == self@,
            r < 729,
    {
        proof {
            use_type_invariant(&self);
        }
        self.0 as usize
    }

    /// The value numbered `index`, which the caller knows to lie below 729.
    pub fn from_index_unchecked(index: usize) -> (r: Self)
        requires
            index < 729,
        ensures
            r@ == index,
    {
        Candidate(index as u16)
    }

    /// The value numbered `index`, if there is one.
    pub fn from_index_checked(index: usize) -> (r: Option<Self>)
        ensures
            r is Some <==> index < 729,
            r is Some ==> r.unwrap()@ == index,
    {
        if index < 729 {
            Some(Candidate(index as u16))
        } else {
            None
        }
    }
}

impl Element for Candidate {
    type Repr = U64array<12>;

    open spec fn spec_max() -> nat {
        729
    }

    open spec fn spec_index(self) -> int {
        self@
    }

    proof fn lemma_capacity() {
        assert(<U64array<12> as BitsRepr>::spec_size() == 768);
    }

    proof fn lemma_index_injective(self, other: Self) {
        self.lemma_view_injective(other);
    }

    fn max() -> (r: usize) {
        729
    }

    fn index(self) -> (r: usize) {
        self.as_index()
    }

    fn from_index(index: usize) -> (r: Self) {
        Self::from_index_unchecked(index)
    }
}

/// The number of the candidate that stands for the digit numbered `digit` in the cell numbered `cell`.
pub open spec fn candidate_of(cell: int, digit: int) -> int {
    cell * 9 + digit
}

impl Candidate {
    /// The candidate that stands for `digit` in `cell`.
    pub fn from_cell_and_digit(cell: Cell, digit: Digit) -> (r: Self)
        ensures
            r@ == candidate_of(cell@, digit@),
            r@ / 9 == cell@,
            r@ % 9 == digit@,
    {
        Candidate::from_index_unchecked(cell.as_index() * 9 + digit.as_index())
    }

    /// The cell of the candidate.
    pub fn cell(self) -> (r: Cell)
        ensures
            r@ == self@ / 9,
    {
        Cell::from_index_unchecked(self.as_index() / 9)
    }

    /// The digit of the candidate.
    pub fn digit(self) -> (r: Digit)
        ensures
            r@ == self@ % 9,
    {
        Digit::from_index_unchecked(self.as_index() % 9)
    }

    /// The cell and the digit of the candidate.
    pub fn as_tuple(self) -> (r: (Cell, Digit))
        ensures
            r.0@ == self@ / 9,
            r.1@ == self@ % 9,
    {
        (self.cell(), self.digit())
    }
}


/// The candidate with the given number.
pub open spec fn candidate_numbered(number: int) -> Candidate {
    choose|candidate: Candidate| candidate@ == number
}

impl From<(Cell, Digit)> for Candidate {
    fn from(value: (Cell, Digit)) -> (r: Candidate) {
        let r = Candidate::from_cell_and_digit(value.0, value.1);
        proof {
            let chosen = candidate_numbered(candidate_of(value.0@, value.1@));
            assert(chosen@ == r@);
            r.lemma_view_injective(chosen);
        }
        r
    }
}

impl FromSpecImpl<(Cell, Digit)> for Candidate {
    open spec fn obeys_from_spec() -> bool {
        true
    }

    open spec fn from_spec(value: (Cell, Digit)) -> Candidate {
        candidate_numbered(candidate_of(value.0@, value.1@))
    }
}

} // verus!
