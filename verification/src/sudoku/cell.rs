use crate::bitset::{numbers_below, BitSet};
use crate::sudoku::pos::digit::Digit;
use vstd::prelude::*;

verus! {

/// What a cell holds: a digit, with whether it was given, or the digits still possible.
#[derive(Copy, Eq, PartialEq, Debug)]
pub enum CellContent {
    Digit(Digit, bool),
    Notes(BitSet<Digit>),
}

impl Clone for CellContent {
    fn clone(&self) -> (r: Self)
        ensures
            r == *self,
    {
        *self
    }
}

impl Default for CellContent {
    /// A cell in which every digit is still possible.
    fn default() -> (r: CellContent)
        ensures
            r.spec_digit() == None::<int>,
            r.spec_notes() == numbers_below(9),
    {
        CellContent::Notes(BitSet::full())
    }
}

impl CellContent {
    /// The number of the digit of the cell, if it has one.
    pub open spec fn spec_digit(self) -> Option<int> {
        match self {
            CellContent::Digit(digit, _) => Some(digit@),
            CellContent::Notes(_) => None,
        }
    }

    /// Whether the cell has a digit that was given.
    pub open spec fn spec_given(self) -> bool {
        match self {
            CellContent::Digit(_, given) => given,
            CellContent::Notes(_) => false,
        }
    }

    /// The numbers of the notes of the cell; a cell with a digit has none.
    pub open spec fn spec_notes(self) -> Set<int> {
        match self {
            CellContent::Digit(_, _) => Set::empty(),
            CellContent::Notes(notes) => notes@,
        }
    }

    /// A cell with a digit that was given.
    pub fn new_given(digit: Digit) -> (r: CellContent)
        ensures
            r == CellContent::Digit(digit, true),
    {
        CellContent::Digit(digit, true)
    }

    /// A cell with a digit that was found.
    pub fn new_digit(digit: Digit) -> (r: CellContent)
        ensures
            r == CellContent::Digit(digit, false),
    {
        CellContent::Digit(digit, false)
    }

    /// Whether the cell has a digit.
    pub fn is_digit(&self) -> (r: bool)
        ensures
            r == self.spec_digit() is Some,
    {
        match self {
            CellContent::Digit(_, _) => true,
            CellContent::Notes(_) => false,
        }
    }

    /// Whether the cell has a digit that was given.
    pub fn is_given(&self) -> (r: bool)
        ensures
            r == self.spec_given(),
    {
        match self {
            CellContent::Digit(_, given) => *given,
            CellContent::Notes(_) => false,
        }
    }

    /// Whether the cell has notes.
    pub fn is_notes(&self) -> (r: bool)
        ensures
            r == self.spec_digit() is None,
    {
        match self {
            CellContent::Digit(_, _) => false,
            CellContent::Notes(_) => true,
        }
    }

    /// Whether the cell has the given digit.
    pub fn has_digit(&self, digit: Digit) -> (r: bool)
        ensures
            r == (self.spec_digit() == Some(digit@)),
    {
        match self {
            CellContent::Digit(d, _) => d.as_index() == digit.as_index(),
            CellContent::Notes(_) => false,
        }
    }

    /// The digit of the cell, if it has one.
    pub fn get_digit(&self) -> (r: Option<Digit>)
        ensures
            r is Some <==> self.spec_digit() is Some,
            r is Some ==> self.spec_digit() == Some(r.unwrap()@),
    {
        match self {
            CellContent::Digit(d, _) => Some(*d),
            CellContent::Notes(_) => None,
        }
    }

    /// Whether the cell has the given digit as a note.
    pub fn has_note(&self, digit: Digit) -> (r: bool)
        ensures
            r == self.spec_notes().contains(digit@),
    {
        match self {
            CellContent::Notes(notes) => notes.contains(digit),
            CellContent::Digit(_, _) => false,
        }
    }

    /// The notes of the cell, if it has no digit.
    pub fn get_notes(&self) -> (r: Option<&BitSet<Digit>>)
        ensures
            r is Some <==> self.spec_digit() is None,
            r is Some ==> r.unwrap()@ == self.spec_notes(),
    {
        match self {
            CellContent::Notes(notes) => Some(notes),
            CellContent::Digit(_, _) => None,
        }
    }
}

} // verus!
