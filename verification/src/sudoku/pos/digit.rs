use crate::bits::BitsRepr;
use crate::bitset::Element;
use vstd::prelude::*;

verus! {

/// A digit of the puzzle: one of 9, numbered from zero.
#[derive(Clone, Copy, Debug, PartialEq, Eq, Hash, Structural)]
pub struct Digit(u8);

impl View for Digit {
    type V = int;

    /// The number of the value.
    closed spec fn view(&self) -> int {
        self.0 as int
    }
}

impl Digit {
    /// The number lies below 9.
    #[verifier::type_invariant]
    pub open spec fn wf(self) -> bool {
        0 <= self@ < 9
    }

    /// Values with the same number are the same value.
    pub proof fn lemma_view_injective(self, other: Self)
        requires
            self@ == other@,
        ensures
            self == other,
    {
    }

    /// The value numbered `value`, which the caller knows to lie below 9.
    pub fn new_unchecked(value: u8) -> (r: Self)
        requires
            value < 9,
        ensures
            r@ == value,
    {
        Digit(value)
    }

    /// The value numbered `value`, if there is one.
    pub fn new(value: u8) -> (r: Option<Self>)
        ensures
            r is Some <==> value < 9,
            r is Some ==> r.unwrap()@ == value,
    {
        if value < 9 {
            Some(Digit(value))
        } else {
            None
        }
    }

    /// All digits, in ascending order.
    pub fn list() -> (r: Vec<Self>)
        ensures
            r@.len() == 9,
            forall|i: int| 0 <= i < 9 ==> (#[trigger] r@[i])@ == i,
    {
        let mut out: Vec<Self> = Vec::new();
        let mut i: u8 = 0;
        while i < 9
            invariant
                i <= 9,
                out@.len() == i,
                forall|j: int| 0 <= j < i ==> (#[trigger] out@[j])@ == j,
            decreases 9 - i,
        {
            out.push(Digit(i));
            i += 1;
        }
        out
    }

    /// The number of the value.
    pub fn as_index(self) -> (r: usize)
        ensures
            r == self@,
            r < 9,
    {
        proof {
            use_type_invariant(&self);
        }
        self.0 as usize
    }

    /// The value numbered `index`, which the caller knows to lie below 9.
    pub fn from_index_unchecked(index: usize) -> (r: Self)
        requires
            index < 9,
        ensures
            r@ == index,
    {
        Digit(index as u8)
    }

    /// The value numbered `index`, if there is one.
    pub fn from_index_checked(index: usize) -> (r: Option<Self>)
        ensures
            r is Some <==> index < 9,
            r is Some ==> r.unwrap()@ == index,
    {
        if index < 9 {
            Some(Digit(index as u8))
        } else {
            None
        }
    }
}

impl Element for Digit {
    type Repr = u64;

    open spec fn spec_max() -> nat {
        9
    }

    open spec fn spec_index(self) -> int {
        self@
    }

    proof fn lemma_capacity() {
        assert(<u64 as BitsRepr>::spec_size() == 64);
    }

    proof fn lemma_index_injective(self, other: Self) {
        self.lemma_view_injective(other);
    }

    fn max() -> (r: usize) {
        9
    }

    fn index(self) -> (r: usize) {
        self.as_index()
    }

    fn from_index(index: usize) -> (r: Self) {
        Self::from_index_unchecked(index)
    }
}

impl Digit {
    /// The value numbered `value`, if there is one.
    pub fn new_checked(value: u8) -> (r: Option<Self>)
        ensures
            r is Some <==> value < 9,
            r is Some ==> r.unwrap()@ == value,
    {
        Self::new(value)
    }
}

} // verus!
