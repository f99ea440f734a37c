use crate::bitset::{ascending, indices};
use crate::sudoku::pos::digit::Digit;
use vstd::prelude::*;

verus! {

/// Whether bit `i` of the mask `m` is a one.
pub open spec fn mask_bit(m: u16, i: u16) -> bool {
    (m >> i) & 1 == 1
}

/// The positions, all below 16, at which the mask `m` holds a one.
pub open spec fn mask_ones(m: u16) -> Set<int> {
    Set::new(|i: int| 0 <= i < 16 && mask_bit(m, i as u16))
}

proof fn lemma_mask_zero(i: u16)
    by (bit_vector)
    requires
        i < 16,
    ensures
        !mask_bit(0u16, i),
{
}

proof fn lemma_mask_single(j: u16, i: u16)
    by (bit_vector)
    requires
        i < 16,
        j < 16,
    ensures
        mask_bit(1u16 << j, i) == (i == j),
{
}

proof fn lemma_mask_nine(i: u16)
    by (bit_vector)
    requires
        i < 16,
    ensures
        mask_bit(0x1ffu16, i) == (i < 9),
{
}

proof fn lemma_mask_ops(a: u16, b: u16, i: u16)
    by (bit_vector)
    requires
        i < 16,
    ensures
        mask_bit(a & b, i) == (mask_bit(a, i) && mask_bit(b, i)),
        mask_bit(a | b, i) == (mask_bit(a, i) || mask_bit(b, i)),
        mask_bit(a ^ b, i) == (mask_bit(a, i) != mask_bit(b, i)),
        (a ^ b == 0) == (a == b),
{
}

/// A mask without ones is zero.
proof fn lemma_mask_empty(m: u16)
    ensures
        (m == 0) == (mask_ones(m) == Set::<int>::empty()),
{
    if m == 0 {
        assert forall|i: int| !mask_ones(m).contains(i) by {
            if 0 <= i < 16 {
                lemma_mask_zero(i as u16);
            }
        }
        assert(mask_ones(m) =~= Set::<int>::empty());
    } else {
        vstd::std_specs::bits::axiom_u16_trailing_zeros(m);
        let t = vstd::std_specs::bits::u16_trailing_zeros(m);
        assert(mask_bit(m, t as u16));
        assert(mask_ones(m).contains(t as int));
    }
}

/// A value that has a place in a mask of sixteen bits.
pub trait Element: Copy + Sized {
    /// The place of the value in a mask.
    spec fn spec_place(self) -> int;

    /// How many values there are: they have the places below that number.
    spec fn spec_places() -> int;

    /// The mask without ones.
    fn empty_repr() -> (r: u16)
        ensures
            mask_ones(r) == Set::<int>::empty(),
    ;

    /// The mask with a one at the place of every value.
    fn full_repr() -> (r: u16)
        ensures
            mask_ones(r) == Set::new(|i: int| 0 <= i < Self::spec_places()),
    ;

    /// The mask with a one at the place of the value alone.
    fn into_set_repr(self) -> (r: u16)
        ensures
            mask_ones(r) == Set::<int>::empty().insert(self.spec_place()),
    ;
}

impl Element for Digit {
    open spec fn spec_place(self) -> int {
        self@
    }

    open spec fn spec_places() -> int {
        9
    }

    fn empty_repr() -> (r: u16) {
        proof {
            lemma_mask_empty(0u16);
        }
        0
    }

    fn full_repr() -> (r: u16) {
        proof {
            assert forall|i: int| mask_ones(0x1ffu16).contains(i) == (0 <= i < 9) by {
                if 0 <= i < 16 {
                    lemma_mask_nine(i as u16);
                }
            }
            assert(mask_ones(0x1ffu16) =~= Set::new(|i: int| 0 <= i < 9));
        }
        0x1ff
    }

    fn into_set_repr(self) -> (r: u16) {
        let place = self.as_index() as u16;
        let r = 1u16 << place;
        proof {
            assert forall|i: int|
                mask_ones(r).contains(i) == Set::<int>::empty().insert(self@).contains(i) by {
                if 0 <= i < 16 {
                    lemma_mask_single(place, i as u16);
                }
            }
            assert(mask_ones(r) =~= Set::<int>::empty().insert(self@));
        }
        r
    }
}

/// A set of values, held as a mask of sixteen bits.
#[derive(Copy, Debug)]
pub struct MaskSet<E: Element> {
    data: u16,
    element: core::marker::PhantomData<E>,
}

impl<E: Element> Clone for MaskSet<E> {
    fn clone(&self) -> (r: Self)
        ensures
            r == *self,
    {
        *self
    }
}

impl<E: Element> View for MaskSet<E> {
    type V = Set<int>;

    /// The places of the members.
    closed spec fn view(&self) -> Set<int> {
        mask_ones(self.data)
    }
}

impl<E: Element> MaskSet<E> {
    /// The set without members.
    pub fn empty() -> (r: Self)
        ensures
            r@ == Set::<int>::empty(),
    {
        Self::from_bits(E::empty_repr())
    }

    /// The set of all values.
    pub fn full() -> (r: Self)
        ensures
            r@ == Set::new(|i: int| 0 <= i < E::spec_places()),
    {
        Self::from_bits(E::full_repr())
    }

    /// The set that holds `element` alone.
    pub fn singleton(element: E) -> (r: Self)
        ensures
            r@ == Set::<int>::empty().insert(element.spec_place()),
    {
        Self::from_bits(element.into_set_repr())
    }

    /// The set whose members have the places of the ones of `bits`.
    pub fn from_bits(bits: u16) -> (r: Self)
        ensures
            r@ == mask_ones(bits),
    {
        MaskSet { data: bits, element: core::marker::PhantomData }
    }

    /// Whether the set has no member.
    pub fn is_empty(&self) -> (r: bool)
        ensures
            r == (self@ == Set::<int>::empty()),
    {
        proof {
            lemma_mask_empty(self.data);
        }
        self.data == 0
    }

    /// Whether the set has a member.
    pub fn is_nonempty(&self) -> (r: bool)
        ensures
            r == (self@ != Set::<int>::empty()),
    {
        !self.is_empty()
    }

    /// Whether `element` is a member.
    pub fn contains(&self, element: E) -> (r: bool)
        ensures
            r == self@.contains(element.spec_place()),
    {
        let one = Self::singleton(element);
        let common = self.bitand(one);
        proof {
            let p = element.spec_place();
            assert(one@.contains(p));
            if self@.contains(p) {
                assert(common@.contains(p));
            } else {
                assert(common@ =~= Set::<int>::empty());
            }
        }
        common.is_nonempty()
    }

    /// The members of both sets.
    pub fn bitand(self, rhs: Self) -> (r: Self)
        ensures
            r@ == self@.intersect(rhs@),
    {
        let r = Self::from_bits(self.data & rhs.data);
        proof {
            assert forall|i: int| r@.contains(i) == self@.intersect(rhs@).contains(i) by {
                if 0 <= i < 16 {
                    lemma_mask_ops(self.data, rhs.data, i as u16);
                }
            }
            assert(r@ =~= self@.intersect(rhs@));
        }
        r
    }

    /// The members of either set.
    pub fn bitor(self, rhs: Self) -> (r: Self)
        ensures
            r@ == self@.union(rhs@),
    {
        let r = Self::from_bits(self.data | rhs.data);
        proof {
            assert forall|i: int| r@.contains(i) == self@.union(rhs@).contains(i) by {
                if 0 <= i < 16 {
                    lemma_mask_ops(self.data, rhs.data, i as u16);
                }
            }
            assert(r@ =~= self@.union(rhs@));
        }
        r
    }

    /// The members of exactly one of the two sets.
    pub fn bitxor(self, rhs: Self) -> (r: Self)
        ensures
            r@ == self@.difference(rhs@).union(rhs@.difference(self@)),
    {
        let r = Self::from_bits(self.data ^ rhs.data);
        proof {
            assert forall|i: int|
                r@.contains(i) == self@.difference(rhs@).union(rhs@.difference(self@)).contains(
                    i,
                ) by {
                if 0 <= i < 16 {
                    lemma_mask_ops(self.data, rhs.data, i as u16);
                }
            }
            assert(r@ =~= self@.difference(rhs@).union(rhs@.difference(self@)));
        }
        r
    }

    /// The values that are no members of the set, and the members that are no values.
    pub fn not(self) -> (r: Self)
        ensures
            r@ == self@.difference(Self::spec_full()).union(Self::spec_full().difference(self@)),
    {
        self.bitxor(Self::full())
    }

    /// The members of the set that `rhs.not()` holds too: where both sets hold values
    /// only, the members of the set that are no members of `rhs`.
    pub fn sub(self, rhs: Self) -> (r: Self)
        ensures
            r@ == self@.intersect(
                rhs@.difference(Self::spec_full()).union(Self::spec_full().difference(rhs@)),
            ),
            self@.subset_of(Self::spec_full()) && rhs@.subset_of(Self::spec_full()) ==> r@
                == self@.difference(rhs@),
    {
        let r = self.bitand(rhs.not());
        proof {
            if self@.subset_of(Self::spec_full()) && rhs@.subset_of(Self::spec_full()) {
                assert(r@ =~= self@.difference(rhs@));
            }
        }
        r
    }

    /// The places of all values.
    pub open spec fn spec_full() -> Set<int> {
        Set::new(|i: int| 0 <= i < E::spec_places())
    }
}


impl MaskSet<Digit> {
    /// The digits of the set, in ascending order.
    pub fn to_vec(&self) -> (r: Vec<Digit>)
        ensures
            indices(r@) == ascending(self@, 9),
    {
        let mut out: Vec<Digit> = Vec::new();
        let mut i: usize = 0;
        proof {
            assert(indices(out@) =~= ascending(self@, 0));
        }
        while i < 9
            invariant
                0 <= i <= 9,
                indices(out@) == ascending(self@, i as int),
            decreases 9 - i,
        {
            let digit = Digit::from_index_unchecked(i);
            let ghost before = indices(out@);
            if self.contains(digit) {
                out.push(digit);
                proof {
                    assert(indices(out@) =~= before.push(i as int));
                }
            }
            i += 1;
        }
        out
    }
}

} // verus!
