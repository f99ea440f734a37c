use crate::bitset::{lemma_view_injective, numbers_below, BitSet, Element};
use std::cmp::Ordering;
use std::ops::{BitAnd, BitOr, Not, Sub};
use vstd::prelude::*;
use vstd::std_specs::cmp::{PartialEqSpecImpl, PartialOrdSpecImpl};
use vstd::std_specs::ops::{BitAndSpecImpl, BitOrSpecImpl, NotSpecImpl, SubSpecImpl};

verus! {

/// The set with the given members.
pub open spec fn set_of<E: Element>(members: Set<int>) -> BitSet<E> {
    choose|r: BitSet<E>| r@ == members
}

/// The set with the members of a set is that set.
pub proof fn lemma_set_of<E: Element>(set: BitSet<E>)
    ensures
        set_of::<E>(set@) == set,
{
    let chosen = set_of::<E>(set@);
    assert(chosen@ == set@);
    lemma_view_injective(chosen, set);
}

impl<E: Element> BitOr for BitSet<E> {
    type Output = Self;

    /// `a | b` is the union of `a` and `b`.
    fn bitor(self, rhs: Self) -> (ret: Self) {
        let ret = self.union(rhs);
        proof {
            lemma_set_of(ret);
        }
        ret
    }
}

impl<E: Element> BitOrSpecImpl for BitSet<E> {
    open spec fn obeys_bitor_spec() -> bool {
        true
    }

    open spec fn bitor_req(self, rhs: Self) -> bool {
        true
    }

    open spec fn bitor_spec(self, rhs: Self) -> Self {
        set_of(self@.union(rhs@))
    }
}

impl<E: Element> BitAnd for BitSet<E> {
    type Output = Self;

    /// `a & b` is the intersection of `a` and `b`.
    fn bitand(self, rhs: Self) -> (ret: Self) {
        let ret = self.intersection(rhs);
        proof {
            lemma_set_of(ret);
        }
        ret
    }
}

impl<E: Element> BitAndSpecImpl for BitSet<E> {
    open spec fn obeys_bitand_spec() -> bool {
        true
    }

    open spec fn bitand_req(self, rhs: Self) -> bool {
        true
    }

    open spec fn bitand_spec(self, rhs: Self) -> Self {
        set_of(self@.intersect(rhs@))
    }
}

impl<E: Element> Sub for BitSet<E> {
    type Output = Self;

    /// `a - b` holds the members of `a` that are no members of `b`.
    fn sub(self, rhs: Self) -> (ret: Self) {
        let ret = self.difference(rhs);
        proof {
            lemma_set_of(ret);
        }
        ret
    }
}

impl<E: Element> SubSpecImpl for BitSet<E> {
    open spec fn obeys_sub_spec() -> bool {
        true
    }

    open spec fn sub_req(self, rhs: Self) -> bool {
        true
    }

    open spec fn sub_spec(self, rhs: Self) -> Self {
        set_of(self@.difference(rhs@))
    }
}

impl<E: Element> Not for BitSet<E> {
    type Output = Self;

    /// `!a` holds the values of the element type that are no members of `a`.
    fn not(self) -> (ret: Self) {
        let ret = self.complement();
        proof {
            lemma_set_of(ret);
        }
        ret
    }
}

impl<E: Element> NotSpecImpl for BitSet<E> {
    open spec fn obeys_not_spec() -> bool {
        true
    }

    open spec fn not_req(self) -> bool {
        true
    }

    open spec fn not_spec(self) -> Self {
        set_of(numbers_below(E::spec_max()).difference(self@))
    }
}

impl<E: Element> PartialEq for BitSet<E> {
    /// Sets are equal where they have the same members.
    fn eq(&self, other: &Self) -> (r: bool) {
        let r = self.is_subset(other) && other.is_subset(self);
        proof {
            if r {
                assert(self@ =~= other@);
            }
        }
        r
    }
}

impl<E: Element> Eq for BitSet<E> {

}

impl<E: Element> PartialEqSpecImpl for BitSet<E> {
    open spec fn obeys_eq_spec() -> bool {
        true
    }

    open spec fn eq_spec(&self, other: &Self) -> bool {
        self@ == other@
    }
}

impl<E: Element> PartialOrd for BitSet<E> {
    /// Sets are ordered by inclusion: a set is less than a set that holds it and more.
    fn partial_cmp(&self, other: &Self) -> (r: Option<Ordering>) {
        if self.is_subset(other) {
            if other.is_subset(self) {
                proof {
                    assert(self@ =~= other@);
                }
                Some(Ordering::Equal)
            } else {
                Some(Ordering::Less)
            }
        } else if self.is_superset(other) {
            Some(Ordering::Greater)
        } else {
            None
        }
    }
}

impl<E: Element> PartialOrdSpecImpl for BitSet<E> {
    open spec fn obeys_partial_cmp_spec() -> bool {
        true
    }

    open spec fn partial_cmp_spec(&self, other: &Self) -> Option<Ordering> {
        if self@ == other@ {
            Some(Ordering::Equal)
        } else if self@.subset_of(other@) {
            Some(Ordering::Less)
        } else if other@.subset_of(self@) {
            Some(Ordering::Greater)
        } else {
            None
        }
    }
}

} // verus!
