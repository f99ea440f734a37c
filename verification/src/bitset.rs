use crate::bits::BitsRepr;
use vstd::prelude::*;
use vstd::string::StringExecFns;

verus! {

/// A type whose values are numbered from zero up to, and without, a fixed maximum.
pub trait Element: Copy + Sized {
    /// The bits that back a set of such elements.
    type Repr: BitsRepr;

    /// The number of values of the type.
    spec fn spec_max() -> nat;

    /// The number of this value.
    spec fn spec_index(self) -> int;

    /// The backing bits have room for every value, and their size is a machine number.
    proof fn lemma_capacity()
        ensures
            Self::spec_max() <= Self::Repr::spec_size() <= usize::MAX,
    ;

    /// Values with the same number are the same value.
    proof fn lemma_index_injective(self, other: Self)
        requires
            self.spec_index() == other.spec_index(),
        ensures
            self == other,
    ;

    /// The number of values of the type.
    fn max() -> (r: usize)
        ensures
            r == Self::spec_max(),
    ;

    /// The number of this value.
    fn index(self) -> (r: usize)
        ensures
            r == self.spec_index(),
            0 <= self.spec_index() < Self::spec_max(),
    ;

    /// The value with the given number.
    fn from_index(index: usize) -> (r: Self)
        requires
            index < Self::spec_max(),
        ensures
            r.spec_index() == index,
    ;
}

/// A set of elements, held as one bit for each value of the element type.
///
/// The model of a set is the set of the numbers of its elements.
#[derive(Copy, Debug, Hash)]
pub struct BitSet<E: Element> {
    bits: E::Repr,
}

impl<E: Element> Clone for BitSet<E> {
    fn clone(&self) -> (r: Self)
        ensures
            r == *self,
    {
        *self
    }
}

/// The numbers from zero up to, and without, `max`.
pub open spec fn numbers_below(max: nat) -> Set<int> {
    Set::new(|i: int| 0 <= i < max)
}

impl<E: Element> View for BitSet<E> {
    type V = Set<int>;

    closed spec fn view(&self) -> Set<int> {
        self.bits.ones()
    }
}

impl<E: Element> BitSet<E> {
    /// Every member is the number of a value of the element type.
    #[verifier::type_invariant]
    pub open spec fn wf(self) -> bool {
        self@.subset_of(numbers_below(E::spec_max()))
    }

    /// A set has finitely many members.
    pub proof fn lemma_finite(self)
        ensures
            self@.finite(),
    {
        self.bits.lemma_ones_bounded();
    }

    /// A set of valid members has no more members than the element type has values.
    pub proof fn lemma_len_bounded(self)
        requires
            self.wf(),
        ensures
            self@.finite(),
            self@.len() <= E::spec_max(),
    {
        self.bits.lemma_ones_bounded();
        vstd::set_lib::lemma_int_range(0, E::spec_max() as int);
        assert(numbers_below(E::spec_max()) =~= vstd::set_lib::set_int_range(
            0,
            E::spec_max() as int,
        ));
        vstd::set_lib::lemma_len_subset(self@, numbers_below(E::spec_max()));
    }

    /// The set whose members are the positions of the ones of `bits`.
    pub fn with_bits(bits: E::Repr) -> (r: Self)
        requires
            bits.ones().subset_of(numbers_below(E::spec_max())),
        ensures
            r@ == bits.ones(),
    {
        BitSet { bits }
    }

    /// The empty set.
    pub fn new() -> (r: Self)
        ensures
            r@ == Set::<int>::empty(),
    {
        BitSet { bits: E::Repr::zero() }
    }

    /// The set of all values of the element type.
    pub fn full() -> (r: Self)
        ensures
            r@ == numbers_below(E::spec_max()),
    {
        proof {
            E::lemma_capacity();
        }
        let bits = E::Repr::n_ones(E::max());
        assert(bits.ones() =~= numbers_below(E::spec_max()));
        BitSet { bits }
    }

    /// The set that holds `element` alone.
    pub fn singleton(element: E) -> (r: Self)
        ensures
            r@ == Set::<int>::empty().insert(element.spec_index()),
    {
        proof {
            E::lemma_capacity();
        }
        BitSet { bits: E::Repr::single(element.index()) }
    }

    /// The number of members.
    pub fn len(&self) -> (r: usize)
        ensures
            r == self@.len(),
            r <= E::spec_max(),
    {
        proof {
            E::lemma_capacity();
            use_type_invariant(self);
            self.lemma_len_bounded();
        }
        self.bits.count_ones()
    }

    /// Whether the set has no member.
    pub fn is_empty(&self) -> (r: bool)
        ensures
            r == (self@ == Set::<int>::empty()),
    {
        self.bits.same_bits(E::Repr::zero())
    }

    /// Whether the set has a member.
    pub fn is_nonempty(&self) -> (r: bool)
        ensures
            r == (self@ != Set::<int>::empty()),
    {
        !self.bits.same_bits(E::Repr::zero())
    }

    /// Removes every member.
    pub fn clear(&mut self)
        ensures
            final(self)@ == Set::<int>::empty(),
    {
        self.bits = E::Repr::zero();
    }

    /// Whether `element` is a member.
    pub fn contains(&self, element: E) -> (r: bool)
        ensures
            r == self@.contains(element.spec_index()),
    {
        proof {
            E::lemma_capacity();
        }
        let probe = self.bits.bit_and(E::Repr::single(element.index()));
        let r = !probe.same_bits(E::Repr::zero());
        proof {
            let i = element.spec_index();
            if self@.contains(i) {
                assert(probe.ones().contains(i));
            } else {
                assert(probe.ones() =~= Set::<int>::empty());
            }
        }
        r
    }

    /// Whether every member of the set is a member of `other`.
    pub fn is_subset(&self, other: &Self) -> (r: bool)
        ensures
            r == self@.subset_of(other@),
    {
        let common = self.bits.bit_and(other.bits);
        let r = common.same_bits(self.bits);
        proof {
            if self@.subset_of(other@) {
                assert(common.ones() =~= self.bits.ones());
            }
            if r {
                assert forall|i: int| self@.contains(i) implies other@.contains(i) by {
                    assert(common.ones().contains(i));
                }
            }
        }
        r
    }

    /// Whether every member of `other` is a member of the set.
    pub fn is_superset(&self, other: &Self) -> (r: bool)
        ensures
            r == other@.subset_of(self@),
    {
        other.is_subset(self)
    }

    /// Adds `element` to the set.
    pub fn insert(&mut self, element: E)
        ensures
            final(self)@ == old(self)@.insert(element.spec_index()),
    {
        proof {
            E::lemma_capacity();
            use_type_invariant(&*self);
        }
        let bits = self.bits.bit_or(E::Repr::single(element.index()));
        proof {
            assert(bits.ones() =~= self@.insert(element.spec_index()));
        }
        self.bits = bits;
    }

    /// Takes `element` out of the set.
    pub fn remove(&mut self, element: E)
        ensures
            final(self)@ == old(self)@.remove(element.spec_index()),
    {
        proof {
            E::lemma_capacity();
            use_type_invariant(&*self);
        }
        let bits = self.bits.bit_and(E::Repr::single(element.index()).bit_not());
        proof {
            assert(bits.ones() =~= self@.remove(element.spec_index()));
        }
        self.bits = bits;
    }
}


impl<E: Element> BitSet<E> {
    /// The members of either set.
    pub fn union(self, other: Self) -> (r: Self)
        ensures
            r@ == self@.union(other@),
    {
        proof {
            use_type_invariant(&self);
            use_type_invariant(&other);
        }
        BitSet { bits: self.bits.bit_or(other.bits) }
    }

    /// The members of both sets.
    pub fn intersection(self, other: Self) -> (r: Self)
        ensures
            r@ == self@.intersect(other@),
    {
        proof {
            use_type_invariant(&self);
        }
        BitSet { bits: self.bits.bit_and(other.bits) }
    }

    /// The members of the set that are no members of `other`.
    pub fn difference(self, other: Self) -> (r: Self)
        ensures
            r@ == self@.difference(other@),
    {
        proof {
            use_type_invariant(&self);
        }
        let bits = self.bits.bit_and(other.bits.bit_not());
        proof {
            self.bits.lemma_ones_bounded();
            assert(bits.ones() =~= self@.difference(other@));
        }
        BitSet { bits }
    }

    /// The values of the element type that are no members of the set.
    pub fn complement(self) -> (r: Self)
        ensures
            r@ == numbers_below(E::spec_max()).difference(self@),
    {
        Self::full().difference(self)
    }

    /// The union of all the sets of a list.
    pub fn sum(sets: &Vec<Self>) -> (r: Self)
        ensures
            r@ == union_of(sets@.map_values(|s: Self| s@)),
    {
        let mut acc = Self::new();
        let mut k: usize = 0;
        let ghost views = sets@.map_values(|s: Self| s@);
        while k < sets.len()
            invariant
                0 <= k <= sets.len(),
                views == sets@.map_values(|s: Self| s@),
                acc@ == union_of(views.take(k as int)),
            decreases sets.len() - k,
        {
            acc = acc.union(sets[k]);
            proof {
                let before = views.take(k as int);
                let after = views.take(k as int + 1);
                assert forall|i: int| acc@.contains(i) == union_of(after).contains(i) by {
                    if union_of(before).contains(i) {
                        let j = choose|j: int| 0 <= j < before.len() && before[j].contains(i);
                        assert(after[j].contains(i));
                    }
                    if sets[k as int]@.contains(i) {
                        assert(after[k as int].contains(i));
                    }
                    if union_of(after).contains(i) {
                        let j = choose|j: int| 0 <= j < after.len() && after[j].contains(i);
                        if j < k {
                            assert(before[j].contains(i));
                        }
                    }
                }
                assert(acc@ =~= union_of(after));
            }
            k += 1;
        }
        proof {
            assert(views.take(k as int) =~= views);
        }
        acc
    }

    /// The set of the elements of a slice.
    pub fn from_slice(slice: &[E]) -> (r: Self)
        ensures
            r@ == indices(slice@).to_set(),
    {
        let mut set = Self::new();
        let mut k: usize = 0;
        while k < slice.len()
            invariant
                0 <= k <= slice.len(),
                set@ == indices(slice@).take(k as int).to_set(),
            decreases slice.len() - k,
        {
            set.insert(slice[k]);
            proof {
                let all = indices(slice@);
                assert(all.take(k as int + 1) =~= all.take(k as int).push(all[k as int]));
                vstd::seq_lib::seq_to_set_is_finite(all.take(k as int));
                assert(all.take(k as int).push(all[k as int]).to_set() =~= all.take(
                    k as int,
                ).to_set().insert(all[k as int])) by {
                    let t = all.take(k as int);
                    let x = all[k as int];
                    assert forall|i: int|
                        t.push(x).to_set().contains(i) == t.to_set().insert(x).contains(i) by {
                        if t.push(x).contains(i) {
                            let j = choose|j: int| 0 <= j < t.push(x).len() && t.push(x)[j] == i;
                            if j < t.len() {
                                assert(t[j] == i);
                            }
                        }
                        if t.contains(i) {
                            let j = choose|j: int| 0 <= j < t.len() && t[j] == i;
                            assert(t.push(x)[j] == i);
                        }
                        if i == x {
                            assert(t.push(x)[t.len() as int] == i);
                        }
                    }
                }
            }
            k += 1;
        }
        proof {
            assert(indices(slice@).take(k as int) =~= indices(slice@));
        }
        set
    }

    /// The set of the values that `f` gives for the members of the set.
    pub fn map<E2: Element, F: Fn(E) -> E2>(&self, f: F) -> (r: BitSet<E2>)
        requires
            forall|e: E| self@.contains(e.spec_index()) ==> #[trigger] f.requires((e,)),
        ensures
            forall|j: int|
                r@.contains(j) ==> exists|e: E, e2: E2|
                    self@.contains(e.spec_index()) && #[trigger] f.ensures((e,), e2)
                        && e2.spec_index() == j,
            forall|e: E|
                self@.contains(e.spec_index()) ==> exists|e2: E2|
                    #[trigger] f.ensures((e,), e2) && r@.contains(e2.spec_index()),
    {
        let mut out: BitSet<E2> = BitSet::new();
        let mut it = self.iter();
        loop
            invariant
                it@.subset_of(self@),
                forall|e: E| self@.contains(e.spec_index()) ==> #[trigger] f.requires((e,)),
                forall|j: int|
                    out@.contains(j) ==> exists|e: E, e2: E2|
                        self@.contains(e.spec_index()) && #[trigger] f.ensures((e,), e2)
                            && e2.spec_index() == j,
                forall|e: E|
                    self@.contains(e.spec_index()) && !it@.contains(e.spec_index())
                        ==> exists|e2: E2|
                        #[trigger] f.ensures((e,), e2) && out@.contains(e2.spec_index()),
            decreases it@.len(),
        {
            let ghost before = out@;
            let ghost left = it@;
            match it.next() {
                None => {
                    return out;
                },
                Some(e) => {
                    let e2 = f(e);
                    out.insert(e2);
                    proof {
                        assert(f.ensures((e,), e2));
                        assert forall|x: E|
                            self@.contains(x.spec_index()) && !it@.contains(
                                x.spec_index(),
                            ) implies exists|y: E2|
                            #[trigger] f.ensures((x,), y) && out@.contains(y.spec_index()) by {
                            if x.spec_index() == e.spec_index() {
                                x.lemma_index_injective(e);
                                assert(f.ensures((x,), e2) && out@.contains(e2.spec_index()));
                            } else {
                                assert(!left.contains(x.spec_index()));
                                let y = choose|y: E2|
                                    #[trigger] f.ensures((x,), y) && before.contains(
                                        y.spec_index(),
                                    );
                                assert(f.ensures((x,), y) && out@.contains(y.spec_index()));
                            }
                        }
                        assert forall|j: int| out@.contains(j) implies exists|x: E, y: E2|
                            self@.contains(x.spec_index()) && #[trigger] f.ensures((x,), y)
                                && y.spec_index() == j by {
                            if before.contains(j) {
                                let (x, y) = choose|x: E, y: E2|
                                    self@.contains(x.spec_index()) && #[trigger] f.ensures(
                                        (x,),
                                        y,
                                    ) && y.spec_index() == j;
                                assert(self@.contains(x.spec_index()) && f.ensures((x,), y)
                                    && y.spec_index() == j);
                            } else {
                                assert(self@.contains(e.spec_index()) && f.ensures((e,), e2)
                                    && e2.spec_index() == j);
                            }
                        }
                    }
                },
            }
        }
    }

    /// The set written in binary: one character for each value of the element type, the
    /// greatest value first, a `1` for a member and a `0` for any other value.
    pub fn to_binary_string(&self) -> (r: String)
        ensures
            r@ == binary_digits(self@, E::spec_max() as int),
    {
        let max = E::max();
        let mut out = String::from_str("");
        let mut k: usize = 0;
        proof {
            reveal_strlit("");
            assert(out@ =~= binary_digits(self@, max as int).take(0));
        }
        while k < max
            invariant
                0 <= k <= max,
                max == E::spec_max(),
                out@ == binary_digits(self@, max as int).take(k as int),
            decreases max - k,
        {
            let ghost before = out@;
            let element = E::from_index(max - 1 - k);
            proof {
                reveal_strlit("1");
                reveal_strlit("0");
            }
            if self.contains(element) {
                out.append("1");
            } else {
                out.append("0");
            }
            proof {
                let want = binary_digits(self@, max as int);
                assert(out@ =~= before.push(want[k as int]));
                assert(want.take(k as int + 1) =~= want.take(k as int).push(want[k as int]));
            }
            k += 1;
        }
        proof {
            assert(binary_digits(self@, max as int).take(max as int) =~= binary_digits(
                self@,
                max as int,
            ));
        }
        out
    }

    /// The members in ascending order, ready to be taken one by one.
    pub fn iter(&self) -> (r: Iter<E>)
        ensures
            r@ == self@,
    {
        proof {
            use_type_invariant(self);
        }
        Iter { bits: self.bits }
    }

    /// The members as a list in ascending order.
    pub fn to_vec(&self) -> (r: Vec<E>)
        ensures
            indices(r@) == ascending(self@, E::spec_max() as int),
            r@.len() == self@.len(),
            forall|k: int| 0 <= k < r@.len() ==> self@.contains((#[trigger] r@[k]).spec_index()),
            forall|i: int| self@.contains(i) ==> indices(r@).contains(i),
            forall|j: int, k: int|
                0 <= j < k < r@.len() ==> r@[j].spec_index() < r@[k].spec_index(),
    {
        let mut out: Vec<E> = Vec::new();
        let mut it = self.iter();
        let ghost bound = E::spec_max() as int;
        proof {
            assert(indices(out@) =~= Seq::<int>::empty());
            use_type_invariant(self);
            lemma_ascending_len(self@, bound);
        }
        loop
            invariant
                bound == E::spec_max(),
                ascending(self@, bound).len() == self@.len(),
                indices(out@) + ascending(it@, bound) == ascending(self@, bound),
            decreases it@.len(),
        {
            let ghost before = it@;
            let ghost done = indices(out@);
            proof {
                it.lemma_bounded();
            }
            match it.next() {
                None => {
                    proof {
                        lemma_ascending_empty(bound);
                        assert(indices(out@) + Seq::<int>::empty() =~= indices(out@));
                        assert(indices(out@).len() == out@.len());
                        lemma_ascending_members(self@, bound);
                        use_type_invariant(self);
                        assert forall|k: int| 0 <= k < out@.len() implies self@.contains(
                            (#[trigger] out@[k]).spec_index(),
                        ) by {
                            assert(indices(out@)[k] == out@[k].spec_index());
                        }
                        assert forall|j: int, k: int| 0 <= j < k < out@.len() implies out@[j].spec_index()
                            < out@[k].spec_index() by {
                            assert(indices(out@)[j] == out@[j].spec_index());
                            assert(indices(out@)[k] == out@[k].spec_index());
                        }
                    }
                    return out;
                },
                Some(e) => {
                    out.push(e);
                    proof {
                        let m = e.spec_index();
                        lemma_ascending_pop_min(before, m, bound);
                        assert(indices(out@) =~= done.push(m));
                        assert(done.push(m) + ascending(it@, bound) =~= done + (seq![m]
                            + ascending(it@, bound)));
                    }
                },
            }
        }
    }

    /// The only member, where the set has exactly one.
    pub fn only(&self) -> (r: Option<E>)
        ensures
            r is Some <==> self@.len() == 1,
            r is Some ==> self@ == Set::<int>::empty().insert(r.unwrap().spec_index()),
            r is Some ==> 0 <= r.unwrap().spec_index() < E::spec_max(),
    {
        if self.len() != 1 {
            return None;
        }
        let mut it = self.iter();
        proof {
            self.lemma_finite();
            it.lemma_bounded();
        }
        match it.next() {
            None => {
                proof {
                    assert(self@.len() == 0);
                }
                None
            },
            Some(e) => {
                proof {
                    let m = e.spec_index();
                    assert(self@.remove(m).len() == 0);
                    assert(self@.remove(m) =~= Set::<int>::empty());
                    assert(self@ =~= Set::<int>::empty().insert(m));
                }
                Some(e)
            },
        }
    }
}

/// A set of numbers below `max` in binary: a `1` for each member and a `0` for each other
/// number, the greatest number first.
pub open spec fn binary_digits(s: Set<int>, max: int) -> Seq<char> {
    Seq::new(
        max as nat,
        |i: int|
            if s.contains(max - 1 - i) {
                '1'
            } else {
                '0'
            },
    )
}

/// The numbers of the elements of a list, in the order of the list.
pub open spec fn indices<E: Element>(items: Seq<E>) -> Seq<int> {
    items.map_values(|e: E| e.spec_index())
}

/// The numbers that are a member of at least one of the sets of a list.
pub open spec fn union_of(sets: Seq<Set<int>>) -> Set<int> {
    Set::new(|i: int| exists|k: int| 0 <= k < sets.len() && #[trigger] sets[k].contains(i))
}

/// The members of `s` below `bound`, in ascending order.
pub open spec fn ascending(s: Set<int>, bound: int) -> Seq<int>
    decreases bound,
{
    if bound <= 0 {
        Seq::empty()
    } else if s.contains(bound - 1) {
        ascending(s, bound - 1).push(bound - 1)
    } else {
        ascending(s, bound - 1)
    }
}

/// The empty set has no members to list.
pub proof fn lemma_ascending_empty(bound: int)
    ensures
        ascending(Set::<int>::empty(), bound) == Seq::<int>::empty(),
    decreases bound,
{
    if bound > 0 {
        lemma_ascending_empty(bound - 1);
    }
}

/// What the ascending list holds: the members below the bound, each once, smaller first.
pub proof fn lemma_ascending_members(s: Set<int>, bound: int)
    ensures
        forall|k: int|
            0 <= k < ascending(s, bound).len() ==> s.contains(#[trigger] ascending(s, bound)[k])
                && 0 <= ascending(s, bound)[k] < bound,
        forall|i: int| 0 <= i < bound && s.contains(i) ==> ascending(s, bound).contains(i),
        forall|j: int, k: int|
            0 <= j < k < ascending(s, bound).len() ==> ascending(s, bound)[j] < ascending(
                s,
                bound,
            )[k],
    decreases bound,
{
    if bound > 0 {
        lemma_ascending_members(s, bound - 1);
        let prev = ascending(s, bound - 1);
        if s.contains(bound - 1) {
            let cur = prev.push(bound - 1);
            assert(cur[prev.len() as int] == bound - 1);
            assert forall|i: int| 0 <= i < bound && s.contains(i) implies cur.contains(i) by {
                if i < bound - 1 {
                    let k = choose|k: int| 0 <= k < prev.len() && prev[k] == i;
                    assert(cur[k] == i);
                }
            }
        }
    }
}

/// The ascending list has one place for each member below the bound.
pub proof fn lemma_ascending_len(s: Set<int>, bound: int)
    requires
        0 <= bound,
        s.subset_of(numbers_below(bound as nat)),
    ensures
        s.finite(),
        ascending(s, bound).len() == s.len(),
    decreases bound,
{
    vstd::set_lib::lemma_int_range(0, bound);
    assert(numbers_below(bound as nat) =~= vstd::set_lib::set_int_range(0, bound));
    vstd::set_lib::lemma_len_subset(s, numbers_below(bound as nat));
    if bound == 0 {
        assert(s =~= Set::<int>::empty());
    } else {
        let rest = s.remove(bound - 1);
        assert(rest.subset_of(numbers_below((bound - 1) as nat)));
        lemma_ascending_len(rest, bound - 1);
        lemma_ascending_same_below(s, rest, bound - 1);
        if s.contains(bound - 1) {
            assert(s.len() == rest.len() + 1);
        } else {
            assert(rest =~= s);
        }
    }
}

/// Sets with the same members below `bound` have the same ascending list up to `bound`.
proof fn lemma_ascending_same_below(s: Set<int>, t: Set<int>, bound: int)
    requires
        forall|i: int| 0 <= i < bound ==> s.contains(i) == t.contains(i),
    ensures
        ascending(s, bound) == ascending(t, bound),
    decreases bound,
{
    if bound > 0 {
        lemma_ascending_same_below(s, t, bound - 1);
    }
}

/// A set without members below `bound` has an empty ascending list.
proof fn lemma_ascending_none_below(s: Set<int>, bound: int)
    requires
        forall|i: int| s.contains(i) ==> bound <= i,
    ensures
        ascending(s, bound) == Seq::<int>::empty(),
    decreases bound,
{
    if bound > 0 {
        lemma_ascending_none_below(s, bound - 1);
    }
}

/// The ascending list starts with the least member; the rest lists the other members.
pub proof fn lemma_ascending_pop_min(s: Set<int>, m: int, bound: int)
    requires
        s.contains(m),
        forall|i: int| s.contains(i) ==> m <= i,
        0 <= m < bound,
    ensures
        ascending(s, bound) == seq![m] + ascending(s.remove(m), bound),
    decreases bound,
{
    if bound - 1 == m {
        lemma_ascending_none_below(s, m);
        lemma_ascending_none_below(s.remove(m), m);
        assert(ascending(s, bound) =~= seq![m] + ascending(s.remove(m), bound));
    } else {
        lemma_ascending_pop_min(s, m, bound - 1);
        assert(ascending(s, bound) =~= seq![m] + ascending(s.remove(m), bound));
    }
}

/// The members of a set that are still to be taken, least first.
pub struct Iter<E: Element> {
    bits: E::Repr,
}

impl<E: Element> View for Iter<E> {
    type V = Set<int>;

    closed spec fn view(&self) -> Set<int> {
        self.bits.ones()
    }
}

impl<E: Element> Iter<E> {
    /// Every member still to be taken is the number of a value of the element type.
    #[verifier::type_invariant]
    pub open spec fn wf(self) -> bool {
        self@.subset_of(numbers_below(E::spec_max()))
    }

    /// Finitely many members are left.
    pub proof fn lemma_bounded(self)
        ensures
            self@.finite(),
    {
        self.bits.lemma_ones_bounded();
    }

    /// Takes the least member that is left, if there is one.
    pub fn next(&mut self) -> (r: Option<E>)
        ensures
            r is None ==> old(self)@ == Set::<int>::empty() && final(self)@ == old(self)@,
            r is Some ==> {
                let m = r.unwrap().spec_index();
                &&& old(self)@.contains(m)
                &&& 0 <= m < E::spec_max()
                &&& forall|i: int| old(self)@.contains(i) ==> m <= i
                &&& final(self)@ == old(self)@.remove(m)
                &&& final(self)@.len() < old(self)@.len()
            },
    {
        proof {
            E::lemma_capacity();
            use_type_invariant(&*self);
            self.bits.lemma_ones_bounded();
        }
        if self.bits.same_bits(E::Repr::zero()) {
            None
        } else {
            let index = self.bits.trailing_zeros();
            proof {
                if self.bits.ones().is_empty() {
                    assert(self.bits.ones() =~= Set::<int>::empty());
                }
            }
            let bits = self.bits.bit_and(E::Repr::single(index).bit_not());
            proof {
                assert(bits.ones() =~= self@.remove(index as int));
            }
            self.bits = bits;
            Some(E::from_index(index))
        }
    }
}


/// Sets with the same members are the same set.
pub proof fn lemma_view_injective<E: Element>(a: BitSet<E>, b: BitSet<E>)
    requires
        a@ == b@,
    ensures
        a == b,
{
    a.bits.lemma_ones_injective(b.bits);
}

/// The union of two sets does not depend on their order.
pub proof fn law_union_commutes<E: Element>(a: BitSet<E>, b: BitSet<E>)
    ensures
        a@.union(b@) == b@.union(a@),
{
    assert(a@.union(b@) =~= b@.union(a@));
}

/// Intersection distributes over union.
pub proof fn law_intersection_distributes<E: Element>(a: BitSet<E>, b: BitSet<E>, c: BitSet<E>)
    ensures
        a@.intersect(b@.union(c@)) == a@.intersect(b@).union(a@.intersect(c@)),
{
    assert(a@.intersect(b@.union(c@)) =~= a@.intersect(b@).union(a@.intersect(c@)));
}

/// A set without its own members is empty.
pub proof fn law_difference_with_self<E: Element>(a: BitSet<E>)
    ensures
        a@.difference(a@) == Set::<int>::empty(),
{
    assert(a@.difference(a@) =~= Set::<int>::empty());
}

/// The complement of the complement of a set is the set.
pub proof fn law_double_complement<E: Element>(a: BitSet<E>)
    requires
        a.wf(),
    ensures
        numbers_below(E::spec_max()).difference(numbers_below(E::spec_max()).difference(a@))
            == a@,
{
    assert(numbers_below(E::spec_max()).difference(numbers_below(E::spec_max()).difference(a@))
        =~= a@);
}

/// Two sets of which each holds all members of the other are the same set.
pub proof fn law_subset_antisymmetric<E: Element>(a: BitSet<E>, b: BitSet<E>)
    requires
        a@.subset_of(b@),
        b@.subset_of(a@),
    ensures
        a@ == b@,
        a == b,
{
    assert(a@ =~= b@);
    lemma_view_injective(a, b);
}

} // verus!
