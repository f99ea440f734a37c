use vstd::prelude::*;

verus! {

/// Whether bit `i` of the word `w` is a one.
pub open spec fn word_bit(w: u64, i: u64) -> bool {
    (w >> i) & 1 == 1
}

/// The positions, all below 64, at which the word `w` holds a one.
pub open spec fn word_ones(w: u64) -> Set<int> {
    Set::new(|i: int| 0 <= i < 64 && word_bit(w, i as u64))
}

/// The positions of a word's ones lie below 64, so there are finitely many.
pub proof fn lemma_word_ones_bounded(w: u64)
    ensures
        word_ones(w).finite(),
        word_ones(w).len() <= 64,
        forall|i: int| word_ones(w).contains(i) ==> 0 <= i < 64,
{
    let below = vstd::set_lib::set_int_range(0, 64);
    vstd::set_lib::lemma_int_range(0, 64);
    assert(word_ones(w).subset_of(below));
    vstd::set_lib::lemma_len_subset(word_ones(w), below);
}

proof fn lemma_bit_zero(i: u64)
    by (bit_vector)
    requires
        i < 64,
    ensures
        !word_bit(0u64, i),
{
}

proof fn lemma_bit_single(j: u64, i: u64)
    by (bit_vector)
    requires
        i < 64,
        j < 64,
    ensures
        word_bit(1u64 << j, i) == (i == j),
{
}

proof fn lemma_bit_low_ones(n: u64, i: u64)
    by (bit_vector)
    requires
        i < 64,
        n < 64,
    ensures
        (1u64 << n) >= 1,
        word_bit(((1u64 << n) - 1) as u64, i) == (i < n),
{
}

proof fn lemma_bit_all_ones(i: u64)
    by (bit_vector)
    requires
        i < 64,
    ensures
        word_bit(0xffff_ffff_ffff_ffffu64, i),
{
}

proof fn lemma_bit_and(a: u64, b: u64, i: u64)
    by (bit_vector)
    requires
        i < 64,
    ensures
        word_bit(a & b, i) == (word_bit(a, i) && word_bit(b, i)),
{
}

proof fn lemma_bit_or(a: u64, b: u64, i: u64)
    by (bit_vector)
    requires
        i < 64,
    ensures
        word_bit(a | b, i) == (word_bit(a, i) || word_bit(b, i)),
{
}

proof fn lemma_bit_not(a: u64, i: u64)
    by (bit_vector)
    requires
        i < 64,
    ensures
        word_bit(!a, i) == !word_bit(a, i),
{
}

proof fn lemma_bit_xor(a: u64, b: u64, i: u64)
    by (bit_vector)
    requires
        i < 64,
    ensures
        word_bit(a ^ b, i) == (word_bit(a, i) != word_bit(b, i)),
        (a ^ b == 0) == (a == b),
{
}

/// Two words with the same ones are the same word.
pub proof fn lemma_word_ones_injective(a: u64, b: u64)
    requires
        word_ones(a) == word_ones(b),
    ensures
        a == b,
{
    let x = a ^ b;
    lemma_bit_xor(a, b, 0);
    if x != 0 {
        vstd::std_specs::bits::axiom_u64_trailing_zeros(x);
        let t = vstd::std_specs::bits::u64_trailing_zeros(x) as u64;
        assert(word_bit(x, t));
        lemma_bit_xor(a, b, t);
        assert(word_ones(a).contains(t as int) == word_bit(a, t));
        assert(word_ones(b).contains(t as int) == word_bit(b, t));
    }
}

/// A fixed number of bits, each a zero or a one, that can back a set of small indices.
///
/// The model of a value is the set of positions that hold a one.
pub trait BitsRepr: Copy + Sized {
    /// The number of bits a value holds.
    spec fn spec_size() -> nat;

    /// The positions that hold a one.
    spec fn ones(self) -> Set<int>;

    /// Every position of a one lies below the size.
    proof fn lemma_ones_bounded(self)
        ensures
            self.ones().finite(),
            forall|i: int| self.ones().contains(i) ==> 0 <= i < Self::spec_size(),
    ;

    /// A value is determined by its ones.
    proof fn lemma_ones_injective(self, other: Self)
        requires
            self.ones() == other.ones(),
        ensures
            self == other,
    ;

    /// The value with every bit zero.
    fn zero() -> (r: Self)
        ensures
            r.ones() == Set::<int>::empty(),
    ;

    /// The value whose only one is at `index`.
    fn single(index: usize) -> (r: Self)
        requires
            index < Self::spec_size(),
        ensures
            r.ones() == Set::<int>::empty().insert(index as int),
    ;

    /// The value whose ones are the first `n` positions.
    fn n_ones(n: usize) -> (r: Self)
        requires
            n <= Self::spec_size(),
        ensures
            r.ones() == Set::new(|i: int| 0 <= i < n),
    ;

    /// The number of ones.
    fn count_ones(self) -> (r: usize)
        requires
            Self::spec_size() <= usize::MAX,
        ensures
            r == self.ones().len(),
    ;

    /// The position of the lowest one, or the size where there is none.
    fn trailing_zeros(self) -> (r: usize)
        requires
            Self::spec_size() <= usize::MAX,
        ensures
            self.ones().is_empty() ==> r == Self::spec_size(),
            !self.ones().is_empty() ==> self.ones().contains(r as int) && forall|i: int|
                self.ones().contains(i) ==> r <= i,
    ;

    /// The number of zeros above the highest one, or the size where there is no one.
    fn leading_zeros(self) -> (r: usize)
        requires
            Self::spec_size() <= usize::MAX,
        ensures
            r <= Self::spec_size(),
            self.ones().is_empty() ==> r == Self::spec_size(),
            !self.ones().is_empty() ==> self.ones().contains(Self::spec_size() - 1 - r)
                && forall|i: int| self.ones().contains(i) ==> i <= Self::spec_size() - 1 - r,
    ;

    /// The ones that both values hold.
    fn bit_and(self, other: Self) -> (r: Self)
        ensures
            r.ones() == self.ones().intersect(other.ones()),
    ;

    /// The ones that either value holds.
    fn bit_or(self, other: Self) -> (r: Self)
        ensures
            r.ones() == self.ones().union(other.ones()),
    ;

    /// The positions below the size at which the value holds a zero.
    fn bit_not(self) -> (r: Self)
        ensures
            r.ones() == Set::new(|i: int| 0 <= i < Self::spec_size() && !self.ones().contains(i)),
    ;

    /// Whether two values hold the same bits.
    fn same_bits(self, other: Self) -> (r: bool)
        ensures
            r == (self.ones() == other.ones()),
    ;
}

/// Counts the ones of a word with `u64::count_ones`: the result is the number of positions
/// at which the binary representation of the word holds a one.
#[verifier::external_body]
fn word_count_ones(w: u64) -> (r: usize)
    ensures
        r == word_ones(w).len(),
{
    w.count_ones() as usize
}

impl BitsRepr for u64 {
    open spec fn spec_size() -> nat {
        64
    }

    open spec fn ones(self) -> Set<int> {
        word_ones(self)
    }

    proof fn lemma_ones_bounded(self) {
        lemma_word_ones_bounded(self);
    }

    proof fn lemma_ones_injective(self, other: Self) {
        lemma_word_ones_injective(self, other);
    }

    fn zero() -> (r: Self) {
        proof {
            assert forall|i: int| !word_ones(0u64).contains(i) by {
                if 0 <= i < 64 {
                    lemma_bit_zero(i as u64);
                }
            }
            assert(word_ones(0u64) =~= Set::<int>::empty());
        }
        0u64
    }

    fn single(index: usize) -> (r: Self) {
        let r = 1u64 << (index as u64);
        proof {
            assert forall|i: int|
                word_ones(r).contains(i) == Set::<int>::empty().insert(index as int).contains(
                    i,
                ) by {
                if 0 <= i < 64 {
                    lemma_bit_single(index as u64, i as u64);
                }
            }
            assert(word_ones(r) =~= Set::<int>::empty().insert(index as int));
        }
        r
    }

    fn n_ones(n: usize) -> (r: Self) {
        if n >= 64 {
            proof {
                assert forall|i: int|
                    word_ones(0xffff_ffff_ffff_ffffu64).contains(i) == (0 <= i < 64) by {
                    if 0 <= i < 64 {
                        lemma_bit_all_ones(i as u64);
                    }
                }
                assert(word_ones(0xffff_ffff_ffff_ffffu64) =~= Set::new(|i: int| 0 <= i < n));
            }
            0xffff_ffff_ffff_ffffu64
        } else {
            proof {
                lemma_bit_low_ones(n as u64, 0);
            }
            let r = (1u64 << (n as u64)) - 1;
            proof {
                assert forall|i: int| word_ones(r).contains(i) == (0 <= i < n) by {
                    if 0 <= i < 64 {
                        lemma_bit_low_ones(n as u64, i as u64);
                    }
                }
                assert(word_ones(r) =~= Set::new(|i: int| 0 <= i < n));
            }
            r
        }
    }

    fn count_ones(self) -> (r: usize) {
        word_count_ones(self)
    }

    fn trailing_zeros(self) -> (r: usize) {
        let r = self.trailing_zeros() as usize;
        proof {
            lemma_word_lowest_one(self);
        }
        r
    }

    fn leading_zeros(self) -> (r: usize) {
        let r = self.leading_zeros() as usize;
        proof {
            lemma_word_highest_one(self);
        }
        r
    }

    fn bit_and(self, other: Self) -> (r: Self) {
        let r = self & other;
        proof {
            assert forall|i: int|
                word_ones(r).contains(i) == word_ones(self).intersect(word_ones(other)).contains(
                    i,
                ) by {
                if 0 <= i < 64 {
                    lemma_bit_and(self, other, i as u64);
                }
            }
            assert(word_ones(r) =~= word_ones(self).intersect(word_ones(other)));
        }
        r
    }

    fn bit_or(self, other: Self) -> (r: Self) {
        let r = self | other;
        proof {
            assert forall|i: int|
                word_ones(r).contains(i) == word_ones(self).union(word_ones(other)).contains(
                    i,
                ) by {
                if 0 <= i < 64 {
                    lemma_bit_or(self, other, i as u64);
                }
            }
            assert(word_ones(r) =~= word_ones(self).union(word_ones(other)));
        }
        r
    }

    fn bit_not(self) -> (r: Self) {
        let r = !self;
        proof {
            assert forall|i: int|
                word_ones(r).contains(i) == (0 <= i < 64 && !word_ones(self).contains(i)) by {
                if 0 <= i < 64 {
                    lemma_bit_not(self, i as u64);
                }
            }
            assert(word_ones(r) =~= Set::new(
                |i: int| 0 <= i < Self::spec_size() && !self.ones().contains(i),
            ));
        }
        r
    }

    fn same_bits(self, other: Self) -> (r: bool) {
        proof {
            if word_ones(self) == word_ones(other) {
                lemma_word_ones_injective(self, other);
            }
        }
        self == other
    }
}

/// What `u64::trailing_zeros` finds: 64 for the zero word, else the lowest position of a one.
pub proof fn lemma_word_lowest_one(w: u64)
    ensures
        word_ones(w).is_empty() <==> w == 0,
        w == 0 ==> vstd::std_specs::bits::u64_trailing_zeros(w) == 64,
        w != 0 ==> word_ones(w).contains(vstd::std_specs::bits::u64_trailing_zeros(w) as int),
        forall|i: int|
            word_ones(w).contains(i) ==> vstd::std_specs::bits::u64_trailing_zeros(w) <= i,
{
    vstd::std_specs::bits::axiom_u64_trailing_zeros(w);
    let t = vstd::std_specs::bits::u64_trailing_zeros(w);
    assert forall|i: int| word_ones(w).contains(i) implies t <= i by {
        if i < t {
            let j = i as u64;
            assert((w >> j) & 1u64 == 0u64);
        }
    }
    if w == 0 {
        assert forall|i: int| !word_ones(w).contains(i) by {
            if 0 <= i < 64 {
                lemma_bit_zero(i as u64);
            }
        }
        assert(word_ones(w) =~= Set::<int>::empty());
    } else {
        assert(word_ones(w).contains(t as int));
    }
}


/// What `u64::leading_zeros` finds: 64 for the zero word, else the number of zeros above the
/// highest one.
pub proof fn lemma_word_highest_one(w: u64)
    ensures
        0 <= vstd::std_specs::bits::u64_leading_zeros(w) <= 64,
        w == 0 <==> vstd::std_specs::bits::u64_leading_zeros(w) == 64,
        w != 0 ==> word_ones(w).contains(63 - vstd::std_specs::bits::u64_leading_zeros(w)),
        forall|i: int|
            word_ones(w).contains(i) ==> i <= 63 - vstd::std_specs::bits::u64_leading_zeros(w),
{
    vstd::std_specs::bits::axiom_u64_leading_zeros(w);
    let z = vstd::std_specs::bits::u64_leading_zeros(w);
    assert forall|i: int| word_ones(w).contains(i) implies i <= 63 - z by {
        if i > 63 - z {
            let j = i as u64;
            assert((w >> j) & 1u64 == 0u64);
        }
    }
    if w != 0 {
        let top = (63 - z) as u64;
        assert(top == (63u64 - (z as u64)) as u64);
        lemma_bit_is_one_or_zero(w, top);
        assert(word_ones(w).contains(63 - z));
    }
}

proof fn lemma_bit_is_one_or_zero(w: u64, i: u64)
    by (bit_vector)
    requires
        i < 64,
    ensures
        (w >> i) & 1u64 != 0u64 ==> (w >> i) & 1u64 == 1u64,
{
}

/// A block of `N` words: bit `i` of the block is bit `i % 64` of word `i / 64`.
#[derive(Clone, Copy, Debug, PartialEq, Eq, Hash)]
pub struct U64array<const N: usize>([u64; N]);

/// The positions at which a sequence of words, read as one block, holds a one.
pub open spec fn words_ones(words: Seq<u64>) -> Set<int> {
    Set::new(|i: int| 0 <= i < 64 * words.len() && word_bit(words[i / 64], (i % 64) as u64))
}

/// The ones of a block among its first `k` words.
pub open spec fn words_ones_below(words: Seq<u64>, k: int) -> Set<int> {
    Set::new(|i: int| 0 <= i < 64 * k && words_ones(words).contains(i))
}

/// A block's ones among its first `k` words are finite, and the next word adds its own.
proof fn lemma_words_ones_step(words: Seq<u64>, k: int)
    requires
        0 <= k < words.len(),
        words_ones_below(words, k).finite(),
    ensures
        words_ones_below(words, k + 1).finite(),
        words_ones_below(words, k + 1).len() == words_ones_below(words, k).len() + word_ones(
            words[k],
        ).len(),
{
    let w = words[k];
    let shift = |j: int| j + 64 * k;
    let block = word_ones(w).map(shift);
    lemma_word_ones_bounded(w);
    assert(vstd::relations::injective_on(shift, word_ones(w)));
    vstd::set_lib::lemma_map_size(word_ones(w), block, shift);
    let before = words_ones_below(words, k);
    let after = words_ones_below(words, k + 1);
    assert forall|i: int| after.contains(i) == (before + block).contains(i) by {
        if 64 * k <= i < 64 * k + 64 {
            assert(i / 64 == k);
            assert(i % 64 == i - 64 * k);
            if word_ones(w).contains(i - 64 * k) {
                assert(shift(i - 64 * k) == i);
                assert(block.contains(i));
            }
        }
        if block.contains(i) {
            let j = choose|j: int| word_ones(w).contains(j) && shift(j) == i;
            assert(0 <= j < 64);
            assert(i / 64 == k);
            assert(i % 64 == j);
        }
    }
    assert(after =~= before + block);
    assert(before.disjoint(block)) by {
        assert forall|i: int| !(before.contains(i) && block.contains(i)) by {
            if block.contains(i) {
                let j = choose|j: int| word_ones(w).contains(j) && shift(j) == i;
                assert(0 <= j < 64);
            }
        }
    }
    vstd::set_lib::lemma_set_disjoint_lens(before, block);
}

proof fn lemma_words_ones_all(words: Seq<u64>)
    ensures
        words_ones_below(words, 0) =~= Set::<int>::empty(),
        words_ones_below(words, words.len() as int) =~= words_ones(words),
{
}

/// The ones of a block lie below its size and are finitely many.
pub proof fn lemma_words_ones_bounded(words: Seq<u64>)
    ensures
        words_ones(words).finite(),
        forall|i: int| words_ones(words).contains(i) ==> 0 <= i < 64 * words.len(),
{
    let below = vstd::set_lib::set_int_range(0, 64 * (words.len() as int));
    vstd::set_lib::lemma_int_range(0, 64 * (words.len() as int));
    assert(words_ones(words).subset_of(below));
    vstd::set_lib::lemma_len_subset(words_ones(words), below);
}

/// Two blocks of one length with the same ones hold the same words.
pub proof fn lemma_words_ones_injective(a: Seq<u64>, b: Seq<u64>)
    requires
        a.len() == b.len(),
        words_ones(a) == words_ones(b),
    ensures
        a =~= b,
{
    assert forall|k: int| 0 <= k < a.len() implies a[k] == b[k] by {
        assert forall|j: int| word_ones(a[k]).contains(j) == word_ones(b[k]).contains(j) by {
            if 0 <= j < 64 {
                let i = 64 * k + j;
                assert(i / 64 == k);
                assert(i % 64 == j);
                assert(words_ones(a).contains(i) == word_bit(a[k], j as u64));
                assert(words_ones(b).contains(i) == word_bit(b[k], j as u64));
                assert(word_ones(a[k]).contains(j) == word_bit(a[k], j as u64));
                assert(word_ones(b[k]).contains(j) == word_bit(b[k], j as u64));
            }
        }
        assert(word_ones(a[k]) =~= word_ones(b[k]));
        lemma_word_ones_injective(a[k], b[k]);
    }
}

impl<const N: usize> U64array<N> {
    /// The words of the block, lowest first.
    pub closed spec fn words(self) -> Seq<u64> {
        self.0@
    }
}

/// `N` words that are all zero.
fn zero_words<const N: usize>() -> (r: [u64; N])
    ensures
        forall|i: int| 0 <= i < N ==> r@[i] == 0u64,
{
    proof {
        vstd::array::axiom_spec_array_fill_for_copy_type::<u64, N>(0u64);
    }
    [0u64;N]
}

impl<const N: usize> BitsRepr for U64array<N> {
    open spec fn spec_size() -> nat {
        (64 * N) as nat
    }

    open spec fn ones(self) -> Set<int> {
        words_ones(self.words())
    }

    proof fn lemma_ones_bounded(self) {
        lemma_words_ones_bounded(self.words());
    }

    proof fn lemma_ones_injective(self, other: Self) {
        lemma_words_ones_injective(self.words(), other.words());
        assert(self.0 =~= other.0);
    }

    fn zero() -> (r: Self) {
        let r = U64array(zero_words::<N>());
        proof {
            assert forall|i: int| !words_ones(r.words()).contains(i) by {
                if 0 <= i < 64 * N {
                    lemma_bit_zero((i % 64) as u64);
                }
            }
            assert(words_ones(r.words()) =~= Set::<int>::empty());
        }
        r
    }

    fn single(index: usize) -> (r: Self) {
        let mut words = zero_words::<N>();
        let k = index / 64;
        let b = index % 64;
        words[k] = 1u64 << (b as u64);
        let r = U64array(words);
        proof {
            assert forall|i: int|
                words_ones(r.words()).contains(i) == Set::<int>::empty().insert(
                    index as int,
                ).contains(i) by {
                if 0 <= i < 64 * N {
                    if i / 64 == k as int {
                        lemma_bit_single(b as u64, (i % 64) as u64);
                    } else {
                        lemma_bit_zero((i % 64) as u64);
                    }
                }
            }
            assert(words_ones(r.words()) =~= Set::<int>::empty().insert(index as int));
        }
        r
    }

    fn n_ones(n: usize) -> (r: Self) {
        let mut words = zero_words::<N>();
        let n_full = n / 64;
        let n_rem = n % 64;
        let mut k: usize = 0;
        while k < n_full
            invariant
                0 <= k <= n_full <= N,
                forall|j: int| 0 <= j < k ==> words@[j] == 0xffff_ffff_ffff_ffffu64,
                forall|j: int| k <= j < N ==> words@[j] == 0u64,
            decreases n_full - k,
        {
            words[k] = 0xffff_ffff_ffff_ffffu64;
            k += 1;
        }
        if n_rem > 0 {
            proof {
                lemma_bit_low_ones(n_rem as u64, 0);
            }
            words[n_full] = ((1u64 << (n_rem as u64)) - 1) as u64;
        }
        let r = U64array(words);
        proof {
            assert forall|i: int| words_ones(r.words()).contains(i) == (0 <= i < n) by {
                if 0 <= i < 64 * N {
                    if i / 64 < n_full {
                        lemma_bit_all_ones((i % 64) as u64);
                    } else if i / 64 == n_full && n_rem > 0 {
                        lemma_bit_low_ones(n_rem as u64, (i % 64) as u64);
                    } else {
                        lemma_bit_zero((i % 64) as u64);
                    }
                }
            }
            assert(words_ones(r.words()) =~= Set::new(|i: int| 0 <= i < n));
        }
        r
    }

    fn count_ones(self) -> (r: usize) {
        let mut total: usize = 0;
        let mut k: usize = 0;
        proof {
            lemma_words_ones_all(self.words());
        }
        while k < N
            invariant
                0 <= k <= N,
                64 * N <= usize::MAX,
                self.words().len() == N,
                words_ones_below(self.words(), k as int).finite(),
                total == words_ones_below(self.words(), k as int).len(),
                total <= 64 * k,
            decreases N - k,
        {
            let c = word_count_ones(self.0[k]);
            proof {
                lemma_word_ones_bounded(self.0[k as int]);
                lemma_words_ones_step(self.words(), k as int);
            }
            total = total + c;
            k += 1;
        }
        proof {
            lemma_words_ones_all(self.words());
        }
        total
    }

    fn trailing_zeros(self) -> (r: usize) {
        let mut k: usize = 0;
        while k < N
            invariant
                0 <= k <= N,
                64 * N <= usize::MAX,
                self.words().len() == N,
                forall|j: int| 0 <= j < k ==> self.words()[j] == 0u64,
            decreases N - k,
        {
            let w = self.0[k];
            if w != 0 {
                let t = w.trailing_zeros() as usize;
                proof {
                    lemma_word_lowest_one(w);
                    let low = (k * 64 + t) as int;
                    assert(word_ones(w).contains(t as int));
                    assert(low / 64 == k as int);
                    assert(low % 64 == t as int);
                    assert(words_ones(self.words()).contains(low));
                    assert forall|i: int| words_ones(self.words()).contains(i) implies low
                        <= i by {
                        if i / 64 < k {
                            lemma_bit_zero((i % 64) as u64);
                        } else if i / 64 == k as int {
                            assert(word_ones(w).contains(i % 64));
                        }
                    }
                }
                return k * 64 + t;
            }
            k += 1;
        }
        proof {
            assert forall|i: int| !words_ones(self.words()).contains(i) by {
                if 0 <= i < 64 * N {
                    lemma_bit_zero((i % 64) as u64);
                }
            }
            assert(words_ones(self.words()) =~= Set::<int>::empty());
        }
        64 * N
    }

    fn leading_zeros(self) -> (r: usize) {
        let mut k: usize = N;
        while k > 0
            invariant
                0 <= k <= N,
                64 * N <= usize::MAX,
                self.words().len() == N,
                forall|j: int| k <= j < N ==> self.words()[j] == 0u64,
            decreases k,
        {
            let w = self.0[k - 1];
            if w != 0 {
                let z = w.leading_zeros() as usize;
                proof {
                    lemma_word_highest_one(w);
                    let top = (64 * (k - 1) + 63 - z) as int;
                    assert(top / 64 == k - 1);
                    assert(top % 64 == 63 - z);
                    assert(word_ones(w).contains(63 - z));
                    assert(words_ones(self.words()).contains(top));
                    assert forall|i: int| words_ones(self.words()).contains(i) implies i
                        <= top by {
                        if i / 64 >= k {
                            lemma_bit_zero((i % 64) as u64);
                        } else if i / 64 == k - 1 {
                            assert(word_ones(w).contains(i % 64));
                        }
                    }
                }
                return 64 * (N - k) + z;
            }
            k -= 1;
        }
        proof {
            assert forall|i: int| !words_ones(self.words()).contains(i) by {
                if 0 <= i < 64 * N {
                    lemma_bit_zero((i % 64) as u64);
                }
            }
            assert(words_ones(self.words()) =~= Set::<int>::empty());
        }
        64 * N
    }

    fn bit_and(self, other: Self) -> (r: Self) {
        let mut words = zero_words::<N>();
        let mut k: usize = 0;
        while k < N
            invariant
                0 <= k <= N,
                forall|j: int| 0 <= j < k ==> words@[j] == self.words()[j] & other.words()[j],
            decreases N - k,
        {
            words[k] = self.0[k] & other.0[k];
            k += 1;
        }
        let r = U64array(words);
        proof {
            assert forall|i: int|
                words_ones(r.words()).contains(i) == self.ones().intersect(other.ones()).contains(
                    i,
                ) by {
                if 0 <= i < 64 * N {
                    lemma_bit_and(self.words()[i / 64], other.words()[i / 64], (i % 64) as u64);
                }
            }
            assert(words_ones(r.words()) =~= self.ones().intersect(other.ones()));
        }
        r
    }

    fn bit_or(self, other: Self) -> (r: Self) {
        let mut words = zero_words::<N>();
        let mut k: usize = 0;
        while k < N
            invariant
                0 <= k <= N,
                forall|j: int| 0 <= j < k ==> words@[j] == self.words()[j] | other.words()[j],
            decreases N - k,
        {
            words[k] = self.0[k] | other.0[k];
            k += 1;
        }
        let r = U64array(words);
        proof {
            assert forall|i: int|
                words_ones(r.words()).contains(i) == self.ones().union(other.ones()).contains(
                    i,
                ) by {
                if 0 <= i < 64 * N {
                    lemma_bit_or(self.words()[i / 64], other.words()[i / 64], (i % 64) as u64);
                }
            }
            assert(words_ones(r.words()) =~= self.ones().union(other.ones()));
        }
        r
    }

    fn bit_not(self) -> (r: Self) {
        let mut words = zero_words::<N>();
        let mut k: usize = 0;
        while k < N
            invariant
                0 <= k <= N,
                forall|j: int| 0 <= j < k ==> words@[j] == !self.words()[j],
            decreases N - k,
        {
            words[k] = !self.0[k];
            k += 1;
        }
        let r = U64array(words);
        proof {
            assert forall|i: int|
                words_ones(r.words()).contains(i) == (0 <= i < 64 * N && !self.ones().contains(
                    i,
                )) by {
                if 0 <= i < 64 * N {
                    lemma_bit_not(self.words()[i / 64], (i % 64) as u64);
                }
            }
            assert(words_ones(r.words()) =~= Set::new(
                |i: int| 0 <= i < Self::spec_size() && !self.ones().contains(i),
            ));
        }
        r
    }

    fn same_bits(self, other: Self) -> (r: bool) {
        let mut k: usize = 0;
        while k < N
            invariant
                0 <= k <= N,
                forall|j: int| 0 <= j < k ==> self.words()[j] == other.words()[j],
            decreases N - k,
        {
            if self.0[k] != other.0[k] {
                proof {
                    if self.ones() == other.ones() {
                        lemma_words_ones_injective(self.words(), other.words());
                    }
                }
                return false;
            }
            k += 1;
        }
        proof {
            assert(self.words() =~= other.words());
        }
        true
    }
}

} // verus!
