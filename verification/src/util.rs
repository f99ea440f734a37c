use crate::bitset::{ascending, indices, BitSet, Element};
use itertools::Itertools;
use vstd::prelude::*;

verus! {

/// The result of the first item of a list for which `f` gives one, if there is such an item.
pub open spec fn first_some<A, R>(items: Seq<A>, f: spec_fn(A) -> Option<R>) -> Option<R>
    decreases items.len(),
{
    if items.len() == 0 {
        None
    } else if f(items[0]) is Some {
        f(items[0])
    } else {
        first_some(items.drop_first(), f)
    }
}

/// Items for which `f` gives nothing can be passed over.
pub proof fn lemma_first_some_skip<A, R>(items: Seq<A>, f: spec_fn(A) -> Option<R>, k: int)
    requires
        0 <= k <= items.len(),
        forall|j: int| 0 <= j < k ==> f(#[trigger] items[j]) is None,
    ensures
        first_some(items, f) == first_some(items.skip(k), f),
    decreases k,
{
    if k == 0 {
        assert(items.skip(0) =~= items);
    } else {
        lemma_first_some_skip(items, f, k - 1);
        let rest = items.skip(k - 1);
        assert(rest[0] == items[k - 1]);
        assert(rest.drop_first() =~= items.skip(k));
    }
}

/// The first item for which `f` gives a result decides.
pub proof fn lemma_first_some_hit<A, R>(items: Seq<A>, f: spec_fn(A) -> Option<R>, k: int)
    requires
        0 <= k < items.len(),
        forall|j: int| 0 <= j < k ==> f(#[trigger] items[j]) is None,
        f(items[k]) is Some,
    ensures
        first_some(items, f) == f(items[k]),
{
    lemma_first_some_skip(items, f, k);
    assert(items.skip(k)[0] == items[k]);
}

/// Where `f` gives nothing for any item, there is no result.
pub proof fn lemma_first_some_none<A, R>(items: Seq<A>, f: spec_fn(A) -> Option<R>)
    requires
        forall|j: int| 0 <= j < items.len() ==> f(#[trigger] items[j]) is None,
    ensures
        first_some(items, f) == None::<R>,
{
    lemma_first_some_skip(items, f, items.len() as int);
}

/// The ascending lists of `k` numbers taken from `from` up to, and without, `n`,
/// in lexicographic order.
pub open spec fn index_combinations_from(from: int, n: int, k: nat) -> Seq<Seq<int>>
    decreases n - from,
{
    if k == 0 {
        seq![Seq::<int>::empty()]
    } else if from >= n {
        Seq::<Seq<int>>::empty()
    } else {
        index_combinations_from(from + 1, n, (k - 1) as nat).map_values(
            |rest: Seq<int>| seq![from] + rest,
        ) + index_combinations_from(from + 1, n, k)
    }
}

/// The ascending lists of `k` numbers below `n`, in lexicographic order.
pub open spec fn index_combinations(n: int, k: nat) -> Seq<Seq<int>> {
    index_combinations_from(0, n, k)
}

/// Each combination has `k` places, holds numbers of the range, and ascends.
pub proof fn lemma_index_combinations(from: int, n: int, k: nat)
    ensures
        forall|i: int|
            0 <= i < index_combinations_from(from, n, k).len() ==> {
                let combo = #[trigger] index_combinations_from(from, n, k)[i];
                &&& combo.len() == k
                &&& forall|j: int| 0 <= j < k ==> from <= #[trigger] combo[j] < n
                &&& forall|j: int, l: int| 0 <= j < l < k ==> combo[j] < combo[l]
            },
    decreases n - from,
{
    if k == 0 {
    } else if from >= n {
    } else {
        lemma_index_combinations(from + 1, n, (k - 1) as nat);
        lemma_index_combinations(from + 1, n, k);
        let with = index_combinations_from(from + 1, n, (k - 1) as nat);
        let first = with.map_values(|rest: Seq<int>| seq![from] + rest);
        let second = index_combinations_from(from + 1, n, k);
        let all = index_combinations_from(from, n, k);
        assert(all == first + second);
        assert forall|i: int| 0 <= i < all.len() implies {
            let combo = #[trigger] all[i];
            &&& combo.len() == k
            &&& forall|j: int| 0 <= j < k ==> from <= #[trigger] combo[j] < n
            &&& forall|j: int, l: int| 0 <= j < l < k ==> combo[j] < combo[l]
        } by {
            if i < first.len() {
                let rest = with[i];
                assert(all[i] == seq![from] + rest);
                assert forall|j: int| 0 <= j < k implies from <= #[trigger] all[i][j] < n by {
                    if j > 0 {
                        assert(all[i][j] == rest[j - 1]);
                    }
                }
                assert forall|j: int, l: int| 0 <= j < l < k implies all[i][j] < all[i][l] by {
                    assert(all[i][l] == rest[l - 1]);
                    if j > 0 {
                        assert(all[i][j] == rest[j - 1]);
                    }
                }
            } else {
                assert(all[i] == second[i - first.len()]);
            }
        }
    }
}

/// The numbers of a list of lists of machine numbers.
pub open spec fn as_ints(lists: Seq<Vec<usize>>) -> Seq<Seq<int>> {
    lists.map_values(|list: Vec<usize>| list@.map_values(|x: usize| x as int))
}

/// Calls `Itertools::combinations` on the numbers from zero up to, and without, `n`:
/// the result holds every ascending list of `k` of them, in lexicographic order.
#[verifier::external_body]
fn index_combinations_raw(n: usize, k: usize) -> (r: Vec<Vec<usize>>)
    ensures
        as_ints(r@) == index_combinations(n as int, k as nat),
{
    (0..n).combinations(k).collect()
}

/// The lists of `k` items of `items`, each in the order of `items`,
/// in lexicographic order of the places taken.
pub open spec fn combinations_of<T>(items: Seq<T>, k: nat) -> Seq<Seq<T>> {
    index_combinations(items.len() as int, k).map_values(
        |places: Seq<int>| places.map_values(|p: int| items[p]),
    )
}

/// The lists of `k` items of `items`, each in the order of `items`,
/// in lexicographic order of the places taken.
pub fn combinations<T: Copy>(items: &Vec<T>, k: usize) -> (r: Vec<Vec<T>>)
    ensures
        r@.map_values(|combo: Vec<T>| combo@) == combinations_of(items@, k as nat),
{
    let places = index_combinations_raw(items.len(), k);
    let ghost all = index_combinations(items.len() as int, k as nat);
    let ghost want = combinations_of(items@, k as nat);
    proof {
        lemma_index_combinations(0, items.len() as int, k as nat);
        assert(as_ints(places@).len() == places@.len());
    }
    let mut out: Vec<Vec<T>> = Vec::new();
    let mut i: usize = 0;
    while i < places.len()
        invariant
            0 <= i <= places.len(),
            as_ints(places@) == all,
            all == index_combinations(items.len() as int, k as nat),
            want == combinations_of(items@, k as nat),
            out@.len() == i,
            forall|a: int| 0 <= a < i ==> (#[trigger] out@[a])@ == want[a],
            forall|a: int|
                0 <= a < all.len() ==> {
                    let combo = #[trigger] all[a];
                    &&& combo.len() == k
                    &&& forall|j: int| 0 <= j < k ==> 0 <= #[trigger] combo[j] < items.len()
                },
        decreases places.len() - i,
    {
        let ghost ints = all[i as int];
        proof {
            assert(as_ints(places@)[i as int] == places@[i as int]@.map_values(
                |x: usize| x as int,
            ));
        }
        let mut combo: Vec<T> = Vec::new();
        let mut j: usize = 0;
        while j < places[i].len()
            invariant
                0 <= i < places.len(),
                0 <= j <= places@[i as int]@.len(),
                ints == places@[i as int]@.map_values(|x: usize| x as int),
                ints.len() == k,
                forall|b: int| 0 <= b < k ==> 0 <= #[trigger] ints[b] < items.len(),
                combo@.len() == j,
                forall|b: int| 0 <= b < j ==> #[trigger] combo@[b] == items@[ints[b]],
            decreases places@[i as int]@.len() - j,
        {
            let p = places[i][j];
            proof {
                assert(ints[j as int] == p as int);
            }
            combo.push(items[p]);
            j += 1;
        }
        proof {
            assert(combo@ =~= want[i as int]);
        }
        out.push(combo);
        i += 1;
    }
    proof {
        assert(out@.map_values(|combo: Vec<T>| combo@) =~= want);
    }
    out
}


/// Taking combinations and then mapping each item is mapping each item and then taking
/// combinations.
pub proof fn lemma_combinations_map<T, U>(items: Seq<T>, f: spec_fn(T) -> U, k: nat)
    ensures
        combinations_of(items, k).map_values(|combo: Seq<T>| combo.map_values(f))
            == combinations_of(items.map_values(f), k),
{
    lemma_index_combinations(0, items.len() as int, k);
    let places = index_combinations(items.len() as int, k);
    let left = combinations_of(items, k).map_values(|combo: Seq<T>| combo.map_values(f));
    let right = combinations_of(items.map_values(f), k);
    assert(left.len() == right.len());
    assert forall|i: int| 0 <= i < left.len() implies left[i] == right[i] by {
        let p = places[i];
        assert(left[i] =~= right[i]);
    }
    assert(left =~= right);
}

/// Every item of a combination is an item of the list it was taken from.
pub proof fn lemma_combinations_items<T>(items: Seq<T>, k: nat)
    ensures
        forall|i: int, j: int|
            0 <= i < combinations_of(items, k).len() && 0 <= j < combinations_of(items, k)[i].len()
                ==> items.contains(#[trigger] combinations_of(items, k)[i][j]),
        forall|i: int|
            0 <= i < combinations_of(items, k).len() ==> (#[trigger] combinations_of(
                items,
                k,
            )[i]).len() == k,
{
    lemma_index_combinations(0, items.len() as int, k);
    let places = index_combinations(items.len() as int, k);
    assert forall|i: int, j: int|
        0 <= i < combinations_of(items, k).len() && 0 <= j < combinations_of(
            items,
            k,
        )[i].len() implies items.contains(#[trigger] combinations_of(items, k)[i][j]) by {
        let p = places[i];
        assert(combinations_of(items, k)[i][j] == items[p[j]]);
    }
}


/// A list did not have the length of the array asked for.
#[derive(Clone, Copy, Debug, PartialEq, Eq)]
pub struct TryIntoArrayError;

/// Turns a vector into an array with `<[T; N] as TryFrom<Vec<T>>>::try_from`: the array
/// holds the contents of the vector, and there is one only where the vector has `N` items.
#[verifier::external_body]
fn vec_into_array<T, const N: usize>(items: Vec<T>) -> (r: Result<[T; N], TryIntoArrayError>)
    ensures
        r is Ok <==> items@.len() == N,
        r is Ok ==> r.unwrap()@ == items@,
{
    items.try_into().map_err(|_| TryIntoArrayError)
}

/// A collection whose items can be taken out as an array of a given length.
pub trait TryIntoArray<T>: Sized {
    /// The items of the collection, in the order in which they are taken out.
    spec fn spec_items(self) -> Seq<T>;

    /// The items as an array of `N` items, where the collection has exactly `N`.
    fn try_into_array<const N: usize>(self) -> (r: Result<[T; N], TryIntoArrayError>)
        ensures
            r is Ok <==> self.spec_items().len() == N,
            r is Ok ==> r.unwrap()@ == self.spec_items(),
    ;

    /// The only item, where the collection has exactly one.
    fn try_singleton(self) -> (r: Result<T, TryIntoArrayError>)
        ensures
            r is Ok <==> self.spec_items().len() == 1,
            r is Ok ==> r.unwrap() == self.spec_items()[0],
    ;
}

impl<T> TryIntoArray<T> for Vec<T> {
    open spec fn spec_items(self) -> Seq<T> {
        self@
    }

    fn try_into_array<const N: usize>(self) -> (r: Result<[T; N], TryIntoArrayError>) {
        vec_into_array(self)
    }

    fn try_singleton(self) -> (r: Result<T, TryIntoArrayError>) {
        let mut items = self;
        if items.len() != 1 {
            return Err(TryIntoArrayError);
        }
        match items.pop() {
            Some(item) => Ok(item),
            None => Err(TryIntoArrayError),
        }
    }
}

/// The element with the given number.
pub open spec fn element_of<E: Element>(index: int) -> E {
    choose|e: E| e.spec_index() == index
}

/// An element is the element with its number.
pub proof fn lemma_element_of<E: Element>(e: E)
    ensures
        element_of::<E>(e.spec_index()) == e,
{
    let chosen = element_of::<E>(e.spec_index());
    assert(chosen.spec_index() == e.spec_index());
    chosen.lemma_index_injective(e);
}

/// The elements of a list are the elements with their numbers.
proof fn lemma_elements_of<E: Element>(items: Seq<E>)
    ensures
        items == indices(items).map_values(|i: int| element_of::<E>(i)),
{
    assert forall|j: int| 0 <= j < items.len() implies items[j] == element_of::<E>(
        indices(items)[j],
    ) by {
        lemma_element_of(items[j]);
    }
    assert(items =~= indices(items).map_values(|i: int| element_of::<E>(i)));
}

impl<E: Element> TryIntoArray<E> for BitSet<E> {
    /// The members, in ascending order.
    open spec fn spec_items(self) -> Seq<E> {
        ascending(self@, E::spec_max() as int).map_values(|i: int| element_of::<E>(i))
    }

    fn try_into_array<const N: usize>(self) -> (r: Result<[E; N], TryIntoArrayError>) {
        let items = self.to_vec();
        proof {
            lemma_elements_of(items@);
        }
        vec_into_array(items)
    }

    fn try_singleton(self) -> (r: Result<E, TryIntoArrayError>) {
        let items = self.to_vec();
        proof {
            lemma_elements_of(items@);
        }
        items.try_singleton()
    }
}

/// The arrays of `N` items of `items`, each in the order of `items`, in lexicographic
/// order of the places taken.
pub fn array_combinations<T: Copy, const N: usize>(items: &Vec<T>) -> (r: Vec<[T; N]>)
    ensures
        r@.map_values(|combo: [T; N]| combo@) == combinations_of(items@, N as nat),
{
    let combos = combinations(items, N);
    let ghost want = combinations_of(items@, N as nat);
    let mut out: Vec<[T; N]> = Vec::new();
    let mut j: usize = 0;
    proof {
        lemma_combinations_items(items@, N as nat);
        assert(combos@.map_values(|combo: Vec<T>| combo@).len() == combos@.len());
    }
    while j < combos.len()
        invariant
            0 <= j <= combos.len(),
            out@.len() == j,
            combos@.map_values(|combo: Vec<T>| combo@) == want,
            forall|a: int| 0 <= a < want.len() ==> (#[trigger] want[a]).len() == N,
            forall|a: int| 0 <= a < j ==> (#[trigger] out@[a])@ == want[a],
        decreases combos.len() - j,
    {
        let mut combo: Vec<T> = Vec::new();
        let mut i: usize = 0;
        proof {
            assert(combos@.map_values(|combo: Vec<T>| combo@)[j as int] == combos@[j as int]@);
        }
        while i < combos[j].len()
            invariant
                0 <= j < combos.len(),
                0 <= i <= combos@[j as int]@.len(),
                combo@ == combos@[j as int]@.take(i as int),
            decreases combos@[j as int]@.len() - i,
        {
            combo.push(combos[j][i]);
            proof {
                assert(combo@ =~= combos@[j as int]@.take(i as int + 1));
            }
            i += 1;
        }
        proof {
            assert(combo@ =~= combos@[j as int]@);
        }
        match vec_into_array::<T, N>(combo) {
            Ok(array) => {
                out.push(array);
            },
            Err(_) => {
                proof {
                    assert(false);
                }
            },
        }
        j += 1;
    }
    proof {
        assert(out@.map_values(|combo: [T; N]| combo@) =~= want);
    }
    out
}

} // verus!
