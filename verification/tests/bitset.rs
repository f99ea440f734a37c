use itertools::Itertools;
use std::cmp::Ordering;
use sudoku_solver::bits::{BitsRepr, U64array};
use sudoku_solver::bitset::BitSet;
use sudoku_solver::sudoku::pos::{Candidate, Cell, Digit};
use sudoku_solver::util::{TryIntoArray, TryIntoArrayError};

#[test]
fn alternate_remove_last_one() {
    let a: u8 = 0b0011_1000;

    let neg_a = 0u8.wrapping_sub(a);

    let t = a & neg_a;

    let a_xor_t = a ^ t;

    println!("      a = {a:08b}");
    println!("  neg_a = {neg_a:08b}");
    println!("      t = {t:08b}");
    println!("a_xor_t = {a_xor_t:08b}");
}

#[test]
fn full_set_constructor() {
    const N: usize = 3;

    let a: u8 = (1 << N) - 1;

    println!("a = {a:08b}");
}

#[test]
fn temp() {
    let size = std::mem::size_of::<U64array<3>>();

    println!("size = {size}");
}

fn elt(index: u8) -> Digit {
    Digit::new(index).unwrap()
}

fn digits(indices: &[u8]) -> BitSet<Digit> {
    BitSet::from_slice(&indices.iter().map(|&i| elt(i)).collect_vec())
}

fn candidates(indices: &[u16]) -> BitSet<Candidate> {
    BitSet::from_slice(&indices.iter().map(|&i| Candidate::new(i).unwrap()).collect_vec())
}

fn numbers(set: &BitSet<Candidate>) -> Vec<usize> {
    set.to_vec().into_iter().map(|c| c.as_index()).collect()
}

#[test]
fn insert_contains() {
    let mut set: BitSet<Digit> = BitSet::new();

    for i in 0..8 {
        assert!(!set.contains(elt(i)));
    }

    set.insert(elt(0));

    assert!(set.contains(elt(0)));

    for i in 1..8 {
        assert!(!set.contains(elt(i)));
    }
}

#[test]
fn subset() {
    let ps = (0..4)
        .powerset()
        .map(|v| BitSet::from_slice(&v.into_iter().map(elt).collect_vec()))
        .collect_vec();

    for (s, t) in ps.iter().tuple_combinations() {
        println!("{} <= {} = {}", s.to_binary_string(), t.to_binary_string(), s <= t);
        assert_eq!(s <= t, s.is_subset(t));
    }
}

#[test]
fn empty_full_and_singleton() {
    let empty: BitSet<Digit> = BitSet::new();
    assert!(empty.is_empty());
    assert!(!empty.is_nonempty());
    assert_eq!(empty.len(), 0);

    let full: BitSet<Digit> = BitSet::full();
    assert_eq!(full.len(), 9);
    for i in 0..9 {
        assert!(full.contains(elt(i)));
    }

    let one = BitSet::singleton(elt(4));
    assert_eq!(one.len(), 1);
    assert!(one.contains(elt(4)));
    assert!(!one.contains(elt(3)));

    let cells: BitSet<Cell> = BitSet::full();
    assert_eq!(cells.len(), 81);
    let all: BitSet<Candidate> = BitSet::full();
    assert_eq!(all.len(), 729);
    assert!(all.contains(Candidate::new(728).unwrap()));
}

#[test]
fn remove_and_clear() {
    let mut set = digits(&[1, 3, 5]);
    set.remove(elt(3));
    assert_eq!(set, digits(&[1, 5]));
    set.remove(elt(3));
    assert_eq!(set, digits(&[1, 5]));
    set.clear();
    assert!(set.is_empty());
}

#[test]
fn iteration_is_ascending_and_repeatable() {
    let set = candidates(&[700, 3, 64, 65, 128, 0, 728]);
    assert_eq!(numbers(&set), vec![0, 3, 64, 65, 128, 700, 728]);
    assert_eq!(numbers(&set), vec![0, 3, 64, 65, 128, 700, 728]);

    let mut iter = set.iter();
    assert_eq!(iter.next().map(|c| c.as_index()), Some(0));
    assert_eq!(iter.next().map(|c| c.as_index()), Some(3));
    assert_eq!(set.len(), 7);
}

#[test]
fn multiword_sets_count_and_find() {
    let set = candidates(&[63, 64, 127, 128, 500]);
    assert_eq!(set.len(), 5);
    assert!(set.contains(Candidate::new(64).unwrap()));
    assert!(!set.contains(Candidate::new(65).unwrap()));
    assert_eq!(set.complement().len(), 724);
}

#[test]
fn union_commutes() {
    let a = digits(&[0, 1, 5]);
    let b = digits(&[1, 2, 8]);
    assert_eq!(a | b, b | a);
    assert_eq!(a | b, digits(&[0, 1, 2, 5, 8]));
    assert_eq!(a.union(b), a | b);
}

#[test]
fn intersection_distributes_over_union() {
    let a = digits(&[0, 1, 5, 7]);
    let b = digits(&[1, 2, 8]);
    let c = digits(&[5, 6]);
    assert_eq!(a & (b | c), (a & b) | (a & c));
    assert_eq!(a & (b | c), digits(&[1, 5]));
}

#[test]
fn difference_with_self_is_empty() {
    let a = digits(&[0, 1, 5, 7]);
    assert_eq!(a - a, BitSet::new());
    assert_eq!(a - digits(&[1, 2]), digits(&[0, 5, 7]));
}

#[test]
fn double_complement_is_identity() {
    let a = digits(&[0, 1, 5, 7]);
    assert_eq!(!a, digits(&[2, 3, 4, 6, 8]));
    assert_eq!(!(!a), a);
    let b = candidates(&[1, 100, 728]);
    assert_eq!(!(!b), b);
    assert_eq!((!b).len(), 726);
}

#[test]
fn mutual_subsets_are_equal() {
    let a = digits(&[2, 4]);
    let mut b = digits(&[4]);
    assert!(b.is_subset(&a));
    assert!(!a.is_subset(&b));
    assert!(a.is_superset(&b));
    b.insert(elt(2));
    assert!(a.is_subset(&b) && b.is_subset(&a));
    assert_eq!(a, b);
}

#[test]
fn inclusion_order() {
    let a = digits(&[2, 4]);
    let b = digits(&[2, 4, 6]);
    let c = digits(&[1]);
    assert_eq!(a.partial_cmp(&a), Some(Ordering::Equal));
    assert_eq!(a.partial_cmp(&b), Some(Ordering::Less));
    assert_eq!(b.partial_cmp(&a), Some(Ordering::Greater));
    assert_eq!(a.partial_cmp(&c), None);
}

#[test]
fn sum_is_the_union_of_all() {
    let sets = vec![digits(&[0]), digits(&[3, 4]), digits(&[]), digits(&[4, 8])];
    assert_eq!(BitSet::sum(&sets), digits(&[0, 3, 4, 8]));
    assert_eq!(BitSet::<Digit>::sum(&Vec::new()), BitSet::new());
}

#[test]
fn map_collects_the_images() {
    let set = digits(&[0, 4, 8]);
    let cell = Cell::new(2).unwrap();
    let mapped = set.map(|digit| Candidate::from_cell_and_digit(cell, digit));
    assert_eq!(numbers(&mapped), vec![18, 22, 26]);
}

#[test]
fn try_singleton_needs_exactly_one() {
    assert_eq!(digits(&[]).only(), None);
    assert_eq!(digits(&[6]).only(), Some(elt(6)));
    assert_eq!(digits(&[6, 7]).only(), None);
    assert_eq!(digits(&[]).try_singleton(), Err(TryIntoArrayError));
    assert_eq!(TryIntoArray::try_singleton(digits(&[6])), Ok(elt(6)));
    assert_eq!(TryIntoArray::try_singleton(digits(&[6, 7])), Err(TryIntoArrayError));
}

#[test]
fn try_into_array_needs_the_exact_length() {
    let pair: Result<[Digit; 2], _> = digits(&[7, 1]).try_into_array();
    assert_eq!(pair, Ok([elt(1), elt(7)]));
    let triple: Result<[Digit; 3], _> = digits(&[7, 1]).try_into_array();
    assert_eq!(triple, Err(TryIntoArrayError));
    let from_vec: Result<[u8; 3], _> = vec![4u8, 5, 6].try_into_array();
    assert_eq!(from_vec, Ok([4, 5, 6]));
    assert_eq!(vec![4u8].try_singleton(), Ok(4));
    assert_eq!(Vec::<u8>::new().try_singleton(), Err(TryIntoArrayError));
}

#[test]
fn binary_text_has_one_character_for_each_value() {
    assert_eq!(digits(&[]).to_binary_string(), "000000000");
    assert_eq!(digits(&[0, 3]).to_binary_string(), "000001001");
    assert_eq!(digits(&[8]).to_binary_string(), "100000000");
}

#[test]
fn words_and_blocks_of_bits() {
    assert_eq!(u64::n_ones(3), 0b111);
    assert_eq!(u64::n_ones(64), u64::MAX);
    assert_eq!(BitsRepr::count_ones(0b1011u64), 3);
    assert_eq!(BitsRepr::trailing_zeros(0b1000u64), 3);
    assert_eq!(BitsRepr::trailing_zeros(0u64), 64);
    let block = U64array::<3>::single(130);
    assert_eq!(block.count_ones(), 1);
    assert_eq!(block.trailing_zeros(), 130);
    assert_eq!(U64array::<3>::zero().trailing_zeros(), 192);
    assert_eq!(U64array::<3>::n_ones(100).count_ones(), 100);
    assert_eq!(U64array::<3>::n_ones(100).bit_not().trailing_zeros(), 100);
    assert!(block.bit_or(U64array::<3>::single(5)).bit_and(block).same_bits(block));
    assert_eq!(BitsRepr::leading_zeros(1u64), 63);
    assert_eq!(BitsRepr::leading_zeros(0u64), 64);
    assert_eq!(BitsRepr::leading_zeros(u64::MAX), 0);
    assert_eq!(block.leading_zeros(), 61);
    assert_eq!(U64array::<3>::single(5).leading_zeros(), 186);
    assert_eq!(U64array::<3>::zero().leading_zeros(), 192);
    assert_eq!(U64array::<3>::n_ones(192).leading_zeros(), 0);
}
