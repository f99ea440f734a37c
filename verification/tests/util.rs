use sudoku_solver::util::{array_combinations, combinations};

#[test]
fn combinations_come_in_lexicographic_order() {
    let items = vec![10u8, 20, 30, 40];
    assert_eq!(
        combinations(&items, 3),
        vec![vec![10, 20, 30], vec![10, 20, 40], vec![10, 30, 40], vec![20, 30, 40]]
    );
    assert_eq!(
        combinations(&items, 2),
        vec![
            vec![10, 20],
            vec![10, 30],
            vec![10, 40],
            vec![20, 30],
            vec![20, 40],
            vec![30, 40]
        ]
    );
}

#[test]
fn combinations_of_equal_items_are_kept_apart() {
    assert_eq!(combinations(&vec![1u8, 2, 2], 2), vec![vec![1, 2], vec![1, 2], vec![2, 2]]);
}

#[test]
fn combinations_at_the_edges() {
    let items = vec![7u8, 8];
    assert_eq!(combinations(&items, 0), vec![Vec::<u8>::new()]);
    assert_eq!(combinations(&items, 2), vec![vec![7, 8]]);
    assert_eq!(combinations(&items, 3), Vec::<Vec<u8>>::new());
    assert_eq!(combinations(&Vec::<u8>::new(), 0), vec![Vec::<u8>::new()]);
    assert_eq!(combinations(&Vec::<u8>::new(), 1), Vec::<Vec<u8>>::new());
    assert_eq!(combinations(&(0u8..9).collect(), 4).len(), 126);
}

#[test]
fn array_combinations_are_the_same_lists() {
    let items = vec![10u8, 20, 30];
    let pairs: Vec<[u8; 2]> = array_combinations(&items);
    assert_eq!(pairs, vec![[10, 20], [10, 30], [20, 30]]);
    let all: Vec<[u8; 3]> = array_combinations(&items);
    assert_eq!(all, vec![[10, 20, 30]]);
    let none: Vec<[u8; 4]> = array_combinations(&items);
    assert!(none.is_empty());
}
