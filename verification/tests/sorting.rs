use algorithms::choice_sort::choice_sort;
use algorithms::quick_sort::quick_sort;
use algorithms::selection_sort::selection_sort;

#[test]
fn choice_sort_simple() {
    let src = vec![9, 2, 3, 4, 1, 6, 8, 19, 20, 34];
    assert_eq!(choice_sort(src), vec![1, 2, 3, 4, 6, 8, 9, 19, 20, 34]);
}

#[test]
fn selection_sort_simple() {
    let mut src = vec![9, 2, 3, 4, 1, 6, 8, 19, 20, 34];
    selection_sort(&mut src);
    assert_eq!(src, vec![1, 2, 3, 4, 6, 8, 9, 19, 20, 34]);
}

#[test]
fn quick_sort_simple() {
    let mut tests = [
        (
            vec![9, 2, 3, 4, 1, 6, 8, 19, 20, 34],
            vec![1, 2, 3, 4, 6, 8, 9, 19, 20, 34],
        ),
        (
            vec![10, 80, 30, 70, 40, 50, 90],
            vec![10, 30, 40, 50, 70, 80, 90],
        ),
        (vec![2, 3, 4, 5, 10, 1, 11], vec![1, 2, 3, 4, 5, 10, 11]),
        (
            vec![1, 2, 3, 4, 5, 6, 7, 8, 9],
            vec![1, 2, 3, 4, 5, 6, 7, 8, 9],
        ),
        (vec![1, 5, 3, 4], vec![1, 3, 4, 5]),
        (vec![1, 2, 3, 0, 5], vec![0, 1, 2, 3, 5]),
        (vec![1, 2, 3], vec![1, 2, 3]),
        (vec![3, 1, 2], vec![1, 2, 3]),
        (vec![2, 1, 3], vec![1, 2, 3]),
        (
            vec![6, 1, 7, 9, 3, 8, 2, 5, 4, 0],
            vec![0, 1, 2, 3, 4, 5, 6, 7, 8, 9],
        ),
        (vec![3, 2], vec![2, 3]),
        (vec![8, 3, 7, 9, 6, 1, 9, 10], vec![1, 3, 6, 7, 8, 9, 9, 10]),
        (
            vec![8, 2, 78, 892, 11, 0, 34],
            vec![0, 2, 8, 11, 34, 78, 892],
        ),
        (
            vec![9, 03, 83, 9, 2, 0, 1, 65, 2, 822, 9, 11, 22, 3, 3, 3, 47],
            vec![0, 1, 2, 2, 3, 3, 3, 3, 9, 9, 9, 11, 22, 47, 65, 83, 822],
        ),
        (
            vec![-6, 9, 0, 1, 17, 91, 0, 178],
            vec![-6, 0, 0, 1, 9, 17, 91, 178],
        ),
        (
            vec![-3, -2, -1, -9, -5, -1, -19, -33],
            vec![-33, -19, -9, -5, -3, -2, -1, -1],
        ),
        (
            vec![-5, -6, -7, 0, 0, 0, 0, -8, 1, 2, 3],
            vec![-8, -7, -6, -5, 0, 0, 0, 0, 1, 2, 3],
        ),
    ];
    for (input, expected) in tests.iter_mut() {
        let _ = quick_sort(input);
        assert_eq!(input, expected);
    }
}

#[test]
fn quick_sort_takes_short_slices() {
    let mut none: Vec<u8> = vec![];
    quick_sort(&mut none);
    assert_eq!(none, Vec::<u8>::new());
    let mut one = vec![7u8];
    quick_sort(&mut one);
    assert_eq!(one, vec![7]);
    let mut two = vec![7u8, 7];
    quick_sort(&mut two);
    assert_eq!(two, vec![7, 7]);
    let mut three = vec![3u8, 2, 1];
    quick_sort(&mut three);
    assert_eq!(three, vec![1, 2, 3]);
}

#[test]
fn quick_sort_orders_pairs_by_first_then_second() {
    let mut pairs = vec![(2, 'b'), (1, 'z'), (2, 'a'), (0, 'q'), (1, 'a')];
    quick_sort(&mut pairs);
    assert_eq!(pairs, vec![(0, 'q'), (1, 'a'), (1, 'z'), (2, 'a'), (2, 'b')]);
}

#[test]
fn quick_sort_with_all_elements_above_the_pivot() {
    let mut src = vec![5, 9, 1, 7, 8];
    quick_sort(&mut src);
    assert_eq!(src, vec![1, 5, 7, 8, 9]);
    let mut equal = vec![4, 4, 4, 4, 4, 4];
    quick_sort(&mut equal);
    assert_eq!(equal, vec![4, 4, 4, 4, 4, 4]);
    let mut falling = vec![9, 8, 7, 6, 5, 4, 3, 2, 1, 0];
    quick_sort(&mut falling);
    assert_eq!(falling, vec![0, 1, 2, 3, 4, 5, 6, 7, 8, 9]);
}

#[test]
fn selection_sort_of_one_element_and_of_repeats() {
    let mut one = vec![3];
    selection_sort(&mut one);
    assert_eq!(one, vec![3]);
    let mut repeats = vec![2, 1, 2, 1, 0, 2];
    selection_sort(&mut repeats);
    assert_eq!(repeats, vec![0, 1, 1, 2, 2, 2]);
    let mut words = vec!["pear", "apple", "fig"];
    selection_sort(&mut words);
    assert_eq!(words, vec!["apple", "fig", "pear"]);
}

#[test]
fn selection_sort_finds_the_first_of_equal_smallest() {
    let (position, value) = algorithms::selection_sort::get_smallest(&[4, 1, 3, 1, 5]);
    assert_eq!(position, 1);
    assert_eq!(*value, 1);
    let (position, value) = algorithms::selection_sort::get_smallest(&[8]);
    assert_eq!((position, *value), (0, 8));
}

#[test]
fn choice_sort_of_nothing_and_of_repeats() {
    assert_eq!(choice_sort(vec![]), Vec::<u32>::new());
    assert_eq!(choice_sort(vec![5]), vec![5]);
    assert_eq!(choice_sort(vec![3, 1, 3, 0, 1, u32::MAX]), vec![0, 1, 1, 3, 3, u32::MAX]);
}

#[test]
fn choice_sort_finds_the_first_of_equal_smallest() {
    assert_eq!(algorithms::choice_sort::get_smallest(&[4, 1, 3, 1, 5]), (1, 1));
    assert_eq!(algorithms::choice_sort::get_smallest(&[2, 2]), (0, 2));
}
