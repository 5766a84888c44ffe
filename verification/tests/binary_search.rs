use algorithms::binary_search::binary_search;

#[test]
fn test_bin_search() {
    let src = (0..101).collect::<Vec<_>>();
    assert_eq!(Some(50), binary_search(&src, 50));
}

#[test]
fn search_of_nothing_finds_nothing() {
    assert_eq!(None, binary_search(&[], 5));
}

#[test]
fn search_that_only_moves_down_probes_the_middle() {
    let src = (0..101).collect::<Vec<_>>();
    assert_eq!(Some(49), binary_search(&src, 49));
    assert_eq!(Some(24), binary_search(&src, 24));
    assert_eq!(Some(11), binary_search(&src, 11));
    assert_eq!(Some(5), binary_search(&src, 5));
    assert_eq!(Some(0), binary_search(&src, 0));
    assert_eq!(Some(3), binary_search(&[1, 2, 3, 4, 5, 6, 7], 4));
    assert_eq!(Some(1), binary_search(&[1, 2, 3, 4, 5, 6, 7], 2));
    assert_eq!(Some(1), binary_search(&[1, 2, 3, 4], 2));
    assert_eq!(Some(0), binary_search(&[1, 2], 1));
}

#[test]
fn search_stops_where_the_window_closes() {
    // The window closes on the only element before any probe.
    assert_eq!(None, binary_search(&[5], 5));
    // The probe at 0 moves the lower end to 1, where the window closes.
    assert_eq!(None, binary_search(&[1, 2], 2));
    // The probes at 3 and 1 close the window on 0, which is never probed.
    assert_eq!(None, binary_search(&[1, 2, 3, 4, 5, 6, 7], 1));
    assert_eq!(None, binary_search(&(0..101).collect::<Vec<_>>(), 1));
    assert_eq!(None, binary_search(&[1, 2, 3], 1));
}
