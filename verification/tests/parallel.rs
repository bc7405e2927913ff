use cs110l::parallel::{number_jobs, place_results};

#[test]
fn jobs_come_from_the_back() {
    let jobs = number_jobs(vec!['a', 'b', 'c']);
    assert_eq!(jobs, vec![(2, 'c'), (1, 'b'), (0, 'a')]);
    assert!(number_jobs(Vec::<u8>::new()).is_empty());
}

#[test]
fn results_in_any_order_land_in_place() {
    let input = vec![6, 7, 8, 9, 10, 1, 2, 3, 4, 5, 12, 18, 11, 5, 20];
    let mut results: Vec<(usize, i32)> = number_jobs(input.clone()).into_iter().map(|(i, x)| (i, x * x)).collect();
    results.reverse();
    results.swap(0, 7);
    results.swap(3, 12);
    let out = place_results(vec![0; input.len()], results);
    let expected: Vec<i32> = input.iter().map(|x| x * x).collect();
    assert_eq!(out, expected);
}

#[test]
fn later_results_win_and_missing_keep_default() {
    let out = place_results(vec![0u8; 4], vec![(1, 5), (3, 7), (1, 9)]);
    assert_eq!(out, vec![0, 9, 0, 7]);
}
