use aggregator::aggregator_interface::Submission;
use aggregator::median;

fn to_vec_u64(v: Vec<u32>) -> Vec<u64> {
    v.iter().map(|value| *value as u64).collect()
}

fn check_median_result(expected: Option<u32>, v: Vec<u32>) {
    let expected_u64: Option<u64> = expected.map(|value| value as u64);
    let actual_result = median::calculate(to_vec_u64(v));
    assert_eq!(Ok(expected_u64), actual_result);
}

#[test]
fn test_median() {
    // empty list
    check_median_result(None, vec![]);

    // odd number of elements
    check_median_result(Some(42), vec![42]);
    check_median_result(Some(11), vec![10, 11, 12]);
    check_median_result(Some(15), vec![20, 10, 15, 17, 19, 11, 12]);
    check_median_result(Some(10), vec![10, 9, 8, 7, 6, 5, 11, 12, 13, 14, 15]);
    check_median_result(Some(10), vec![9, 8, 7, 6, 5, 11, 12, 13, 14, 10, 15]);

    // even number of elements
    check_median_result(Some(42), vec![42, 43]);
    check_median_result(Some(11), vec![10, 11, 12, 13]);
    check_median_result(Some(15), vec![20, 10, 15, 16, 17, 19, 11, 12]);
    check_median_result(Some(10), vec![10, 9, 8, 7, 6, 5, 11, 12, 13, 14, 15, 16]);
    check_median_result(Some(10), vec![9, 8, 7, 6, 5, 11, 12, 13, 14, 10, 15, 16]);
}

#[test]
fn test_median_equal() {
    check_median_result(Some(42), vec![42]);
    check_median_result(Some(42), vec![42, 42]);
    check_median_result(Some(42), vec![42, 42, 42]);
    check_median_result(Some(42), vec![42, 42, 42, 42]);
}

#[test]
fn test_median_submission_empty() {
    let actual_result = median::calculate_submission_median(Vec::new()).unwrap();
    assert!(actual_result.is_none());
}

#[test]
fn test_median_submission() {
    let submission_a = Submission {
        values: to_vec_u64(vec![100, 5000, 6000, 7000, 200, 300, 400]),
    };
    let submission_b = Submission {
        values: to_vec_u64(vec![110, 5010, 6010, 7010, 210, 310, 410]),
    };
    let expected_submission_result = Submission {
        values: to_vec_u64(vec![105, 5005, 6005, 7005, 205, 305, 405]),
    };

    let mut a_b_as_vec = Vec::new();
    a_b_as_vec.push(submission_a);
    a_b_as_vec.push(submission_b);

    let actual_result = median::calculate_submission_median(a_b_as_vec)
        .unwrap()
        .unwrap();
    assert_eq!(actual_result.values, expected_submission_result.values);
}

#[test]
fn test_median_order_independent() {
    // the same multiset in three different arrival orders
    let a = median::calculate(vec![5, 1, 9, 3, 7]);
    let b = median::calculate(vec![9, 7, 5, 3, 1]);
    let c = median::calculate(vec![3, 9, 1, 7, 5]);
    assert_eq!(a, Ok(Some(5)));
    assert_eq!(a, b);
    assert_eq!(b, c);
}
