use visit::record::RequestRecord;
use visit::stats::ProfileStats;

fn rec(ms: u64, size: usize, code: u16) -> RequestRecord {
    RequestRecord { body_size_bytes: size, elapsed_millis: ms, succeeded: code == 200, status_code: code }
}

#[test]
fn median_of_odd_count() {
    let s = ProfileStats::from_records(&vec![rec(30, 1, 200), rec(10, 1, 200), rec(20, 1, 200)]);
    assert_eq!(s.median_twice_millis, 40);
    assert_eq!(s.median_twice_millis as f64 / 2.0, 20.0);
}

#[test]
fn median_of_even_count() {
    let s = ProfileStats::from_records(&vec![rec(40, 1, 200), rec(10, 1, 200), rec(30, 1, 200), rec(20, 1, 200)]);
    assert_eq!(s.median_twice_millis as f64 / 2.0, 25.0);
}

#[test]
fn success_rate_three_of_four() {
    let s = ProfileStats::from_records(&vec![rec(1, 0, 200), rec(2, 0, 404), rec(3, 0, 200), rec(4, 0, 200)]);
    assert_eq!(s.successes, 3);
    assert_eq!(s.count, 4);
    assert_eq!(s.successes as f64 * 100.0 / s.count as f64, 75.0);
}

#[test]
fn all_successes_give_full_rate() {
    let s = ProfileStats::from_records(&vec![rec(5, 0, 200), rec(6, 0, 200), rec(7, 0, 200)]);
    assert_eq!(s.successes as f64 * 100.0 / s.count as f64, 100.0);
    assert!(s.failure_codes.is_empty());
}

#[test]
fn smallest_and_largest_body() {
    let s = ProfileStats::from_records(&vec![rec(1, 5, 200), rec(2, 100, 200), rec(3, 0, 200)]);
    assert_eq!(s.smallest_body_bytes, 0);
    assert_eq!(s.largest_body_bytes, 100);
}

#[test]
fn fastest_slowest_and_total() {
    let s = ProfileStats::from_records(&vec![rec(25, 0, 200), rec(5, 0, 200), rec(70, 0, 200)]);
    assert_eq!(s.fastest_millis, 5);
    assert_eq!(s.slowest_millis, 70);
    assert_eq!(s.total_millis, 100);
    assert_eq!(s.total_millis as f64 / s.count as f64, 100.0 / 3.0);
}

#[test]
fn failure_codes_are_distinct_in_order() {
    let s = ProfileStats::from_records(&vec![
        rec(1, 0, 503),
        rec(2, 0, 200),
        rec(3, 0, 404),
        rec(4, 0, 503),
        rec(5, 0, 0),
    ]);
    assert_eq!(s.failure_codes, vec![503, 404, 0]);
}

#[test]
fn single_record() {
    let s = ProfileStats::from_records(&vec![rec(9, 3, 200)]);
    assert_eq!(s.count, 1);
    assert_eq!(s.median_twice_millis, 18);
    assert_eq!(s.fastest_millis, 9);
    assert_eq!(s.slowest_millis, 9);
}

#[test]
fn largest_times_do_not_overflow() {
    let s = ProfileStats::from_records(&vec![rec(u64::MAX, 0, 200), rec(u64::MAX, 0, 200)]);
    assert_eq!(s.total_millis, 2 * (u64::MAX as u128));
    assert_eq!(s.median_twice_millis, 2 * (u64::MAX as u128));
}
