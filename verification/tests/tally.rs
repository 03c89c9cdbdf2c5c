use greeting_bench::histogram::Histogram;
use greeting_bench::metrics::{Bucket, Metrics, Outcome, Report};

const BOUNDS: [u64; 11] = [
    5_000, 10_000, 25_000, 50_000, 100_000, 250_000, 500_000, 1_000_000, 2_500_000, 5_000_000,
    10_000_000,
];

fn cumulative(report: &Report) -> Vec<u64> {
    report.buckets.iter().map(|b| b.cumulative_count).collect()
}

fn same_report(a: &Report, b: &Report) -> bool {
    a.success == b.success
        && a.failure == b.failure
        && a.buckets == b.buckets
        && a.sum == b.sum
        && a.count == b.count
}

#[test]
fn new_metrics_count_nothing() {
    let m = Metrics::new();
    assert_eq!(m.success(), 0);
    assert_eq!(m.failure(), 0);
    assert_eq!(m.completed(), 0);
    let report = m.report();
    assert_eq!(report.success, 0);
    assert_eq!(report.failure, 0);
    assert_eq!(report.sum, 0);
    assert_eq!(report.count, 0);
    assert_eq!(cumulative(&report), vec![0; 12]);
}

#[test]
fn report_lists_the_bounds_and_one_bucket_without() {
    let report = Metrics::new().report();
    let bounds: Vec<Option<u64>> = report.buckets.iter().map(|b| b.upper_bound).collect();
    let mut expected: Vec<Option<u64>> = BOUNDS.iter().map(|b| Some(*b)).collect();
    expected.push(None);
    assert_eq!(bounds, expected);
    assert_eq!(Histogram::new().bounds(), &BOUNDS.to_vec());
}

#[test]
fn status_200_is_a_success() {
    assert!(Outcome::Status(200).succeeded());
    let mut m = Metrics::new();
    m.record(Outcome::Status(200), 1_000);
    assert_eq!((m.success(), m.failure()), (1, 0));
}

#[test]
fn any_other_status_is_a_failure() {
    for status in [0, 100, 199, 201, 204, 301, 400, 404, 500, 503, u16::MAX] {
        assert!(!Outcome::Status(status).succeeded());
        let mut m = Metrics::new();
        m.record(Outcome::Status(status), 1_000);
        assert_eq!((m.success(), m.failure()), (0, 1));
    }
}

#[test]
fn transport_error_is_a_failure() {
    assert!(!Outcome::TransportError.succeeded());
    let mut m = Metrics::new();
    m.record(Outcome::TransportError, 1_000);
    assert_eq!((m.success(), m.failure()), (0, 1));
    assert_eq!(m.completed(), 1);
}

#[test]
fn observation_on_a_bound_falls_in_its_bucket() {
    let mut h = Histogram::new();
    h.observe(5_000);
    assert_eq!(h.cumulative_counts(), vec![1; 12]);
    let mut h = Histogram::new();
    h.observe(5_001);
    assert_eq!(h.cumulative_counts(), vec![0, 1, 1, 1, 1, 1, 1, 1, 1, 1, 1, 1]);
    let mut h = Histogram::new();
    h.observe(10_000_000);
    assert_eq!(h.cumulative_counts(), vec![0, 0, 0, 0, 0, 0, 0, 0, 0, 0, 1, 1]);
}

#[test]
fn observation_above_every_bound_falls_in_the_last_bucket() {
    let mut h = Histogram::new();
    h.observe(10_000_001);
    h.observe(u64::MAX);
    assert_eq!(h.cumulative_counts(), vec![0, 0, 0, 0, 0, 0, 0, 0, 0, 0, 0, 2]);
    assert_eq!(h.count(), 2);
    assert_eq!(h.sum(), 10_000_001u128 + u64::MAX as u128);
}

#[test]
fn observation_of_zero_falls_in_the_first_bucket() {
    let mut h = Histogram::new();
    h.observe(0);
    assert_eq!(h.cumulative_counts(), vec![1; 12]);
    assert_eq!(h.sum(), 0);
    assert_eq!(h.count(), 1);
}

#[test]
fn histogram_counts_are_cumulative() {
    let mut h = Histogram::new();
    for micros in [1, 4_999, 7_500, 30_000, 30_000, 400_000, 3_000_000, 20_000_000] {
        h.observe(micros);
    }
    assert_eq!(h.cumulative_counts(), vec![2, 3, 3, 5, 5, 5, 6, 6, 6, 7, 7, 8]);
    assert_eq!(h.count(), 8);
    assert_eq!(h.sum(), 1 + 4_999 + 7_500 + 30_000 + 30_000 + 400_000 + 3_000_000 + 20_000_000);
}

#[test]
fn histogram_over_given_bounds() {
    let mut h = Histogram::with_bounds(vec![10, 20]).unwrap();
    assert_eq!(h.bounds(), &vec![10, 20]);
    assert_eq!(h.cumulative_counts(), vec![0, 0, 0]);
    for micros in [10, 11, 20, 21, 9] {
        h.observe(micros);
    }
    assert_eq!(h.cumulative_counts(), vec![2, 4, 5]);
    assert_eq!(h.sum(), 71);
}

#[test]
fn histogram_without_bounds_has_one_bucket() {
    let mut h = Histogram::with_bounds(Vec::new()).unwrap();
    h.observe(7);
    h.observe(9);
    assert_eq!(h.cumulative_counts(), vec![2]);
    assert_eq!(h.sum(), 16);
}

#[test]
fn bounds_must_rise() {
    assert!(Histogram::with_bounds(vec![1, 2, 3]).is_some());
    assert!(Histogram::with_bounds(vec![5]).is_some());
    assert!(Histogram::with_bounds(vec![2, 2]).is_none());
    assert!(Histogram::with_bounds(vec![3, 1]).is_none());
    assert!(Histogram::with_bounds(vec![1, 2, 3, 3]).is_none());
    assert!(Histogram::with_bounds(vec![1, 5, 4, 6]).is_none());
    assert!(Metrics::with_bounds(vec![1, 2]).is_some());
    assert!(Metrics::with_bounds(vec![2, 1]).is_none());
}

#[test]
fn report_after_a_few_requests() {
    let mut m = Metrics::new();
    m.record(Outcome::Status(200), 7_000);
    m.record(Outcome::Status(200), 800_000);
    m.record(Outcome::Status(500), 20_000_000);
    m.record(Outcome::TransportError, 1);
    let report = m.report();
    assert_eq!(report.success, 2);
    assert_eq!(report.failure, 2);
    assert_eq!(report.count, 4);
    assert_eq!(report.sum, 20_807_001);
    assert_eq!(cumulative(&report), vec![1, 2, 2, 2, 2, 2, 2, 3, 3, 3, 3, 4]);
    assert_eq!(report.buckets[0], Bucket { upper_bound: Some(5_000), cumulative_count: 1 });
    assert_eq!(report.buckets[11], Bucket { upper_bound: None, cumulative_count: 4 });
}

#[test]
fn reported_count_is_successes_and_failures() {
    let mut m = Metrics::new();
    for i in 0..1000u64 {
        let outcome = match i % 4 {
            0 => Outcome::Status(200),
            1 => Outcome::Status(404),
            2 => Outcome::TransportError,
            _ => Outcome::Status(200),
        };
        m.record(outcome, i * 37_000);
        let report = m.report();
        assert_eq!(report.count, report.success + report.failure);
        assert_eq!(report.count, i + 1);
        assert_eq!(report.buckets.last().unwrap().cumulative_count, report.count);
        assert_eq!(m.latency().count(), m.completed());
    }
    assert_eq!(m.success(), 500);
    assert_eq!(m.failure(), 500);
}

#[test]
fn reporting_twice_gives_the_same_report() {
    let mut m = Metrics::new();
    m.record(Outcome::Status(200), 12_345);
    m.record(Outcome::Status(503), 6_000_000);
    let first = m.report();
    let second = m.report();
    assert!(same_report(&first, &second));
    assert_eq!(m.success(), 1);
    assert_eq!(m.failure(), 1);
    let third = m.report();
    assert!(same_report(&first, &third));
}

#[test]
fn order_of_recording_does_not_matter() {
    let mut a = Metrics::new();
    a.record(Outcome::Status(200), 9_000);
    a.record(Outcome::TransportError, 70_000);
    let mut b = Metrics::new();
    b.record(Outcome::TransportError, 70_000);
    b.record(Outcome::Status(200), 9_000);
    assert!(same_report(&a.report(), &b.report()));
}

#[test]
fn merge_adds_what_both_counted() {
    let mut a = Metrics::new();
    a.record(Outcome::Status(200), 7_000);
    a.record(Outcome::Status(500), 60_000);
    let mut b = Metrics::new();
    b.record(Outcome::Status(200), 7_500);
    b.record(Outcome::Status(200), 11_000_000);
    b.record(Outcome::TransportError, 2);
    a.merge(&b);
    let report = a.report();
    assert_eq!(report.success, 3);
    assert_eq!(report.failure, 2);
    assert_eq!(report.count, 5);
    assert_eq!(report.sum, 7_000 + 60_000 + 7_500 + 11_000_000 + 2);
    assert_eq!(cumulative(&report), vec![1, 3, 3, 3, 4, 4, 4, 4, 4, 4, 4, 5]);
    assert_eq!(b.completed(), 3);
}

#[test]
fn merge_does_not_depend_on_the_side() {
    let mut a = Metrics::new();
    a.record(Outcome::Status(200), 1);
    let mut b = Metrics::new();
    b.record(Outcome::Status(404), 700_000);
    b.record(Outcome::Status(200), 3);
    let mut ab = Metrics::new();
    ab.merge(&a);
    ab.merge(&b);
    let mut ba = Metrics::new();
    ba.merge(&b);
    ba.merge(&a);
    assert!(same_report(&ab.report(), &ba.report()));
    assert_eq!(ab.completed(), 3);
}

#[test]
fn merge_of_histograms_adds_bucket_by_bucket() {
    let mut a = Histogram::with_bounds(vec![10, 20]).unwrap();
    a.observe(5);
    a.observe(25);
    let mut b = Histogram::with_bounds(vec![10, 20]).unwrap();
    b.observe(15);
    b.observe(6);
    a.merge(&b);
    assert_eq!(a.cumulative_counts(), vec![2, 3, 4]);
    assert_eq!(a.count(), 4);
    assert_eq!(a.sum(), 51);
}
