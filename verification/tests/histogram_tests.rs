use std::collections::HashMap;

use decomposition::counter::Counter;
use decomposition::histogram::Histogram;
use decomposition::sublog::{convert_reuse_interval_to_index, Bucket};
use decomposition::HistogramError;

fn line(s: &str) -> Vec<u8> {
    s.as_bytes().to_vec()
}

/// A small serialized histogram in the file format: precision 8, a count of
/// 14592 buckets, and the leading bucket frequencies 1, 2, 3, 4, 3, 2, 1, 0.
fn test_hist_lines() -> Vec<Vec<u8>> {
    vec![
        line("8"),
        line("14592"),
        line("1"),
        line("2"),
        line("3"),
        line("4"),
        line("3"),
        line("2"),
        line("1"),
        line("0"),
    ]
}

#[test]
fn test_hash() {
    let b1 = Bucket::new(8, 512);
    let b2 = Bucket::new(8, 513);

    let mut histogram: HashMap<Bucket, usize> = HashMap::new();
    histogram.insert(b1.clone(), 1);

    if histogram.contains_key(&b2) {
        let temp = histogram.get(&b2).unwrap().clone();
        histogram.insert(b2, temp + 1);
    }

    assert_eq!(*histogram.get(&b1).unwrap(), 2);
}

#[test]
fn test_histogram_insertion() {
    let mut h: Histogram<u128> = Histogram::new_single(8);
    h.set_frequency_via_reuse_interval(512, 2).unwrap();
    assert_eq!(h.get_frequency(513).unwrap(), 2);
}

#[test]
fn test_histogram_addition() {
    let mut h: Histogram<u128> = Histogram::new_single(8);
    h.add(512).unwrap();
    assert_eq!(h.get_frequency(512).unwrap(), 1);
}

#[test]
fn test_histogram_values() {
    let sublog_bits = 1;
    let mut h1: Histogram<u128> = Histogram::new_single(sublog_bits);
    for i in 1..=7 {
        let temp = h1.get_frequency(i).unwrap();
        h1.set_frequency_via_reuse_interval(i, temp + 1).unwrap();
    }

    let values = h1.get_histgram_vec();
    for i in 1..=7 {
        let mut exponent = (63 - (i as u64).leading_zeros()) as i64 - sublog_bits as i64;
        if exponent < 0 {
            exponent = 0;
        }
        assert_eq!(
            values[convert_reuse_interval_to_index(sublog_bits, i)],
            u128::pow(2, exponent as u32)
        );
    }
}

#[test]
fn histogram_read_test_hist_for_sublog_bits() {
    let histrogram: Histogram<u128> =
        decomposition::codec::histogram_from_lines(&test_hist_lines()).unwrap();

    assert_eq!(histrogram.get_sublog_bits(), 8);
}

#[test]
fn histogram_read_test_hist_for_histogram_length() {
    let histrogram: Histogram<u128> =
        decomposition::codec::histogram_from_lines(&test_hist_lines()).unwrap();

    assert_eq!(histrogram.get_histgram_vec().len(), 14592);
}

#[test]
fn read_test_hist_for_first_values() {
    let histrogram: Histogram<u128> =
        decomposition::codec::histogram_from_lines(&test_hist_lines()).unwrap();
    let first_values: Vec<u128> = vec![1, 2, 3, 4, 3, 2, 1, 0];

    assert_eq!(histrogram.get_histgram_vec()[0..8], first_values[..]);
}

/// The leading lines of the serialized histogram of a recorded ssh trace.
fn ssh_hist_lines() -> Vec<Vec<u8>> {
    vec![
        line("8"),
        line("14592"),
        line("00"),
        line("6750181113855227"),
        line("156526102"),
        line("3922575107523"),
        line("180368130756"),
        line("3098870710510"),
        line("4650485551176"),
        line("874884546544540"),
    ]
}

#[test]
fn read_ssh_hist_for_sublog_bits() {
    let histrogram: Histogram<u128> =
        decomposition::codec::histogram_from_lines(&ssh_hist_lines()).unwrap();

    assert_eq!(histrogram.get_sublog_bits(), 8);
}

#[test]
fn read_ssh_hist_for_histogram_length() {
    let histrogram: Histogram<u128> =
        decomposition::codec::histogram_from_lines(&ssh_hist_lines()).unwrap();

    assert_eq!(histrogram.get_histgram_vec().len(), 14592);
}

#[test]
fn read_ssh_hist_for_first_values() {
    let histrogram: Histogram<u128> =
        decomposition::codec::histogram_from_lines(&ssh_hist_lines()).unwrap();
    let first_values: Vec<u128> = vec![
        00,
        6750181113855227,
        156526102,
        3922575107523,
        180368130756,
        3098870710510,
        4650485551176,
        874884546544540,
    ];

    assert_eq!(histrogram.get_histgram_vec()[0..8], first_values[..]);
}

#[test]
fn reader_it_works() {
    assert_eq!(1, 1)
}

#[test]
fn reader_read_test_hist_for_sublog_bits() {
    let lines = test_hist_lines();
    let sublog_bits = decomposition::codec::parse_decimal(&lines[0]).unwrap() as u64;
    let histrogram: Histogram<u64> = Histogram::new_single(sublog_bits);

    assert_eq!(histrogram.get_sublog_bits(), 8);
}

#[test]
fn reader_read_test_hist_for_histogram_length() {
    let lines = test_hist_lines();
    let sublog_bits = decomposition::codec::parse_decimal(&lines[0]).unwrap() as u64;
    let histrogram: Histogram<u64> = Histogram::new_single(sublog_bits);

    assert_eq!(histrogram.get_histgram_vec().len(), 14592);
}

#[test]
fn linear_region_values_keep_their_index() {
    for precision in [0u64, 1, 4, 8] {
        let limit = 1u64 << precision;
        for v in [0u64, 1, limit / 2, limit - 1] {
            if v < limit {
                assert_eq!(convert_reuse_interval_to_index(precision, v), v as usize);
            }
        }
    }
}

#[test]
fn collision_of_neighbours_above_the_linear_region() {
    assert_eq!(
        convert_reuse_interval_to_index(8, 512),
        convert_reuse_interval_to_index(8, 513)
    );
}

#[test]
fn histogram_length_formula() {
    for precision in [0u64, 1, 2, 8] {
        let h: Histogram<u64> = Histogram::new_single(precision);
        assert_eq!(
            h.get_histgram_vec().len(),
            ((65 - precision) * (1 << precision)) as usize
        );
    }
    let h: Histogram<u128> = Histogram::new(8).unwrap();
    assert_eq!(h.get_histgram_vec().len(), 14592);
}

#[test]
fn invalid_precision_is_a_config_fault() {
    assert!(matches!(
        Histogram::<u128>::new(63),
        Err(HistogramError::Config)
    ));
    assert!(matches!(
        Histogram::<u128>::new_bounded(100, 5),
        Err(HistogramError::Config)
    ));
}

#[test]
fn out_of_array_index_is_a_bounds_fault() {
    let mut h: Histogram<u128> = Histogram::new_single(1);
    assert_eq!(h.get_histgram_vec().len(), 128);
    assert_eq!(
        h.set_frequency_via_index(128, 7).unwrap_err(),
        HistogramError::Bounds
    );
    h.set_frequency_via_index(127, 7).unwrap();
    assert_eq!(h.get_histgram_vec()[127], 7);
}

#[test]
fn bounded_domain_rejects_values_outside_it() {
    let mut h: Histogram<u64> = Histogram::new_bounded(8, 100).unwrap();
    assert_eq!(h.add(0).unwrap_err(), HistogramError::Bounds);
    assert_eq!(h.add(101).unwrap_err(), HistogramError::Bounds);
    h.add(100).unwrap();
    h.add(1).unwrap();
    assert_eq!(h.get_frequency(100).unwrap(), 1);
    assert_eq!(h.get_frequency(1).unwrap(), 1);
    assert_eq!(h.get_frequency(0).unwrap_err(), HistogramError::Bounds);
    assert_eq!(
        h.set_frequency_via_reuse_interval(101, 3).unwrap_err(),
        HistogramError::Bounds
    );
}

#[test]
fn counters_expose_their_capabilities() {
    let z: u64 = Counter::zero();
    assert_eq!(z, 0);
    let one = z.saturating_inc();
    assert_eq!(one, 1);
    assert!(Counter::le(&z, &one));
    assert!(!Counter::le(&one, &z));
    assert_eq!(one.widen(), 1u128);
    assert_eq!(u128::MAX.saturating_inc(), u128::MAX);
}

#[test]
fn range_enrichment_tracks_observed_spans() {
    let mut h: Histogram<u64> = Histogram::new_configured(8, None, true).unwrap();
    assert!(matches!(h.get_bucket_span(0), Ok(None)));
    h.add(512).unwrap();
    h.add(513).unwrap();
    h.add(512).unwrap();
    let idx = convert_reuse_interval_to_index(8, 512);
    let span = h.get_bucket_span(idx).unwrap().unwrap();
    assert_eq!(span.min_seen, 512);
    assert_eq!(span.max_seen, 513);
    assert_eq!(span.total, 1537);
    assert_eq!(h.get_frequency(512).unwrap(), 3);
    // a plain scalar histogram has no spans to report
    let plain: Histogram<u64> = Histogram::new_single(8);
    assert!(matches!(plain.get_bucket_span(0), Err(HistogramError::Bounds)));
}

#[test]
fn saturating_counters_stop_at_their_maximum() {
    let mut h: Histogram<u64> = Histogram::new_single(8);
    h.set_frequency_via_reuse_interval(3, u64::MAX).unwrap();
    h.add(3).unwrap();
    assert_eq!(h.get_frequency(3).unwrap(), u64::MAX);
}
