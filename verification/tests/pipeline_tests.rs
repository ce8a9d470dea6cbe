use decomposition::codec::{histogram_from_lines, histogram_to_lines, parse_decimal, format_decimal};
use decomposition::distribution::Distribution;
use decomposition::histogram::Histogram;
use decomposition::{Decomposer, HistogramError};

fn line(s: &str) -> Vec<u8> {
    s.as_bytes().to_vec()
}

/// A small serialized histogram in the file format: precision 8, a count of
/// 14592 buckets, and the leading bucket frequencies 1, 2, 3, 4, 3, 2, 1, 0.
fn test_hist_lines() -> Vec<Vec<u8>> {
    vec![
        line("8"),
        line("14592"),
        line("1"),
        line("2"),
        line("3"),
        line("4"),
        line("3"),
        line("2"),
        line("1"),
        line("0"),
    ]
}

#[test]
fn cycle_it_works() {
    assert_eq!(2 + 2, 4);
}

#[test]
fn lib_it_works() {
    assert_eq!(2 + 2, 4);
}

#[test]
fn distribution_create_distribution_ssh() {
    let lines = vec![
        line("8"),
        line("14592"),
        line("00"),
        line("6750181113855227"),
        line("156526102"),
    ];
    let histrogram: Histogram<u128> = histogram_from_lines(&lines).unwrap();
    let _distribution: Distribution = Distribution::build(histrogram);
    assert!(true);
}

#[test]
fn distribution_create_distribution_test() {
    let histrogram: Histogram<u128> = histogram_from_lines(&test_hist_lines()).unwrap();
    let _distribution: Distribution = Distribution::build(histrogram);
    assert!(true);
}

#[test]
fn distribution_distribution_values_test() {
    let histrogram: Histogram<u128> = histogram_from_lines(&test_hist_lines()).unwrap();
    let distribution: Distribution = Distribution::build(histrogram);

    let num_of_bins: usize = 14592;

    let p = distribution.get_probability(0).unwrap();
    let recieved_answer: f32 = p.numerator as f32 / p.denominator as f32;
    let expected_answer: f32 = 1.0 / num_of_bins as f32;

    assert_eq!(recieved_answer, expected_answer);

    let p = distribution.get_probability(3).unwrap();
    let recieved_answer: f32 = p.numerator as f32 / p.denominator as f32;
    let expected_answer: f32 = 4.0 / num_of_bins as f32;

    assert_eq!(recieved_answer, expected_answer);

    let p = distribution.get_probability(10).unwrap();
    let recieved_answer: f32 = p.numerator as f32 / p.denominator as f32;
    let expected_answer: f32 = 0.0 / num_of_bins as f32;

    assert_eq!(recieved_answer, expected_answer);
}

#[test]
fn integration_tests_create_distribution_ssh() {
    let lines = vec![line("8"), line("14592"), line("00"), line("6750181113855227")];
    let histrogram: Histogram<u128> = histogram_from_lines(&lines).unwrap();
    let _distribution: Distribution = Distribution::build(histrogram);
    assert!(true);
}

#[test]
fn integration_tests_create_distribution_test() {
    let histrogram: Histogram<u128> = histogram_from_lines(&test_hist_lines()).unwrap();
    let _distribution: Distribution = Distribution::build(histrogram);
    assert!(true);
}

#[test]
fn integration_tests_distribution_values_test() {
    let histrogram: Histogram<u128> = histogram_from_lines(&test_hist_lines()).unwrap();
    let distribution: Distribution = Distribution::build(histrogram);

    let num_of_bins: usize = 14592;

    let p = distribution.get_probability(0).unwrap();
    let recieved_answer: f32 = p.numerator as f32 / p.denominator as f32;
    let expected_answer: f32 = 1.0 / num_of_bins as f32;

    assert_eq!(recieved_answer, expected_answer);

    let p = distribution.get_probability(3).unwrap();
    let recieved_answer: f32 = p.numerator as f32 / p.denominator as f32;
    let expected_answer: f32 = 4.0 / num_of_bins as f32;

    assert_eq!(recieved_answer, expected_answer);

    let p = distribution.get_probability(10).unwrap();
    let recieved_answer: f32 = p.numerator as f32 / p.denominator as f32;
    let expected_answer: f32 = 0.0 / num_of_bins as f32;

    assert_eq!(recieved_answer, expected_answer);
}

#[test]
fn distribution_add_values_test() {
    let histrogram: Histogram<u128> = histogram_from_lines(&test_hist_lines()).unwrap();
    let mut distribution: Distribution = Distribution::build(histrogram);

    distribution.add_by_index(0).unwrap();
    distribution.add_by_index(3).unwrap();
    distribution.add_by_index(10).unwrap();
    let num_of_bins: usize = 14592;

    let p = distribution.get_probability(0).unwrap();
    let recieved_answer: f32 = p.numerator as f32 / p.denominator as f32;
    let expected_answer: f32 = 2.0 / num_of_bins as f32;

    assert_eq!(recieved_answer, expected_answer);

    let p = distribution.get_probability(3).unwrap();
    let recieved_answer: f32 = p.numerator as f32 / p.denominator as f32;
    let expected_answer: f32 = 5.0 / num_of_bins as f32;

    assert_eq!(recieved_answer, expected_answer);

    let p = distribution.get_probability(10).unwrap();
    let recieved_answer: f32 = p.numerator as f32 / p.denominator as f32;
    let expected_answer: f32 = 1.0 / num_of_bins as f32;

    assert_eq!(recieved_answer, expected_answer);
}

#[test]
fn distribution_numerators_are_exact() {
    let histrogram: Histogram<u128> = histogram_from_lines(&test_hist_lines()).unwrap();
    let mut distribution: Distribution = Distribution::build(histrogram);

    assert_eq!(distribution.get_probability(0).unwrap().numerator, 1);
    assert_eq!(distribution.get_probability(3).unwrap().numerator, 4);
    assert_eq!(distribution.get_probability(10).unwrap().numerator, 0);
    assert_eq!(distribution.get_probability(0).unwrap().denominator, 14592);
    assert_eq!(
        distribution.get_probability(14592).unwrap_err(),
        HistogramError::Bounds
    );

    distribution.add_by_index(10).unwrap();
    assert_eq!(distribution.get_probability(10).unwrap().numerator, 1);
    assert_eq!(distribution.get_distribution()[3], 4);
}

#[test]
fn cycle_derivation_from_test_histogram() {
    let histrogram: Histogram<u128> = histogram_from_lines(&test_hist_lines()).unwrap();
    let decomposer = Decomposer::initialize(histrogram);

    assert_eq!(decomposer.cycles().len(), 14592);
    // bucket 3 has probability 4 / 14592, so floor(3 * 4 / 14592) == 0
    assert_eq!(decomposer.cycles()[3].periodicity, 3);
    assert_eq!(decomposer.cycles()[3].data_size, 0);
    assert_eq!(decomposer.cycles()[14591].periodicity, 14591);
}

#[test]
fn cycle_data_size_scales_the_index() {
    // one bucket out of 128 (precision 1) with a large counter: bucket 5
    // holds 261 observations, so floor(5 * 261 / 128) == 10.
    let mut h: Histogram<u128> = Histogram::new_single(1);
    h.set_frequency_via_index(5, 261).unwrap();
    let decomposer = Decomposer::initialize(h);
    assert_eq!(decomposer.cycles().len(), 128);
    assert_eq!(decomposer.cycles()[5].data_size, 10);
    assert_eq!(decomposer.cycles()[5].periodicity, 5);
    assert_eq!(decomposer.cycles()[4].data_size, 0);
}

#[test]
fn cycle_build_pairs_its_arguments() {
    let c = decomposition::cycle::Cycle::build(7, 9);
    assert_eq!(c.data_size, 7);
    assert_eq!(c.periodicity, 9);
}

#[test]
fn lines_round_trip_reproduces_the_histogram() {
    let mut h: Histogram<u128> = Histogram::new_single(2);
    h.add(0).unwrap();
    h.add(5).unwrap();
    h.add(5).unwrap();
    h.set_frequency_via_index(200, 340282366920938463463374607431768211455).unwrap();
    let lines = histogram_to_lines(&h);
    assert_eq!(lines.len(), 2 + 252);
    let g = histogram_from_lines(&lines).unwrap();
    assert_eq!(g.get_sublog_bits(), h.get_sublog_bits());
    assert_eq!(g.get_histgram_vec(), h.get_histgram_vec());
}

#[test]
fn decimal_lines_parse_and_format_exactly() {
    assert_eq!(parse_decimal(&line("0")).unwrap(), 0);
    assert_eq!(parse_decimal(&line("00")).unwrap(), 0);
    assert_eq!(parse_decimal(&line("14592")).unwrap(), 14592);
    assert_eq!(
        parse_decimal(&line("340282366920938463463374607431768211455")).unwrap(),
        u128::MAX
    );
    assert_eq!(
        parse_decimal(&line("340282366920938463463374607431768211456")).unwrap_err(),
        HistogramError::Parse
    );
    assert_eq!(parse_decimal(&line("")).unwrap_err(), HistogramError::Parse);
    assert_eq!(parse_decimal(&line("12a")).unwrap_err(), HistogramError::Parse);
    assert_eq!(parse_decimal(&line("-4")).unwrap_err(), HistogramError::Parse);

    assert_eq!(format_decimal(0), line("0"));
    assert_eq!(format_decimal(10), line("10"));
    assert_eq!(format_decimal(6750181113855227), line("6750181113855227"));
    assert_eq!(
        format_decimal(u128::MAX),
        line("340282366920938463463374607431768211455")
    );
}

#[test]
fn malformed_lines_surface_the_right_fault() {
    // a missing precision line
    let empty: Vec<Vec<u8>> = Vec::new();
    assert!(matches!(histogram_from_lines(&empty), Err(HistogramError::Parse)));
    // a non-numeric precision
    let bad_header = vec![line("eight"), line("14592")];
    assert!(matches!(histogram_from_lines(&bad_header), Err(HistogramError::Parse)));
    // a precision no histogram can be allocated for
    let bad_precision = vec![line("63"), line("0")];
    assert!(matches!(histogram_from_lines(&bad_precision), Err(HistogramError::Config)));
    // a non-numeric frequency
    let bad_body = vec![line("1"), line("128"), line("3"), line("x")];
    assert!(matches!(histogram_from_lines(&bad_body), Err(HistogramError::Parse)));
    // more frequency lines than buckets: precision 0 has 65 buckets
    let mut overfull = vec![line("0"), line("65")];
    for _ in 0..66 {
        overfull.push(line("1"));
    }
    assert!(matches!(histogram_from_lines(&overfull), Err(HistogramError::Bounds)));
}
