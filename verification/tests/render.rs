use hash_quality::analysis::{Average, Report};
use hash_quality::clock::Elapsed;
use hash_quality::inspect::Test;
use hash_quality::render::{decimal_string, fraction_string};
use hash_quality::stream::Transforms;
use hash_quality::Suit;
use std::hash::{BuildHasher, Hasher};

/// A hash function that sees nothing: its digest is always zero.
#[derive(Clone)]
struct Blind;

impl Hasher for Blind {
    fn finish(&self) -> u64 {
        0
    }

    fn write(&mut self, _bytes: &[u8]) {}
}

struct BuildBlind;

impl BuildHasher for BuildBlind {
    type Hasher = Blind;

    fn build_hasher(&self) -> Blind {
        Blind
    }
}

fn sample_report() -> Report {
    Report {
        byte_dist: 7_968_750,
        byte_filled: 256,
        bit_fair: false,
        buckets_max_collisions: 301,
        buckets_filled: 4096,
        buckets_dist: 1_000_123,
        average: Average { sum: u64::MAX as u128, count: 2 },
        and_zero: 9,
        time: Elapsed { secs: 3, nanos: 45 },
    }
}

const SAMPLE_TEXT: &str = "bytes χ²:           7968750\n\
bytes completeness: 256\n\
bit fairness:       false\n\
maximal bucket:     301\n\
buckets filled:     4096\n\
buckets χ²:         1000123\n\
average:            0.500000000\n\
AND zero:           9\n\
time:               3 s. 45 ns.";

#[test]
fn decimal_string_writes_numbers() {
    assert_eq!(decimal_string(0), "0");
    assert_eq!(decimal_string(7), "7");
    assert_eq!(decimal_string(10), "10");
    assert_eq!(decimal_string(1_234_567_890), "1234567890");
    assert_eq!(decimal_string(u128::MAX), "340282366920938463463374607431768211455");
}

#[test]
fn fraction_string_has_nine_places() {
    assert_eq!(fraction_string(0), "0.000000000");
    assert_eq!(fraction_string(1), "0.000000001");
    assert_eq!(fraction_string(500_000_000), "0.500000000");
    assert_eq!(fraction_string(1_000_000_000), "1.000000000");
    assert_eq!(fraction_string(12_345_678_901), "12.345678901");
}

#[test]
fn average_renders_on_the_unit_interval() {
    assert_eq!(Average { sum: 0, count: 0 }.render(), "NaN");
    assert_eq!(Average { sum: 0, count: 3 }.render(), "0.000000000");
    assert_eq!(Average { sum: 3 * u64::MAX as u128, count: 3 }.render(), "1.000000000");
    assert_eq!(Average { sum: u64::MAX as u128, count: 3 }.render(), "0.333333333");
    assert_eq!(Average { sum: 2 * u64::MAX as u128, count: 3 }.render(), "0.666666666");
    assert_eq!(Average { sum: u64::MAX as u128 - 1, count: 1 }.render(), "0.999999999");
    assert_eq!(
        Average { sum: u128::MAX, count: 1 }.render(),
        "18446744073709551617.000000000"
    );
}

#[test]
fn elapsed_renders_seconds_and_nanoseconds() {
    assert_eq!(Elapsed { secs: 0, nanos: 0 }.render(), "0 s. 0 ns.");
    assert_eq!(Elapsed { secs: 12, nanos: 345 }.render(), "12 s. 345 ns.");
    assert_eq!(Elapsed { secs: 1, nanos: 5 }.nanoseconds(), 1_000_000_005);
}

#[test]
fn throughput_is_writes_per_second() {
    assert_eq!(Elapsed { secs: 0, nanos: 0 }.render_throughput(), "inf");
    assert_eq!(Elapsed { secs: 1, nanos: 0 }.render_throughput(), "125000000");
    assert_eq!(Elapsed { secs: 0, nanos: 250_000_000 }.render_throughput(), "500000000");
    assert_eq!(Elapsed { secs: 3, nanos: 0 }.render_throughput(), "41666666");
    assert_eq!(Elapsed { secs: 0, nanos: 1 }.render_throughput(), "125000000000000000");
}

#[test]
fn report_renders_its_lines() {
    assert_eq!(sample_report().render(), SAMPLE_TEXT);
}

#[test]
fn report_of_nothing_renders() {
    let mut report = Report::new(&[]);
    report.time = Elapsed { secs: 0, nanos: 1 };
    assert_eq!(
        report.render(),
        "bytes χ²:           0\n\
bytes completeness: 0\n\
bit fairness:       true\n\
maximal bucket:     0\n\
buckets filled:     0\n\
buckets χ²:         0\n\
average:            NaN\n\
AND zero:           0\n\
time:               0 s. 1 ns."
    );
}

fn sample_transforms() -> Transforms {
    let report = sample_report();
    Transforms {
        plain: report,
        xor: report,
        add: report,
        prime_multiply: report,
        double: report,
        had: report,
        skip: report,
    }
}

fn transforms_text() -> String {
    let mut text = String::new();
    for heading in [
        "~ plain",
        "~ XOR fold",
        "~ add fold",
        "~ multiply by prime",
        "~ double hash",
        "~ Hadamard transform",
        "~ skip every two",
    ] {
        text.push_str(heading);
        text.push('\n');
        text.push_str(SAMPLE_TEXT);
        text.push('\n');
    }
    text
}

#[test]
fn transforms_render_under_headings() {
    assert_eq!(sample_transforms().render(), transforms_text());
}

fn sample_test() -> Test {
    let transforms = sample_transforms();
    Test {
        dict: transforms,
        rand: transforms,
        ascii: transforms,
        bad_rand: transforms,
        num: transforms,
        primes: transforms,
        rehash: sample_report(),
        zero_sensitive: true,
        deterministic: false,
        workload_time: Elapsed { secs: 0, nanos: 500_000_000 },
        total_time: Elapsed { secs: 9, nanos: 1 },
        points: 0,
    }
}

fn test_text() -> String {
    let mut text = String::from("- Stream quality\n");
    for heading in [
        "[[English dictionary]]",
        "[[Random numbers]]",
        "[[Random ASCII]]",
        "[[Poor random]]",
        "[[Integers]]",
        "[[Prime numbers]]",
    ] {
        text.push_str(heading);
        text.push('\n');
        text.push_str(&transforms_text());
        text.push('\n');
    }
    text.push_str("- Rehashing quality\n");
    text.push_str(SAMPLE_TEXT);
    text.push('\n');
    text.push_str("- Properties\n");
    text.push_str("zero sensitive:     true\n");
    text.push_str("deterministic:      false\n");
    text.push_str("- Performance\n");
    text.push_str("writes/s:           250000000\n");
    text.push_str("total time:         9 s. 1 ns.\n");
    text.push_str("- Final result\n");
    text.push_str("points:             0");
    text
}

#[test]
fn test_renders_its_sections() {
    assert_eq!(sample_test().render(), test_text());
}

#[test]
fn suit_renders_every_inspection_under_its_name() {
    let mut suit = Suit::new();
    assert_eq!(suit.render(), "");
    suit.add("blind", &BuildBlind, &[], &[]);
    suit.add("blind again", &BuildBlind, &[], &[]);
    let expected = format!(
        "--- blind ---\n{}\n--- blind again ---\n{}\n",
        suit.outcome(0).render(),
        suit.outcome(1).render()
    );
    assert_eq!(suit.render(), expected);
}
