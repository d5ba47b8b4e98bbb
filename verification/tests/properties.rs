use hash_quality::analysis::{and_zero, average, bit_fair, buckets, bytes, Report};
use hash_quality::hashing::hash_each;
use hash_quality::sample::SAMPLE_CAP;
use hash_quality::stream::{decimate, Transforms};
use std::collections::hash_map::DefaultHasher;
use std::hash::{BuildHasher, BuildHasherDefault, Hash, Hasher};

/// A hash function whose digest is the low byte of what it was fed last.
#[derive(Clone)]
struct LowByte {
    state: u64,
}

impl Hasher for LowByte {
    fn finish(&self) -> u64 {
        self.state & 0xFF
    }

    fn write(&mut self, bytes: &[u8]) {
        if let Some(&first) = bytes.first() {
            self.state = first as u64;
        }
    }

    fn write_u64(&mut self, value: u64) {
        self.state = value;
    }
}

struct BuildLowByte;

impl BuildHasher for BuildLowByte {
    type Hasher = LowByte;

    fn build_hasher(&self) -> LowByte {
        LowByte { state: 0 }
    }
}

/// A hash function with one digest for everything.
#[derive(Clone)]
struct Constant;

impl Hasher for Constant {
    fn finish(&self) -> u64 {
        0x4242_4242_4242_4242
    }

    fn write(&mut self, _bytes: &[u8]) {}
}

struct BuildConstant;

impl BuildHasher for BuildConstant {
    type Hasher = Constant;

    fn build_hasher(&self) -> Constant {
        Constant
    }
}

fn integers() -> Vec<u64> {
    (0..1_000_000u64).collect()
}

#[test]
fn uniform_hash_scores_near_the_chi_square_expectation() {
    let good = BuildHasherDefault::<DefaultHasher>::default();
    let report = Transforms::new(&good, &integers()).plain;
    assert!(report.byte_dist > 5_000_000 && report.byte_dist < 11_000_000);
    assert!(report.buckets_dist > 850_000 && report.buckets_dist < 1_150_000);
    assert_eq!(report.byte_filled, 256);
    assert_eq!(report.buckets_filled, 4096);
    let mean = report.average.sum as f64 / (report.average.count as f64 * u64::MAX as f64);
    assert!((mean - 0.5).abs() < 0.01);
}

#[test]
fn constant_hash_fills_one_slot() {
    let items: Vec<u64> = (0..60_000).collect();
    let report = Transforms::new(&BuildConstant, &items).plain;
    assert_eq!(report.byte_filled, 1);
    assert_eq!(report.buckets_filled, 1);
    assert_eq!(report.buckets_max_collisions, 60_000);
    // expected count per bucket: 60000 / 4096 = 14
    assert_eq!(report.buckets_dist as u64, (60_000 - 14) * (60_000 - 14) + 4095 * 14 * 14);
}

#[test]
fn constant_hash_is_the_most_dispersed() {
    let good = BuildHasherDefault::<DefaultHasher>::default();
    for n in [1usize, 2, 100, 5000, 8191] {
        let items: Vec<u64> = (0..n as u64).collect();
        let constant = Transforms::new(&BuildConstant, &items).plain;
        let low = Transforms::new(&BuildLowByte, &items).plain;
        let uniform = Transforms::new(&good, &items).plain;
        assert!(low.buckets_dist <= constant.buckets_dist);
        assert!(uniform.buckets_dist <= constant.buckets_dist);
        assert!(low.byte_dist <= constant.byte_dist);
        assert!(uniform.byte_dist <= constant.byte_dist);
        assert!(constant.byte_filled <= low.byte_filled);
        assert!(constant.buckets_filled <= uniform.buckets_filled);
    }
}

#[test]
fn constant_sample_of_a_million_wraps_its_scores() {
    let report = Report::new(&vec![0u64; 1_000_000]);
    // exact deviation sums: 999755859456 for the buckets, 63750000000000 for the bytes
    assert_eq!(report.buckets_dist, 3_323_446_784);
    assert_eq!(report.byte_dist, 4_095_392_768);
    assert_eq!(report.byte_filled, 1);
    assert_eq!(report.buckets_filled, 1);
    assert_eq!(report.buckets_max_collisions, 1_000_000);
}

#[test]
fn wrapping_can_put_a_constant_sample_below_another() {
    // 17 values are expected in each bucket
    let constant = Report::new(&vec![0u64; 70_000]);
    let mut halves = vec![0u64; 35_000];
    halves.extend(vec![1u64; 35_000]);
    let split = Report::new(&halves);
    // exact deviation sums: 4898803744 and 2448803744
    assert_eq!(constant.buckets_dist, 603_836_448);
    assert_eq!(split.buckets_dist, 2_448_803_744);
}

#[test]
fn constant_hash_of_distinct_bytes_fills_eight_slots() {
    let report = Report::new(&vec![0x0102_0304_0506_0708u64; 100]);
    assert_eq!(report.byte_filled, 8);
    assert_eq!(report.buckets_filled, 1);
}

#[test]
fn bit_fairness_of_balanced_and_stuck_outputs() {
    let balanced: Vec<u64> =
        (0..1000u32).map(|i| 0x0000_0000_FFFF_FFFFu64.rotate_left(i % 64)).collect();
    assert!(bit_fair(&balanced));
    assert!(Report::new(&balanced).bit_fair);
    assert!(!bit_fair(&vec![0u64; 1000]));
    assert!(!bit_fair(&vec![u64::MAX; 1000]));
    assert!(!Report::new(&[0]).bit_fair);
    assert!(!Report::new(&[u64::MAX]).bit_fair);
    // four values one bit off are fair, five are not
    assert!(bit_fair(&[0xFFFF_FFFF, 0x7FFF_FFFF, 0x1_FFFF_FFFF, 0x7FFF_FFFF, 0x1_FFFF_FFFF]));
    assert!(!bit_fair(&[0x7FFF_FFFF, 0x7FFF_FFFF, 0x1_FFFF_FFFF, 0x7FFF_FFFF, 0x1_FFFF_FFFF]));
    // one value two bits off
    assert!(bit_fair(&[0x3FFF_FFFF]));
    // one value three bits off
    assert!(!bit_fair(&[0x1FFF_FFFF]));
}

#[test]
fn and_zero_when_the_first_value_is_zero() {
    assert_eq!(and_zero(&[0]), 1);
    assert_eq!(and_zero(&[0, u64::MAX, 17]), 1);
    let mut long = vec![u64::MAX; 1_500_000];
    long[0] = 0;
    assert_eq!(and_zero(&long), 1);
    assert_eq!(Report::new(&long).and_zero, 1);
}

#[test]
fn and_zero_when_the_and_never_reaches_zero() {
    assert_eq!(and_zero(&vec![1u64; 1_000_000]), 1_000_000);
    assert_eq!(and_zero(&vec![1u64; 1_000_001]), 1_000_000);
    assert_eq!(and_zero(&vec![0x8000_0000_0000_0001u64; 2_000_000]), 1_000_000);
    assert_eq!(and_zero(&vec![1u64; 999_999]), 999_999);
    assert_eq!(and_zero(&[1, 1, 1]), 3);
}

#[test]
fn and_zero_ignores_what_lies_beyond_the_sample() {
    let mut values = vec![1u64; 1_000_000];
    values.push(0);
    assert_eq!(and_zero(&values), 1_000_000);
    values[999_999] = 2;
    assert_eq!(and_zero(&values), 1_000_000);
    values[999_998] = 2;
    assert_eq!(and_zero(&values), 999_999);
}

#[test]
fn average_of_an_alternating_sequence_is_one_half() {
    for n in [2usize, 4, 1000, 1_000_000, 1_000_001, 3_000_000] {
        let values: Vec<u64> = (0..n).map(|i| if i % 2 == 0 { 0 } else { u64::MAX }).collect();
        let mean = average(&values);
        assert_eq!(2 * mean.sum, mean.count as u128 * u64::MAX as u128);
        assert_eq!(mean.render(), "0.500000000");
        assert_eq!(mean.sum as f64 / (mean.count as f64 * u64::MAX as f64), 0.5);
        let flipped: Vec<u64> = values.iter().map(|&v| !v).collect();
        let mean = average(&flipped);
        assert_eq!(2 * mean.sum, mean.count as u128 * u64::MAX as u128);
    }
}

#[test]
fn average_of_an_odd_alternating_sequence_is_off_by_one_value() {
    let mean = average(&[0, u64::MAX, 0]);
    assert_eq!(mean.count, 3);
    assert_eq!(mean.sum, u64::MAX as u128);
    assert_eq!(mean.render(), "0.333333333");
    let mean = average(&[u64::MAX, 0, u64::MAX]);
    assert_eq!(2 * mean.sum, 3 * u64::MAX as u128 + u64::MAX as u128);
}

#[test]
fn decimated_sample_holds_half_the_values_rounded_up() {
    for n in [0usize, 1, 2, 3, 10, 999, 1000, 999_999, 1_000_000] {
        let values = vec![5u64; n];
        let skipped = decimate(&values);
        assert_eq!(skipped.len(), (n + 1) / 2);
        assert_eq!(Report::new(&skipped).average.count as usize, (n.min(SAMPLE_CAP) + 1) / 2);
        let reports = Transforms::analyse(&values, &values);
        assert_eq!(reports.skip.average.count as usize, (n + 1) / 2);
        assert_eq!(reports.plain.average.count as usize, n);
    }
}

#[test]
fn decimated_sample_of_a_long_sequence_is_cut_at_the_cap() {
    let values = vec![5u64; 1_000_001];
    assert_eq!(Transforms::analyse(&values, &values).skip.average.count, 500_001);
    let values = vec![5u64; 2_000_000];
    assert_eq!(Transforms::analyse(&values, &values).skip.average.count, 1_000_000);
    let values = vec![5u64; 2_000_001];
    let reports = Transforms::analyse(&values, &values);
    assert_eq!(reports.skip.average.count, 1_000_000);
    assert_eq!(reports.plain.average.count, 1_000_000);
}

#[test]
fn measures_read_no_more_than_the_sample() {
    let mut values: Vec<u64> =
        (0..1_000_000u64).map(|x| x.wrapping_mul(0x9E37_79B9_7F4A_7C15)).collect();
    let short = Report::new(&values);
    values.extend(std::iter::repeat(0).take(1000));
    let long = Report::new(&values);
    assert_eq!(bytes(&values).0, 8_000_000);
    assert_eq!(buckets(&values).0, 1_000_000);
    assert_eq!(short.byte_dist, long.byte_dist);
    assert_eq!(short.byte_filled, long.byte_filled);
    assert_eq!(short.bit_fair, long.bit_fair);
    assert_eq!(short.buckets_max_collisions, long.buckets_max_collisions);
    assert_eq!(short.buckets_filled, long.buckets_filled);
    assert_eq!(short.buckets_dist, long.buckets_dist);
    assert_eq!(short.average.sum, long.average.sum);
    assert_eq!(short.average.count, long.average.count);
    assert_eq!(short.and_zero, long.and_zero);
}

#[test]
fn duplicates_of_a_hasher_do_not_depend_on_each_other() {
    let mut shared = DefaultHasher::new();
    shared.write(b"shared prefix");
    let digest_of = |item: u64| {
        let mut h = shared.clone();
        item.hash(&mut h);
        h.finish()
    };
    let (a, b) = (digest_of(1), digest_of(2));
    assert_ne!(a, b);
    assert_eq!(hash_each(&shared, &[1u64, 2]), vec![a, b]);
    assert_eq!(hash_each(&shared, &[2u64, 1]), vec![b, a]);
    assert_eq!(hash_each(&shared, &[1u64, 1, 2, 1]), vec![a, a, b, a]);

    let mut first = shared.clone();
    let mut second = shared.clone();
    first.write_u64(1);
    let second_before = second.clone().finish();
    first.write_u64(99);
    assert_eq!(second.finish(), second_before);
    second.write_u64(2);
    let mut alone = shared.clone();
    alone.write_u64(2);
    assert_eq!(second.finish(), alone.finish());
    assert_eq!(shared.finish(), second_before);
}

#[test]
fn integers_through_a_good_hash_show_every_byte_value() {
    let good = BuildHasherDefault::<DefaultHasher>::default();
    let hashed = hash_each(&good.build_hasher(), &integers());
    assert_eq!(hashed.len(), 1_000_000);
    let report = Report::new(&hashed);
    assert_eq!(report.byte_filled, 256);
    assert_eq!(report.and_zero, and_zero(&hashed));
}

#[test]
fn integers_through_a_low_byte_hash_show_little() {
    let good = BuildHasherDefault::<DefaultHasher>::default();
    let uniform = Report::new(&hash_each(&good.build_hasher(), &integers()));
    let hashed = hash_each(&BuildLowByte.build_hasher(), &integers());
    let report = Report::new(&hashed);
    // every position beyond the lowest holds the one byte value zero
    for position in 1..8 {
        let higher: Vec<u64> = hashed.iter().map(|&v| v >> (8 * position)).collect();
        assert_eq!(Report::new(&higher).byte_filled, 1);
    }
    assert_eq!(report.byte_filled, 256);
    assert_eq!(report.buckets_filled, 256);
    assert!(report.buckets_dist as u64 > 1000 * uniform.buckets_dist as u64);
    // 64 buckets hold 3907 values, 192 hold 3906, 3840 hold none; 244 are expected
    let exact: u64 = 64 * (3907 - 244) * (3907 - 244) + 192 * (3906 - 244) * (3906 - 244)
        + 3840 * 244 * 244;
    assert_eq!(report.buckets_dist as u64, exact);
}
