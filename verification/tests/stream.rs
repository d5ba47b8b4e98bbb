use hash_quality::analysis::Report;
use hash_quality::stream::{
    add_fold, decimate, had, had_each, prime_multiply, xor_fold, StateMap, Transforms,
};
use std::hash::{BuildHasher, Hasher};

/// A hash function that multiplies what it is fed into its state.
#[derive(Clone)]
struct Multiply {
    state: u64,
}

impl Hasher for Multiply {
    fn finish(&self) -> u64 {
        self.state
    }

    fn write(&mut self, bytes: &[u8]) {
        for &b in bytes {
            self.state = (self.state ^ b as u64).wrapping_mul(0x0000_0100_0000_01B3);
        }
    }
}

struct BuildMultiply;

impl BuildHasher for BuildMultiply {
    type Hasher = Multiply;

    fn build_hasher(&self) -> Multiply {
        Multiply { state: 0xCBF2_9CE4_8422_2325 }
    }
}

fn digest(value: u64) -> u64 {
    let mut h = BuildMultiply.build_hasher();
    h.write_u64(value);
    h.finish()
}

fn same_statistics(a: &Report, b: &Report) -> bool {
    a.byte_dist == b.byte_dist && a.byte_filled == b.byte_filled && a.bit_fair == b.bit_fair
        && a.buckets_max_collisions == b.buckets_max_collisions
        && a.buckets_filled == b.buckets_filled && a.buckets_dist == b.buckets_dist
        && a.average.sum == b.average.sum && a.average.count == b.average.count
        && a.and_zero == b.and_zero
}

#[test]
fn had_known_values() {
    assert_eq!(had(0), 0);
    assert_eq!(had(1), 0x2AAA_AAAA_AAAA_AAAB);
    assert_eq!(had(2), 0xFFFF_FFFF_FFFF_FFFE);
    assert_eq!(had(0x8000_0000_0000_0000), 6);
    assert_eq!(had(u64::MAX), 0xA000_0000_0000_0000);
    assert_eq!(had(0x0123_4567_89AB_CDEF), 0xA360_0800_6000_0000);
}

#[test]
fn had_maps_distinct_values_to_distinct_values() {
    let mut seen = std::collections::HashSet::new();
    for x in 0..10_000u64 {
        assert!(seen.insert(had(x.wrapping_mul(0x9E37_79B9_7F4A_7C15))));
    }
}

#[test]
fn had_each_mixes_every_value() {
    assert_eq!(had_each(&[]), Vec::<u64>::new());
    assert_eq!(
        had_each(&[0, 1, u64::MAX]),
        vec![0, 0x2AAA_AAAA_AAAA_AAAB, 0xA000_0000_0000_0000]
    );
}

#[test]
fn xor_fold_is_a_running_xor() {
    assert_eq!(xor_fold(&[]), Vec::<u64>::new());
    assert_eq!(xor_fold(&[1, 3, 3, 8, 0]), vec![1, 2, 1, 9, 9]);
}

#[test]
fn add_fold_wraps_around() {
    assert_eq!(add_fold(&[]), Vec::<u64>::new());
    assert_eq!(add_fold(&[1, 2, 3]), vec![1, 3, 6]);
    assert_eq!(add_fold(&[u64::MAX, 2, u64::MAX]), vec![u64::MAX, 1, 0]);
}

#[test]
fn prime_multiply_wraps_around() {
    assert_eq!(
        prime_multiply(&[0, 1, 3, 0x0123_4567_89AB_CDEF]),
        vec![0, 0x1FFF_FFFF_FFFF_FFFF, 0x5FFF_FFFF_FFFF_FFFD, 0xDEDC_BA98_7654_3211]
    );
}

#[test]
fn decimate_keeps_the_even_indices() {
    assert_eq!(decimate(&[]), Vec::<u64>::new());
    assert_eq!(decimate(&[7]), vec![7]);
    assert_eq!(decimate(&[7, 8]), vec![7]);
    assert_eq!(decimate(&[10, 11, 12, 13, 14]), vec![10, 12, 14]);
    assert_eq!(decimate(&[10, 11, 12, 13, 14, 15]), vec![10, 12, 14]);
}

#[test]
fn state_map_carries_the_state() {
    let inputs = [5u64, 6, 7];
    let mut map = StateMap::new(&inputs, |state: u64, x: u64| (state + x, state * x), 1u64);
    assert_eq!(map.next(), Some(5));
    assert_eq!(map.next(), Some(36));
    assert_eq!(map.next(), Some(84));
    assert_eq!(map.next(), None);
    assert_eq!(map.next(), None);
}

#[test]
fn state_map_collect_gives_one_output_for_each_input() {
    let inputs = [5u64, 6, 7, 8];
    let mut map = StateMap::new(&inputs, |state: u64, x: u64| (state + x, state * x), 1u64);
    assert_eq!(map.next(), Some(5));
    assert_eq!(map.collect(), vec![36, 84, 152]);
    assert_eq!(map.collect(), Vec::<u64>::new());
    assert_eq!(map.next(), None);
    let mut whole = StateMap::new(&inputs, |state: u64, x: u64| (x, state), 0u64);
    assert_eq!(whole.collect(), vec![0, 5, 6, 7]);
}

#[test]
fn state_map_of_nothing_ends_at_once() {
    let inputs: [u64; 0] = [];
    let mut map = StateMap::new(&inputs, |state: bool, x: u64| (!state, x), false);
    assert_eq!(map.next(), None);
}

#[test]
fn analyse_reports_each_derived_sequence() {
    let hashed: Vec<u64> = (0..500u64).map(|x| x.wrapping_mul(0x9E37_79B9_7F4A_7C15)).collect();
    let rehashed: Vec<u64> = hashed.iter().map(|&x| !x).collect();
    let reports = Transforms::analyse(&hashed, &rehashed);
    assert!(same_statistics(&reports.plain, &Report::new(&hashed)));
    assert!(same_statistics(&reports.xor, &Report::new(&xor_fold(&hashed))));
    assert!(same_statistics(&reports.add, &Report::new(&add_fold(&hashed))));
    assert!(same_statistics(&reports.prime_multiply, &Report::new(&prime_multiply(&hashed))));
    assert!(same_statistics(&reports.double, &Report::new(&rehashed)));
    assert!(same_statistics(&reports.had, &Report::new(&had_each(&hashed))));
    assert!(same_statistics(&reports.skip, &Report::new(&decimate(&hashed))));
    assert_eq!(reports.plain.average.count, 500);
    assert_eq!(reports.skip.average.count, 250);
}

#[test]
fn new_hashes_every_item_through_a_fresh_hasher() {
    let items: Vec<u64> = (0..300).collect();
    let hashed: Vec<u64> = items.iter().map(|&x| digest(x)).collect();
    let rehashed: Vec<u64> = hashed.iter().map(|&x| digest(x)).collect();
    let reports = Transforms::new(&BuildMultiply, &items);
    let expected = Transforms::analyse(&hashed, &rehashed);
    assert!(same_statistics(&reports.plain, &expected.plain));
    assert!(same_statistics(&reports.xor, &expected.xor));
    assert!(same_statistics(&reports.add, &expected.add));
    assert!(same_statistics(&reports.prime_multiply, &expected.prime_multiply));
    assert!(same_statistics(&reports.double, &expected.double));
    assert!(same_statistics(&reports.had, &expected.had));
    assert!(same_statistics(&reports.skip, &expected.skip));
}

#[test]
fn new_takes_items_of_any_hashable_type() {
    let words = vec!["alpha".to_string(), "beta".to_string(), "gamma".to_string()];
    let reports = Transforms::new(&BuildMultiply, &words);
    assert_eq!(reports.plain.average.count, 3);
    assert_eq!(reports.double.average.count, 3);
    assert_eq!(reports.skip.average.count, 2);
    let letters = vec!['a', 'b'];
    assert_eq!(Transforms::new(&BuildMultiply, &letters).plain.average.count, 2);
    let nothing: Vec<u64> = Vec::new();
    let empty = Transforms::new(&BuildMultiply, &nothing);
    assert_eq!(empty.plain.average.count, 0);
    assert_eq!(empty.skip.average.count, 0);
}

#[test]
fn had_can_be_undone() {
    let undo = |mut x: u64| {
        x ^= (x << 1) & 0x5555_5555_5555_5555;
        x ^= (x >> 1) & 0xAAAA_AAAA_AAAA_AAAA;
        x ^= (x << 2) & 0xCCCC_CCCC_CCCC_CCCC;
        x ^= (x >> 2) & 0x3333_3333_3333_3333;
        x ^= (x << 4) & 0xF0F0_F0F0_F0F0_F0F0;
        x ^= (x >> 4) & 0x0F0F_0F0F_0F0F_0F0F;
        x ^= (x << 8) & 0xFF00_FF00_FF00_FF00;
        x ^= (x >> 8) & 0x00FF_00FF_00FF_00FF;
        x ^= (x << 16) & 0xFFFF_0000_FFFF_0000;
        x ^= (x >> 16) & 0x0000_FFFF_0000_FFFF;
        x ^= (x << 32) & 0xFFFF_FFFF_0000_0000;
        x ^= (x >> 32) & 0x0000_0000_FFFF_FFFF;
        x
    };
    for i in 0..10_000u64 {
        let x = i.wrapping_mul(0x9E37_79B9_7F4A_7C15) ^ (i << 40);
        assert_eq!(undo(had(x)), x);
        assert_eq!(had(undo(x)), x);
    }
}
