use hash_quality::rng::{push_drawn, BadRand, RandIter, BAD_RAND_SEED};

#[test]
fn bad_rand_first_values() {
    let mut source = BadRand::new();
    assert_eq!(source.next(), Some(0x03B7_D315_892E_38B5));
    assert_eq!(source.next(), Some(0x03B7_D315_892E_3835));
    assert_eq!(source.next(), Some(0x03B7_D315_892E_37B5));
}

#[test]
fn bad_rand_follows_its_formula() {
    let mut source = BadRand::new();
    let mut state = BAD_RAND_SEED;
    for _ in 0..1000 {
        state = state.wrapping_add(1);
        let expected = (state ^ 0xD00D_D00D_D000_DD0F).rotate_left(7).wrapping_add(0x2947_ABCD);
        assert_eq!(source.next(), Some(expected));
    }
}

#[test]
fn bad_rand_take_continues_the_sequence() {
    let mut one_by_one = BadRand::new();
    let mut at_once = BadRand::new();
    let first = at_once.take(5);
    let second = at_once.take(3);
    assert_eq!(first.len(), 5);
    assert_eq!(second.len(), 3);
    for value in first.iter().chain(second.iter()) {
        assert_eq!(one_by_one.next(), Some(*value));
    }
    assert_eq!(BadRand::new().take(0), Vec::<u64>::new());
}

#[test]
fn bad_rand_copies_are_independent() {
    let mut source = BadRand::new();
    let mut copy = source;
    assert_eq!(source.next(), copy.next());
    source.next();
    assert_eq!(copy.next(), Some(0x03B7_D315_892E_3835));
}

#[test]
fn rand_iter_stays_within_the_limit() {
    let mut numbers = RandIter::<u64>::new();
    let mut chars = RandIter::<char>::new();
    for limit in 0..50usize {
        assert!(numbers.take(limit).len() <= limit);
        assert!(chars.take(limit).len() <= limit);
    }
}

#[test]
fn rand_iter_gives_values_and_ends() {
    let mut numbers = RandIter::<u64>::new();
    let mut values = 0;
    let mut ends = 0;
    for _ in 0..2000 {
        match numbers.next() {
            Some(_) => values += 1,
            None => ends += 1,
        }
    }
    assert!(values > 0);
    assert!(ends > 0);
    let mut chars = RandIter::<char>::new();
    let mut seen = false;
    for _ in 0..2000 {
        seen = seen || chars.next().is_some();
    }
    assert!(seen);
}

#[test]
fn push_drawn_appends_values_and_stops_at_the_end() {
    let mut drawn = vec![4u64];
    assert!(push_drawn(&mut drawn, Some(9)));
    assert_eq!(drawn, vec![4, 9]);
    assert!(!push_drawn(&mut drawn, None));
    assert_eq!(drawn, vec![4, 9]);
    assert!(push_drawn(&mut drawn, Some(0)));
    assert_eq!(drawn, vec![4, 9, 0]);
    let mut letters: Vec<char> = Vec::new();
    assert!(!push_drawn(&mut letters, None));
    assert!(letters.is_empty());
    assert!(push_drawn(&mut letters, Some('x')));
    assert_eq!(letters, vec!['x']);
}
