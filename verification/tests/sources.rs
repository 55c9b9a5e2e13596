use minesweeper::random::{RandomSource, Scripted, ThreadRandom};

#[test]
fn thread_random_stays_below_the_bound() {
    let mut source = ThreadRandom::new();
    for bound in 1..200u16 {
        for _ in 0..20 {
            assert!(source.below(bound) < bound);
        }
    }
    for _ in 0..100 {
        assert!(source.below(u16::MAX) < u16::MAX);
    }
}

#[test]
fn thread_random_below_one_is_zero() {
    let mut source = ThreadRandom::new();
    for _ in 0..100 {
        assert_eq!(source.below(1), 0);
    }
}

#[test]
fn thread_random_reaches_every_number_below_a_small_bound() {
    let mut source = ThreadRandom::new();
    let mut seen = [false; 4];
    for _ in 0..2000 {
        seen[source.below(4) as usize] = true;
    }
    assert_eq!(seen, [true, true, true, true]);
}

#[test]
fn scripted_deals_its_numbers_in_order() {
    let mut source = Scripted::new(vec![3, 0, 7, 2]);
    assert_eq!(source.below(10), 3);
    assert_eq!(source.below(10), 0);
    assert_eq!(source.below(10), 7);
    assert_eq!(source.below(10), 2);
}

#[test]
fn scripted_brings_large_numbers_below_the_bound() {
    let mut source = Scripted::new(vec![13, 10, 9, 65535]);
    assert_eq!(source.below(10), 3);
    assert_eq!(source.below(10), 0);
    assert_eq!(source.below(10), 9);
    assert_eq!(source.below(1), 0);
}

#[test]
fn scripted_deals_zero_when_it_has_run_out() {
    let mut source = Scripted::new(vec![5]);
    assert_eq!(source.below(8), 5);
    assert_eq!(source.below(8), 0);
    assert_eq!(source.below(8), 0);
    let mut empty = Scripted::new(Vec::new());
    assert_eq!(empty.below(3), 0);
}
