use horse_race::distribute::distribute;
use horse_race::race::{tick_horses, Horse};

#[test]
fn distribute_len_matches_entity_count() {
    for n in 0..10usize {
        assert_eq!(distribute(987654321, 4, n).len(), n);
    }
}

#[test]
fn distribute_bounds() {
    let ticks: [u128; 5] = [0, 1, 7, 123456789, u128::MAX];
    let radices: [u128; 3] = [2, 4, 10];
    for &tick in &ticks {
        for &radix in &radices {
            for inc in distribute(tick, radix, 7) {
                assert!(1 <= inc as u128 && inc as u128 <= radix);
            }
        }
    }
}

#[test]
fn distribute_deterministic() {
    let a = distribute(555444333, 4, 7);
    let b = distribute(555444333, 4, 7);
    assert_eq!(a, b);
}

#[test]
fn distribute_zero_tick_all_ones() {
    for &radix in &[2u128, 4, 255] {
        let incs = distribute(0, radix, 7);
        assert_eq!(incs, vec![1, 1, 1, 1, 1, 1, 1]);
    }
}

#[test]
fn distribute_exact_digits() {
    // 11 in base 4 is 2,3 (low digit first: 3 then 2), each shifted up by one.
    assert_eq!(distribute(11, 4, 7), vec![4, 3, 1, 1, 1, 1, 1]);
    // 27 in base 3 is 1,0,0,0 from the high end; low digits first.
    assert_eq!(distribute(27, 3, 4), vec![1, 1, 1, 2]);
}

#[test]
fn tick_horses_adds_digit_increments() {
    let mut horses: Vec<Horse> = (0..7).map(|_| Horse { advance: 10 }).collect();
    tick_horses(&mut horses, 11, 4);
    let advances: Vec<u32> = horses.iter().map(|h| h.advance).collect();
    assert_eq!(advances, vec![14, 13, 11, 11, 11, 11, 11]);
}

#[test]
fn tick_horses_monotonic_across_ticks() {
    let mut horses: Vec<Horse> = (0..7).map(|_| Horse { advance: 0 }).collect();
    let ticks: [u128; 6] = [3, 0, 99, 1_000_000_007, 42, 8];
    for &tick in &ticks {
        let before: Vec<u32> = horses.iter().map(|h| h.advance).collect();
        tick_horses(&mut horses, tick, 4);
        for i in 0..7 {
            assert!(horses[i].advance > before[i]);
            assert!(horses[i].advance <= before[i] + 4);
        }
    }
}
