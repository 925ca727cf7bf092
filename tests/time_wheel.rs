use updown::{Slotted, TimingWheel};

#[test]
fn test_add() {
    let mut tw = TimingWheel::<i32>::default();
    tw.add(1, 15);
    tw.add(2, 26);
    tw.add(3, 60);
    tw.add(4, 120);

    assert_eq!(&tw.slot(15)[0], &Slotted::<i32> { val: 1, counter: 0 });
    assert_eq!(&tw.slot(26)[0], &Slotted::<i32> { val: 2, counter: 0 });
    assert_eq!(&tw.slot(0)[0], &Slotted::<i32> { val: 3, counter: 0 });
    assert_eq!(&tw.slot(0)[1], &Slotted::<i32> { val: 4, counter: 1 });

    // Ticking should affect when we schedule
    tw.tick();
    tw.add(5, 60);
    tw.add(6, 59);

    assert_eq!(&tw.slot(1)[0], &Slotted::<i32> { val: 5, counter: 0 });
    assert_eq!(&tw.slot(0)[2], &Slotted::<i32> { val: 6, counter: 0 });
}

#[test]
fn test_tick() {
    let mut tw = TimingWheel::<i32>::default();
    tw.add(1, 1);
    tw.add(2, 61);
    tw.add(3, 1);

    let ran = tw.tick();
    assert_eq!(tw.current_tick(), 1);
    assert_eq!(ran, vec![3, 1]);
    assert_eq!(tw.slot(1), &vec![Slotted { val: 2, counter: 0 }]);
}

/// Ticks `tw` until `limit` ticks have passed and returns, for each tick that
/// returned `v`, its number (the first tick is 1).
fn ticks_returning(tw: &mut TimingWheel<u32>, v: u32, limit: usize) -> Vec<usize> {
    let mut hits = Vec::new();
    for k in 1..=limit {
        let ran = tw.tick();
        for x in ran {
            if x == v {
                hits.push(k);
            }
        }
    }
    hits
}

#[test]
fn delay_sweep_fires_on_exact_tick() {
    for n in [1usize, 2, 7, 60] {
        for start in [0usize, n / 2, n - 1] {
            for d in 1..=3 * n {
                let mut tw = TimingWheel::<u32>::with_buckets(n);
                for _ in 0..start {
                    tw.tick();
                }
                tw.add(7, d);
                let hits = ticks_returning(&mut tw, 7, 4 * n + 1);
                assert_eq!(hits, vec![d], "n={} start={} d={}", n, start, d);
            }
        }
    }
}

#[test]
fn zero_delay_waits_one_full_lap() {
    for n in [1usize, 5, 60] {
        let mut tw = TimingWheel::<u32>::with_buckets(n);
        tw.tick();
        tw.add(9, 0);
        let hits = ticks_returning(&mut tw, 9, 3 * n);
        assert_eq!(hits, vec![n]);
    }
}

#[test]
fn tick_on_empty_bucket_advances_by_one() {
    let mut tw = TimingWheel::<u32>::default();
    tw.add(1, 5);
    for k in 1..=130usize {
        let before = tw.current_tick();
        let ran = tw.tick();
        assert_eq!(tw.current_tick(), (before + 1) % 60);
        if k != 5 {
            assert!(ran.is_empty());
        }
    }
    assert_eq!(tw.bucket_count(), 60);
}

#[test]
fn example_delay_fifteen() {
    let mut tw = TimingWheel::<&str>::default();
    tw.add("A", 15);
    for _ in 0..14 {
        assert!(tw.tick().is_empty());
    }
    assert_eq!(tw.tick(), vec!["A"]);
}

#[test]
fn example_delay_exact_multiple() {
    let mut tw = TimingWheel::<&str>::default();
    tw.add("B", 60);
    for _ in 0..59 {
        assert!(tw.tick().is_empty());
    }
    assert_eq!(tw.tick(), vec!["B"]);
}

#[test]
fn two_laps_keep_counter_until_last_visit() {
    let mut tw = TimingWheel::<u32>::with_buckets(4);
    tw.add(3, 9);
    assert_eq!(tw.slot(1), &vec![Slotted { val: 3, counter: 2 }]);
    assert!(tw.tick().is_empty());
    assert_eq!(tw.slot(1), &vec![Slotted { val: 3, counter: 1 }]);
    for _ in 0..4 {
        assert!(tw.tick().is_empty());
    }
    assert_eq!(tw.slot(1), &vec![Slotted { val: 3, counter: 0 }]);
    for _ in 0..3 {
        assert!(tw.tick().is_empty());
    }
    assert_eq!(tw.tick(), vec![3]);
    assert!(tw.slot(1).is_empty());
}
