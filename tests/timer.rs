use water_skill::timer::{Timer, TimerMode};

const MS: u64 = 1_000_000;

#[test]
fn zero_duration_is_refused() {
    assert!(Timer::new(0, TimerMode::Once).is_none());
    assert!(Timer::new(0, TimerMode::Repeating).is_none());
    assert!(Timer::new(1, TimerMode::Once).is_some());
}

#[test]
fn once_tick_split_matches_single_tick() {
    let cases: [(u64, u64); 5] = [(30, 40), (60, 60), (0, 0), (100, 0), (99, 1)];
    for (dt1, dt2) in cases {
        let mut split = Timer::new(100, TimerMode::Once).unwrap();
        split.tick(dt1);
        split.tick(dt2);
        let mut whole = Timer::new(100, TimerMode::Once).unwrap();
        whole.tick(dt1 + dt2);
        assert_eq!(split.elapsed(), whole.elapsed());
        assert_eq!(split.finished(), whole.finished());
    }
}

#[test]
fn once_timer_clamps_and_stays_finished() {
    let mut t = Timer::new(3000 * MS, TimerMode::Once).unwrap();
    t.tick(2990 * MS);
    assert!(!t.finished());
    assert!(!t.just_finished());
    t.tick(20 * MS);
    assert!(t.finished());
    assert!(t.just_finished());
    assert_eq!(t.elapsed(), 3000 * MS);
    t.tick(5 * MS);
    assert!(t.finished());
    assert!(!t.just_finished());
    assert_eq!(t.elapsed(), 3000 * MS);
}

#[test]
fn repeating_counts_every_crossing() {
    let d = 50 * MS;
    let dts: [u64; 6] = [20 * MS, 130 * MS, 7 * MS, 400 * MS, 0, 43 * MS];
    let mut t = Timer::new(d, TimerMode::Repeating).unwrap();
    let mut crossings: u64 = 0;
    let mut total: u64 = 0;
    for dt in dts {
        t.tick(dt);
        crossings += t.times_finished_this_tick();
        total += dt;
        assert_eq!(crossings, total / d);
        assert_eq!(t.elapsed(), total % d);
    }
    assert_eq!(total, 600 * MS);
    assert_eq!(crossings, 12);
}

#[test]
fn repeating_multiple_crossings_in_one_tick() {
    let mut t = Timer::new(50 * MS, TimerMode::Repeating).unwrap();
    t.tick(160 * MS);
    assert_eq!(t.times_finished_this_tick(), 3);
    assert!(t.just_finished());
    assert!(t.finished());
    assert_eq!(t.elapsed(), 10 * MS);
    t.tick(10 * MS);
    assert_eq!(t.times_finished_this_tick(), 0);
    assert!(!t.just_finished());
    assert!(!t.finished());
}

#[test]
fn zero_delta_makes_no_progress() {
    let mut t = Timer::new(50 * MS, TimerMode::Repeating).unwrap();
    t.tick(20 * MS);
    t.tick(0);
    assert_eq!(t.elapsed(), 20 * MS);
    assert!(!t.just_finished());
    let mut o = Timer::new(50 * MS, TimerMode::Once).unwrap();
    o.tick(0);
    assert_eq!(o.elapsed(), 0);
    assert!(!o.finished());
}

#[test]
fn largest_delta_does_not_overflow() {
    let mut t = Timer::new(1, TimerMode::Repeating).unwrap();
    t.tick(u64::MAX);
    assert_eq!(t.times_finished_this_tick(), u64::MAX);
    assert_eq!(t.elapsed(), 0);
    let mut r = Timer::new(u64::MAX, TimerMode::Repeating).unwrap();
    r.tick(u64::MAX - 1);
    r.tick(u64::MAX);
    assert_eq!(r.times_finished_this_tick(), 1);
    assert_eq!(r.elapsed(), u64::MAX - 1);
    let mut o = Timer::new(10, TimerMode::Once).unwrap();
    o.tick(5);
    o.tick(u64::MAX);
    assert!(o.finished());
    assert_eq!(o.elapsed(), 10);
}
