use water_skill::animation::{advance_frame, TOTAL_FRAMES};

#[test]
fn last_frame_wraps_to_one() {
    assert_eq!(advance_frame(TOTAL_FRAMES - 1, 1), 1);
}

#[test]
fn single_steps_skip_reserved_frame() {
    let mut f: usize = 0;
    for step in 0..200u64 {
        f = advance_frame(f, 1);
        assert_ne!(f, 0);
        assert!(f < TOTAL_FRAMES);
        assert_eq!(f as u64, 1 + step % 24);
    }
}

#[test]
fn many_steps_match_single_steps() {
    for start in 0..TOTAL_FRAMES {
        let mut f = start;
        for k in 0..60u64 {
            assert_eq!(advance_frame(start, k), f);
            f = advance_frame(f, 1);
        }
    }
}

#[test]
fn zero_steps_keep_frame() {
    assert_eq!(advance_frame(0, 0), 0);
    assert_eq!(advance_frame(7, 0), 7);
}

#[test]
fn huge_step_counts() {
    assert_eq!(advance_frame(1, u64::MAX), 1 + (u64::MAX % 24) as usize);
    assert_eq!(advance_frame(0, u64::MAX), 1 + ((u64::MAX - 1) % 24) as usize);
}
