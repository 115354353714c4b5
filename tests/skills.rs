use water_skill::skill::{Point3, WaterSkill, ANIMATION_STEP_NANOS, LIFETIME_NANOS};
use water_skill::skills::Skills;
use water_skill::timer::TimerMode;

const MS: u64 = 1_000_000;

fn origin() -> Option<Point3> {
    Some(Point3::new(0, 0, 0))
}

#[test]
fn spawn_at_avatar_plus_offset() {
    let mut skills = Skills::new();
    let id = skills.spawn_skill(true, origin()).unwrap();
    let s = skills.get(id).unwrap();
    assert_eq!(s.position, Point3::new(1000, 1000, 0));
    assert_eq!(s.frame_index, 1);
    assert_eq!(s.animation_timer.duration(), 50 * MS);
    assert_eq!(s.animation_timer.mode(), TimerMode::Repeating);
    assert_eq!(s.lifetime.duration(), 3000 * MS);
    assert_eq!(s.lifetime.mode(), TimerMode::Once);
    assert_eq!(ANIMATION_STEP_NANOS, 50 * MS);
    assert_eq!(LIFETIME_NANOS, 3000 * MS);
    assert_eq!(skills.len(), 1);
}

#[test]
fn no_spawn_without_trigger_or_avatar() {
    let mut skills = Skills::new();
    assert_eq!(skills.spawn_skill(false, origin()), None);
    assert_eq!(skills.spawn_skill(true, None), None);
    assert_eq!(skills.len(), 0);
    assert!(skills.ids().is_empty());
}

#[test]
fn no_spawn_when_position_overflows() {
    let mut skills = Skills::new();
    assert_eq!(skills.spawn_skill(true, Some(Point3::new(i64::MAX, 0, 0))), None);
    assert_eq!(skills.len(), 0);
    let id = skills.spawn_skill(true, Some(Point3::new(i64::MAX - 1000, -5, i64::MAX))).unwrap();
    assert_eq!(skills.get(id).unwrap().position, Point3::new(i64::MAX, 995, i64::MAX));
}

#[test]
fn spawn_does_not_follow_avatar() {
    let mut skills = Skills::new();
    let id = skills.spawn_skill(true, Some(Point3::new(2000, 500, -3000))).unwrap();
    skills.step(100 * MS, false, Some(Point3::new(9000, 9000, 9000)));
    assert_eq!(skills.get(id).unwrap().position, Point3::new(3000, 1500, -3000));
}

#[test]
fn twenty_four_steps_wrap_back_to_frame_one() {
    let mut skills = Skills::new();
    let id = skills.spawn_skill(true, origin()).unwrap();
    let mut seen = Vec::new();
    for _ in 0..24 {
        skills.animate_skills(50 * MS);
        seen.push(skills.get(id).unwrap().frame_index);
    }
    let expected: Vec<usize> = (2..25).chain(1..2).collect();
    assert_eq!(seen, expected);
    assert_eq!(skills.get(id).unwrap().frame_index, 1);
}

#[test]
fn one_step_per_firing_within_one_tick() {
    let mut skills = Skills::new();
    let id = skills.spawn_skill(true, origin()).unwrap();
    skills.animate_skills(175 * MS);
    let s = skills.get(id).unwrap();
    assert_eq!(s.frame_index, 4);
    assert_eq!(s.animation_timer.elapsed(), 25 * MS);
}

#[test]
fn lifetime_reaping_is_exact() {
    let mut skills = Skills::new();
    let id = skills.spawn_skill(true, origin()).unwrap();
    for _ in 0..299 {
        skills.step(10 * MS, false, origin());
        assert!(skills.get(id).is_some());
    }
    assert_eq!(skills.get(id).unwrap().lifetime.elapsed(), 2990 * MS);
    skills.step(20 * MS, false, origin());
    assert!(skills.get(id).is_none());
    assert_eq!(skills.len(), 0);
}

#[test]
fn reaped_exactly_at_lifetime() {
    let mut skills = Skills::new();
    let id = skills.spawn_skill(true, origin()).unwrap();
    skills.despawn_skills(2999 * MS);
    assert!(skills.get(id).is_some());
    skills.despawn_skills(MS);
    assert!(skills.get(id).is_none());
}

#[test]
fn two_spawns_are_independent() {
    let mut skills = Skills::new();
    let a = skills.step(0, true, origin()).unwrap();
    skills.step(100 * MS, false, origin());
    let b = skills.step(50 * MS, true, Some(Point3::new(4000, 0, 0))).unwrap();
    assert_ne!(a, b);
    assert_eq!(skills.ids(), vec![a, b]);
    let sa = skills.get(a).unwrap();
    let sb = skills.get(b).unwrap();
    assert_eq!(sa.frame_index, 4);
    assert_eq!(sb.frame_index, 2);
    assert_eq!(sa.lifetime.elapsed(), 150 * MS);
    assert_eq!(sb.lifetime.elapsed(), 50 * MS);
    assert_eq!(sb.position, Point3::new(5000, 1000, 0));
    skills.step(2850 * MS, false, origin());
    assert!(skills.get(a).is_none());
    assert!(skills.get(b).is_some());
    assert_eq!(skills.ids(), vec![b]);
    skills.step(100 * MS, false, origin());
    assert_eq!(skills.len(), 0);
}

#[test]
fn identifiers_are_never_reused() {
    let mut skills = Skills::new();
    let a = skills.spawn_skill(true, origin()).unwrap();
    skills.despawn_skills(LIFETIME_NANOS);
    assert_eq!(skills.len(), 0);
    let b = skills.spawn_skill(true, origin()).unwrap();
    assert!(b > a);
}

#[test]
fn new_instance_record() {
    let s = WaterSkill::new(Point3::new(1, 2, 3));
    assert_eq!(s.frame_index, 1);
    assert_eq!(s.lifetime.elapsed(), 0);
    assert!(!s.lifetime.finished());
    let mut t = s;
    assert!(!t.age(LIFETIME_NANOS - 1));
    assert!(t.age(1));
}
