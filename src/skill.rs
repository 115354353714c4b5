//! One live effect instance: where it was spawned, its animation cadence,
//! its lifetime and its current sprite frame.
use vstd::prelude::*;
use crate::animation::{advance_frame, advance_frames, lemma_advance_never_reserved, TOTAL_FRAMES};
use crate::timer::{Timer, TimerMode, TimerView};

verus! {

/// Nanoseconds between two animation frames.
pub const ANIMATION_STEP_NANOS: u64 = 50_000_000;

/// Nanoseconds an instance lives.
pub const LIFETIME_NANOS: u64 = 3_000_000_000;

/// Position units per world unit: positions are fixed-point thousandths.
pub const POSITION_SCALE: i64 = 1000;

/// Offset of a new instance from the avatar, in position units.
pub const SPAWN_OFFSET_X: i64 = 1000;

pub const SPAWN_OFFSET_Y: i64 = 1000;

pub const SPAWN_OFFSET_Z: i64 = 0;

/// A point in space, each coordinate in thousandths of a world unit.
#[derive(Clone, Copy, Debug, PartialEq, Eq, Structural)]
pub struct Point3 {
    pub x: i64,
    pub y: i64,
    pub z: i64,
}

/// Whether `a + b` is representable, coordinate by coordinate.
pub open spec fn sum_fits(a: Point3, b: Point3) -> bool {
    &&& i64::MIN <= a.x + b.x <= i64::MAX
    &&& i64::MIN <= a.y + b.y <= i64::MAX
    &&& i64::MIN <= a.z + b.z <= i64::MAX
}

/// The coordinate-wise sum of two points that `sum_fits`.
pub open spec fn point_sum(a: Point3, b: Point3) -> Point3 {
    Point3 { x: (a.x + b.x) as i64, y: (a.y + b.y) as i64, z: (a.z + b.z) as i64 }
}

/// Offset of a new instance from the avatar.
pub open spec fn spec_spawn_offset() -> Point3 {
    Point3 { x: SPAWN_OFFSET_X, y: SPAWN_OFFSET_Y, z: SPAWN_OFFSET_Z }
}

impl Point3 {
    pub fn new(x: i64, y: i64, z: i64) -> (r: Point3)
        ensures
            r == (Point3 { x, y, z }),
    {
        Point3 { x, y, z }
    }

    /// This point moved by `by`, or `None` where a coordinate would overflow.
    pub fn checked_add(&self, by: &Point3) -> (r: Option<Point3>)
        ensures
            r is Some <==> sum_fits(*self, *by),
            r matches Some(p) ==> p == point_sum(*self, *by),
    {
        let x = self.x.checked_add(by.x);
        let y = self.y.checked_add(by.y);
        let z = self.z.checked_add(by.z);
        match (x, y, z) {
            (Some(x), Some(y), Some(z)) => Some(Point3 { x, y, z }),
            _ => None,
        }
    }
}

/// Offset of a new instance from the avatar.
pub fn spawn_offset() -> (r: Point3)
    ensures
        r == spec_spawn_offset(),
{
    Point3 { x: SPAWN_OFFSET_X, y: SPAWN_OFFSET_Y, z: SPAWN_OFFSET_Z }
}

/// The mathematical state of an effect instance.
pub ghost struct SkillView {
    pub position: Point3,
    pub animation: TimerView,
    pub lifetime: TimerView,
    pub frame: nat,
}

impl SkillView {
    /// A repeating animation timer, a one-shot lifetime and a frame of the grid.
    pub open spec fn wf(self) -> bool {
        &&& self.animation.wf()
        &&& self.animation.mode == TimerMode::Repeating
        &&& self.lifetime.wf()
        &&& self.lifetime.mode == TimerMode::Once
        &&& self.frame < TOTAL_FRAMES
    }

    /// A new instance at `position`, on frame 1, with fresh timers.
    pub open spec fn fresh(position: Point3) -> SkillView {
        SkillView {
            position,
            animation: TimerView::fresh(ANIMATION_STEP_NANOS as nat, TimerMode::Repeating),
            lifetime: TimerView::fresh(LIFETIME_NANOS as nat, TimerMode::Once),
            frame: 1,
        }
    }

    /// The animation timer ticked by `dt`, with one frame step per crossing.
    pub open spec fn animate(self, dt: nat) -> SkillView {
        let a = self.animation.tick(dt);
        SkillView { animation: a, frame: advance_frames(self.frame, a.times_finished), ..self }
    }

    /// The lifetime timer ticked by `dt`.
    pub open spec fn age(self, dt: nat) -> SkillView {
        SkillView { lifetime: self.lifetime.tick(dt), ..self }
    }

    /// Whether the lifetime has run out.
    pub open spec fn expired(self) -> bool {
        self.lifetime.finished
    }
}

/// A live effect instance.
#[derive(Clone, Copy, Debug)]
pub struct WaterSkill {
    /// Where it was spawned; it does not follow the avatar.
    pub position: Point3,
    pub animation_timer: Timer,
    pub lifetime: Timer,
    /// The current cell of the sprite grid.
    pub frame_index: usize,
}

impl View for WaterSkill {
    type V = SkillView;

    open spec fn view(&self) -> SkillView {
        SkillView {
            position: self.position,
            animation: self.animation_timer@,
            lifetime: self.lifetime@,
            frame: self.frame_index as nat,
        }
    }
}

impl WaterSkill {
    /// A new instance at `position`, on frame 1, with an animation timer that
    /// repeats every `ANIMATION_STEP_NANOS` and a one-shot lifetime of
    /// `LIFETIME_NANOS`.
    pub fn new(position: Point3) -> (r: WaterSkill)
        ensures
            r@ == SkillView::fresh(position),
            r@.wf(),
    {
        let animation_timer = match Timer::new(ANIMATION_STEP_NANOS, TimerMode::Repeating) {
            Some(t) => t,
            None => vstd::pervasive::unreached(),
        };
        let lifetime = match Timer::new(LIFETIME_NANOS, TimerMode::Once) {
            Some(t) => t,
            None => vstd::pervasive::unreached(),
        };
        WaterSkill { position, animation_timer, lifetime, frame_index: 1 }
    }

    /// Ticks the animation timer by `dt` and steps the frame once for each
    /// time the timer fired.
    pub fn animate(&mut self, dt: u64)
        requires
            old(self)@.wf(),
        ensures
            final(self)@ == old(self)@.animate(dt as nat),
            final(self)@.wf(),
    {
        self.animation_timer.tick(dt);
        let fired = self.animation_timer.times_finished_this_tick();
        self.frame_index = advance_frame(self.frame_index, fired);
    }

    /// Ticks the lifetime timer by `dt`; returns whether it has run out.
    pub fn age(&mut self, dt: u64) -> (expired: bool)
        requires
            old(self)@.wf(),
        ensures
            final(self)@ == old(self)@.age(dt as nat),
            final(self)@.wf(),
            expired == final(self)@.expired(),
    {
        self.lifetime.tick(dt);
        self.lifetime.finished()
    }
}

/// The mathematical state of a frame shared by every live instance.
pub ghost struct SharedFrameView {
    pub animation: TimerView,
    pub frame: nat,
}

impl SharedFrameView {
    pub open spec fn wf(self) -> bool {
        &&& self.animation.wf()
        &&& self.animation.mode == TimerMode::Repeating
        &&& self.frame < TOTAL_FRAMES
    }

    /// The animation timer ticked by `dt`, with one frame step per crossing.
    pub open spec fn animate(self, dt: nat) -> SharedFrameView {
        let a = self.animation.tick(dt);
        SharedFrameView { animation: a, frame: advance_frames(self.frame, a.times_finished) }
    }
}

/// One animation frame for all instances at once: the alternative to each
/// instance animating on its own, where every live instance shows the same
/// cell of the grid.
#[derive(Clone, Copy, Debug)]
pub struct SharedFrame {
    pub animation_timer: Timer,
    pub frame_index: usize,
}

impl View for SharedFrame {
    type V = SharedFrameView;

    open spec fn view(&self) -> SharedFrameView {
        SharedFrameView { animation: self.animation_timer@, frame: self.frame_index as nat }
    }
}

impl SharedFrame {
    /// Frame 1, with an animation timer that repeats every
    /// `ANIMATION_STEP_NANOS`.
    pub fn new() -> (r: SharedFrame)
        ensures
            r@ == (SharedFrameView {
                animation: TimerView::fresh(ANIMATION_STEP_NANOS as nat, TimerMode::Repeating),
                frame: 1,
            }),
            r@.wf(),
    {
        let animation_timer = match Timer::new(ANIMATION_STEP_NANOS, TimerMode::Repeating) {
            Some(t) => t,
            None => vstd::pervasive::unreached(),
        };
        SharedFrame { animation_timer, frame_index: 1 }
    }

    /// Ticks the timer by `dt` and steps the frame once for each firing.
    pub fn animate(&mut self, dt: u64)
        requires
            old(self)@.wf(),
        ensures
            final(self)@ == old(self)@.animate(dt as nat),
            final(self)@.wf(),
    {
        self.animation_timer.tick(dt);
        let fired = self.animation_timer.times_finished_this_tick();
        self.frame_index = advance_frame(self.frame_index, fired);
    }
}

/// Animating a valid instance by any positive number of steps never shows the
/// reserved frame.
pub proof fn lemma_animate_frame_valid(s: SkillView, dt: nat)
    requires
        s.wf(),
    ensures
        s.animate(dt).wf(),
        s.animate(dt).animation.just_finished() ==> 1 <= s.animate(dt).frame < TOTAL_FRAMES,
        !s.animate(dt).animation.just_finished() ==> s.animate(dt).frame == s.frame,
{
    let a = s.animation.tick(dt);
    if a.times_finished > 0 {
        lemma_advance_never_reserved(s.frame, a.times_finished);
    }
}

} // verus!
