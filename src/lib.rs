//! Scheduling core of a transient visual effect: countdown timers, a sprite
//! frame stepper, and the spawn / animate / reap cycle over a collection of
//! live effect instances, all driven by an integer time delta in nanoseconds.
//!
//! Each tick runs in a fixed order: spawn, animate, reap (`Skills::step`).
//! Every instance animates on its own by default; `Skills::step_shared`
//! instead shows one `SharedFrame` on every live instance.

pub mod animation;
pub mod skill;
pub mod skills;
pub mod timer;
