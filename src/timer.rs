//! A restartable or one-shot countdown, ticked by elapsed time in nanoseconds.
use vstd::prelude::*;
use vstd::arithmetic::div_mod::{lemma_fundamental_div_mod, lemma_fundamental_div_mod_converse, lemma_mod_bound};

verus! {

/// How a timer behaves once its duration has elapsed.
#[derive(Clone, Copy, Debug, PartialEq, Eq, Structural)]
pub enum TimerMode {
    /// Stops at its duration and stays finished.
    Once,
    /// Wraps around, keeping any overshoot, and fires again.
    Repeating,
}

/// The mathematical state of a timer; all times in nanoseconds.
pub ghost struct TimerView {
    pub duration: nat,
    pub elapsed: nat,
    pub mode: TimerMode,
    pub finished: bool,
    /// How many times the duration was crossed during the last tick.
    pub times_finished: nat,
}

impl TimerView {
    /// The states a timer can be in.
    pub open spec fn wf(self) -> bool {
        &&& self.duration > 0
        &&& match self.mode {
            TimerMode::Once => {
                &&& self.elapsed <= self.duration
                &&& self.finished == (self.elapsed == self.duration)
                &&& self.times_finished <= 1
                &&& (self.times_finished == 1 ==> self.finished)
            },
            TimerMode::Repeating => {
                &&& self.elapsed < self.duration
                &&& self.finished == (self.times_finished > 0)
            },
        }
    }

    /// A timer that has just been created.
    pub open spec fn fresh(duration: nat, mode: TimerMode) -> TimerView {
        TimerView { duration, elapsed: 0, mode, finished: false, times_finished: 0 }
    }

    /// True only for the tick during which the duration was crossed.
    pub open spec fn just_finished(self) -> bool {
        self.times_finished > 0
    }

    /// The state after `dt` more nanoseconds.
    ///
    /// A one-shot timer clamps at its duration and, once finished, stays so
    /// without firing again. A repeating timer counts every crossing of its
    /// duration within `dt` and keeps the remainder as its elapsed time.
    pub open spec fn tick(self, dt: nat) -> TimerView {
        match self.mode {
            TimerMode::Once => if self.finished {
                TimerView { times_finished: 0, ..self }
            } else if self.elapsed + dt >= self.duration {
                TimerView { elapsed: self.duration, finished: true, times_finished: 1, ..self }
            } else {
                TimerView { elapsed: self.elapsed + dt, finished: false, times_finished: 0, ..self }
            },
            TimerMode::Repeating => {
                let total = (self.elapsed + dt) as int;
                TimerView {
                    elapsed: (total % (self.duration as int)) as nat,
                    finished: total / (self.duration as int) > 0,
                    times_finished: (total / (self.duration as int)) as nat,
                    ..self
                }
            },
        }
    }
}

/// A countdown timer over nanoseconds.
#[derive(Clone, Copy, Debug)]
pub struct Timer {
    duration: u64,
    elapsed: u64,
    mode: TimerMode,
    finished: bool,
    times_finished: u64,
}

impl View for Timer {
    type V = TimerView;

    closed spec fn view(&self) -> TimerView {
        TimerView {
            duration: self.duration as nat,
            elapsed: self.elapsed as nat,
            mode: self.mode,
            finished: self.finished,
            times_finished: self.times_finished as nat,
        }
    }
}

impl Timer {
    /// A timer of `duration` nanoseconds with nothing elapsed yet; a zero
    /// duration is refused.
    pub fn new(duration: u64, mode: TimerMode) -> (r: Option<Timer>)
        ensures
            r is None <==> duration == 0,
            r matches Some(t) ==> t@ == TimerView::fresh(duration as nat, mode) && t@.wf(),
    {
        if duration == 0 {
            None
        } else {
            Some(Timer { duration, elapsed: 0, mode, finished: false, times_finished: 0 })
        }
    }

    /// Advances the timer by `dt` nanoseconds.
    pub fn tick(&mut self, dt: u64)
        requires
            old(self)@.wf(),
        ensures
            final(self)@ == old(self)@.tick(dt as nat),
            final(self)@.wf(),
    {
        match self.mode {
            TimerMode::Once => {
                if self.finished {
                    self.times_finished = 0;
                } else if dt >= self.duration - self.elapsed {
                    self.elapsed = self.duration;
                    self.finished = true;
                    self.times_finished = 1;
                } else {
                    self.elapsed = self.elapsed + dt;
                    self.finished = false;
                    self.times_finished = 0;
                }
            },
            TimerMode::Repeating => {
                let total: u128 = self.elapsed as u128 + dt as u128;
                let d: u128 = self.duration as u128;
                let times: u128 = total / d;
                let rest: u128 = total % d;
                proof {
                    lemma_fundamental_div_mod(total as int, d as int);
                    lemma_mod_bound(total as int, d as int);
                    lemma_times_bounded(self.elapsed as int, dt as int, d as int, times as int, rest as int);
                }
                self.elapsed = rest as u64;
                self.times_finished = times as u64;
                self.finished = times > 0;
            },
        }
    }

    /// The configured duration in nanoseconds.
    pub fn duration(&self) -> (r: u64)
        ensures
            r == self@.duration,
    {
        self.duration
    }

    /// The time elapsed in the current period, in nanoseconds.
    pub fn elapsed(&self) -> (r: u64)
        ensures
            r == self@.elapsed,
    {
        self.elapsed
    }

    pub fn mode(&self) -> (r: TimerMode)
        ensures
            r == self@.mode,
    {
        self.mode
    }

    /// A one-shot timer that reached its duration, or a repeating timer that
    /// crossed it during the last tick.
    pub fn finished(&self) -> (r: bool)
        ensures
            r == self@.finished,
    {
        self.finished
    }

    /// Whether the last tick crossed the duration.
    pub fn just_finished(&self) -> (r: bool)
        ensures
            r == self@.just_finished(),
    {
        self.times_finished > 0
    }

    /// How many times the last tick crossed the duration.
    pub fn times_finished_this_tick(&self) -> (r: u64)
        ensures
            r == self@.times_finished,
    {
        self.times_finished
    }
}

/// Total of a sequence of time deltas.
pub open spec fn total_time(dts: Seq<nat>) -> nat
    decreases dts.len(),
{
    if dts.len() == 0 {
        0
    } else {
        dts[0] + total_time(dts.drop_first())
    }
}

/// The timer after ticking by each delta of `dts` in turn.
pub open spec fn tick_each(t: TimerView, dts: Seq<nat>) -> TimerView
    decreases dts.len(),
{
    if dts.len() == 0 {
        t
    } else {
        tick_each(t.tick(dts[0]), dts.drop_first())
    }
}

/// How many crossings the ticks by each delta of `dts` report in total.
pub open spec fn crossings(t: TimerView, dts: Seq<nat>) -> nat
    decreases dts.len(),
{
    if dts.len() == 0 {
        0
    } else {
        t.tick(dts[0]).times_finished + crossings(t.tick(dts[0]), dts.drop_first())
    }
}

/// For a one-shot timer, ticking by `dt1` and then by `dt2` leaves the same
/// elapsed time and finished state as one tick by `dt1 + dt2`.
pub proof fn lemma_once_tick_associative(t: TimerView, dt1: nat, dt2: nat)
    requires
        t.wf(),
        t.mode == TimerMode::Once,
    ensures
        t.tick(dt1).tick(dt2).elapsed == t.tick(dt1 + dt2).elapsed,
        t.tick(dt1).tick(dt2).finished == t.tick(dt1 + dt2).finished,
{
}

/// A repeating timer with some time already elapsed reports, over any
/// sequence of ticks, one crossing per whole period in the elapsed time plus
/// the deltas, and keeps the remainder.
pub proof fn lemma_repeating_crossings_from(t: TimerView, dts: Seq<nat>)
    requires
        t.wf(),
        t.mode == TimerMode::Repeating,
    ensures
        crossings(t, dts) == (t.elapsed + total_time(dts)) as int / (t.duration as int),
        tick_each(t, dts).elapsed == (t.elapsed + total_time(dts)) as int % (t.duration as int),
        tick_each(t, dts).wf(),
        tick_each(t, dts).mode == TimerMode::Repeating,
    decreases dts.len(),
{
    let d = t.duration as int;
    if dts.len() == 0 {
        lemma_fundamental_div_mod_converse(t.elapsed as int, d, 0, t.elapsed as int);
    } else {
        let first = (t.elapsed + dts[0]) as int;
        let t1 = t.tick(dts[0]);
        lemma_mod_bound(first, d);
        lemma_fundamental_div_mod(first, d);
        let q = first / d;
        assert(q >= 0) by {
            assert(first >= 0);
            vstd::arithmetic::div_mod::lemma_div_pos_is_pos(first, d);
        }
        assert(t1.wf());
        lemma_repeating_crossings_from(t1, dts.drop_first());
        let x = (t1.elapsed + total_time(dts.drop_first())) as int;
        lemma_fundamental_div_mod(x, d);
        lemma_mod_bound(x, d);
        let whole = first + total_time(dts.drop_first()) as int;
        assert(whole == (q + x / d) * d + x % d) by (nonlinear_arith)
            requires
                first == d * q + t1.elapsed,
                x == t1.elapsed + total_time(dts.drop_first()) as int,
                whole == first + total_time(dts.drop_first()) as int,
                x == d * (x / d) + x % d,
        ;
        lemma_fundamental_div_mod_converse(whole, d, q + x / d, x % d);
    }
}

/// A repeating timer started from nothing elapsed reports, over a span of
/// ticks totalling `T`, exactly `T / duration` (rounded down) crossings.
pub proof fn lemma_repeating_crossings(t: TimerView, dts: Seq<nat>)
    requires
        t.wf(),
        t.mode == TimerMode::Repeating,
        t.elapsed == 0,
    ensures
        crossings(t, dts) == total_time(dts) as int / (t.duration as int),
{
    lemma_repeating_crossings_from(t, dts);
}

/// With less than one period already elapsed, a tick of `dt` cannot cross
/// the duration more than `dt` times.
proof fn lemma_times_bounded(elapsed: int, dt: int, d: int, times: int, rest: int)
    requires
        0 <= elapsed < d,
        0 <= dt,
        0 <= times,
        0 <= rest,
        elapsed + dt == d * times + rest,
    ensures
        times <= dt,
{
    if times > dt {
        assert(d * times >= d * (dt + 1)) by (nonlinear_arith)
            requires times >= dt + 1, d > 0;
        assert(d * (dt + 1) == d * dt + d) by (nonlinear_arith);
        assert(d * dt >= dt) by (nonlinear_arith)
            requires d >= 1, dt >= 0;
    }
}

} // verus!
