//! The engine's repeating timer, as far as the animation needs it.

use bevy::time::{Timer, TimerMode};
use std::time::Duration;
use vstd::prelude::*;

verus! {

/// `bevy::time::Timer`, the engine's timer. Verus carries values of it and
/// sees nothing inside.
#[verifier::external_type_specification]
#[verifier::external_body]
pub struct ExTimer(Timer);

/// `std::time::Duration::as_nanos`: the length of the duration in
/// nanoseconds.
pub uninterp spec fn duration_nanos(duration: Duration) -> nat;

/// `bevy::time::Timer::elapsed`, in nanoseconds.
pub uninterp spec fn timer_elapsed(timer: Timer) -> nat;

/// `bevy::time::Timer::duration`, in nanoseconds.
pub uninterp spec fn timer_duration(timer: Timer) -> nat;

/// `bevy::time::Timer::is_finished`.
pub uninterp spec fn timer_finished(timer: Timer) -> bool;

/// Whether `bevy::time::Timer::mode` is `TimerMode::Repeating`.
pub uninterp spec fn timer_repeating(timer: Timer) -> bool;

/// `bevy::time::Timer::is_paused`.
pub uninterp spec fn timer_paused(timer: Timer) -> bool;

/// What the animation reads of a timer: the time gone by since it last
/// wrapped, the time after which it wraps, both in nanoseconds, and whether
/// the last tick made it wrap.
pub ghost struct TimerView {
    pub elapsed: nat,
    pub duration: nat,
    pub finished: bool,
}

/// The view of a timer.
pub open spec fn timer_view(timer: Timer) -> TimerView {
    TimerView {
        elapsed: timer_elapsed(timer),
        duration: timer_duration(timer),
        finished: timer_finished(timer),
    }
}

/// A timer that runs: it repeats and is not paused.
pub open spec fn timer_runs(timer: Timer) -> bool {
    timer_repeating(timer) && !timer_paused(timer)
}

/// The longest time that a `Duration` holds, in nanoseconds.
pub open spec fn longest_nanos() -> nat {
    (u64::MAX * 1_000_000_000 + 999_999_999) as nat
}

/// A timer that has just been made.
pub open spec fn fresh(duration: nat) -> TimerView {
    TimerView { elapsed: 0, duration, finished: false }
}

/// A running timer after a tick of `delta` nanoseconds. The time gone by
/// grows by `delta`, and stops at the longest duration. Where it reaches the
/// timer's duration the timer is finished for this tick and starts over with
/// what is left after taking out the whole durations, cut to 64 bits.
pub open spec fn ticked(timer: TimerView, delta: nat) -> TimerView {
    let total = if timer.elapsed + delta > longest_nanos() {
        longest_nanos()
    } else {
        timer.elapsed + delta
    };
    if total >= timer.duration {
        TimerView {
            elapsed: if timer.duration == 0 {
                0
            } else {
                (total % timer.duration) % 0x1_0000_0000_0000_0000
            },
            duration: timer.duration,
            finished: true,
        }
    } else {
        TimerView { elapsed: total, duration: timer.duration, finished: false }
    }
}

/// `std::time::Duration::from_millis`: the duration of that many
/// milliseconds.
#[verifier::external_body]
pub(crate) fn millis(count: u64) -> (duration: Duration)
    ensures
        duration_nanos(duration) == count * 1_000_000,
{
    Duration::from_millis(count)
}

/// `bevy::time::Timer::new` with `TimerMode::Repeating`: a timer of the given
/// duration that repeats, is not paused and not finished, and on which no
/// time has gone by.
#[verifier::external_body]
pub(crate) fn repeating_timer(interval: Duration) -> (timer: Timer)
    ensures
        timer_view(timer) == fresh(duration_nanos(interval)),
        timer_repeating(timer),
        !timer_paused(timer),
{
    Timer::new(interval, TimerMode::Repeating)
}

/// `bevy::time::Timer::tick` on a timer that repeats and is not paused: what
/// `ticked` says. The timer goes on repeating and is not paused.
#[verifier::external_body]
pub(crate) fn timer_tick(timer: &mut Timer, delta: Duration)
    requires
        timer_runs(*old(timer)),
    ensures
        timer_view(*final(timer)) == ticked(timer_view(*old(timer)), duration_nanos(delta)),
        timer_repeating(*final(timer)),
        !timer_paused(*final(timer)),
{
    timer.tick(delta);
}

/// `bevy::time::Timer::is_finished`: whether the last tick made the timer
/// wrap.
#[verifier::external_body]
pub(crate) fn timer_is_finished(timer: &Timer) -> (finished: bool)
    ensures
        finished == timer_finished(*timer),
{
    timer.is_finished()
}

/// `bevy::time::Timer::remaining`: the duration less the time gone by. The
/// subtraction panics where more time has gone by than the duration.
#[verifier::external_body]
pub(crate) fn timer_remaining(timer: &Timer) -> (remaining: Duration)
    requires
        timer_elapsed(*timer) <= timer_duration(*timer),
    ensures
        duration_nanos(remaining) == timer_duration(*timer) - timer_elapsed(*timer),
{
    timer.remaining()
}

} // verus!
