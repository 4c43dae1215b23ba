//! What the loop around the board decides from elapsed time: the level, the
//! interval between two falls, and when a held key acts again. All times are
//! whole milliseconds.

use crate::rules::{DAS_DELAY, DAS_SPEED, SOFT_DROP_SPEED};
use vstd::prelude::*;

verus! {

/// Seconds of play per level.
pub const SECONDS_PER_LEVEL: u64 = 15;

/// Interval between two falls at the first level.
pub const BASE_FALL_INTERVAL: u64 = 800;

/// Shortest interval between two falls.
pub const MIN_FALL_INTERVAL: u64 = 100;

/// By how much the interval between two falls shortens with each level.
pub const FALL_SPEEDUP_PER_LEVEL: u64 = 50;

/// Interval between two resolution steps.
pub const RESOLVE_INTERVAL: u64 = 150;

/// The level after `seconds_played` seconds: the first, and one more for
/// each quarter of a minute.
pub open spec fn level_at(seconds_played: nat) -> nat {
    1 + seconds_played / (SECONDS_PER_LEVEL as nat)
}

/// The interval between two falls at a level: 800 ms at the first, 50 ms
/// less with each level, never under 100 ms.
pub open spec fn fall_interval_at(level: nat) -> nat {
    if level < 1 {
        BASE_FALL_INTERVAL as nat
    } else if (level - 1) * FALL_SPEEDUP_PER_LEVEL >= BASE_FALL_INTERVAL - MIN_FALL_INTERVAL {
        MIN_FALL_INTERVAL as nat
    } else {
        (BASE_FALL_INTERVAL - (level - 1) * FALL_SPEEDUP_PER_LEVEL) as nat
    }
}

/// The time on a held direction key once `delta_ms` has been added, before
/// any repeat is taken off.
pub open spec fn held_time(timer: u64, delta_ms: u64) -> nat {
    (timer + delta_ms) as nat
}

/// How many times a direction key acts in a frame. A key that is not held
/// does not act. A key newly pressed acts once. A key held on acts once for
/// every repeat interval, begun or complete, by which its time exceeds the
/// delay and one interval.
pub open spec fn repeat_count(timer: u64, held: bool, delta_ms: u64) -> nat {
    let t = held_time(timer, delta_ms);
    if !held {
        0
    } else if timer == 0 {
        1
    } else if t > DAS_DELAY + DAS_SPEED {
        ((t - DAS_DELAY - 1) / (DAS_SPEED as int)) as nat
    } else {
        0
    }
}

/// The time on a direction key after a frame: zero when released, 1 when
/// newly pressed, else the time held less one repeat interval for each time
/// the key acted.
pub open spec fn repeat_timer(timer: u64, held: bool, delta_ms: u64) -> nat {
    if !held {
        0
    } else if timer == 0 {
        1
    } else {
        (held_time(timer, delta_ms) - DAS_SPEED * repeat_count(timer, held, delta_ms)) as nat
    }
}

/// The level after `seconds_played` seconds of play, as `level_at` defines
/// it.
pub fn level_for(seconds_played: u64) -> (level: u64)
    ensures
        level == level_at(seconds_played as nat),
        level >= 1,
{
    1 + seconds_played / SECONDS_PER_LEVEL
}

/// The interval between two falls at a level, as `fall_interval_at` defines
/// it.
pub fn fall_interval_ms(level: u64) -> (interval: u64)
    ensures
        interval == fall_interval_at(level as nat),
        MIN_FALL_INTERVAL <= interval <= BASE_FALL_INTERVAL,
{
    if level < 1 {
        return BASE_FALL_INTERVAL;
    }
    let steps = level - 1;
    if steps >= (BASE_FALL_INTERVAL - MIN_FALL_INTERVAL) / FALL_SPEEDUP_PER_LEVEL {
        MIN_FALL_INTERVAL
    } else {
        BASE_FALL_INTERVAL - steps * FALL_SPEEDUP_PER_LEVEL
    }
}

/// One frame of a direction key: the time on the key after the frame, and
/// how many times the key acts in it.
pub fn key_repeat(timer: u64, held: bool, delta_ms: u64) -> (next: (u64, u64))
    ensures
        next.0 == repeat_timer(timer, held, delta_ms),
        next.1 == repeat_count(timer, held, delta_ms),
        held && timer > 0 && held_time(timer, delta_ms) > DAS_DELAY + DAS_SPEED ==> DAS_DELAY
            < next.0 <= DAS_DELAY + DAS_SPEED,
{
    if !held {
        return (0, 0);
    }
    if timer == 0 {
        return (1, 1);
    }
    let t: u128 = timer as u128 + delta_ms as u128;
    if t > (DAS_DELAY + DAS_SPEED) as u128 {
        let count: u128 = (t - DAS_DELAY as u128 - 1) / (DAS_SPEED as u128);
        let rest: u128 = t - (DAS_SPEED as u128) * count;
        ((rest as u64), (count as u64))
    } else {
        ((t as u64), 0)
    }
}

/// One frame of the soft drop key: the time on the key after the frame, and
/// whether the piece drops a row in it. A held key drops the piece each time
/// its time passes the soft drop interval, and starts again from zero.
pub fn soft_drop_tick(timer: u64, held: bool, delta_ms: u64) -> (next: (u64, bool))
    ensures
        next.1 == (held && timer + delta_ms > SOFT_DROP_SPEED),
        next.0 == if held && timer + delta_ms <= SOFT_DROP_SPEED {
            (timer + delta_ms) as u64
        } else {
            0
        },
{
    if !held {
        return (0, false);
    }
    let t: u128 = timer as u128 + delta_ms as u128;
    if t > SOFT_DROP_SPEED as u128 {
        (0, true)
    } else {
        ((t as u64), false)
    }
}

/// The interval between two falls never grows with the level, and stays at
/// its shortest from the fifteenth level on.
pub proof fn lemma_fall_interval_shrinks(level: nat)
    ensures
        fall_interval_at(level + 1) <= fall_interval_at(level),
        level >= 15 ==> fall_interval_at(level) == MIN_FALL_INTERVAL,
        MIN_FALL_INTERVAL <= fall_interval_at(level) <= BASE_FALL_INTERVAL,
{
}

} // verus!
