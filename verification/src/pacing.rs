//! The decision loop's pacing and wind-down decisions: how long to wait
//! between ticks, and whether a release is owed when the goal is reached.

use vstd::prelude::*;

verus! {

use crate::rng::random_in_range;

/// Room permission for releasing the remaining items of a finished slot.
#[derive(Clone, Copy, Debug, PartialEq, Eq, Structural)]
pub enum ReleasePermission {
    Disabled,
    Enabled,
    Goal,
    Auto,
    AutoEnabled,
}

/// A finished slot sends the release command itself exactly when the room
/// allows manual release: on `Enabled` or `Goal`.
pub fn should_release(permission: ReleasePermission) -> (release: bool)
    ensures
        release == (permission == ReleasePermission::Enabled || permission
            == ReleasePermission::Goal),
{
    match permission {
        ReleasePermission::Enabled | ReleasePermission::Goal => true,
        _ => false,
    }
}

/// Draws the base wait, in seconds, uniformly from the configured range.
pub fn draw_wait_seconds(min_wait_time: u16, max_wait_time: u16) -> (base: u16)
    requires
        min_wait_time <= max_wait_time,
    ensures
        min_wait_time <= base <= max_wait_time,
{
    let drawn = random_in_range(min_wait_time as u64, max_wait_time as u64);
    drawn as u16
}

/// Scales a base wait by the inverse of the speed modifier: the wait in
/// milliseconds is `base * 1000 * 100 / modifier`, with the modifier in
/// hundredths, so an unboosted player (modifier 100) waits the base.
pub fn compute_wait_ms(base_seconds: u16, speed_modifier: u32) -> (ms: u64)
    requires
        speed_modifier >= 1,
    ensures
        ms == (base_seconds as int * 100_000) / (speed_modifier as int),
{
    base_seconds as u64 * 100_000 / speed_modifier as u64
}

} // verus!
