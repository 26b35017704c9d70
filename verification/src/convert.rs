//! The frame clock: what goes to the encoder on each tick.
//!
//! The finished clip's timeline comes from the frame rate alone, so the clock
//! ticks at even intervals whatever the capture delivers: a new frame when
//! there is one, the last one again when there is not, and nothing before the
//! first frame ever arrived.
use vstd::prelude::*;

verus! {

/// What the capture hands the clock when nothing has arrived yet.
pub const NO_SLOT: u64 = u64::MAX;

/// The output time of the tick with this number (counting from 1), in QPC
/// ticks: evenly spaced at the frame rate, a rate of zero taken as one.
pub open spec fn tick_pts(tick: int, fps: int) -> int {
    let rate = if fps < 1 {
        1
    } else {
        fps
    };
    (tick - 1) * 10_000_000 / rate
}

/// What one tick of the clock does.
#[derive(Debug, Clone, Copy, PartialEq, Eq, Structural)]
pub enum Tick {
    /// No frame has arrived yet: there is nothing to repeat.
    Nothing,
    /// Hand the frame in `slot` to the encoder at `pts_100ns`; `duplicate`
    /// when it is the same frame as on the tick before.
    Frame { slot: u64, pts_100ns: i64, duplicate: bool },
}

/// The tick with number `tick` (counting from 1), given the capture's
/// generation counter and slot as read on it, and the generation the last
/// frame went out with. Gives the action and the generation to remember.
pub fn on_tick(tick: u64, fps: u32, generation: u64, slot: u64, last_generation: u64) -> (r: (Tick, u64))
    requires
        1 <= tick,
        (tick - 1) * 10_000_000 <= i64::MAX,
    ensures
        slot == NO_SLOT ==> r == (Tick::Nothing, last_generation),
        slot != NO_SLOT ==> r == (
            Tick::Frame {
                slot,
                pts_100ns: tick_pts(tick as int, fps as int) as i64,
                duplicate: generation == last_generation,
            },
            generation,
        ),
{
    if slot == NO_SLOT {
        return (Tick::Nothing, last_generation);
    }
    let rate: i64 = if fps < 1 {
        1
    } else {
        fps as i64
    };
    let pts = (tick - 1) as i64 * 10_000_000 / rate;
    (Tick::Frame { slot, pts_100ns: pts, duplicate: generation == last_generation }, generation)
}

/// The clock never runs backwards and never stands still: each tick goes out
/// at least as late as the one before, and a whole second of ticks spans a
/// whole second.
pub proof fn law_the_clock_is_even(tick: int, fps: int)
    requires
        1 <= tick,
        1 <= fps,
    ensures
        tick_pts(tick, fps) <= tick_pts(tick + 1, fps),
        tick_pts(tick + fps, fps) == tick_pts(tick, fps) + 10_000_000,
{
    assert((tick - 1) * 10_000_000 / fps <= tick * 10_000_000 / fps) by (nonlinear_arith)
        requires
            1 <= tick,
            1 <= fps,
    ;
    assert((tick + fps - 1) * 10_000_000 == (tick - 1) * 10_000_000 + fps * 10_000_000) by (nonlinear_arith);
    assert(10_000_000 * fps == fps * 10_000_000) by (nonlinear_arith);
    vstd::arithmetic::div_mod::lemma_hoist_over_denominator((tick - 1) * 10_000_000, 10_000_000, fps as nat);
}

} // verus!
