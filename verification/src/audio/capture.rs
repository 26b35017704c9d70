//! Timestamps of captured audio blocks.
use vstd::prelude::*;

verus! {

pub const SAMPLE_RATE: u32 = 48_000;

pub const CHANNELS: usize = 2;

/// From what distance to the system clock a timestamp can no longer come from
/// that clock, in units of 100 ns. Real stamps are off by milliseconds.
pub const IMPLAUSIBLE_100NS: i64 = 20_000_000;

/// Is the device's stamp to be believed, and which stamp does the block get?
/// Returns the stamp and the verdict after this block.
pub open spec fn stamp_spec(stamped: int, now: int, trust: bool) -> (int, bool) {
    let distance = if stamped >= now { stamped - now } else { now - stamped };
    let still = trust && !(stamped != 0 && distance > IMPLAUSIBLE_100NS);
    (if still && stamped != 0 { stamped } else { now }, still)
}

/// Which timestamp applies to this block?
///
/// `stamped` is what the device reported, `now` the time read here. Not every
/// driver reports the system clock there; some count from zero, and the ring
/// would then sit on a timeline of its own. `trust` remembers the verdict on
/// the device: once lost it stays lost, since jumping between two timelines
/// would be worse than keeping the coarser one. A `0` only means "not filled
/// in" and costs no trust.
pub fn usable_stamp(stamped: i64, now: i64, trust: &mut bool) -> (r: i64)
    requires
        *old(trust) && stamped != 0 ==> i64::MIN < stamped - now <= i64::MAX,
    ensures
        (r as int, *final(trust)) == stamp_spec(stamped as int, now as int, *old(trust)),
{
    if *trust && stamped != 0 {
        let distance = stamped - now;
        let distance = if distance < 0 { -distance } else { distance };
        if distance > IMPLAUSIBLE_100NS {
            *trust = false;
        }
    }
    if *trust && stamped != 0 {
        stamped
    } else {
        now
    }
}

/// Distrust is permanent: a device that lost its trust never regains it, and
/// from then on every block is stamped with the time read here.
pub proof fn law_distrust_is_permanent(stamped: int, now: int)
    ensures
        stamp_spec(stamped, now, false) == (now, false),
{
}

} // verus!
