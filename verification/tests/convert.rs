use clippiboy::convert::{on_tick, Tick, NO_SLOT};

#[test]
fn nothing_goes_out_before_the_first_frame() {
    assert_eq!(on_tick(1, 60, 0, NO_SLOT, u64::MAX), (Tick::Nothing, u64::MAX));
}

#[test]
fn ticks_are_evenly_spaced_and_a_repeat_is_marked() {
    // The first frame goes out at zero.
    let (first, seen) = on_tick(1, 60, 7, 2, u64::MAX);
    assert_eq!(first, Tick::Frame { slot: 2, pts_100ns: 0, duplicate: false });
    // No new frame by the next tick: the same one again, a sixtieth later.
    let (second, seen) = on_tick(2, 60, 7, 2, seen);
    assert_eq!(second, Tick::Frame { slot: 2, pts_100ns: 166_666, duplicate: true });
    assert_eq!(seen, 7);
    // A second of ticks later, a second later on the timeline.
    let (later, _) = on_tick(61, 60, 8, 0, seen);
    assert_eq!(later, Tick::Frame { slot: 0, pts_100ns: 10_000_000, duplicate: false });
}

#[test]
fn a_rate_of_zero_counts_as_one() {
    let (tick, _) = on_tick(3, 0, 1, 0, 0);
    assert_eq!(tick, Tick::Frame { slot: 0, pts_100ns: 20_000_000, duplicate: false });
}
