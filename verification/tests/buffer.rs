use std::sync::Arc;

use clippiboy::buffer::{EncodedPacket, ReplayBuffer, VIDEO_TRACK};

/// The tests that predate the memory budget: only the length may cut.
const NO_LIMIT: u64 = u64::MAX;

fn packet(track: u32, pts_ms: i64, keyframe: bool, size: usize) -> EncodedPacket {
    EncodedPacket {
        track,
        pts_us: pts_ms * 1000,
        duration_us: 16_666,
        keyframe,
        data: Arc::new(vec![0u8; size]),
    }
}

/// 60 fps, a keyframe every 2 s, plus one audio track.
fn fill(buf: &mut ReplayBuffer, seconds: i64) {
    for frame in 0..seconds * 60 {
        let pts_ms = frame * 1000 / 60;
        buf.push(packet(VIDEO_TRACK, pts_ms, frame % 120 == 0, 1000));
        if frame % 3 == 0 {
            buf.push(packet(1, pts_ms, false, 100));
        }
    }
}

fn buffered_seconds(buf: &ReplayBuffer) -> f32 {
    buf.buffered_us() as f32 / 1_000_000.0
}

#[test]
fn trims_to_capacity_but_keeps_a_leading_keyframe() {
    let mut buf = ReplayBuffer::new(10, NO_LIMIT);
    fill(&mut buf, 60);

    let secs = buffered_seconds(&buf);
    assert!((10.0..=12.1).contains(&secs), "buffer should hold a good 10 s, was {secs}");
    let first = buf.front().unwrap();
    assert!(first.is_video() && first.keyframe);
}

#[test]
fn snapshot_starts_on_keyframe_and_covers_request() {
    let mut buf = ReplayBuffer::new(30, NO_LIMIT);
    fill(&mut buf, 30);

    let clip = buf.snapshot(10);
    assert!(!clip.is_empty());
    assert!(clip[0].is_video() && clip[0].keyframe);

    let span = (clip.last().unwrap().pts_us - clip[0].pts_us) as f32 / 1e6;
    assert!(span >= 10.0, "clip too short: {span} s");
    assert!(span <= 12.0, "clip needlessly long: {span} s");
}

#[test]
fn shrinking_capacity_frees_memory() {
    let mut buf = ReplayBuffer::new(30, NO_LIMIT);
    fill(&mut buf, 30);
    let before = buf.bytes();
    buf.set_capacity(5, NO_LIMIT);
    assert!(buf.bytes() < before / 2, "buffer was not shrunk");
}

#[test]
fn the_memory_budget_cuts_the_buffer_short() {
    let mut buf = ReplayBuffer::new(30, 400_000);
    fill(&mut buf, 30);

    assert!(buf.bytes() <= 400_000, "the ring stayed over its budget: {} bytes", buf.bytes());
    assert!(
        buffered_seconds(&buf) < 30.0,
        "the budget should have cost some length, held {} s",
        buffered_seconds(&buf)
    );
    let first = buf.front().unwrap();
    assert!(first.is_video() && first.keyframe);
}

#[test]
fn the_budget_never_empties_the_ring() {
    let mut buf = ReplayBuffer::new(30, 1);
    fill(&mut buf, 30);

    assert!(!buf.is_empty(), "the last group of pictures has to stay");
    let first = buf.front().unwrap();
    assert!(first.is_video() && first.keyframe);
}

#[test]
fn an_unlimited_budget_leaves_the_length_in_charge() {
    let mut capped = ReplayBuffer::new(10, NO_LIMIT);
    let mut plain = ReplayBuffer::new(10, NO_LIMIT);
    fill(&mut capped, 60);
    fill(&mut plain, 60);
    assert_eq!(capped.bytes(), plain.bytes());
    assert_eq!(capped.len(), plain.len());
}

#[test]
fn a_stream_without_keyframes_still_obeys_the_memory_budget() {
    let mut buf = ReplayBuffer::new(2, 100_000);
    for frame in 0..600i64 {
        buf.push(packet(VIDEO_TRACK, frame * 1000 / 60, false, 1000));
    }
    assert!(buf.bytes() <= 100_000, "the ring grew to {} bytes with no keyframe to cut at", buf.bytes());
    assert!(!buf.is_empty(), "and it must not have thrown everything away");
}

#[test]
fn a_stream_without_keyframes_still_obeys_its_length() {
    let mut buf = ReplayBuffer::new(2, NO_LIMIT);
    for frame in 0..600i64 {
        buf.push(packet(VIDEO_TRACK, frame * 1000 / 60, false, 1000));
    }
    assert!(buf.len() <= 130, "the ring held {} packets for a two-second buffer", buf.len());
}

#[test]
fn the_floor_does_not_touch_a_ring_that_has_keyframes() {
    let mut buf = ReplayBuffer::new(30, 1);
    fill(&mut buf, 30);

    assert!(!buf.is_empty(), "the last group of pictures has to stay");
    let first = buf.front().unwrap();
    assert!(first.is_video() && first.keyframe);
    assert!(buf.bytes() > 1, "the budget was allowed to win over the last group of pictures");
}

#[test]
fn snapshot_of_empty_buffer_is_empty() {
    let buf = ReplayBuffer::new(30, NO_LIMIT);
    assert!(buf.snapshot(10).is_empty());
}

#[test]
fn a_cleared_buffer_keeps_its_limits_and_holds_nothing() {
    let mut buf = ReplayBuffer::new(30, NO_LIMIT);
    fill(&mut buf, 5);
    buf.clear();
    assert!(buf.is_empty());
    assert_eq!(buf.bytes(), 0);
    assert_eq!(buf.buffered_us(), 0);
    fill(&mut buf, 5);
    assert!(!buf.is_empty());
}

#[test]
fn a_snapshot_shares_the_packet_bytes() {
    let mut buf = ReplayBuffer::new(30, NO_LIMIT);
    fill(&mut buf, 4);
    let clip = buf.snapshot(1);
    let first = buf.front().unwrap();
    // A snapshot made from the whole ring starts where the ring does.
    let whole = buf.snapshot(30);
    assert!(Arc::ptr_eq(&whole[0].data, &first.data));
    assert!(clip.len() <= whole.len());
}

#[test]
fn a_cleared_ring_goes_on_like_a_fresh_one() {
    let mut used = ReplayBuffer::new(10, 200_000);
    fill(&mut used, 30);
    used.set_capacity(5, 150_000);
    used.clear();
    let mut fresh = ReplayBuffer::new(5, 150_000);
    fill(&mut used, 20);
    fill(&mut fresh, 20);
    assert_eq!(used.len(), fresh.len());
    assert_eq!(used.bytes(), fresh.bytes());
    assert_eq!(used.snapshot(3).len(), fresh.snapshot(3).len());
    let first = used.front().unwrap();
    assert!(first.is_video() && first.keyframe);
    assert!(used.bytes() <= 150_000);
}
