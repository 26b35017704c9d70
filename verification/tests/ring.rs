use clippiboy::audio::ring::{SampleRing, MAX_SLEW_PPM};

/// A rate where one sample lasts exactly 1000 ticks, so sample-exact checks
/// are possible.
const RATE: u32 = 10_000;

/// QPC (100 ns) for a sample position at `RATE`.
fn at(frames: i64) -> i64 {
    frames * 10_000_000 / RATE as i64
}

#[test]
fn a_window_is_read_at_its_timestamp() {
    let mut ring = SampleRing::new(RATE, 1);
    ring.write(&[1.0f32, 2.0, 3.0, 4.0], at(100));

    let mut out = vec![0.0; 2];
    ring.read_window(at(101), &mut out);
    assert_eq!(out, vec![2.0, 3.0]);
}

#[test]
fn a_window_before_the_data_is_padded_with_silence() {
    let mut ring = SampleRing::new(RATE, 1);
    ring.write(&[1.0f32, 2.0], at(10));

    let mut out = vec![9.0; 4];
    ring.read_window(at(8), &mut out);
    assert_eq!(out, vec![0.0, 0.0, 1.0, 2.0]);
}

#[test]
fn a_window_past_the_data_is_padded_with_silence() {
    let mut ring = SampleRing::new(RATE, 1);
    ring.write(&[1.0f32, 2.0], at(0));

    let mut out = vec![9.0; 4];
    ring.read_window(at(0), &mut out);
    assert_eq!(out, vec![1.0, 2.0, 0.0, 0.0]);
}

#[test]
fn a_gap_is_filled_with_silence_so_later_audio_keeps_its_place() {
    let mut ring = SampleRing::new(RATE, 1);
    ring.write(&[1.0f32], at(0));
    ring.write(&[2.0f32], at(0) + 100 * 10_000);

    let expected_position = ring.start_100ns().unwrap() + 100 * 10_000;
    let mut out = vec![0.0; 1];
    ring.read_window(expected_position, &mut out);
    assert_eq!(out, vec![2.0], "the block after the gap is in the wrong place");
}

#[test]
fn a_long_absence_restarts_the_timeline() {
    let mut ring = SampleRing::new(RATE, 1);
    ring.write(&[1.0f32], at(0));
    ring.write(&[2.0f32], at(0) + 10 * 10_000_000);

    assert_eq!(ring.start_100ns(), Some(at(0) + 10 * 10_000_000));
    let mut out = vec![0.0; 1];
    ring.read_window(at(0) + 10 * 10_000_000, &mut out);
    assert_eq!(out, vec![2.0]);
}

#[test]
fn the_oldest_material_is_dropped_and_the_start_moves_with_it() {
    let mut ring = SampleRing::new(1000, 1);
    for frame in 0..1500i64 {
        ring.write(&[0.5f32], frame * 10_000_000 / 1000);
    }
    let start = ring.start_100ns().unwrap();
    let end = ring.end_100ns().unwrap();
    assert_eq!((end - start) / 10_000, 1000, "ring does not hold 1000 ms");
}

#[test]
fn clear_empties_the_ring() {
    let mut ring = SampleRing::new(RATE, 2);
    ring.write(&[1.0f32, 2.0], 0);
    ring.clear();
    assert_eq!(ring.start_100ns(), None);
}

/// 10 ms at 48 kHz, the usual WASAPI packet.
const BLOCK: usize = 480;

/// Runs a source whose crystal is `ppm` beside QPC for `seconds`, and gives
/// back how far the ring's timeline ends up from the real clock, in ms.
fn timeline_error_ms(ppm: f64, seconds: f64) -> f64 {
    let mut ring = SampleRing::new(48_000, 1);
    let device_rate = 48_000.0 * (1.0 + ppm / 1e6);
    let block = vec![0.5f32; BLOCK];

    let mut produced = 0usize;
    let mut qpc = 0i64;
    while (produced as f64 / device_rate) < seconds {
        qpc = ((produced as f64 / device_rate) * 1e7) as i64;
        ring.write(&block, qpc);
        produced += BLOCK;
    }

    let should_end = qpc + BLOCK as i64 * 10_000_000 / 48_000;
    (ring.end_100ns().unwrap() - should_end) as f64 / 10_000.0
}

#[test]
fn a_fast_device_does_not_run_away() {
    let error = timeline_error_ms(100.0, 600.0);
    assert!(
        error.abs() < 1.0,
        "after ten minutes the timeline is {error:.1} ms off (uncorrected: about +60)"
    );
}

#[test]
fn a_slow_device_does_not_run_away() {
    let error = timeline_error_ms(-100.0, 600.0);
    assert!(error.abs() < 1.0, "after ten minutes the timeline is {error:.1} ms off");
}

#[test]
fn half_an_hour_at_a_bad_crystal_stays_put() {
    let error = timeline_error_ms(250.0, 1800.0);
    assert!(
        error.abs() < 1.0,
        "after half an hour the timeline is {error:.1} ms off (uncorrected: about +450)"
    );
}

#[test]
fn two_devices_stay_together() {
    let a = timeline_error_ms(60.0, 900.0);
    let b = timeline_error_ms(-60.0, 900.0);
    assert!(
        (a - b).abs() < 2.0,
        "after fifteen minutes the two sit {:.1} ms apart (uncorrected: about 58)",
        (a - b).abs()
    );
}

#[test]
fn a_matching_clock_is_left_alone() {
    let error = timeline_error_ms(0.0, 300.0);
    assert!(error.abs() < 0.1, "an exact clock was moved by {error:.3} ms");
}

#[test]
fn one_jittery_timestamp_barely_moves_the_timeline() {
    let mut ring = SampleRing::new(48_000, 1);
    let block = vec![0.5f32; BLOCK];
    for index in 0..200i64 {
        ring.write(&block, index * 100_000);
    }
    let before = ring.end_100ns().unwrap();

    ring.write(&block, 200 * 100_000 - 50_000);
    let followed = before + 100_000 - ring.end_100ns().unwrap();

    assert!(
        followed.abs() <= 208,
        "a stamp 5 ms out pulled the timeline {followed} ticks: jitter is being followed"
    );
}

#[test]
fn the_correction_is_capped_at_a_constant_rate() {
    let ring: SampleRing<f32> = SampleRing::new(48_000, 2);
    for frames in [48usize, 240, 480, 960, 4800] {
        let span = ring.frames_to_100ns(frames);
        let ppm = ring.max_slew_100ns(frames) * 1_000_000 / span;
        assert_eq!(ppm, MAX_SLEW_PPM, "a block of {frames} frames is capped at {ppm} ppm");
    }
    assert!(ring.max_slew_100ns(BLOCK) <= ring.frames_to_100ns(1));
}

#[test]
fn material_under_an_even_clock_moves_by_at_most_one_frame() {
    let mut ring = SampleRing::new(48_000, 1);
    let mut counter = 0f32;
    let mut block = vec![0.0f32; BLOCK];
    let mut previous: Option<f32> = None;
    let mut checked = 0;

    for index in 0..2_000i64 {
        for slot in block.iter_mut() {
            *slot = counter;
            counter += 1.0;
        }
        let jitter = if index % 2 == 0 { 20_000 } else { -20_000 };
        ring.write(&block, (index as f64 * 100_000.0 / 1.0003) as i64 + jitter);

        if index < 500 {
            continue;
        }
        let mut out = [0.0f32; 1];
        ring.read_window(index * 100_000 - 3_000_000, &mut out);
        if let Some(before) = previous {
            let advance = out[0] - before;
            assert!(
                (advance - BLOCK as f32).abs() <= 1.0,
                "block {index}: the material jumped {advance} frames instead of {BLOCK}"
            );
            checked += 1;
        }
        previous = Some(out[0]);
    }
    assert!(checked > 1_000, "only {checked} readings were checked");
}

#[test]
fn a_crooked_anchor_is_pulled_straight() {
    let mut ring = SampleRing::new(48_000, 1);
    let block = vec![0.5f32; BLOCK];

    ring.write(&block, 150_000);
    let mut qpc = 0i64;
    for index in 1..3_000i64 {
        qpc = index * 100_000;
        ring.write(&block, qpc);
    }

    let should_end = qpc + BLOCK as i64 * 10_000_000 / 48_000;
    let error = (ring.end_100ns().unwrap() - should_end) as f64 / 10_000.0;
    assert!(error.abs() < 1.0, "the anchor error is still {error:.1} ms after thirty seconds");
}

#[test]
fn a_large_overlap_restarts_the_timeline() {
    let mut ring = SampleRing::new(48_000, 1);
    let block = vec![0.5f32; BLOCK];
    ring.write(&block, 100_000_000);
    ring.write(&block, 80_000_000);

    assert_eq!(ring.start_100ns(), Some(80_000_000));
    assert_eq!(
        ring.end_100ns(),
        Some(80_000_000 + BLOCK as i64 * 10_000_000 / 48_000),
        "the restarted timeline holds one block and nothing else"
    );
}

#[test]
fn a_dropout_is_still_bridged_rather_than_slewed() {
    let mut ring = SampleRing::new(48_000, 1);
    let block = vec![0.5f32; BLOCK];
    ring.write(&block, 0);
    ring.write(&block, 2_000_000);

    let end = ring.end_100ns().unwrap();
    let should_end = 2_000_000 + BLOCK as i64 * 10_000_000 / 48_000;
    assert!(
        (end - should_end).abs() < 1_000,
        "after the gap the material ends at {end} instead of {should_end}"
    );
}

#[test]
fn a_stereo_block_reads_back_frame_by_frame() {
    let mut ring = SampleRing::new(RATE, 2);
    ring.write(&[1u8, 2, 3, 4, 5, 6], at(50));
    let mut out = [9u8; 6];
    ring.read_window(at(51), &mut out);
    assert_eq!(out, [3, 4, 5, 6, 0, 0]);
}

#[test]
fn an_empty_block_changes_nothing() {
    let mut ring: SampleRing<i16> = SampleRing::new(RATE, 1);
    ring.write(&[], at(5));
    assert_eq!(ring.start_100ns(), None);
    assert_eq!(ring.end_100ns(), None);
}
