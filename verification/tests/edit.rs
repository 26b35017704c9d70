use clippiboy::edit::{arguments, audio_inputs, plan, restore_plan, retry_encoder, video_args, MixGraph, Trim, VideoSource};
use clippiboy::model::{ClipOriginal, ClipTrack, EncoderId};

fn track(index: u32, stem: bool) -> ClipTrack {
    ClipTrack {
        index,
        label: format!("Track {index}"),
        channels: 2,
        preview_path: if stem { Some(format!("C:/data/tracks/x/{index}.m4a")) } else { None },
    }
}

/// All tracks at their own level, read from where they are: the graph the
/// mixer builds when nothing was moved.
fn plain_mix(list: &[ClipTrack]) -> MixGraph {
    let inputs = audio_inputs(list);
    let mut graph = String::new();
    for input in &inputs {
        graph.push_str(&format!("[{input}]"));
    }
    graph.push_str(&format!("amix=inputs={}:normalize=0[mix]", inputs.len()));
    MixGraph { graph, label: "[mix]".to_string() }
}

#[test]
fn only_mixing_leaves_the_picture_alone() {
    let plan = plan(None, true, 30_000, Trim::whole(30_000));
    assert_eq!(plan.video, VideoSource::Clip);
    assert!(!plan.reencode);
    assert_eq!(plan.video_start_ms, 0);
    assert_eq!(plan.stems_start_ms, 0);
    assert_eq!(plan.length_ms, 30_000);
    assert_eq!(plan.original, None, "with no trim no original is needed");
}

#[test]
fn trimming_only_the_tail_stays_a_copy() {
    let plan = plan(None, true, 30_000, Trim { start_ms: 0, end_ms: 12_000 });
    assert_eq!(plan.video, VideoSource::Clip);
    assert!(!plan.reencode);
    assert_eq!(plan.length_ms, 12_000);
    assert_eq!(plan.original, Some(ClipOriginal { duration_ms: 30_000, start_ms: 0, end_ms: 12_000 }));
}

#[test]
fn trimming_the_head_re_encodes_from_the_original() {
    let plan = plan(None, true, 30_000, Trim { start_ms: 4_000, end_ms: 12_000 });
    assert_eq!(plan.video, VideoSource::Original);
    assert!(plan.reencode);
    assert_eq!(plan.video_start_ms, 4_000);
    assert_eq!(plan.stems_start_ms, 4_000);
    assert_eq!(plan.length_ms, 8_000);
}

#[test]
fn a_missing_original_falls_back_to_the_clip() {
    let base = ClipOriginal { duration_ms: 60_000, start_ms: 5_000, end_ms: 20_000 };
    let plan = plan(Some(&base), false, 15_000, Trim { start_ms: 2_000, end_ms: 8_000 });
    assert_eq!(plan.video, VideoSource::Clip);
    assert!(plan.reencode, "bildgenau muss es trotzdem sein");
    assert_eq!(plan.video_start_ms, 2_000, "the clip file already starts at 5 s");
    assert_eq!(plan.stems_start_ms, 7_000, "the tracks are in the original");
    assert_eq!(plan.length_ms, 6_000);
}

#[test]
fn a_hair_off_the_edge_is_not_a_cut() {
    let plan = plan(None, true, 30_000, Trim { start_ms: 120, end_ms: 29_900 });
    assert!(!plan.reencode);
    assert_eq!(plan.video, VideoSource::Clip);
    assert_eq!(plan.original, None);
    assert_eq!(plan.length_ms, 30_000);
}

#[test]
fn cuts_compose_in_original_coordinates() {
    let base = ClipOriginal { duration_ms: 60_000, start_ms: 5_000, end_ms: 20_000 };
    let plan = plan(Some(&base), true, 15_000, Trim { start_ms: 2_000, end_ms: 8_000 });
    assert_eq!(plan.video_start_ms, 7_000);
    assert_eq!(plan.stems_start_ms, 7_000);
    assert_eq!(plan.length_ms, 6_000);
    assert_eq!(plan.original, Some(ClipOriginal { duration_ms: 60_000, start_ms: 7_000, end_ms: 13_000 }));
}

#[test]
fn three_cuts_in_a_row_still_add_up() {
    let mut base: Option<ClipOriginal> = None;
    let mut duration = 60_000;
    for _ in 0..3 {
        let plan = plan(base.as_ref(), true, duration, Trim { start_ms: 1_000, end_ms: duration - 1_000 });
        duration = plan.length_ms;
        base = plan.original;
    }
    let base = base.unwrap();
    assert_eq!(base.start_ms, 3_000);
    assert_eq!(base.end_ms, 57_000);
    assert_eq!(duration, 54_000);
}

#[test]
fn remixing_a_trimmed_clip_keeps_its_bounds() {
    let base = ClipOriginal { duration_ms: 60_000, start_ms: 5_000, end_ms: 20_000 };
    let plan = plan(Some(&base), true, 15_000, Trim::whole(15_000));
    assert_eq!(plan.video, VideoSource::Clip);
    assert!(!plan.reencode);
    assert_eq!(plan.video_start_ms, 0, "the clip file already starts in the right place");
    assert_eq!(plan.stems_start_ms, 5_000, "the tracks are in the original");
    assert_eq!(plan.length_ms, 15_000);
    assert_eq!(plan.original, Some(base));
}

#[test]
fn restoring_is_a_lossless_copy_of_everything() {
    let base = ClipOriginal { duration_ms: 60_000, start_ms: 5_000, end_ms: 20_000 };
    let plan = restore_plan(&base);
    assert_eq!(plan.video, VideoSource::Original);
    assert!(!plan.reencode);
    assert_eq!(plan.stems_start_ms, 0);
    assert_eq!(plan.length_ms, 60_000);
    assert_eq!(plan.original, None);
}

#[test]
fn every_input_gets_its_own_seek() {
    let plan = plan(None, true, 30_000, Trim { start_ms: 4_000, end_ms: 12_000 });
    let list = vec![track(0, true), track(1, true)];
    let mix = plain_mix(&list);
    let args = arguments(
        &plan,
        "C:/data/originals/x/video.mp4",
        &list,
        Some(&mix),
        "C:/clips/x.neu.mp4",
        EncoderId::X264,
        40_000,
    );

    let inputs: Vec<usize> =
        args.iter().enumerate().filter(|(_, arg)| *arg == "-i").map(|(at, _)| at).collect();
    assert_eq!(inputs.len(), 3, "Video plus zwei Spuren: {args:?}");
    for at in inputs {
        assert_eq!(args[at - 2], "-ss", "jede Eingabe braucht ihr -ss: {args:?}");
        assert_eq!(args[at - 1], "4.000");
    }
}

#[test]
fn the_length_comes_after_the_last_input() {
    let plan = plan(None, true, 30_000, Trim { start_ms: 0, end_ms: 12_000 });
    let list = vec![track(0, true)];
    let mix = plain_mix(&list);
    let args = arguments(&plan, "C:/clips/x.mp4", &list, Some(&mix), "C:/clips/x.neu.mp4", EncoderId::X264, 40_000);
    let last_input = args.iter().rposition(|arg| arg == "-i").unwrap();
    let length = args.iter().position(|arg| arg == "-t").unwrap();
    assert!(length > last_input, "{args:?}");
    assert_eq!(args[length + 1], "12.000");
    assert!(args.windows(2).any(|pair| pair == ["-c:v", "copy"]), "{args:?}");
}

#[test]
fn audio_inside_the_file_inherits_the_picture_offset() {
    let plan = plan(None, true, 30_000, Trim { start_ms: 4_000, end_ms: 12_000 });
    let list = vec![track(0, false)];
    let mix = plain_mix(&list);
    let args = arguments(&plan, "C:/clips/x.mp4", &list, Some(&mix), "C:/clips/x.neu.mp4", EncoderId::X264, 40_000);
    assert_eq!(args.iter().filter(|arg| *arg == "-i").count(), 1, "{args:?}");
    assert_eq!(args.iter().filter(|arg| *arg == "-ss").count(), 1, "{args:?}");
    let filter = args.iter().position(|arg| arg == "-filter_complex").unwrap();
    assert!(args[filter + 1].contains("0:a:0"), "{}", args[filter + 1]);
}

#[test]
fn every_encoder_yields_a_complete_line() {
    for encoder in [EncoderId::Nvenc, EncoderId::Amf, EncoderId::Qsv, EncoderId::X264] {
        let args = video_args(encoder, 100);
        assert!(args.contains(&"-c:v".to_string()), "{encoder:?}: {args:?}");
        assert!(args.contains(&"-pix_fmt".to_string()), "{encoder:?}: {args:?}");
    }
}

#[test]
fn everything_muted_leaves_no_audio_track() {
    let plan = plan(None, true, 30_000, Trim::whole(30_000));
    let list = vec![track(0, false)];
    let args = arguments(&plan, "C:/clips/x.mp4", &list, None, "C:/clips/x.neu.mp4", EncoderId::X264, 40_000);
    assert!(args.contains(&"-an".to_string()), "{args:?}");
    assert!(!args.contains(&"-filter_complex".to_string()), "{args:?}");
}

#[test]
fn the_stored_tracks_are_read_as_inputs_one_onwards() {
    assert_eq!(audio_inputs(&[track(0, true), track(3, true)]), vec!["1:a", "2:a"]);
    assert_eq!(audio_inputs(&[track(0, false), track(3, true)]), vec!["0:a:0", "0:a:3"]);
}

#[test]
fn a_low_bitrate_is_raised_to_the_floor() {
    let args = video_args(EncoderId::Nvenc, 100);
    let at = args.iter().position(|a| a == "-b:v").unwrap();
    assert_eq!(args[at + 1], "4000k");
    let at = args.iter().position(|a| a == "-maxrate").unwrap();
    assert_eq!(args[at + 1], "6000k");
}

#[test]
fn a_refused_hardware_encode_falls_back_to_software_once() {
    let cut = plan(None, false, 60_000, Trim { start_ms: 5_000, end_ms: 60_000 });
    assert!(cut.reencode);
    assert_eq!(retry_encoder(&cut, EncoderId::Nvenc), Some(EncoderId::X264));
    assert_eq!(retry_encoder(&cut, EncoderId::X264), None);

    let copy = plan(None, false, 60_000, Trim { start_ms: 0, end_ms: 50_000 });
    assert!(!copy.reencode);
    assert_eq!(retry_encoder(&copy, EncoderId::Amf), None);
}
