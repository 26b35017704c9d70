use clippiboy::export::{arguments, recipe, video_args, Target};
use clippiboy::model::EncoderId;

fn target(bytes: u64, duration_ms: u64, width: u32, height: u32) -> Target {
    Target { bytes, duration_ms, width, height }
}

const MB: u64 = 1024 * 1024;

#[test]
fn a_short_clip_at_25_mb_stays_at_its_size() {
    let plan = recipe(&target(25 * MB, 30_000, 1920, 1080));
    assert_eq!(plan.height, 1080);
    assert!(!plan.scales(1080));
    assert!(plan.video_kbps > 6_000, "{plan:?}");
}

#[test]
fn a_long_clip_at_10_mb_gives_up_resolution_instead_of_detail() {
    let plan = recipe(&target(10 * MB, 120_000, 1920, 1080));
    assert!(plan.height < 1080, "{plan:?}");
    assert!(plan.scales(1080));
    assert_eq!(plan.width % 2, 0);
    let ideal = 1920 * plan.height / 1080;
    assert!(ideal.abs_diff(plan.width) <= 2, "{}x{} is not 16:9 any more", plan.width, plan.height);
}

#[test]
fn an_absurd_target_lands_on_the_smallest_step() {
    let plan = recipe(&target(MB / 100, 600_000, 1920, 1080));
    assert_eq!(plan.height, 480);
    assert!(plan.video_kbps >= 200, "ffmpeg needs something to work with");
}

#[test]
fn a_small_source_is_never_blown_up() {
    let plan = recipe(&target(25 * MB, 30_000, 1280, 720));
    assert_eq!(plan.height, 720);
    assert!(!plan.scales(720));
}

#[test]
fn the_sound_is_paid_for_out_of_the_same_budget() {
    let plan = recipe(&target(10 * MB, 60_000, 1920, 1080));
    let total_kbps = plan.video_kbps + plan.audio_kbps;
    let predicted = total_kbps as u64 * 1000 / 8 * 60;
    assert!(predicted <= 10 * MB, "predicted {predicted} bytes over a {} byte target", 10 * MB);
}

#[test]
fn nothing_is_scaled_that_does_not_shrink() {
    let plan = recipe(&target(25 * MB, 30_000, 1920, 1080));
    let args = arguments("C:/clips/x.mp4", "C:/out/x.mp4", &plan, 1080, EncoderId::X264);
    assert!(!args.iter().any(|a| a == "-vf"), "{args:?}");
}

#[test]
fn a_shrunk_export_carries_its_scale_filter() {
    let plan = recipe(&target(10 * MB, 120_000, 1920, 1080));
    let args = arguments("C:/clips/x.mp4", "C:/out/x.mp4", &plan, 1080, EncoderId::X264);
    let at = args.iter().position(|a| a == "-vf").expect("scale missing");
    assert_eq!(args[at + 1], format!("scale=-2:{}", plan.height));
}

#[test]
fn the_input_comes_first_and_the_output_last() {
    let plan = recipe(&target(25 * MB, 30_000, 1920, 1080));
    let args = arguments("C:/clips/in.mp4", "C:/out/out.mp4", &plan, 1080, EncoderId::Nvenc);
    let input = args.iter().position(|a| a == "-i").unwrap();
    assert_eq!(args[input + 1], "C:/clips/in.mp4");
    assert_eq!(args.last().unwrap(), "C:/out/out.mp4");
}

#[test]
fn a_clip_without_sound_still_exports() {
    let plan = recipe(&target(25 * MB, 30_000, 1920, 1080));
    let args = arguments("C:/clips/x.mp4", "C:/out/x.mp4", &plan, 1080, EncoderId::X264);
    assert!(args.iter().any(|a| a == "0:a:0?"), "{args:?}");
}

#[test]
fn every_encoder_aims_at_the_target() {
    for encoder in [EncoderId::Nvenc, EncoderId::Amf, EncoderId::Qsv, EncoderId::X264] {
        let args = video_args(encoder, 4_000);
        assert!(args.contains(&"-c:v".to_string()), "{encoder:?}: {args:?}");
        assert!(args.contains(&"-b:v".to_string()), "{encoder:?}: {args:?}");
        assert!(args.contains(&"-pix_fmt".to_string()), "{encoder:?}: {args:?}");
    }
}

#[test]
fn the_leash_is_a_tenth_above_the_rate_and_the_buffer_twice_it() {
    let args = video_args(EncoderId::X264, 4_000);
    let at = |flag: &str| args[args.iter().position(|a| a == flag).unwrap() + 1].clone();
    assert_eq!(at("-b:v"), "4000k");
    assert_eq!(at("-maxrate"), "4400k");
    assert_eq!(at("-bufsize"), "8000k");
}

#[test]
fn the_sound_goes_out_as_aac_at_its_rate() {
    let plan = recipe(&target(25 * MB, 30_000, 1920, 1080));
    assert_eq!(plan.audio_kbps, 128);
    let args = arguments("a.mp4", "b.mp4", &plan, 1080, EncoderId::X264);
    assert!(args.windows(2).any(|w| w == ["-c:a", "aac"]), "{args:?}");
    assert!(args.windows(2).any(|w| w == ["-b:a", "128k"]), "{args:?}");
}
