use clippiboy::config::{default_config, effective_clip_seconds, effective_memory_bytes, migrate_sources};
use clippiboy::model::{OverlayCorner, AudioSource, BufferConfig, EncoderId, RecordingConfig, SourceKind, TargetKind};

fn buffer(seconds: u32, clip_seconds: u32) -> BufferConfig {
    BufferConfig { auto_start: false, seconds, clip_seconds, memory_mb: 0 }
}

#[test]
fn zero_means_the_whole_buffer() {
    assert_eq!(effective_clip_seconds(&buffer(120, 0)), 120);
}

#[test]
fn a_shorter_clip_is_taken_as_it_stands() {
    assert_eq!(effective_clip_seconds(&buffer(120, 30)), 30);
}

#[test]
fn a_clip_longer_than_the_buffer_is_capped() {
    assert_eq!(effective_clip_seconds(&buffer(30, 120)), 30);
}

fn source(id: &str, kind: SourceKind, enabled: bool) -> AudioSource {
    AudioSource {
        id: id.into(),
        label: id.into(),
        kind,
        enabled,
        muted: false,
        solo: false,
        separate_track: false,
    }
}

fn endpoint(device_id: &str) -> SourceKind {
    SourceKind::OutputDevice { device_id: device_id.into(), exclude_game: false }
}

#[test]
fn the_leftovers_kind_becomes_a_plain_device_again() {
    let mut sources = vec![
        source("system", SourceKind::Leftovers, true),
        source("chat", endpoint("dev-chat"), false),
        source("music", endpoint("dev-music"), false),
    ];
    migrate_sources(&mut sources);

    assert_eq!(sources[0].kind, endpoint(""));
    for source in &sources[1..] {
        assert!(source.enabled, "switched off by the detour, not by the user");
        assert_eq!(source.kind, endpoint(&format!("dev-{}", source.id)), "the device has to survive");
    }
}

#[test]
fn a_configuration_without_the_detour_is_left_alone() {
    let mut sources = vec![source("speakers", endpoint("dev-1"), true), source("headset", endpoint("dev-2"), false)];
    let before = sources.clone();
    migrate_sources(&mut sources);

    for (before, after) in before.iter().zip(&sources) {
        assert_eq!(before.kind, after.kind);
        assert_eq!(before.enabled, after.enabled);
    }
}

fn recording(bitrate_kbps: u32) -> RecordingConfig {
    RecordingConfig {
        target_kind: TargetKind::Monitor,
        target_id: None,
        target_stable_id: None,
        width: 1920,
        height: 1080,
        fps: 60,
        bitrate_kbps,
        quality: 70,
        encoder: EncoderId::X264,
        keyframe_seconds: 2,
    }
}

#[test]
fn a_set_budget_is_taken_in_megabytes() {
    let mut b = buffer(120, 0);
    b.memory_mb = 512;
    assert_eq!(effective_memory_bytes(&recording(19_000), &b), 512 * 1024 * 1024);
}

#[test]
fn no_budget_derives_one_with_room_for_peaks() {
    // 19 Mbit/s for two minutes: 2 375 000 bytes a second, half again on top.
    assert_eq!(effective_memory_bytes(&recording(19_000), &buffer(120, 0)), 2_375_000 * 120 * 3 / 2);
    // A tiny buffer at a low bitrate still gets its floor.
    assert_eq!(effective_memory_bytes(&recording(2_000), &buffer(5, 0)), 64 * 1024 * 1024);
}

#[test]
fn a_fresh_configuration_shows_every_banner_bottom_right() {
    let c = default_config("C:/clips".to_string(), &[]);
    let o = &c.overlay;
    assert!(o.enabled && o.on_clip_saved && o.on_buffer_toggle && o.on_error && o.on_screenshot);
    assert!(matches!(o.corner, OverlayCorner::BottomRight));
    assert_eq!(o.duration_ms, 3500);
    assert!(o.monitor.is_none() && o.monitor_stable_id.is_none());
    assert!(!o.follow_active_screen);
}
