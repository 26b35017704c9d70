use clippiboy::audio::capture::usable_stamp;
use clippiboy::audio::engine::{fingerprint, stream_changes};
use clippiboy::audio::report::{audio_report, CHECK_SOURCES, NOT_RECORDING};
use clippiboy::audio::{everything_playing, playing_pids, session_devices};
use clippiboy::model::DeviceKind;
use clippiboy::model::{AudioSource, ProcessMode, SourceKind};

/// Roughly a week of uptime: that is how large real stamps are.
const NOW: i64 = 7 * 24 * 3600 * 10_000_000;

#[test]
fn a_sane_timestamp_is_taken_as_it_is() {
    let mut trust = true;
    assert_eq!(usable_stamp(NOW - 50_000, NOW, &mut trust), NOW - 50_000);
    assert!(trust);
}

#[test]
fn an_unfilled_timestamp_falls_back_without_losing_trust() {
    let mut trust = true;
    assert_eq!(usable_stamp(0, NOW, &mut trust), NOW);
    assert!(trust, "a 0 only means \"not filled in\"");
    assert_eq!(usable_stamp(NOW, NOW, &mut trust), NOW);
}

#[test]
fn a_stream_relative_timestamp_switches_to_the_system_clock() {
    let mut trust = true;
    assert_eq!(usable_stamp(10_000, NOW, &mut trust), NOW);
    assert!(!trust, "the device has to count as unreliable");
}

#[test]
fn distrust_is_permanent() {
    let mut trust = true;
    usable_stamp(10_000, NOW, &mut trust);
    let later = NOW + 10_000_000;
    assert_eq!(usable_stamp(later, later, &mut trust), later);
    assert!(!trust);
}

#[test]
fn a_different_process_gives_a_different_fingerprint() {
    let with_pid = |pid| fingerprint(&SourceKind::Process { pid, exe: None, mode: ProcessMode::Include });
    assert_ne!(with_pid(100), with_pid(200));
    assert_ne!(with_pid(100), fingerprint(&SourceKind::Process { pid: 100, exe: None, mode: ProcessMode::Exclude }));
}

#[test]
fn an_untouched_endpoint_keeps_its_fingerprint() {
    let plain = fingerprint(&SourceKind::OutputDevice { device_id: "spk".into(), exclude_game: false });
    assert_eq!(plain, "out:spk");
    assert_ne!(plain, fingerprint(&SourceKind::OutputDevice { device_id: "spk".into(), exclude_game: true }));
}

#[test]
fn every_kind_has_its_own_fingerprint() {
    assert_eq!(fingerprint(&SourceKind::InputDevice { device_id: "mic".into() }), "in:mic");
    assert_eq!(
        fingerprint(&SourceKind::Process { pid: 42, exe: Some("a.exe".into()), mode: ProcessMode::Include }),
        "proc:42:Include"
    );
    assert_eq!(fingerprint(&SourceKind::Game), "game:unresolved");
}

fn device_source(id: &str, device: &str, enabled: bool) -> AudioSource {
    AudioSource {
        id: id.into(),
        label: id.into(),
        kind: SourceKind::OutputDevice { device_id: device.into(), exclude_game: false },
        enabled,
        muted: false,
        solo: false,
        separate_track: false,
    }
}

#[test]
fn only_removed_or_changed_streams_stop_and_only_new_ones_start() {
    let running = vec![
        ("speakers".to_string(), "out:dev-1".to_string()),
        ("headset".to_string(), "out:dev-2".to_string()),
        ("old".to_string(), "out:dev-3".to_string()),
        ("muted-off".to_string(), "out:dev-4".to_string()),
    ];
    let sources = vec![
        // Unchanged: keeps running.
        device_source("speakers", "dev-1", true),
        // Moved to another device: restarted.
        device_source("headset", "dev-9", true),
        // Switched off: stops, starts nothing.
        device_source("muted-off", "dev-4", false),
        // New.
        device_source("mic", "dev-5", true),
    ];
    let (stop, start) = stream_changes(&running, &sources);
    assert_eq!(stop, vec![false, true, true, true]);
    assert_eq!(start, vec![false, true, false, true]);
}

fn game_source(id: &str) -> AudioSource {
    AudioSource {
        id: id.into(),
        label: "Game".into(),
        kind: SourceKind::Game,
        enabled: true,
        muted: false,
        solo: false,
        separate_track: false,
    }
}

#[test]
fn a_source_that_will_not_start_outranks_a_warning() {
    let sources = vec![
        device_source("b", "Voice chat", true),
        device_source("a", "Music", true),
        game_source("g"),
    ];
    let failed = vec!["b".to_string(), "a".to_string(), "b".to_string()];
    let warnings = vec![("a".to_string(), "not connected".to_string())];
    let report = audio_report(&sources, &failed, &warnings);
    assert_eq!(
        report,
        Some((NOT_RECORDING.to_string(), "a, b — see the mixer".to_string()))
    );
}

#[test]
fn warnings_about_the_game_source_wait_for_the_mixer() {
    let mut sources = vec![device_source("mic", "dev-1", true), game_source("g")];
    sources[0].label = "Microphone".into();
    let warnings = vec![
        ("g".to_string(), "no game yet".to_string()),
        ("mic".to_string(), "not connected".to_string()),
        ("gone".to_string(), "not connected".to_string()),
    ];
    assert_eq!(
        audio_report(&sources, &[], &warnings),
        Some((CHECK_SOURCES.to_string(), "Microphone, gone — see the mixer".to_string()))
    );
    let only_game = vec![("g".to_string(), "no game yet".to_string())];
    assert_eq!(audio_report(&sources, &[], &only_game), None);
}

#[test]
fn muting_or_soloing_restarts_no_stream() {
    let running = vec![("speakers".to_string(), "out:dev-1".to_string())];
    let plain = vec![device_source("speakers", "dev-1", true), device_source("mic", "dev-2", true)];
    let mut mixed = plain.clone();
    mixed[0].muted = true;
    mixed[1].solo = true;
    mixed[1].separate_track = true;
    assert_eq!(stream_changes(&running, &plain), stream_changes(&running, &mixed));
    assert_eq!(stream_changes(&running, &mixed), (vec![false], vec![false, true]));
}

#[test]
fn devices_are_asked_for_their_applications_only_when_one_is_recorded_alone() {
    let devices_only = vec![device_source("speakers", "dev-1", true), device_source("chat", "dev-2", true)];
    assert!(session_devices(&devices_only).is_empty());

    let with_game = vec![
        device_source("speakers", "dev-1", true),
        game_source("g"),
        device_source("again", "dev-1", true),
        device_source("off", "dev-3", false),
        device_source("chat", "dev-2", true),
    ];
    assert_eq!(session_devices(&with_game), vec!["dev-1".to_string(), "dev-2".to_string()]);
}

#[test]
fn the_session_list_drops_the_system_and_repeats() {
    assert_eq!(playing_pids(&[0, 4412, 912, 4412, 0, 77]), vec![4412, 912, 77]);
}

#[test]
fn everything_playing_is_the_sorted_union_of_the_output_devices() {
    let devices = vec![
        (DeviceKind::Output, vec![4412, 912]),
        (DeviceKind::Input, vec![5]),
        (DeviceKind::Output, vec![77, 912, 3]),
    ];
    assert_eq!(everything_playing(&devices), vec![3, 77, 912, 4412]);
    assert!(everything_playing(&[]).is_empty());
}
