use clippiboy::capture::{monitor_target, refresh_rate, window_target, Identity};
use clippiboy::capture::{
    drift, fit_to_target, fps_choices, pick, repair, repair_monitor_choice, repair_overlay, snap_fps, Choice,
    Drift, Match,
};
use clippiboy::model::{CaptureTarget, EncoderId, OverlayConfig, RecordingConfig, TargetKind};

fn three_screens() -> Vec<CaptureTarget> {
    let screen = |device: &str, panel: &str, primary: bool| CaptureTarget {
        kind: TargetKind::Monitor,
        id: device.into(),
        stable_id: Some(format!("\\\\?\\DISPLAY#{panel}#5&1ba8a7fa&0#{{guid}}")),
        title: format!("{panel} — 1920×1080"),
        width: 1920,
        height: 1080,
        is_primary: primary,
        refresh_hz: Some(60),
    };
    vec![
        screen("\\\\.\\DISPLAY1", "E2212F", false),
        screen("\\\\.\\DISPLAY2", "CR270E", true),
        screen("\\\\.\\DISPLAY3", "CR270H", false),
    ]
}

fn panel(name: &str) -> String {
    format!("\\\\?\\DISPLAY#{name}#5&1ba8a7fa&0#{{guid}}")
}

#[test]
fn the_saved_screen_is_found_by_its_device_name() {
    let choice = pick(&three_screens(), TargetKind::Monitor, Some("\\\\.\\DISPLAY3"), None).unwrap();
    assert_eq!(choice.how, Match::Device);
    assert_eq!(choice.target.title, "CR270H — 1920×1080");
}

#[test]
fn a_renumbered_screen_is_still_the_same_screen() {
    let choice =
        pick(&three_screens(), TargetKind::Monitor, Some("\\\\.\\DISPLAY1"), Some(&panel("CR270H"))).unwrap();
    assert_eq!(choice.how, Match::Stable);
    assert_eq!(choice.target.id, "\\\\.\\DISPLAY3");
    assert_eq!(choice.target.title, "CR270H — 1920×1080");
}

#[test]
fn the_panel_outranks_the_device_name() {
    let choice =
        pick(&three_screens(), TargetKind::Monitor, Some("\\\\.\\DISPLAY1"), Some(&panel("CR270E"))).unwrap();
    assert_eq!(choice.how, Match::Stable);
    assert_eq!(choice.target.id, "\\\\.\\DISPLAY2");
}

#[test]
fn an_unplugged_screen_falls_back_to_the_primary_and_says_so() {
    let choice =
        pick(&three_screens(), TargetKind::Monitor, Some("\\\\.\\DISPLAY9"), Some(&panel("GONE123"))).unwrap();
    assert_eq!(choice.how, Match::Fallback, "the fallback has to be visible");
    assert!(choice.target.is_primary);
}

#[test]
fn no_choice_at_all_is_not_a_fallback() {
    let choice = pick(&three_screens(), TargetKind::Monitor, None, None).unwrap();
    assert_eq!(choice.how, Match::Default);
    assert!(choice.target.is_primary);
}

#[test]
fn a_screen_without_an_identity_still_works() {
    let mut screens = three_screens();
    for screen in &mut screens {
        screen.stable_id = None;
    }
    let choice = pick(&screens, TargetKind::Monitor, Some("\\\\.\\DISPLAY2"), None).unwrap();
    assert_eq!(choice.how, Match::Device);
    assert_eq!(choice.target.id, "\\\\.\\DISPLAY2");
}

#[test]
fn a_closed_window_does_not_become_a_screen() {
    let mut targets = three_screens();
    targets.push(CaptureTarget {
        kind: TargetKind::Window,
        id: "0xABC".into(),
        stable_id: None,
        title: "A Game".into(),
        width: 1280,
        height: 720,
        is_primary: false,
        refresh_hz: None,
    });
    assert!(pick(&targets, TargetKind::Window, Some("0xDEAD"), None).is_none());
    let open = pick(&targets, TargetKind::Window, Some("0xABC"), None).unwrap();
    assert_eq!(open.target.title, "A Game");
}

fn chosen(targets: &[CaptureTarget], device: &str, stable: Option<&str>) -> Choice {
    pick(targets, TargetKind::Monitor, Some(device), stable).unwrap()
}

#[test]
fn a_capture_on_the_right_screen_is_left_alone() {
    let screens = three_screens();
    let running = chosen(&screens, "\\\\.\\DISPLAY3", Some(&panel("CR270H")));
    let now = chosen(&screens, "\\\\.\\DISPLAY3", Some(&panel("CR270H")));
    assert_eq!(drift(&running, Some(&now), false), None);
}

#[test]
fn a_renumbered_screen_is_no_reason_to_restart() {
    let screens = three_screens();
    let running = chosen(&screens, "\\\\.\\DISPLAY3", Some(&panel("CR270H")));
    let mut later = three_screens();
    later[0].id = "\\\\.\\DISPLAY3".into();
    later[2].id = "\\\\.\\DISPLAY1".into();
    let now = chosen(&later, "\\\\.\\DISPLAY3", Some(&panel("CR270H")));
    assert_eq!(drift(&running, Some(&now), false), None);
}

#[test]
fn a_screen_that_comes_back_takes_the_capture_back() {
    let without: Vec<_> = three_screens().into_iter().filter(|t| !t.title.starts_with("CR270H")).collect();
    let running = chosen(&without, "\\\\.\\DISPLAY3", Some(&panel("CR270H")));
    assert_eq!(running.how, Match::Fallback);
    let now = chosen(&three_screens(), "\\\\.\\DISPLAY3", Some(&panel("CR270H")));
    assert_eq!(drift(&running, Some(&now), false), Some(Drift::Moved));
}

#[test]
fn an_unplugged_screen_moves_the_capture_to_the_primary() {
    let screens = three_screens();
    let running = chosen(&screens, "\\\\.\\DISPLAY3", Some(&panel("CR270H")));
    let without: Vec<_> = screens.into_iter().filter(|t| !t.title.starts_with("CR270H")).collect();
    let now = chosen(&without, "\\\\.\\DISPLAY3", Some(&panel("CR270H")));
    assert_eq!(now.how, Match::Fallback);
    assert_eq!(drift(&running, Some(&now), true), Some(Drift::Closed));
    assert_eq!(drift(&running, Some(&now), false), Some(Drift::Moved));
}

#[test]
fn a_new_resolution_restarts_the_capture() {
    let screens = three_screens();
    let running = chosen(&screens, "\\\\.\\DISPLAY3", Some(&panel("CR270H")));
    let mut later = three_screens();
    later[2].width = 2560;
    later[2].height = 1440;
    let now = chosen(&later, "\\\\.\\DISPLAY3", Some(&panel("CR270H")));
    assert_eq!(drift(&running, Some(&now), false), Some(Drift::Resized));
}

#[test]
fn with_no_screen_at_all_the_watcher_waits() {
    let screens = three_screens();
    let running = chosen(&screens, "\\\\.\\DISPLAY3", Some(&panel("CR270H")));
    assert_eq!(drift(&running, None, true), None);
}

#[test]
fn repair_writes_back_the_new_device_name() {
    let choice =
        pick(&three_screens(), TargetKind::Monitor, Some("\\\\.\\DISPLAY1"), Some(&panel("CR270H"))).unwrap();
    assert_ne!(choice.target.id, "\\\\.\\DISPLAY1");
    assert_eq!(choice.target.stable_id.as_deref(), Some(panel("CR270H").as_str()));
}

#[test]
fn unknown_refresh_keeps_the_usual_steps() {
    assert_eq!(fps_choices(None), vec![30, 60, 120]);
    assert_eq!(fps_choices(Some(0)), vec![30, 60, 120]);
}

#[test]
fn a_rate_between_two_steps_drops_to_the_lower_one() {
    let on_165 = fps_choices(Some(165));
    assert_eq!(snap_fps(100, &on_165), 60);
    assert_eq!(snap_fps(165, &on_165), 165);

    let on_60 = fps_choices(Some(60));
    assert_eq!(snap_fps(120, &on_60), 60);
    assert_eq!(snap_fps(24, &on_60), 30);
}

#[test]
fn the_screen_rate_is_always_offered() {
    assert_eq!(fps_choices(Some(60)), vec![30, 60]);
    assert_eq!(fps_choices(Some(75)), vec![30, 60, 75]);
    assert_eq!(fps_choices(Some(144)), vec![30, 60, 120, 144]);
    assert_eq!(fps_choices(Some(240)), vec![30, 60, 120, 240]);
}

#[test]
fn the_repair_writes_the_device_name_back_and_settles() {
    let screens = three_screens();
    let mut id = Some("\\\\.\\DISPLAY1".to_string());
    let mut stable = Some(panel("CR270H"));
    assert!(repair_monitor_choice(&mut id, &mut stable, &screens));
    assert_eq!(id.as_deref(), Some("\\\\.\\DISPLAY3"));
    assert_eq!(stable, Some(panel("CR270H")));
    assert!(!repair_monitor_choice(&mut id, &mut stable, &screens), "a second repair changes nothing");
}

#[test]
fn a_device_name_gains_its_panel_and_an_absent_screen_is_kept() {
    let screens = three_screens();
    let mut id = Some("\\\\.\\DISPLAY2".to_string());
    let mut stable = None;
    assert!(repair_monitor_choice(&mut id, &mut stable, &screens));
    assert_eq!(stable, Some(panel("CR270E")));

    let mut gone_id = Some("\\\\.\\DISPLAY9".to_string());
    let mut gone_stable = Some(panel("GONE123"));
    assert!(!repair_monitor_choice(&mut gone_id, &mut gone_stable, &screens));
    assert_eq!(gone_id.as_deref(), Some("\\\\.\\DISPLAY9"));
    assert_eq!(gone_stable, Some(panel("GONE123")));
}

fn recording(height: u32, fps: u32) -> RecordingConfig {
    RecordingConfig {
        target_kind: TargetKind::Monitor,
        target_id: Some("\\\\.\\DISPLAY3".into()),
        target_stable_id: None,
        width: 3840,
        height,
        fps,
        bitrate_kbps: 40_000,
        quality: 70,
        encoder: EncoderId::X264,
        keyframe_seconds: 2,
    }
}

#[test]
fn fitting_never_upscales_and_keeps_the_shape() {
    let mut screens = three_screens();
    screens[2].width = 1280;
    screens[2].height = 1024;
    let mut config = recording(1440, 144);
    fit_to_target(&mut config, &screens);
    assert_eq!(config.height, 1024);
    assert_eq!(config.width, 1280);
    assert_eq!(config.fps, 60, "a 60 Hz screen offers no more than 60");
    assert_eq!(config.bitrate_kbps, clippiboy::encode::bitrate_for(1280, 1024, 60));

    let mut odd = recording(721, 30);
    fit_to_target(&mut odd, &three_screens());
    assert_eq!(odd.height, 720);
    assert_eq!(odd.width, 1280);
}

#[test]
fn a_window_keeps_its_handle_and_the_banner_screen_is_repaired() {
    let screens = three_screens();
    let mut window = recording(1080, 60);
    window.target_kind = TargetKind::Window;
    window.target_id = Some("0xABC".into());
    assert!(!repair(&mut window, &screens));
    assert_eq!(window.target_id.as_deref(), Some("0xABC"));

    let mut overlay = OverlayConfig::default();
    overlay.monitor = Some("\\\\.\\DISPLAY1".into());
    overlay.monitor_stable_id = Some(panel("CR270H"));
    assert!(repair_overlay(&mut overlay, &screens));
    assert_eq!(overlay.monitor.as_deref(), Some("\\\\.\\DISPLAY3"));
}

#[test]
fn screens_and_windows_are_listed_the_way_the_picker_shows_them() {
    assert_eq!(refresh_rate(0), None);
    assert_eq!(refresh_rate(1), None);
    assert_eq!(refresh_rate(144), Some(144));

    let panel = Identity { friendly: "  DELL U2720Q ".to_string(), path: "\\\\?\\DISPLAY#DEL".to_string() };
    let named = monitor_target("\\\\.\\DISPLAY1", Some(&panel), 1, 3840, 2160, true, Some(60));
    assert_eq!(named.title, "DELL U2720Q — 3840×2160");
    assert_eq!(named.stable_id.as_deref(), Some("\\\\?\\DISPLAY#DEL"));
    let blank = Identity { friendly: "  ".to_string(), path: "p".to_string() };
    let unnamed = monitor_target("\\\\.\\DISPLAY2", Some(&blank), 2, 1920, 1080, false, None);
    assert_eq!(unnamed.title, "Monitor 2 — 1920×1080");

    assert!(window_target(0x1a2b, "Tooltip", 300, 600, None).is_none());
    assert!(window_target(0x1a2b, "", 800, 600, None).is_none());
    let game = window_target(0x1a2b, "Elden Ring", 1920, 1080, Some(144)).expect("a real window");
    assert_eq!(game.id, "0x1A2B");
    assert_eq!(game.title, "Elden Ring");
    assert!(game.stable_id.is_none() && !game.is_primary);
}
