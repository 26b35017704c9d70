use clippiboy::encode::{bitrate_for, list_encoders, preferred_encoder, resolve};
use clippiboy::model::EncoderId;

#[test]
fn the_usual_resolutions_land_where_they_should() {
    assert_eq!(bitrate_for(1280, 720, 30), 4_000);
    assert_eq!(bitrate_for(1920, 1080, 60), 19_000);
    assert_eq!(bitrate_for(2560, 1440, 60), 33_000);
    assert_eq!(bitrate_for(3840, 2160, 60), 75_000);
}

#[test]
fn more_frames_cost_more() {
    assert!(bitrate_for(1920, 1080, 60) > bitrate_for(1920, 1080, 30));
    assert!(bitrate_for(2560, 1440, 60) > bitrate_for(1920, 1080, 60));
}

#[test]
fn the_result_stays_in_range() {
    assert_eq!(bitrate_for(2, 2, 1), 2_000);
    assert_eq!(bitrate_for(7680, 4320, 120), 100_000);
}

#[test]
fn software_is_always_available() {
    let encoders = list_encoders(&[]);
    let software = encoders.iter().find(|e| e.id == EncoderId::X264).unwrap();
    assert!(software.available);
}

#[test]
fn unavailable_request_falls_back() {
    let resolved = resolve(EncoderId::Nvenc, &[]);
    let encoders = list_encoders(&[]);
    assert!(encoders.iter().any(|e| e.id == resolved && e.available));
}

#[test]
fn the_first_hardware_encoder_is_preferred() {
    assert_eq!(preferred_encoder(&[]), EncoderId::X264);
    assert_eq!(preferred_encoder(&[EncoderId::Qsv, EncoderId::Amf]), EncoderId::Amf);
    assert_eq!(resolve(EncoderId::Qsv, &[EncoderId::Qsv]), EncoderId::Qsv);
    assert_eq!(resolve(EncoderId::Nvenc, &[EncoderId::Qsv]), EncoderId::Qsv);
}

#[test]
fn the_bitrate_never_falls_as_the_picture_grows() {
    let mut last = 0;
    for fps in 0..=240 {
        let now = bitrate_for(1920, 1080, fps);
        assert!(now >= last, "{fps} fps");
        last = now;
    }
    let sizes = [(640, 360), (1280, 720), (1600, 900), (1920, 1080), (2560, 1440), (3840, 2160), (7680, 4320)];
    let mut last = 0;
    for (w, h) in sizes {
        let now = bitrate_for(w, h, 60);
        assert!(now >= last, "{w}x{h}");
        last = now;
    }
}
