use clippiboy::gpu::{pick_adapter, vendor_for, AdapterInfo, VENDOR_AMD, VENDOR_INTEL, VENDOR_NVIDIA};
use clippiboy::mft::{
    available_encoders, frame_duration_100ns, gop_length, low_latency_default, opens_a_gop, pick_transform, pump_step,
    rate_control_in_force, rate_targets, vendor_tag, vendor_to_encoder, PumpAction, PumpEvent, PumpState,
};
use clippiboy::model::{EncoderId, RateControl};

/// One NAL with an Annex-B start code in front of it.
fn nal(kind: u8, long_start_code: bool) -> Vec<u8> {
    let mut out = if long_start_code { vec![0, 0, 0, 1] } else { vec![0, 0, 1] };
    out.push(0x60 | kind);
    out.extend_from_slice(&[0xde, 0xad, 0xbe, 0xef]);
    out
}

#[test]
fn an_idr_opens_a_gop() {
    assert!(opens_a_gop(&nal(5, true)));
    assert!(opens_a_gop(&nal(5, false)), "three-byte start codes count too");
}

#[test]
fn a_parameter_set_opens_a_gop() {
    assert!(opens_a_gop(&nal(7, true)));
}

#[test]
fn an_ordinary_slice_does_not() {
    assert!(!opens_a_gop(&nal(1, true)));
}

#[test]
fn a_keyframe_packet_is_found_past_its_leading_nals() {
    let mut packet = nal(9, true);
    packet.extend(nal(8, true));
    packet.extend(nal(5, true));
    assert!(opens_a_gop(&packet));
}

#[test]
fn leading_padding_does_not_hide_the_start_code() {
    let mut packet = vec![0u8; 8];
    packet.extend(nal(5, false));
    assert!(opens_a_gop(&packet));
}

#[test]
fn nothing_to_read_is_not_a_keyframe() {
    assert!(!opens_a_gop(&[]));
    assert!(!opens_a_gop(&[0, 0, 0, 1]));
    assert!(!opens_a_gop(&[0, 0, 1]));
}

#[test]
fn a_vendor_is_read_off_its_tag() {
    assert_eq!(vendor_tag(VENDOR_NVIDIA), "VEN_10DE");
    assert_eq!(vendor_tag(0x8086), "VEN_8086");
    assert_eq!(vendor_tag(0xA), "VEN_000A");
    assert_eq!(vendor_to_encoder("VEN_10DE&DEV_2684"), Some(EncoderId::Nvenc));
    assert_eq!(vendor_to_encoder("VEN_1002"), Some(EncoderId::Amf));
    assert_eq!(vendor_to_encoder("VEN_8086"), Some(EncoderId::Qsv));
    assert_eq!(vendor_to_encoder("VEN_1414"), None);
}

#[test]
fn only_amd_and_intel_start_in_low_latency() {
    assert!(low_latency_default(EncoderId::Amf));
    assert!(low_latency_default(EncoderId::Qsv));
    assert!(!low_latency_default(EncoderId::Nvenc));
    assert!(!low_latency_default(EncoderId::X264));
}

fn adapter(index: u32, vendor_id: u32, vram_mb: u64) -> AdapterInfo {
    AdapterInfo { index, name: format!("GPU {index}"), vendor_id, device_id: 0x73ff, dedicated_vram: vram_mb << 20 }
}

#[test]
fn the_encoder_gets_a_card_of_its_own_make_with_the_most_memory() {
    let list = vec![adapter(0, VENDOR_AMD, 512), adapter(1, VENDOR_NVIDIA, 8192), adapter(2, VENDOR_AMD, 8176)];
    assert_eq!(pick_adapter(EncoderId::Amf, &list), Some(2));
    assert_eq!(pick_adapter(EncoderId::Nvenc, &list), Some(1));
    assert_eq!(pick_adapter(EncoderId::Qsv, &list), None);
    assert_eq!(pick_adapter(EncoderId::X264, &list), None);
    assert_eq!(vendor_for(EncoderId::Qsv), Some(VENDOR_INTEL));
    assert_eq!(list[2].describe(), "#2 GPU 2 (1002:73ff, 8176 MB dedicated)");
}

#[test]
fn each_encoder_found_is_offered_once_in_the_order_found() {
    let found = [
        Some(EncoderId::Qsv),
        None,
        Some(EncoderId::Nvenc),
        Some(EncoderId::Qsv),
        Some(EncoderId::Nvenc),
    ];
    assert_eq!(available_encoders(&found), vec![EncoderId::Qsv, EncoderId::Nvenc]);
    assert_eq!(available_encoders(&[None, None]), Vec::<EncoderId>::new());
}

#[test]
fn the_requested_transform_is_started_when_it_is_there() {
    let ids = [None, Some(EncoderId::Qsv), Some(EncoderId::Nvenc)];
    assert_eq!(pick_transform(EncoderId::Nvenc, &ids), (2, EncoderId::Nvenc));
}

#[test]
fn otherwise_the_first_hardware_transform_is_started() {
    let ids = [None, Some(EncoderId::Qsv), Some(EncoderId::Nvenc)];
    assert_eq!(pick_transform(EncoderId::Amf, &ids), (1, EncoderId::Qsv));
    // Software is passed over for hardware.
    assert_eq!(pick_transform(EncoderId::X264, &ids), (1, EncoderId::Qsv));
}

#[test]
fn without_hardware_the_software_transform_is_all_there_is() {
    assert_eq!(pick_transform(EncoderId::Nvenc, &[None, None]), (0, EncoderId::X264));
}

#[test]
fn the_rate_targets_saturate_and_the_quality_is_held_in_range() {
    assert_eq!(rate_targets(8_000, 70), (8_000_000, 12_000_000, 70));
    assert_eq!(rate_targets(u32::MAX, 0), (u32::MAX, u32::MAX, 1));
    assert_eq!(rate_targets(3_000_000, 250), (3_000_000_000, u32::MAX, 100));
}

#[test]
fn the_rate_control_falls_down_the_ladder() {
    assert_eq!(rate_control_in_force(true, true, false, false, false), RateControl::Quality);
    assert_eq!(rate_control_in_force(true, false, true, true, true), RateControl::PeakConstrainedVbr);
    assert_eq!(rate_control_in_force(false, false, true, true, false), RateControl::UnconstrainedVbr);
}

#[test]
fn a_frame_lasts_a_rate_share_of_a_second() {
    assert_eq!(frame_duration_100ns(60), 166_666);
    assert_eq!(frame_duration_100ns(30), 333_333);
    assert_eq!(frame_duration_100ns(0), 10_000_000);
    assert_eq!(frame_duration_100ns(1), 10_000_000);
}

#[test]
fn the_keyframe_distance_is_counted_in_frames() {
    assert_eq!(gop_length(60, 2), 120);
    assert_eq!(gop_length(30, 1), 30);
    assert_eq!(gop_length(0, 0), 1);
    assert_eq!(gop_length(144, 0), 144);
}

#[test]
fn the_encoder_pump_feeds_what_is_asked_and_stops_when_drained() {
    let start = PumpState { pending_input: 0, handled: false, finished: false };

    // A round with nothing in it sleeps.
    let (s, a) = pump_step(start, PumpEvent::NoMoreEvents);
    assert_eq!(a, PumpAction::Sleep);

    // Two requests are counted; the round then waits for a frame.
    let (s, a) = pump_step(s, PumpEvent::NeedInput);
    assert_eq!((s.pending_input, a), (1, PumpAction::NextEvent));
    let (s, _) = pump_step(s, PumpEvent::NeedInput);
    let (s, a) = pump_step(s, PumpEvent::HaveOutput);
    assert_eq!(a, PumpAction::TakeOutput);
    let (s, a) = pump_step(s, PumpEvent::NoMoreEvents);
    assert_eq!((s.pending_input, a), (2, PumpAction::WaitForJob));

    // A frame goes in and one request is settled.
    let (s, a) = pump_step(s, PumpEvent::JobArrived);
    assert_eq!((s.pending_input, s.handled, a), (1, false, PumpAction::Feed));
    let (s, a) = pump_step(s, PumpEvent::JobTimedOut);
    assert_eq!((s.pending_input, a), (1, PumpAction::NextEvent));

    // A round that brought something does not sleep, even with nothing owed.
    let busy = PumpState { pending_input: 0, handled: true, finished: false };
    let (after, a) = pump_step(busy, PumpEvent::NoMoreEvents);
    assert_eq!((after.handled, a), (false, PumpAction::NextEvent));

    let (s, a) = pump_step(s, PumpEvent::DrainComplete);
    assert!(s.finished);
    assert_eq!(a, PumpAction::Stop);
    let (s, a) = pump_step(start, PumpEvent::QueueError);
    assert!(s.finished);
    assert_eq!(a, PumpAction::Stop);
    let (_, a) = pump_step(start, PumpEvent::JobsGone);
    assert_eq!(a, PumpAction::Stop);
}
