use clippiboy::gpu::AdapterInfo;
use clippiboy::model::{EncoderId, RateControl};
use clippiboy::profile::{profile_text, CodecReport, EncoderProfile};

fn base() -> EncoderProfile {
    EncoderProfile {
        requested: EncoderId::Nvenc,
        chosen: EncoderId::Nvenc,
        candidates: vec![
            ("NVIDIA H.264 Encoder MFT".to_string(), Some(EncoderId::Nvenc)),
            ("H264 Encoder MFT".to_string(), None),
        ],
        pick: 0,
        adapter: Some(AdapterInfo {
            index: 0,
            name: "RTX 3070".to_string(),
            vendor_id: 0x10DE,
            device_id: 0x2484,
            dedicated_vram: 8 * 1024 * 1024 * 1024,
        }),
        width: 1920,
        height: 1080,
        fps: 60,
        bitrate_kbps: 19_000,
        quality: 70,
        rate_control: RateControl::Quality,
        is_async: true,
        provides_samples: true,
        report: Some(CodecReport {
            rejected: vec![],
            gop_wanted: 120,
            gop_effective: Some(120),
            quality_vs_speed: 50,
            low_latency: false,
        }),
        bframes: None,
    }
}

#[test]
fn the_profile_says_what_runs() {
    let expected = [
        "encoder profile",
        "  requested        Nvenc",
        "  running          Nvenc",
        "  transform        NVIDIA H.264 Encoder MFT (Nvenc)",
        "  adapter          #0 RTX 3070 (10de:2484, 8192 MB dedicated)",
        "  picture          1920x1080 @ 60 fps, 19000 kbit/s, quality 70",
        "  rate control     Quality",
        "  model            asynchronous (hardware), samples from the encoder",
        "  keyframes        every 120 frames, encoder says 120",
        "  quality/speed    50, low latency false, B-frames not asked, so the driver's own",
        "  refused          nothing",
        "  candidates       2",
        "    [0] * NVIDIA H.264 Encoder MFT — Nvenc",
        "    [1]   H264 Encoder MFT — software",
    ]
    .join("\n");
    assert_eq!(profile_text(&base()), expected);
}

#[test]
fn the_profile_flags_what_differs_from_the_request() {
    let mut p = base();
    p.requested = EncoderId::Amf;
    p.rate_control = RateControl::UnconstrainedVbr;
    p.adapter = None;
    p.report = Some(CodecReport {
        rejected: vec!["quality".to_string(), "B-frames".to_string()],
        gop_wanted: 120,
        gop_effective: None,
        quality_vs_speed: 33,
        low_latency: true,
    });
    p.bframes = Some((2, false));
    let text = profile_text(&p);
    assert!(text.contains("  running          Nvenc   <-- NOT what was asked for\n"));
    assert!(text.contains("  rate control     UnconstrainedVbr   <-- not constant quality\n"));
    assert!(text.contains("  adapter          DXGI default (nothing was requested)\n"));
    assert!(text.contains("encoder says (will not say)\n"));
    assert!(text.contains("B-frames 2 asked for and REFUSED, so the driver's own\n"));
    assert!(text.contains("  refused          quality, B-frames\n"));
    p.report = None;
    assert!(profile_text(&p).contains("  refused          no ICodecAPI at all — nothing could be set\n"));
}
