//! The rules of the persistent configuration: what a saved number means, and
//! how an older configuration is brought up to date.
use vstd::prelude::*;
use crate::encode::{available, bitrate_for, bitrate_spec, preferred_encoder, preferred_spec, resolve};
use crate::model::{
    default_quality, default_screenshot_hotkey, AppConfig, AudioSource, BufferConfig, ControlConfig, EncoderId,
    OverlayConfig, RecordingConfig, SourceKind, TargetKind, DEFAULT_CONTROL_PORT,
};

verus! {

pub open spec fn effective_clip_spec(buffer: BufferConfig) -> u32 {
    if buffer.clip_seconds == 0 || buffer.clip_seconds > buffer.seconds {
        buffer.seconds
    } else {
        buffer.clip_seconds
    }
}

/// How many seconds a save actually writes. `0` means the whole buffer, which
/// was the only behaviour before the setting existed; and never longer than
/// the buffer, which holds nothing older.
pub fn effective_clip_seconds(buffer: &BufferConfig) -> (s: u32)
    ensures
        s == effective_clip_spec(*buffer),
        s <= buffer.seconds,
{
    if buffer.clip_seconds == 0 {
        return buffer.seconds;
    }
    if buffer.clip_seconds < buffer.seconds {
        buffer.clip_seconds
    } else {
        buffer.seconds
    }
}

/// Half again on top of what bitrate and length need, for the peaks a variable
/// bitrate produces; never under 64 MiB, so a tiny buffer at a low bitrate
/// still has room for the group of pictures it must never drop.
pub open spec fn derived_memory(kbps: int, seconds: int) -> int {
    let per_second = kbps * 1000 / 8;
    let plain = per_second * (if seconds > 1 { seconds } else { 1 });
    let padded = plain * 3 / 2;
    if padded > 64 * 1024 * 1024 { padded } else { 64 * 1024 * 1024int }
}

pub open spec fn effective_memory_spec(recording: RecordingConfig, buffer: BufferConfig) -> int {
    if buffer.memory_mb > 0 {
        buffer.memory_mb * 1024 * 1024
    } else {
        derived_memory(recording.bitrate_kbps as int, buffer.seconds as int)
    }
}

/// How much memory the packet ring may take, in bytes. `0` derives it from
/// bitrate and buffer length.
pub fn effective_memory_bytes(recording: &RecordingConfig, buffer: &BufferConfig) -> (b: u64)
    requires
        buffer.memory_mb == 0 ==> recording.bitrate_kbps * 1000 / 8 * (if buffer.seconds > 1 {
            buffer.seconds as int
        } else {
            1
        }) * 3 <= u64::MAX,
    ensures
        b == effective_memory_spec(*recording, *buffer),
{
    if buffer.memory_mb > 0 {
        return buffer.memory_mb as u64 * 1024 * 1024;
    }
    let bytes_per_second = recording.bitrate_kbps as u64 * 1000 / 8;
    let seconds: u64 = if buffer.seconds > 1 { buffer.seconds as u64 } else { 1 };
    assert(bytes_per_second * seconds * 3 <= u64::MAX);
    assert(bytes_per_second * seconds <= u64::MAX) by (nonlinear_arith)
        requires bytes_per_second * seconds * 3 <= u64::MAX, bytes_per_second >= 0, seconds >= 1;
    let plain = bytes_per_second * seconds;
    let padded = plain * 3 / 2;
    if padded > 64 * 1024 * 1024 { padded } else { 64 * 1024 * 1024 }
}

/// Is any source of the leftover kind an older version wrote?
pub open spec fn has_leftovers(sources: Seq<AudioSource>) -> bool {
    exists|i: int| 0 <= i < sources.len() && (#[trigger] sources[i]).kind is Leftovers
}

/// One source after the detour is undone: the leftover kind becomes the
/// default output device again (its device was never stored), and an output
/// device the detour switched off is switched back on.
pub open spec fn migrated(before: AudioSource, after: AudioSource) -> bool {
    &&& after.id == before.id
    &&& after.label == before.label
    &&& after.muted == before.muted
    &&& after.solo == before.solo
    &&& after.separate_track == before.separate_track
    &&& match before.kind {
        SourceKind::Leftovers => {
            &&& after.kind matches SourceKind::OutputDevice { device_id, exclude_game }
            &&& device_id@ == Seq::<char>::empty()
            &&& !exclude_game
            &&& after.enabled == before.enabled
        },
        SourceKind::OutputDevice { .. } => after.kind == before.kind && after.enabled,
        _ => after.kind == before.kind && after.enabled == before.enabled,
    }
}

fn migrate_one(source: &AudioSource) -> (out: AudioSource)
    ensures
        migrated(*source, out),
{
    let kind = match &source.kind {
        SourceKind::Leftovers => SourceKind::OutputDevice { device_id: String::new(), exclude_game: false },
        other => other.duplicate(),
    };
    let enabled = match &source.kind {
        SourceKind::OutputDevice { .. } => true,
        _ => source.enabled,
    };
    AudioSource {
        id: source.id.clone(),
        label: source.label.clone(),
        kind,
        enabled,
        muted: source.muted,
        solo: source.solo,
        separate_track: source.separate_track,
    }
}

/// Undo the detour where the leftovers were briefly a source kind of their
/// own, with the other output devices switched off. A configuration that never
/// took the detour is left exactly as it is. Afterwards no leftover kind is
/// left, so a second run changes nothing.
pub fn migrate_sources(sources: &mut Vec<AudioSource>)
    ensures
        !has_leftovers(old(sources)@) ==> final(sources)@ == old(sources)@,
        has_leftovers(old(sources)@) ==> final(sources)@.len() == old(sources)@.len() && forall|i: int|
            0 <= i < old(sources)@.len() ==> migrated(#[trigger] old(sources)@[i], final(sources)@[i]),
        !has_leftovers(final(sources)@),
{
    let mut any = false;
    let mut k: usize = 0;
    while k < sources.len()
        invariant
            k <= sources@.len(),
            any == exists|j: int| 0 <= j < k && (#[trigger] sources@[j]).kind is Leftovers,
        decreases sources@.len() - k,
    {
        if let SourceKind::Leftovers = sources[k].kind {
            any = true;
        }
        k = k + 1;
    }
    if !any {
        return;
    }
    let mut out: Vec<AudioSource> = Vec::new();
    let mut i: usize = 0;
    while i < sources.len()
        invariant
            i <= sources@.len(),
            out@.len() == i,
            forall|j: int| 0 <= j < i ==> migrated(#[trigger] sources@[j], out@[j]),
        decreases sources@.len() - i,
    {
        let m = migrate_one(&sources[i]);
        out.push(m);
        i = i + 1;
    }
    assert forall|j: int| 0 <= j < out@.len() implies !((#[trigger] out@[j]).kind is Leftovers) by {
        assert(migrated(sources@[j], out@[j]));
    }
    *sources = out;
}

} // verus!

verus! {

/// What a fresh installation starts with, given the folder clips go to and
/// the hardware encoders present.
pub fn default_config(clip_dir: String, hardware: &[EncoderId]) -> (c: AppConfig)
    ensures
        c.recording.target_kind == TargetKind::Monitor,
        c.recording.target_id is None && c.recording.target_stable_id is None,
        c.recording.width == 1920 && c.recording.height == 1080 && c.recording.fps == 60,
        c.recording.bitrate_kbps == bitrate_spec(1920, 1080, 60),
        c.recording.quality == 70,
        c.recording.encoder == preferred_spec(hardware@),
        c.recording.keyframe_seconds == 2,
        c.buffer == (BufferConfig { auto_start: false, seconds: 120, clip_seconds: 0, memory_mb: 0 }),
        c.sources@.len() == 0,
        c.clip_dir@ == clip_dir@,
        c.save_clip_hotkey@ == "Ctrl+Shift+S"@,
        c.toggle_buffer_hotkey@ == "Ctrl+Shift+B"@,
        c.screenshot_hotkey@ == "Ctrl+Shift+P"@,
        !c.auto_start_with_windows,
        c.only_buffer_in_game,
        c.overlay.enabled && c.overlay.on_clip_saved && c.overlay.on_buffer_toggle && c.overlay.on_error
            && c.overlay.on_screenshot,
        c.overlay.corner == crate::model::OverlayCorner::BottomRight,
        c.overlay.duration_ms == 3500,
        c.overlay.monitor is None && c.overlay.monitor_stable_id is None,
        !c.overlay.follow_active_screen,
        !c.tray_hint_shown,
        c.control.enabled && c.control.port == DEFAULT_CONTROL_PORT && c.control.token@.len() == 0,
{
    AppConfig {
        recording: RecordingConfig {
            target_kind: TargetKind::Monitor,
            target_id: None,
            target_stable_id: None,
            width: 1920,
            height: 1080,
            fps: 60,
            bitrate_kbps: bitrate_for(1920, 1080, 60),
            quality: default_quality(),
            encoder: preferred_encoder(hardware),
            keyframe_seconds: 2,
        },
        buffer: BufferConfig { auto_start: false, seconds: 120, clip_seconds: 0, memory_mb: 0 },
        sources: Vec::new(),
        clip_dir,
        save_clip_hotkey: String::from_str("Ctrl+Shift+S"),
        toggle_buffer_hotkey: String::from_str("Ctrl+Shift+B"),
        screenshot_hotkey: default_screenshot_hotkey(),
        auto_start_with_windows: false,
        only_buffer_in_game: true,
        overlay: OverlayConfig::default(),
        tray_hint_shown: false,
        control: ControlConfig::default(),
    }
}

/// A configuration as read from disk, brought in line with this machine: the
/// encoder checked against the hardware present, the bitrate derived from the
/// picture again (a number from when it was a slider means nothing now), and
/// the sources migrated.
pub fn settle_loaded(config: &mut AppConfig, hardware: &[EncoderId])
    ensures
        final(config).recording == (RecordingConfig {
            encoder: final(config).recording.encoder,
            bitrate_kbps: final(config).recording.bitrate_kbps,
            ..old(config).recording
        }),
        available(hardware@, old(config).recording.encoder) ==> final(config).recording.encoder == old(
            config,
        ).recording.encoder,
        !available(hardware@, old(config).recording.encoder) ==> final(config).recording.encoder
            == preferred_spec(hardware@),
        final(config).recording.bitrate_kbps == bitrate_spec(
            old(config).recording.width as int,
            old(config).recording.height as int,
            old(config).recording.fps as int,
        ),
        !has_leftovers(old(config).sources@) ==> final(config).sources@ == old(config).sources@,
        has_leftovers(old(config).sources@) ==> final(config).sources@.len() == old(config).sources@.len()
            && forall|i: int|
            0 <= i < old(config).sources@.len() ==> migrated(
                #[trigger] old(config).sources@[i],
                final(config).sources@[i],
            ),
        (AppConfig { recording: final(config).recording, sources: final(config).sources, ..*old(config) })
            == *final(config),
{
    config.recording.encoder = resolve(config.recording.encoder, hardware);
    config.recording.bitrate_kbps = bitrate_for(config.recording.width, config.recording.height, config.recording.fps);
    let mut sources: Vec<AudioSource> = Vec::new();
    std::mem::swap(&mut sources, &mut config.sources);
    migrate_sources(&mut sources);
    config.sources = sources;
}

} // verus!
