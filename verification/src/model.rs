//! Plain data the rest of the library works on.
use vstd::prelude::*;

verus! {

#[derive(Debug, Clone, Copy, PartialEq, Eq, Structural)]
pub enum DeviceKind {
    Output,
    Input,
}

#[derive(Debug, Clone)]
pub struct AudioDevice {
    pub id: String,
    pub name: String,
    pub kind: DeviceKind,
    pub is_default: bool,
}

#[derive(Debug, Clone)]
pub struct AudioProcess {
    pub pid: u32,
    pub name: String,
    pub exe: String,
}

#[derive(Debug, Clone, Copy, PartialEq, Eq, Structural)]
pub enum ProcessMode {
    Include,
    Exclude,
}

/// Where one audio source takes its sound from.
#[derive(Debug, Clone, PartialEq, Eq)]
pub enum SourceKind {
    /// The audio of whichever game is detected right now. Deliberately without
    /// a PID: a stored one is dead after the first restart of the game.
    Game,
    /// Only ever read from an older configuration, never written: it is turned
    /// back into a plain output device when the configuration is loaded.
    Leftovers,
    OutputDevice { device_id: String, exclude_game: bool },
    InputDevice { device_id: String },
    /// One application. `exe` lets a restarted application be found again.
    Process { pid: u32, exe: Option<String>, mode: ProcessMode },
}

impl SourceKind {
    /// A variant-for-variant copy.
    pub fn duplicate(&self) -> (c: Self)
        ensures
            c == *self,
    {
        match self {
            SourceKind::Game => SourceKind::Game,
            SourceKind::Leftovers => SourceKind::Leftovers,
            SourceKind::OutputDevice { device_id, exclude_game } => SourceKind::OutputDevice {
                device_id: device_id.clone(),
                exclude_game: *exclude_game,
            },
            SourceKind::InputDevice { device_id } => SourceKind::InputDevice { device_id: device_id.clone() },
            SourceKind::Process { pid, exe, mode } => SourceKind::Process {
                pid: *pid,
                exe: crate::text::copy_opt(exe),
                mode: *mode,
            },
        }
    }
}

/// An audio source as far as routing and mixing decisions read it.
///
/// The level in decibels is not part of it: nothing decided here depends on
/// it, it only scales samples.
#[derive(Debug, Clone)]
pub struct AudioSource {
    pub id: String,
    pub label: String,
    pub kind: SourceKind,
    pub enabled: bool,
    pub muted: bool,
    pub solo: bool,
    /// Its own audio track in the MP4 instead of the main mix.
    pub separate_track: bool,
}

#[derive(Debug, Clone, Copy, PartialEq, Eq, Structural)]
pub enum EncoderId {
    Nvenc,
    Amf,
    Qsv,
    X264,
}

/// How the encoder decides how many bits a frame is worth.
#[derive(Debug, Clone, Copy, PartialEq, Eq, Structural)]
pub enum RateControl {
    /// Constant quality: the bitrate follows the picture.
    Quality,
    /// A bitrate target with a peak the encoder actually honours.
    PeakConstrainedVbr,
    /// A bitrate target and no ceiling at all — the last resort.
    UnconstrainedVbr,
}

#[derive(Debug, Clone)]
pub struct EncoderInfo {
    pub id: EncoderId,
    pub name: String,
    pub available: bool,
    pub hardware: bool,
}

#[derive(Debug, Clone, Copy, PartialEq, Eq, Structural)]
pub enum TargetKind {
    Monitor,
    Window,
}

#[derive(Debug, Clone)]
pub struct CaptureTarget {
    pub kind: TargetKind,
    /// Monitor: the GDI device name; window: the handle in hex.
    pub id: String,
    /// The panel's own identity, which survives a renumbering of the screens.
    pub stable_id: Option<String>,
    pub title: String,
    pub width: u32,
    pub height: u32,
    pub is_primary: bool,
    /// The screen's refresh rate in hertz, if Windows reports it.
    pub refresh_hz: Option<u32>,
}

impl CaptureTarget {
    /// A field-for-field copy.
    pub fn duplicate(&self) -> (c: Self)
        ensures
            c == *self,
    {
        CaptureTarget {
            kind: self.kind,
            id: self.id.clone(),
            stable_id: crate::text::copy_opt(&self.stable_id),
            title: self.title.clone(),
            width: self.width,
            height: self.height,
            is_primary: self.is_primary,
            refresh_hz: self.refresh_hz,
        }
    }
}

#[derive(Debug, Clone)]
pub struct RecordingConfig {
    pub target_kind: TargetKind,
    pub target_id: Option<String>,
    pub target_stable_id: Option<String>,
    pub width: u32,
    pub height: u32,
    pub fps: u32,
    /// Only a fallback: with constant quality the encoder ignores it. It still
    /// sizes the memory budget.
    pub bitrate_kbps: u32,
    /// What the picture is worth, 1 (smallest) to 100 (best).
    pub quality: u32,
    pub encoder: EncoderId,
    pub keyframe_seconds: u32,
}

/// The encoder's own default quality.
pub fn default_quality() -> (q: u32)
    ensures
        q == 70,
{
    70
}

#[derive(Debug, Clone, Copy, PartialEq, Eq, Structural)]
pub struct BufferConfig {
    /// Switch the buffer on by itself.
    pub auto_start: bool,
    pub seconds: u32,
    /// How much of the buffer a save actually writes; `0` means all of it.
    pub clip_seconds: u32,
    /// Ceiling on what the packet ring may occupy, in megabytes; `0` derives it
    /// from bitrate and buffer length.
    pub memory_mb: u32,
}

/// Which screen corner the overlay banner appears in.
#[derive(Debug, Clone, Copy, PartialEq, Eq, Structural)]
pub enum OverlayCorner {
    TopLeft,
    TopRight,
    BottomLeft,
    BottomRight,
}

/// The banner shown over the game.
#[derive(Debug, Clone)]
pub struct OverlayConfig {
    pub enabled: bool,
    pub on_clip_saved: bool,
    pub on_buffer_toggle: bool,
    pub on_error: bool,
    pub on_screenshot: bool,
    pub corner: OverlayCorner,
    pub duration_ms: u32,
    /// The screen the banner sticks to; `None` means the primary screen.
    pub monitor: Option<String>,
    pub monitor_stable_id: Option<String>,
    /// Follow the foreground window instead of a fixed screen.
    pub follow_active_screen: bool,
}

impl OverlayConfig {
    pub fn default() -> (c: Self)
        ensures
            c.enabled && c.on_clip_saved && c.on_buffer_toggle && c.on_error && c.on_screenshot,
            c.corner == OverlayCorner::BottomRight,
            c.duration_ms == 3500,
            c.monitor.is_none() && c.monitor_stable_id.is_none(),
            !c.follow_active_screen,
    {
        OverlayConfig {
            enabled: true,
            on_clip_saved: true,
            on_buffer_toggle: true,
            on_error: true,
            on_screenshot: yes(),
            corner: OverlayCorner::BottomRight,
            duration_ms: 3500,
            monitor: None,
            monitor_stable_id: None,
            follow_active_screen: false,
        }
    }
}

/// The local control port a Stream Deck presses the same buttons through.
#[derive(Debug, Clone)]
pub struct ControlConfig {
    pub enabled: bool,
    pub port: u16,
    /// Empty means "not generated yet".
    pub token: String,
}

/// Nothing well-known, and above the range Windows hands out for outgoing
/// connections by itself.
pub const DEFAULT_CONTROL_PORT: u16 = 47653;

impl ControlConfig {
    pub fn default() -> (c: Self)
        ensures
            c.enabled,
            c.port == DEFAULT_CONTROL_PORT,
            c.token@.len() == 0,
    {
        ControlConfig { enabled: true, port: DEFAULT_CONTROL_PORT, token: String::new() }
    }
}

/// S saves, B is the buffer, P is the picture.
pub fn default_screenshot_hotkey() -> (k: String)
    ensures
        k@ == "Ctrl+Shift+P"@,
{
    String::from_str("Ctrl+Shift+P")
}

/// A plain `true`, for fields that default to it.
pub fn yes() -> (b: bool)
    ensures
        b,
{
    true
}

/// The recording that was trimmed away — and where inside it the delivered
/// excerpt sits. These numbers are the zero point for the individual tracks.
#[derive(Debug, Clone, Copy, PartialEq, Eq, Structural)]
pub struct ClipOriginal {
    /// Full length of the untouched recording.
    pub duration_ms: u64,
    /// Where the delivered excerpt starts and ends inside the original.
    pub start_ms: u64,
    pub end_ms: u64,
}

/// What a clip file is, which decides the folder it is filed in.
#[derive(Debug, Clone, Copy, PartialEq, Eq, Structural)]
pub enum ClipKind {
    Clip,
    Screenshot,
    Recording,
}

/// An audio track as it sits in the finished MP4 file.
#[derive(Debug, Clone)]
pub struct ClipTrack {
    /// Index among the file's audio tracks, not the ffmpeg stream index.
    pub index: u32,
    pub label: String,
    pub channels: u32,
    /// A file extracted for preview, if there is one.
    pub preview_path: Option<String>,
}

/// What ClippiBoy keeps out of sight in the app data directory.
#[derive(Debug, Clone, Copy)]
pub struct StorageUsage {
    pub originals_bytes: u64,
    pub tracks_bytes: u64,
    pub thumbs_bytes: u64,
}


/// The whole persistent configuration.
#[derive(Debug, Clone)]
pub struct AppConfig {
    pub recording: RecordingConfig,
    pub buffer: BufferConfig,
    pub sources: Vec<AudioSource>,
    pub clip_dir: String,
    pub save_clip_hotkey: String,
    pub toggle_buffer_hotkey: String,
    pub screenshot_hotkey: String,
    pub auto_start_with_windows: bool,
    pub only_buffer_in_game: bool,
    pub overlay: OverlayConfig,
    /// Has it already been explained that closing leaves the app in the tray?
    pub tray_hint_shown: bool,
    /// The local port for the Stream Deck plugin.
    pub control: ControlConfig,
}

/// One step of a screenshot's markup, applied in order.
#[derive(Debug, Clone)]
pub enum Step {
    /// An area to make unreadable, in pixels of the original picture.
    Blur {
        x: u32,
        y: u32,
        width: u32,
        height: u32,
        /// How far the blur reaches.
        radius: u32,
        /// Blur an oval inside the rectangle rather than the rectangle itself.
        ellipse: bool,
    },
    /// A picture with alpha, the size of the original, holding everything
    /// drawn in one go.
    Layer { png: Vec<u8> },
}

} // verus!
