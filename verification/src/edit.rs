//! Write the clip exactly as it stands in the editor — mix **and** trim.
//!
//! The untouched recording moves into a store beside the individual tracks on
//! the first real cut. Three invariants hold throughout:
//!
//! 1. **The individual tracks stay untrimmed** and are always in coordinates of
//!    the original.
//! 2. **Audio still sitting in the file** is in coordinates of the file that is
//!    input 0, and therefore inherits the *video* offset.
//! 3. **Re-encoding always happens from the original**, never from the
//!    already-trimmed file, so the quality loss stays at one generation.
use vstd::prelude::*;
use crate::model::{ClipOriginal, EncoderId};
use crate::model::ClipTrack;
use crate::text::{decimal, kilo, kilo_arg, push_arg, push_owned_arg, push_str, seconds_arg, seconds_text, to_decimal};

verus! {

/// From here on a boundary counts as deliberately set. Below that it is the
/// result of a handle that did not quite sit at the end stop.
pub const EDGE_TOLERANCE_MS: u64 = 250;

/// Any shorter and there is no video left.
pub const MIN_LENGTH_MS: u64 = 200;

/// The excerpt the editor is showing right now, in milliseconds of the
/// **current** file.
#[derive(Debug, Clone, Copy, PartialEq, Eq, Structural)]
pub struct Trim {
    pub start_ms: u64,
    pub end_ms: u64,
}

impl Trim {
    /// The whole range, i.e. "cut nothing away".
    pub fn whole(duration_ms: u64) -> (t: Self)
        ensures
            t.start_ms == 0,
            t.end_ms == duration_ms,
    {
        Trim { start_ms: 0, end_ms: duration_ms }
    }
}

/// Where the video comes from.
#[derive(Debug, Clone, Copy, PartialEq, Eq, Structural)]
pub enum VideoSource {
    /// The delivered file — it is already trimmed as far as it should be.
    Clip,
    /// The untouched recording. Re-encoding only ever happens from here.
    Original,
}

/// What the single ffmpeg run should do.
#[derive(Debug, Clone, Copy, PartialEq, Eq, Structural)]
pub struct RenderPlan {
    pub video: VideoSource,
    /// Offset into the video source.
    pub video_start_ms: u64,
    /// Offset into the individual tracks — those are always in the original.
    pub stems_start_ms: u64,
    pub length_ms: u64,
    /// Does the video have to be recomputed? Only when cutting at the front.
    pub reencode: bool,
    /// How the clip stands in the database afterwards. `None` means the whole
    /// recording, no original needed.
    pub original: Option<ClipOriginal>,
}

/// What lands in the database after writing.
#[derive(Debug, Clone, Copy, PartialEq, Eq, Structural)]
pub struct Applied {
    pub duration_ms: u64,
    pub size_bytes: u64,
    pub original: Option<ClipOriginal>,
}

/// Offset of the current file inside the original, and the original's length.
pub open spec fn frame_of(base: Option<ClipOriginal>, clip_duration_ms: int) -> (int, int) {
    match base {
        Some(o) => (o.start_ms as int, o.duration_ms as int),
        None => (0, clip_duration_ms),
    }
}

/// The start of the trim, held inside the file.
pub open spec fn start_of(clip_duration_ms: int, trim: Trim) -> int {
    if trim.start_ms < clip_duration_ms { trim.start_ms as int } else { clip_duration_ms }
}

/// The end of the trim: at least `MIN_LENGTH_MS` after the start, and no later
/// than the file's end unless the file is shorter than that.
pub open spec fn end_of(clip_duration_ms: int, trim: Trim) -> int {
    let start = start_of(clip_duration_ms, trim);
    let lo = start + MIN_LENGTH_MS;
    let hi = if clip_duration_ms > lo { clip_duration_ms } else { lo };
    if trim.end_ms < lo { lo } else if trim.end_ms > hi { hi } else { trim.end_ms as int }
}

pub open spec fn cuts_front(clip_duration_ms: int, trim: Trim) -> bool {
    start_of(clip_duration_ms, trim) > EDGE_TOLERANCE_MS
}

pub open spec fn cuts_back(clip_duration_ms: int, trim: Trim) -> bool {
    end_of(clip_duration_ms, trim) + EDGE_TOLERANCE_MS < clip_duration_ms
}

/// Where the new excerpt starts inside the original.
pub open spec fn absolute_start(base: Option<ClipOriginal>, clip_duration_ms: int, trim: Trim) -> int {
    frame_of(base, clip_duration_ms).0 + if cuts_front(clip_duration_ms, trim) {
        start_of(clip_duration_ms, trim)
    } else {
        0
    }
}

/// Where the new excerpt ends inside the original.
pub open spec fn absolute_end(base: Option<ClipOriginal>, clip_duration_ms: int, trim: Trim) -> int {
    frame_of(base, clip_duration_ms).0 + if cuts_back(clip_duration_ms, trim) {
        end_of(clip_duration_ms, trim)
    } else {
        clip_duration_ms
    }
}

/// The job [`plan`] derives from the editor state.
pub open spec fn plan_spec(
    base: Option<ClipOriginal>,
    has_original: bool,
    clip_duration_ms: int,
    trim: Trim,
) -> RenderPlan {
    let front = cuts_front(clip_duration_ms, trim);
    let a = absolute_start(base, clip_duration_ms, trim);
    let b = absolute_end(base, clip_duration_ms, trim);
    let full = frame_of(base, clip_duration_ms).1;
    let span = if b > a { b - a } else { 0 };
    RenderPlan {
        video: if front && has_original { VideoSource::Original } else { VideoSource::Clip },
        video_start_ms: (if !front {
            0
        } else if has_original {
            a
        } else {
            start_of(clip_duration_ms, trim)
        }) as u64,
        stems_start_ms: a as u64,
        length_ms: (if span > MIN_LENGTH_MS { span } else { MIN_LENGTH_MS as int }) as u64,
        reencode: front,
        original: if a > 0 || b < full {
            Some(ClipOriginal { duration_ms: full as u64, start_ms: a as u64, end_ms: b as u64 })
        } else {
            None
        },
    }
}

/// Derive the job from the editor state.
///
/// `base` is the cut already sitting in the file; `trim` is the excerpt marked
/// on **this** file's timeline. The new cut in original coordinates is
/// therefore `base.start + trim.start .. base.start + trim.end` — which allows
/// trimming further inwards indefinitely. `has_original` says whether the
/// untouched recording is still on disk — only then can it be encoded from.
pub fn plan(base: Option<&ClipOriginal>, has_original: bool, clip_duration_ms: u64, trim: Trim) -> (p: RenderPlan)
    requires
        clip_duration_ms + EDGE_TOLERANCE_MS + MIN_LENGTH_MS <= u64::MAX,
        base matches Some(o) ==> o.start_ms + clip_duration_ms + MIN_LENGTH_MS <= u64::MAX,
    ensures
        p == plan_spec(
            match base {
                Some(o) => Some(*o),
                None => None,
            },
            has_original,
            clip_duration_ms as int,
            trim,
        ),
{
    let (offset, full) = match base {
        Some(original) => (original.start_ms, original.duration_ms),
        None => (0, clip_duration_ms),
    };

    let start = if trim.start_ms < clip_duration_ms { trim.start_ms } else { clip_duration_ms };
    let lo = start + MIN_LENGTH_MS;
    let hi = if clip_duration_ms > lo { clip_duration_ms } else { lo };
    let end = if trim.end_ms < lo { lo } else if trim.end_ms > hi { hi } else { trim.end_ms };

    let cuts_front = start > EDGE_TOLERANCE_MS;
    let cuts_back = end + EDGE_TOLERANCE_MS < clip_duration_ms;

    let absolute_start = offset + if cuts_front { start } else { 0 };
    let absolute_end = offset + if cuts_back { end } else { clip_duration_ms };
    let span = if absolute_end > absolute_start { absolute_end - absolute_start } else { 0 };
    let length_ms = if span > MIN_LENGTH_MS { span } else { MIN_LENGTH_MS };

    // If everything at the front stays, the delivered file already is the
    // right beginning — then it is copied and the video is not touched. If the
    // front is cut, the video comes from the original; if the store is gone,
    // the already-trimmed file has to do, with a relative offset.
    let (video, video_start_ms) = if !cuts_front {
        (VideoSource::Clip, 0)
    } else if has_original {
        (VideoSource::Original, absolute_start)
    } else {
        (VideoSource::Clip, start)
    };

    let trimmed = absolute_start > 0 || absolute_end < full;
    RenderPlan {
        video,
        video_start_ms,
        stems_start_ms: absolute_start,
        length_ms,
        reencode: cuts_front,
        original: if trimmed {
            Some(ClipOriginal { duration_ms: full, start_ms: absolute_start, end_ms: absolute_end })
        } else {
            None
        },
    }
}

/// The job for undoing: the whole recording, copied losslessly.
pub fn restore_plan(base: &ClipOriginal) -> (p: RenderPlan)
    ensures
        p == (RenderPlan {
            video: VideoSource::Original,
            video_start_ms: 0,
            stems_start_ms: 0,
            length_ms: base.duration_ms,
            reencode: false,
            original: None,
        }),
{
    RenderPlan {
        video: VideoSource::Original,
        video_start_ms: 0,
        stems_start_ms: 0,
        length_ms: base.duration_ms,
        reencode: false,
        original: None,
    }
}

/// Only changing the mix never touches the picture: with the whole file
/// marked, the video is copied from the delivered file at offset zero, and a
/// clip that was never trimmed needs no original.
pub proof fn law_mixing_only_leaves_the_picture_alone(
    base: Option<ClipOriginal>,
    has_original: bool,
    clip_duration_ms: u64,
)
    ensures
        ({
            let p = plan_spec(base, has_original, clip_duration_ms as int, Trim { start_ms: 0, end_ms: clip_duration_ms });
            &&& !p.reencode
            &&& p.video == VideoSource::Clip
            &&& p.video_start_ms == 0
            &&& base.is_none() ==> p == (RenderPlan {
                video: VideoSource::Clip,
                video_start_ms: 0,
                stems_start_ms: 0,
                length_ms: if clip_duration_ms >= MIN_LENGTH_MS {
                    clip_duration_ms
                } else {
                    MIN_LENGTH_MS
                },
                reencode: false,
                original: None,
            })
        }),
{
}

/// Trimming only ever narrows: on a clip whose record says where it sits
/// inside the original, the new excerpt lies within the old one, in the same
/// original, and the individual tracks are entered exactly at its start.
pub proof fn law_trimming_only_narrows(
    base: Option<ClipOriginal>,
    has_original: bool,
    clip_duration_ms: u64,
    trim: Trim,
)
    requires
        base matches Some(b) ==> b.end_ms == b.start_ms + clip_duration_ms && b.end_ms <= b.duration_ms,
        clip_duration_ms + EDGE_TOLERANCE_MS + MIN_LENGTH_MS <= u64::MAX,
        base matches Some(b) ==> b.start_ms + clip_duration_ms + MIN_LENGTH_MS <= u64::MAX,
    ensures
        ({
            let p = plan_spec(base, has_original, clip_duration_ms as int, trim);
            let (offset, full) = frame_of(base, clip_duration_ms as int);
            p.original matches Some(o) ==> {
                &&& o.duration_ms == full
                &&& offset <= o.start_ms <= o.end_ms <= offset + clip_duration_ms
                &&& p.stems_start_ms == o.start_ms
                &&& o.end_ms - o.start_ms >= MIN_LENGTH_MS ==> p.length_ms == o.end_ms - o.start_ms
            }
        }),
{
}

/// Cuts compose in original coordinates: marking `start..end` on a file that
/// already sits at `base.start_ms` inside the original cuts the original at
/// `base.start_ms + start .. base.start_ms + end`.
pub proof fn law_cuts_compose(base: ClipOriginal, has_original: bool, clip_duration_ms: u64, trim: Trim)
    requires
        EDGE_TOLERANCE_MS < trim.start_ms,
        trim.start_ms + MIN_LENGTH_MS <= trim.end_ms,
        trim.end_ms + EDGE_TOLERANCE_MS < clip_duration_ms,
        base.start_ms + clip_duration_ms + MIN_LENGTH_MS <= u64::MAX,
    ensures
        plan_spec(Some(base), has_original, clip_duration_ms as int, trim).original == Some(
            ClipOriginal {
                duration_ms: base.duration_ms,
                start_ms: (base.start_ms + trim.start_ms) as u64,
                end_ms: (base.start_ms + trim.end_ms) as u64,
            },
        ),
        plan_spec(Some(base), has_original, clip_duration_ms as int, trim).length_ms == trim.end_ms
            - trim.start_ms,
        plan_spec(Some(base), has_original, clip_duration_ms as int, trim).reencode,
{
}

/// Only changing the mix of a clip that has long been trimmed keeps its
/// bounds: the record comes out exactly as it went in.
pub proof fn law_remixing_keeps_the_bounds(base: ClipOriginal, has_original: bool)
    requires
        base.start_ms <= base.end_ms <= base.duration_ms,
        base.start_ms > 0 || base.end_ms < base.duration_ms,
    ensures
        ({
            let d = (base.end_ms - base.start_ms) as u64;
            let p = plan_spec(Some(base), has_original, d as int, Trim { start_ms: 0, end_ms: d });
            &&& p.original == Some(base)
            &&& p.stems_start_ms == base.start_ms
            &&& !p.reencode
        }),
{
}

/// The video half of the ffmpeg line for a re-encode. It aims at a quality,
/// with the bitrate as the ceiling hardware encoders want.
pub open spec fn video_args_spec(encoder: EncoderId, bitrate_kbps: int) -> Seq<Seq<char>> {
    let rate = if bitrate_kbps > 4000 { bitrate_kbps } else { 4000 };
    let bitrate = kilo(rate as nat);
    let maxrate = kilo((rate * 3 / 2) as nat);
    match encoder {
        EncoderId::Nvenc => seq![
            "-c:v"@, "h264_nvenc"@, "-preset"@, "p5"@, "-rc"@, "vbr"@, "-pix_fmt"@, "yuv420p"@,
            "-b:v"@, bitrate, "-maxrate"@, maxrate,
        ],
        EncoderId::Amf => seq![
            "-c:v"@, "h264_amf"@, "-quality"@, "balanced"@, "-pix_fmt"@, "yuv420p"@, "-b:v"@, bitrate,
        ],
        EncoderId::Qsv => seq![
            "-c:v"@, "h264_qsv"@, "-preset"@, "medium"@, "-pix_fmt"@, "yuv420p"@, "-b:v"@, bitrate,
        ],
        EncoderId::X264 => seq![
            "-c:v"@, "libx264"@, "-preset"@, "veryfast"@, "-crf"@, "20"@, "-pix_fmt"@, "yuv420p"@,
        ],
    }
}

pub fn video_args(encoder: EncoderId, bitrate_kbps: u32) -> (args: Vec<String>)
    requires
        bitrate_kbps <= u32::MAX / 3,
    ensures
        args.deep_view() == video_args_spec(encoder, bitrate_kbps as int),
{
    let rate: u32 = if bitrate_kbps > 4000 { bitrate_kbps } else { 4000 };
    let mut args: Vec<String> = Vec::new();
    match encoder {
        EncoderId::Nvenc => {
            push_arg(&mut args, "-c:v");
            push_arg(&mut args, "h264_nvenc");
            push_arg(&mut args, "-preset");
            push_arg(&mut args, "p5");
            push_arg(&mut args, "-rc");
            push_arg(&mut args, "vbr");
        },
        EncoderId::Amf => {
            push_arg(&mut args, "-c:v");
            push_arg(&mut args, "h264_amf");
            push_arg(&mut args, "-quality");
            push_arg(&mut args, "balanced");
        },
        EncoderId::Qsv => {
            push_arg(&mut args, "-c:v");
            push_arg(&mut args, "h264_qsv");
            push_arg(&mut args, "-preset");
            push_arg(&mut args, "medium");
        },
        EncoderId::X264 => {
            push_arg(&mut args, "-c:v");
            push_arg(&mut args, "libx264");
            push_arg(&mut args, "-preset");
            push_arg(&mut args, "veryfast");
            push_arg(&mut args, "-crf");
            push_arg(&mut args, "20");
        },
    }
    push_arg(&mut args, "-pix_fmt");
    push_arg(&mut args, "yuv420p");
    match encoder {
        EncoderId::Nvenc => {
            push_arg(&mut args, "-b:v");
            push_owned_arg(&mut args, kilo_arg(rate as u64));
            push_arg(&mut args, "-maxrate");
            push_owned_arg(&mut args, kilo_arg((rate * 3 / 2) as u64));
        },
        EncoderId::Amf | EncoderId::Qsv => {
            push_arg(&mut args, "-b:v");
            push_owned_arg(&mut args, kilo_arg(rate as u64));
        },
        EncoderId::X264 => {},
    }
    assert(args.deep_view() =~= video_args_spec(encoder, bitrate_kbps as int));
    args
}

/// What the start-up repair does about one clip, read off the clip file, the
/// note and the untouched recording.
#[derive(Debug, Clone, Copy, PartialEq, Eq, Structural)]
pub enum RepairAction {
    /// Died between saving and swapping: push the untouched recording back over
    /// the missing clip file, clear the store and forget the cut.
    RecoverFromOriginal,
    /// A note without a recording, and the clip still at full length: the
    /// crash came before anything was trimmed. Clear the store, forget the cut.
    ForgetNote,
    /// A note without a recording, and the clip shorter: the store was cleared
    /// by hand. Clear the rest of it, but keep the record — the tracks' offset
    /// lives in it.
    KeepTrimmed(ClipOriginal),
    /// Swapped, but the database never got its turn: record the note's cut.
    RecordNote(ClipOriginal),
    /// A recording without a note, and the database still knows the cut: write
    /// the note again.
    RewriteNote(ClipOriginal),
    /// A recording with nothing to tie it to: the rest of a finished undo.
    ClearStore,
    Nothing,
}

pub open spec fn repair_spec(
    clip_file: bool,
    note: Option<ClipOriginal>,
    recording: bool,
    recorded: Option<ClipOriginal>,
    clip_duration_ms: u64,
) -> RepairAction {
    match (clip_file, note, recording) {
        (false, Some(_), true) => RepairAction::RecoverFromOriginal,
        (_, Some(n), false) => if clip_duration_ms == n.duration_ms {
            RepairAction::ForgetNote
        } else {
            RepairAction::KeepTrimmed(n)
        },
        (true, Some(n), true) => if recorded.is_none() {
            RepairAction::RecordNote(n)
        } else {
            RepairAction::Nothing
        },
        (true, None, true) => match recorded {
            Some(o) => RepairAction::RewriteNote(o),
            None => RepairAction::ClearStore,
        },
        _ => RepairAction::Nothing,
    }
}

/// Decide how to clean up whatever a crash in the middle of the swap left
/// behind. The rule underneath: the record on the clip must never be lost
/// while the file is trimmed — it carries the offset the tracks sit at.
pub fn repair_action(
    clip_file: bool,
    note: Option<ClipOriginal>,
    recording: bool,
    recorded: Option<ClipOriginal>,
    clip_duration_ms: u64,
) -> (a: RepairAction)
    ensures
        a == repair_spec(clip_file, note, recording, recorded, clip_duration_ms),
{
    match (clip_file, note, recording) {
        (false, Some(_), true) => RepairAction::RecoverFromOriginal,
        (_, Some(n), false) => if clip_duration_ms == n.duration_ms {
            RepairAction::ForgetNote
        } else {
            RepairAction::KeepTrimmed(n)
        },
        (true, Some(n), true) => if recorded.is_none() {
            RepairAction::RecordNote(n)
        } else {
            RepairAction::Nothing
        },
        (true, None, true) => match recorded {
            Some(o) => RepairAction::RewriteNote(o),
            None => RepairAction::ClearStore,
        },
        _ => RepairAction::Nothing,
    }
}

/// After a failed ffmpeg run, the encoder to try once more with: hardware
/// encoders like to refuse (driver trouble, or every session taken by the
/// replay buffer next door), and the software encoder takes over. A copy
/// without re-encoding, or a run that already was in software, is not
/// retried.
pub fn retry_encoder(plan: &RenderPlan, failed: EncoderId) -> (e: Option<EncoderId>)
    ensures
        e == (if plan.reencode && failed != EncoderId::X264 {
            Some(EncoderId::X264)
        } else {
            None::<EncoderId>
        }),
{
    if plan.reencode && failed != EncoderId::X264 {
        Some(EncoderId::X264)
    } else {
        None
    }
}

/// The record that is kept after a rewrite: the cut as planned, but ending
/// where the written file really ends — otherwise the bookkeeping drifts away
/// from the file with every further cut.
pub fn settle_original(planned: Option<ClipOriginal>, written_ms: u64) -> (o: Option<ClipOriginal>)
    requires
        planned matches Some(p) ==> p.start_ms + written_ms <= u64::MAX,
    ensures
        match planned {
            Some(p) => o == Some(
                ClipOriginal {
                    duration_ms: p.duration_ms,
                    start_ms: p.start_ms,
                    end_ms: (p.start_ms + written_ms) as u64,
                },
            ),
            None => o.is_none(),
        },
{
    match planned {
        Some(p) => Some(
            ClipOriginal { duration_ms: p.duration_ms, start_ms: p.start_ms, end_ms: p.start_ms + written_ms },
        ),
        None => None,
    }
}

/// A repair never loses the record of a cut while the clip file stays
/// trimmed: whenever the note is all that is left of the original and the clip
/// is shorter than it, the note's cut is what is kept.
pub proof fn law_repair_keeps_the_offset(
    clip_file: bool,
    note: ClipOriginal,
    recorded: Option<ClipOriginal>,
    clip_duration_ms: u64,
)
    requires
        clip_duration_ms != note.duration_ms,
    ensures
        repair_spec(clip_file, Some(note), false, recorded, clip_duration_ms) == RepairAction::KeepTrimmed(note),
{
}

/// A clip file that is gone comes back from the untouched recording whenever
/// the store still has it and its note, whatever the database says; and only
/// then: without both there is nothing to bring it back from.
pub proof fn law_a_missing_clip_comes_back_from_its_recording(
    note: Option<ClipOriginal>,
    recording: bool,
    recorded: Option<ClipOriginal>,
    clip_duration_ms: u64,
)
    ensures
        note is Some && recording ==> repair_spec(false, note, recording, recorded, clip_duration_ms)
            == RepairAction::RecoverFromOriginal,
        repair_spec(false, note, recording, recorded, clip_duration_ms) == RepairAction::RecoverFromOriginal
            ==> note is Some && recording,
        repair_spec(true, note, recording, recorded, clip_duration_ms) != RepairAction::RecoverFromOriginal,
{
}

/// The mix of the audio tracks as an ffmpeg filter graph, and the label of the
/// graph's output.
pub struct MixGraph {
    pub graph: String,
    pub label: String,
}

/// Does the audio come from the stored individual tracks? Only if every track
/// has one.
pub open spec fn from_stems(list: Seq<ClipTrack>) -> bool {
    list.len() > 0 && forall|i: int| 0 <= i < list.len() ==> (#[trigger] list[i]).preview_path.is_some()
}

/// The ffmpeg input label of each track: the stored tracks are inputs 1, 2, …;
/// audio still in the file is addressed inside input 0.
pub open spec fn audio_inputs_spec(list: Seq<ClipTrack>) -> Seq<Seq<char>> {
    if from_stems(list) {
        Seq::new(list.len(), |slot: int| decimal((slot + 1) as nat) + ":a"@)
    } else {
        Seq::new(list.len(), |i: int| "0:a:"@ + decimal(list[i].index as nat))
    }
}

/// The labels the mix filter has to read its inputs from, in track order.
pub fn audio_inputs(list: &[ClipTrack]) -> (out: Vec<String>)
    requires
        list@.len() < u32::MAX,
    ensures
        out.deep_view() == audio_inputs_spec(list@),
{
    let stems = all_stems(list);
    let mut out: Vec<String> = Vec::new();
    let mut i: usize = 0;
    while i < list.len()
        invariant
            i <= list@.len(),
            list@.len() < u32::MAX,
            stems == from_stems(list@),
            out.deep_view() == audio_inputs_spec(list@).take(i as int),
        decreases list@.len() - i,
    {
        let label = if stems {
            let mut l = to_decimal(i as u64 + 1);
            push_str(&mut l, ":a");
            l
        } else {
            let mut l = String::from_str("0:a:");
            let n = to_decimal(list[i].index as u64);
            push_str(&mut l, n.as_str());
            l
        };
        let ghost before = out.deep_view();
        push_owned_arg(&mut out, label);
        assert(out.deep_view() =~= audio_inputs_spec(list@).take(i as int + 1));
        i = i + 1;
    }
    assert(audio_inputs_spec(list@).take(list@.len() as int) =~= audio_inputs_spec(list@));
    out
}

fn all_stems(list: &[ClipTrack]) -> (b: bool)
    ensures
        b == from_stems(list@),
{
    if list.len() == 0 {
        return false;
    }
    let mut i: usize = 0;
    while i < list.len()
        invariant
            i <= list@.len(),
            forall|k: int| 0 <= k < i ==> (#[trigger] list@[k]).preview_path.is_some(),
        decreases list@.len() - i,
    {
        if list[i].preview_path.is_none() {
            return false;
        }
        i = i + 1;
    }
    true
}

/// `-ss` with an offset, or nothing for offset zero.
pub open spec fn seek(ms: u64) -> Seq<Seq<char>> {
    if ms > 0 {
        seq!["-ss"@, seconds_text(ms as nat)]
    } else {
        Seq::empty()
    }
}

/// One `-i` per stored track, each with its own seek.
pub open spec fn stem_inputs(list: Seq<ClipTrack>, ms: u64) -> Seq<Seq<char>>
    decreases list.len(),
{
    if list.len() == 0 {
        Seq::empty()
    } else {
        stem_inputs(list.drop_last(), ms) + seek(ms) + seq!["-i"@, list.last().preview_path.unwrap()@]
    }
}

/// The inputs half of the ffmpeg line: the video with its seek, then every
/// stored track with its own.
pub open spec fn input_args_spec(plan: RenderPlan, video: Seq<char>, list: Seq<ClipTrack>) -> Seq<Seq<char>> {
    seq!["-y"@, "-hide_banner"@, "-loglevel"@, "error"@, "-progress"@, "pipe:1"@, "-nostats"@]
        + seek(plan.video_start_ms) + seq!["-i"@, video]
        + (if from_stems(list) { stem_inputs(list, plan.stems_start_ms) } else { Seq::empty() })
}

/// The output half: the mix, the mapping, the video codec and the length.
pub open spec fn output_args_spec(
    plan: RenderPlan,
    mix: Option<(Seq<char>, Seq<char>)>,
    output: Seq<char>,
    encoder: EncoderId,
    bitrate_kbps: int,
) -> Seq<Seq<char>> {
    (match mix {
        Some((graph, _)) => seq!["-filter_complex"@, graph],
        None => Seq::empty(),
    })
        + seq!["-map"@, "0:v:0"@]
        + (match mix {
            Some((_, label)) => seq![
                "-map"@, label, "-c:a"@, "aac"@, "-b:a"@, "192k"@, "-metadata:s:a:0"@, "title=Mix"@,
                "-metadata:s:a:0"@, "handler_name=Mix"@,
            ],
            None => seq!["-an"@],
        })
        + (if plan.reencode { video_args_spec(encoder, bitrate_kbps) } else { seq!["-c:v"@, "copy"@] })
        + seq!["-avoid_negative_ts"@, "make_zero"@, "-movflags"@, "+faststart"@, "-t"@, seconds_text(plan.length_ms as nat), output]
}

/// The whole ffmpeg line for rewriting a clip.
pub open spec fn arguments_spec(
    plan: RenderPlan,
    video: Seq<char>,
    list: Seq<ClipTrack>,
    mix: Option<(Seq<char>, Seq<char>)>,
    output: Seq<char>,
    encoder: EncoderId,
    bitrate_kbps: int,
) -> Seq<Seq<char>> {
    input_args_spec(plan, video, list) + output_args_spec(plan, mix, output, encoder, bitrate_kbps)
}

fn push_seek(args: &mut Vec<String>, ms: u64)
    ensures
        final(args).deep_view() == old(args).deep_view() + seek(ms),
{
    if ms > 0 {
        push_arg(args, "-ss");
        push_owned_arg(args, seconds_arg(ms));
        assert(args.deep_view() =~= old(args).deep_view() + seek(ms));
    } else {
        assert(old(args).deep_view() + seek(ms) =~= old(args).deep_view());
    }
}

fn push_all(args: &mut Vec<String>, more: Vec<String>)
    ensures
        final(args).deep_view() == old(args).deep_view() + more.deep_view(),
{
    let ghost start = args.deep_view();
    let ghost all = more.deep_view();
    let mut i: usize = 0;
    while i < more.len()
        invariant
            more.deep_view() == all,
            i <= all.len(),
            args.deep_view() == start + all.take(i as int),
        decreases all.len() - i,
    {
        let item = String::from_str(more[i].as_str());
        push_owned_arg(args, item);
        assert(all.take(i as int + 1) =~= all.take(i as int).push(all[i as int]));
        i = i + 1;
    }
    assert(all.take(all.len() as int) =~= all);
}

fn input_args(plan: &RenderPlan, video: &str, list: &[ClipTrack]) -> (args: Vec<String>)
    ensures
        args.deep_view() == input_args_spec(*plan, video@, list@),
{
    let mut args: Vec<String> = Vec::new();
    push_arg(&mut args, "-y");
    push_arg(&mut args, "-hide_banner");
    push_arg(&mut args, "-loglevel");
    push_arg(&mut args, "error");
    push_arg(&mut args, "-progress");
    push_arg(&mut args, "pipe:1");
    push_arg(&mut args, "-nostats");
    // When copying, `video_start_ms` is always 0 — an `-ss` with `-c:v copy`
    // would slide to the keyframe before it.
    push_seek(&mut args, plan.video_start_ms);
    push_arg(&mut args, "-i");
    push_arg(&mut args, video);
    let ghost after_video = args.deep_view();
    let stems = all_stems(list);
    if stems {
        let mut i: usize = 0;
        assert(list@.take(0) =~= Seq::<ClipTrack>::empty());
        assert(args.deep_view() =~= after_video + stem_inputs(list@.take(0), plan.stems_start_ms));
        while i < list.len()
            invariant
                i <= list@.len(),
                from_stems(list@),
                args.deep_view() == after_video + stem_inputs(list@.take(i as int), plan.stems_start_ms),
            decreases list@.len() - i,
        {
            assert(list@[i as int].preview_path.is_some());
            let path = match &list[i].preview_path {
                Some(p) => p.as_str(),
                None => "",
            };
            push_seek(&mut args, plan.stems_start_ms);
            push_arg(&mut args, "-i");
            push_arg(&mut args, path);
            proof {
                let t = list@.take(i as int + 1);
                assert(t.drop_last() =~= list@.take(i as int));
                assert(t.last() == list@[i as int]);
            }
            assert(args.deep_view() =~= after_video + stem_inputs(list@.take(i as int + 1), plan.stems_start_ms));
            i = i + 1;
        }
        assert(list@.take(list@.len() as int) =~= list@);
    }
    assert(args.deep_view() =~= input_args_spec(*plan, video@, list@));
    args
}

fn output_args(
    plan: &RenderPlan,
    mix: Option<&MixGraph>,
    output: &str,
    encoder: EncoderId,
    bitrate_kbps: u32,
) -> (args: Vec<String>)
    requires
        bitrate_kbps <= u32::MAX / 3,
    ensures
        args.deep_view() == output_args_spec(
            *plan,
            match mix {
                Some(m) => Some((m.graph@, m.label@)),
                None => None,
            },
            output@,
            encoder,
            bitrate_kbps as int,
        ),
{
    let mut args: Vec<String> = Vec::new();
    if let Some(m) = mix {
        push_arg(&mut args, "-filter_complex");
        push_arg(&mut args, m.graph.as_str());
    }
    // The video first so it is track 0 in the result too.
    push_arg(&mut args, "-map");
    push_arg(&mut args, "0:v:0");
    match mix {
        Some(m) => {
            push_arg(&mut args, "-map");
            push_arg(&mut args, m.label.as_str());
            push_arg(&mut args, "-c:a");
            push_arg(&mut args, "aac");
            push_arg(&mut args, "-b:a");
            push_arg(&mut args, "192k");
            push_arg(&mut args, "-metadata:s:a:0");
            push_arg(&mut args, "title=Mix");
            push_arg(&mut args, "-metadata:s:a:0");
            push_arg(&mut args, "handler_name=Mix");
        },
        // Everything muted: then the clip simply gets no audio track.
        None => push_arg(&mut args, "-an"),
    }
    let ghost mid = args.deep_view();
    if plan.reencode {
        let v = video_args(encoder, bitrate_kbps);
        push_all(&mut args, v);
    } else {
        push_arg(&mut args, "-c:v");
        push_arg(&mut args, "copy");
    }
    push_arg(&mut args, "-avoid_negative_ts");
    push_arg(&mut args, "make_zero");
    push_arg(&mut args, "-movflags");
    push_arg(&mut args, "+faststart");
    push_arg(&mut args, "-t");
    push_owned_arg(&mut args, seconds_arg(plan.length_ms));
    push_arg(&mut args, output);
    assert(args.deep_view() =~= output_args_spec(
        *plan,
        match mix {
            Some(m) => Some((m.graph@, m.label@)),
            None => None,
        },
        output@,
        encoder,
        bitrate_kbps as int,
    ));
    args
}

/// The ffmpeg line. `-ss` is a **per-input** option and belongs before that
/// input's `-i`; `-t` applies to the output and comes after all inputs. Audio
/// still in the video file shares that file's timeline and so is already cut
/// by the video's seek.
pub fn arguments(
    plan: &RenderPlan,
    video: &str,
    list: &[ClipTrack],
    mix: Option<&MixGraph>,
    output: &str,
    encoder: EncoderId,
    bitrate_kbps: u32,
) -> (args: Vec<String>)
    requires
        bitrate_kbps <= u32::MAX / 3,
    ensures
        args.deep_view() == arguments_spec(
            *plan,
            video@,
            list@,
            match mix {
                Some(m) => Some((m.graph@, m.label@)),
                None => None,
            },
            output@,
            encoder,
            bitrate_kbps as int,
        ),
{
    let mut args = input_args(plan, video, list);
    let tail = output_args(plan, mix, output, encoder, bitrate_kbps);
    push_all(&mut args, tail);
    args
}

} // verus!

verus! {

/// A mix that is given is always mapped into the output, after the picture:
/// the filter graph is handed to ffmpeg and its label follows a `-map`, so a
/// rewritten clip keeps its sound. Without a mix the output has no audio at
/// all. Either way the picture of input 0 is mapped and the output file is
/// the last argument.
pub proof fn law_a_given_mix_is_mapped(
    plan: RenderPlan,
    video: Seq<char>,
    list: Seq<ClipTrack>,
    mix: Option<(Seq<char>, Seq<char>)>,
    output: Seq<char>,
    encoder: EncoderId,
    bitrate_kbps: int,
)
    ensures
        ({
            let args = arguments_spec(plan, video, list, mix, output, encoder, bitrate_kbps);
            &&& mix matches Some((graph, label)) ==> exists|i: int, k: int|
                #![trigger args[i], args[k]]
                0 <= i && i + 4 < k < args.len() && args[i] == "-filter_complex"@ && args[i + 1] == graph
                    && args[k - 3] == "-map"@ && args[k - 2] == "0:v:0"@ && args[k - 1] == "-map"@ && args[k]
                    == label
            &&& mix is None ==> exists|i: int|
                2 <= i < args.len() && #[trigger] args[i] == "-an"@ && args[i - 2] == "-map"@ && args[i - 1]
                    == "0:v:0"@
            &&& args.len() > 0 && args.last() == output
        }),
{
    let inp = input_args_spec(plan, video, list);
    let out = output_args_spec(plan, mix, output, encoder, bitrate_kbps);
    let args = inp + out;
    let n = inp.len() as int;
    match mix {
        Some((graph, label)) => {
            assert(out[0] == "-filter_complex"@);
            assert(out[1] == graph);
            assert(out[2] == "-map"@);
            assert(out[3] == "0:v:0"@);
            assert(out[4] == "-map"@);
            assert(out[5] == label);
            assert(args[n + 5] == label);
            assert(args[n] == "-filter_complex"@ && args[n + 1] == graph && args[n + 4] == "-map"@
                && args[n + 3] == "0:v:0"@ && args[n + 2] == "-map"@);
            assert(n + 5 < args.len());
            assert(args == arguments_spec(plan, video, list, mix, output, encoder, bitrate_kbps));
        },
        None => {
            assert(out[0] == "-map"@);
            assert(out[1] == "0:v:0"@);
            assert(out[2] == "-an"@);
            assert(args[n + 1] == "0:v:0"@);
            assert(args[n + 2] == "-an"@ && args[n] == "-map"@);
            assert(n + 2 < args.len());
            assert(args == arguments_spec(plan, video, list, mix, output, encoder, bitrate_kbps));
        },
    }
    assert(out.last() == output);
    assert(args.last() == out.last());
}

} // verus!
