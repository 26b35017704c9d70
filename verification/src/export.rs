//! Export a copy of a clip that fits a size.
//!
//! Recording aims at a quality and lets the bitrate follow. This is the one
//! place that does the opposite: the question is "will it go through". From
//! the target size and the clip's length comes a bitrate; if that bitrate is
//! too thin for the resolution, the picture is made smaller rather than
//! muddier.
use vstd::prelude::*;
use crate::encode::{bitrate_for, bitrate_spec};
use crate::model::EncoderId;
use crate::text::{decimal, kilo, kilo_arg, push_arg, push_owned_arg, push_str, to_decimal};

verus! {

/// The usual steps down. Anything taller than the first is left where it is.
pub const HEIGHT_STEPS: [u32; 3] = [1080, 720, 480];

/// What one audio track costs, in kbit/s.
pub const AUDIO_KBPS: u32 = 128;

/// The container's own overhead, in percent.
pub const CONTAINER_OVERHEAD: u64 = 3;

/// Below this fraction of what a resolution normally wants, the picture is
/// scaled down instead of starved.
pub const STARVED: u32 = 2;

/// What is being asked for.
#[derive(Debug, Clone, Copy, PartialEq, Eq, Structural)]
pub struct Target {
    /// The size to come in under, in bytes.
    pub bytes: u64,
    pub duration_ms: u64,
    pub width: u32,
    pub height: u32,
}

/// What that works out to.
#[derive(Debug, Clone, Copy, PartialEq, Eq, Structural)]
pub struct Recipe {
    pub video_kbps: u32,
    pub audio_kbps: u32,
    /// What to scale to. Equal to the source when nothing is scaled.
    pub width: u32,
    pub height: u32,
}

impl Recipe {
    /// Is the picture being made smaller? Then the filter is needed.
    pub fn scales(&self, source_height: u32) -> (b: bool)
        ensures
            b == (self.height < source_height),
    {
        self.height < source_height
    }
}

/// Video bitrate left over for a target, in kbit/s: the size less the
/// container's share, less the sound, spread over the clip's seconds.
pub open spec fn video_budget_spec(bytes: int, seconds: int) -> int {
    let eight = if bytes * 8 > u64::MAX { u64::MAX as int } else { bytes * 8 };
    let usable_bits = eight * (100 - CONTAINER_OVERHEAD) / 100;
    let audio_bits = AUDIO_KBPS * 1000 * seconds;
    let video_bits = if usable_bits > audio_bits { usable_bits - audio_bits } else { 0 };
    let kbps = video_bits / seconds / 1000;
    if kbps > u32::MAX { u32::MAX as int } else { kbps }
}

fn video_budget(bytes: u64, seconds: u64) -> (kbps: u32)
    requires
        seconds >= 1,
        (if bytes * 8 > u64::MAX { u64::MAX as int } else { bytes * 8 }) * (100 - CONTAINER_OVERHEAD) <= u64::MAX,
        AUDIO_KBPS * 1000 * seconds <= u64::MAX,
    ensures
        kbps == video_budget_spec(bytes as int, seconds as int),
{
    let eight = if bytes > u64::MAX / 8 { u64::MAX } else { bytes * 8 };
    let usable_bits = eight * (100 - CONTAINER_OVERHEAD) / 100;
    let audio_bits = AUDIO_KBPS as u64 * 1000 * seconds;
    let video_bits = usable_bits.saturating_sub(audio_bits);
    let kbps = video_bits / seconds / 1000;
    if kbps > u32::MAX as u64 { u32::MAX } else { kbps as u32 }
}

/// The width that keeps the source's shape at a given height, rounded down to
/// even — H.264 will not take an odd one.
pub open spec fn width_spec(target: Target, height: int) -> int {
    if target.height == 0 {
        target.width as int
    } else {
        let w = target.width * height / (target.height as int);
        let w2 = if w > 2 { w } else { 2 };
        w2 - w2 % 2
    }
}

fn width_for(target: &Target, height: u32) -> (w: u32)
    requires
        height <= target.height || target.height == 0,
    ensures
        w == width_spec(*target, height as int),
{
    if target.height == 0 {
        return target.width;
    }
    assert(target.width as int * height as int <= target.width as int * target.height as int) by (nonlinear_arith)
        requires height <= target.height;
    assert(target.width as int * height as int / (target.height as int) <= target.width as int) by (nonlinear_arith)
        requires target.width as int * height as int <= target.width as int * target.height as int, target.height > 0;
    assert(target.width as int * height as int <= u32::MAX as int * u32::MAX as int) by (nonlinear_arith);
    let width = target.width as u64 * height as u64 / target.height as u64;
    let w2 = if width > 2 { width } else { 2 };
    (w2 - w2 % 2) as u32
}

/// The resolution step a target lands on: the first step, from the top, at or
/// below the source height whose usual bitrate the budget can feed at least
/// half of — or the smallest such step if none can. A source smaller than
/// every step keeps its own height.
pub open spec fn height_from(target: Target, budget: int, k: int, current: int) -> int
    decreases 3 - k,
{
    if k >= 3 {
        current
    } else {
        let step = HEIGHT_STEPS@[k] as int;
        if step > target.height {
            height_from(target, budget, k + 1, current)
        } else if budget >= bitrate_spec(width_spec(target, step), step, 30) / (STARVED as int) {
            step
        } else {
            height_from(target, budget, k + 1, step)
        }
    }
}

pub open spec fn recipe_spec(target: Target) -> Recipe {
    let whole = target.duration_ms / 1000;
    let seconds = if whole > 1 { whole as int } else { 1 };
    let budget = video_budget_spec(target.bytes as int, seconds);
    let height = height_from(target, budget, 0, target.height as int);
    Recipe {
        video_kbps: (if budget > 200 { budget } else { 200 }) as u32,
        audio_kbps: AUDIO_KBPS,
        width: width_spec(target, height) as u32,
        height: height as u32,
    }
}

/// Work out how to hit a target size.
///
/// Steps the resolution down while the bitrate would be too thin for it, and
/// stops at the smallest step rather than looping. Never upscales.
pub fn recipe(target: &Target) -> (r: Recipe)
    requires
        target.bytes * 8 * (100 - CONTAINER_OVERHEAD) <= u64::MAX,
        AUDIO_KBPS * 1000 * (target.duration_ms / 1000) <= u64::MAX,
    ensures
        r == recipe_spec(*target),
{
    let whole = target.duration_ms / 1000;
    let seconds = if whole > 1 { whole } else { 1 };
    assert(AUDIO_KBPS * 1000 * seconds <= u64::MAX) by (nonlinear_arith)
        requires AUDIO_KBPS * 1000 * whole <= u64::MAX, seconds == (if whole > 1 { whole } else { 1 });
    assert(target.bytes * 8 <= u64::MAX && target.bytes * 8 * 97 <= u64::MAX) by (nonlinear_arith)
        requires target.bytes * 8 * (100 - CONTAINER_OVERHEAD) <= u64::MAX, CONTAINER_OVERHEAD == 3;
    let budget = video_budget(target.bytes, seconds);

    let mut height = target.height;
    let mut k: usize = 0;
    let mut done = false;
    while k < 3 && !done
        invariant
            k <= 3,
            height as int <= target.height as int,
            budget == video_budget_spec(target.bytes as int, seconds as int),
            !done ==> height_from(*target, budget as int, k as int, height as int) == height_from(
                *target,
                budget as int,
                0,
                target.height as int,
            ),
            done ==> height as int == height_from(*target, budget as int, 0, target.height as int),
        decreases 3 - k + if done { 0int } else { 1int },
    {
        let step = HEIGHT_STEPS[k];
        if step > target.height {
            k = k + 1;
        } else {
            height = step;
            let wants = bitrate_for(width_for(target, step), step, 30);
            if budget >= wants / STARVED {
                done = true;
            } else {
                k = k + 1;
            }
        }
    }
    Recipe {
        // A floor, or ffmpeg is handed a bitrate it cannot encode at all.
        video_kbps: if budget > 200 { budget } else { 200 },
        audio_kbps: AUDIO_KBPS,
        width: width_for(target, height),
        height,
    }
}

/// The video half of an export line: aim at the bitrate, with a leash on it.
pub open spec fn export_video_args_spec(encoder: EncoderId, kbps: int) -> Seq<Seq<char>> {
    let codec = match encoder {
        EncoderId::Nvenc => seq!["-c:v"@, "h264_nvenc"@, "-preset"@, "p5"@, "-rc"@, "cbr"@],
        EncoderId::Amf => seq!["-c:v"@, "h264_amf"@, "-quality"@, "balanced"@, "-rc"@, "cbr"@],
        EncoderId::Qsv => seq!["-c:v"@, "h264_qsv"@, "-preset"@, "medium"@],
        EncoderId::X264 => seq!["-c:v"@, "libx264"@, "-preset"@, "medium"@],
    };
    let bufsize = if kbps * 2 > u32::MAX { u32::MAX as int } else { kbps * 2 };
    codec + seq![
        "-b:v"@, kilo(kbps as nat), "-maxrate"@, kilo((kbps + kbps / 10) as nat), "-bufsize"@,
        kilo(bufsize as nat), "-pix_fmt"@, "yuv420p"@,
    ]
}

pub fn video_args(encoder: EncoderId, kbps: u32) -> (args: Vec<String>)
    requires
        kbps + kbps / 10 <= u32::MAX,
    ensures
        args.deep_view() == export_video_args_spec(encoder, kbps as int),
{
    let mut args: Vec<String> = Vec::new();
    match encoder {
        EncoderId::Nvenc => {
            push_arg(&mut args, "-c:v");
            push_arg(&mut args, "h264_nvenc");
            push_arg(&mut args, "-preset");
            push_arg(&mut args, "p5");
            push_arg(&mut args, "-rc");
            push_arg(&mut args, "cbr");
        },
        EncoderId::Amf => {
            push_arg(&mut args, "-c:v");
            push_arg(&mut args, "h264_amf");
            push_arg(&mut args, "-quality");
            push_arg(&mut args, "balanced");
            push_arg(&mut args, "-rc");
            push_arg(&mut args, "cbr");
        },
        EncoderId::Qsv => {
            push_arg(&mut args, "-c:v");
            push_arg(&mut args, "h264_qsv");
            push_arg(&mut args, "-preset");
            push_arg(&mut args, "medium");
        },
        EncoderId::X264 => {
            push_arg(&mut args, "-c:v");
            push_arg(&mut args, "libx264");
            push_arg(&mut args, "-preset");
            push_arg(&mut args, "medium");
        },
    }
    push_arg(&mut args, "-b:v");
    push_owned_arg(&mut args, kilo_arg(kbps as u64));
    push_arg(&mut args, "-maxrate");
    push_owned_arg(&mut args, kilo_arg((kbps + kbps / 10) as u64));
    push_arg(&mut args, "-bufsize");
    let bufsize = if kbps > u32::MAX / 2 { u32::MAX } else { kbps * 2 };
    push_owned_arg(&mut args, kilo_arg(bufsize as u64));
    push_arg(&mut args, "-pix_fmt");
    push_arg(&mut args, "yuv420p");
    assert(args.deep_view() =~= export_video_args_spec(encoder, kbps as int));
    args
}

/// The whole export line: the input first, the output last.
pub open spec fn export_arguments_spec(
    source: Seq<char>,
    output: Seq<char>,
    recipe: Recipe,
    source_height: int,
    encoder: EncoderId,
) -> Seq<Seq<char>> {
    seq![
        "-y"@, "-hide_banner"@, "-loglevel"@, "error"@, "-progress"@, "pipe:1"@, "-nostats"@, "-i"@,
        source, "-map"@, "0:v:0"@, "-map"@, "0:a:0?"@,
    ] + (if recipe.height < source_height {
        seq!["-vf"@, "scale=-2:"@ + decimal(recipe.height as nat)]
    } else {
        Seq::empty()
    }) + export_video_args_spec(encoder, recipe.video_kbps as int) + seq![
        "-c:a"@, "aac"@, "-b:a"@, kilo(recipe.audio_kbps as nat), "-movflags"@, "+faststart"@, output,
    ]
}

/// The ffmpeg line. The `?` on the audio map matters: a clip whose tracks
/// were all muted has no audio stream, and ffmpeg would refuse the whole run.
pub fn arguments(source: &str, output: &str, recipe: &Recipe, source_height: u32, encoder: EncoderId) -> (args: Vec<String>)
    requires
        recipe.video_kbps + recipe.video_kbps / 10 <= u32::MAX,
    ensures
        args.deep_view() == export_arguments_spec(source@, output@, *recipe, source_height as int, encoder),
{
    let mut args: Vec<String> = Vec::new();
    push_arg(&mut args, "-y");
    push_arg(&mut args, "-hide_banner");
    push_arg(&mut args, "-loglevel");
    push_arg(&mut args, "error");
    push_arg(&mut args, "-progress");
    push_arg(&mut args, "pipe:1");
    push_arg(&mut args, "-nostats");
    push_arg(&mut args, "-i");
    push_arg(&mut args, source);
    push_arg(&mut args, "-map");
    push_arg(&mut args, "0:v:0");
    push_arg(&mut args, "-map");
    push_arg(&mut args, "0:a:0?");
    let ghost head = args.deep_view();
    if recipe.scales(source_height) {
        // `-2` keeps the aspect ratio and lands on an even width by itself.
        push_arg(&mut args, "-vf");
        let mut scale = String::from_str("scale=-2:");
        let h = to_decimal(recipe.height as u64);
        push_str(&mut scale, h.as_str());
        push_owned_arg(&mut args, scale);
    }
    let ghost scaled = args.deep_view();
    let v = video_args(encoder, recipe.video_kbps);
    let ghost vv = v.deep_view();
    let mut i: usize = 0;
    while i < v.len()
        invariant
            i <= vv.len(),
            v.deep_view() == vv,
            args.deep_view() == scaled + vv.take(i as int),
        decreases vv.len() - i,
    {
        push_owned_arg(&mut args, String::from_str(v[i].as_str()));
        assert(vv.take(i as int + 1) =~= vv.take(i as int).push(vv[i as int]));
        i = i + 1;
    }
    assert(vv.take(vv.len() as int) =~= vv);
    push_arg(&mut args, "-c:a");
    push_arg(&mut args, "aac");
    push_arg(&mut args, "-b:a");
    push_owned_arg(&mut args, kilo_arg(recipe.audio_kbps as u64));
    // Unlike a saved clip, this one exists to be sent: playback may start
    // before the download has finished.
    push_arg(&mut args, "-movflags");
    push_arg(&mut args, "+faststart");
    push_arg(&mut args, output);
    assert(args.deep_view() =~= export_arguments_spec(source@, output@, *recipe, source_height as int, encoder));
    args
}

} // verus!

verus! {

proof fn lemma_height_stays_under(target: Target, budget: int, k: int, current: int)
    requires
        0 <= current <= target.height,
    ensures
        0 <= height_from(target, budget, k, current) <= target.height,
    decreases 3 - k,
{
    if k < 3 {
        let step = HEIGHT_STEPS@[k] as int;
        if step > target.height {
            lemma_height_stays_under(target, budget, k + 1, current);
        } else {
            lemma_height_stays_under(target, budget, k + 1, step);
        }
    }
}

proof fn lemma_budget_is_paid_for(bytes: int, seconds: int)
    requires
        seconds >= 1,
        0 <= bytes,
        bytes * 8 <= u64::MAX,
        video_budget_spec(bytes, seconds) >= 1,
    ensures
        (video_budget_spec(bytes, seconds) + AUDIO_KBPS) * 1000 * seconds <= bytes * 8,
{
    let usable_bits = bytes * 8 * (100 - CONTAINER_OVERHEAD) / 100;
    let audio_bits = AUDIO_KBPS * 1000 * seconds;
    let video_bits = if usable_bits > audio_bits { usable_bits - audio_bits } else { 0 };
    let kbps = video_bits / seconds / 1000;
    let b = video_budget_spec(bytes, seconds);
    assert(b <= kbps);
    assert(kbps * 1000 * seconds <= video_bits) by (nonlinear_arith)
        requires kbps == video_bits / seconds / 1000, seconds >= 1, video_bits >= 0;
    assert(b * 1000 * seconds <= kbps * 1000 * seconds) by (nonlinear_arith)
        requires b <= kbps, seconds >= 1;
    assert(video_bits > 0) by (nonlinear_arith)
        requires kbps == video_bits / seconds / 1000, kbps >= 1, seconds >= 1, video_bits >= 0;
    assert(usable_bits <= bytes * 8) by (nonlinear_arith)
        requires usable_bits == bytes * 8 * (100 - CONTAINER_OVERHEAD) / 100, bytes >= 0,
            CONTAINER_OVERHEAD == 3;
    assert((b + AUDIO_KBPS) * 1000 * seconds == b * 1000 * seconds + audio_bits) by (nonlinear_arith)
        requires audio_bits == AUDIO_KBPS * 1000 * seconds;
}

/// An export is never made larger than its source, its width stays even, and
/// when the budget is its own (not the floor) the picture and the sound
/// together fit the size asked for.
pub proof fn law_recipe_never_upscales_and_fits(target: Target)
    requires
        target.bytes * 8 * (100 - CONTAINER_OVERHEAD) <= u64::MAX,
        AUDIO_KBPS * 1000 * (target.duration_ms / 1000) <= u64::MAX,
    ensures
        recipe_spec(target).height <= target.height,
        target.height > 0 ==> recipe_spec(target).width % 2 == 0,
        ({
            let whole = target.duration_ms / 1000;
            let seconds = if whole > 1 { whole as int } else { 1 };
            video_budget_spec(target.bytes as int, seconds) >= 200 ==> (recipe_spec(target).video_kbps
                + recipe_spec(target).audio_kbps) * 1000 * seconds <= target.bytes * 8
        }),
{
    let whole = target.duration_ms / 1000;
    let seconds = if whole > 1 { whole as int } else { 1 };
    let budget = video_budget_spec(target.bytes as int, seconds);
    let height = height_from(target, budget, 0, target.height as int);
    lemma_height_stays_under(target, budget, 0, target.height as int);
    assert(target.bytes * 8 <= u64::MAX) by (nonlinear_arith)
        requires target.bytes * 8 * (100 - CONTAINER_OVERHEAD) <= u64::MAX, CONTAINER_OVERHEAD == 3;
    if target.height > 0 {
        let w = target.width * height / (target.height as int);
        assert(0 <= height);
        assert(w <= target.width) by (nonlinear_arith)
            requires w == target.width * height / (target.height as int), 0 <= height <= target.height,
                target.height > 0;
        assert(w >= 0) by (nonlinear_arith)
            requires w == target.width * height / (target.height as int), 0 <= height, target.height > 0;
        let w2 = if w > 2 { w } else { 2 };
        assert(0 <= w2 - w2 % 2 <= u32::MAX);
        assert(width_spec(target, height) == w2 - w2 % 2);
        assert((w2 - w2 % 2) % 2 == 0);
    }
    if budget >= 200 {
        lemma_budget_is_paid_for(target.bytes as int, seconds);
    }
}

} // verus!
