//! Which screen or window a saved selection means.
//!
//! Listing the screens is the platform's business; what is decided here is
//! which of the listed targets a saved selection stands for, whether a running
//! capture has drifted away from it, and how a selection is brought back in
//! line. The panel's identity outranks the device name: `\\.\DISPLAY2` is
//! handed out by enumeration order at boot, the device path stays with the
//! panel.
use vstd::prelude::*;
use crate::encode::{bitrate_for, bitrate_spec};
use crate::model::{CaptureTarget, OverlayConfig, RecordingConfig, TargetKind};
use crate::text::{as_text, copy_opt, decimal, hex, opt_string, opt_text, push_decimal, push_hex, push_str, same_text, trim, trimmed};

verus! {

/// What the system knows about the panel behind a device name.
#[derive(Debug, Clone)]
pub struct Identity {
    /// The name on the box, rather than a generic one.
    pub friendly: String,
    /// The device interface path, tied to the panel and the connector it hangs
    /// on. This is what survives a reboot.
    pub path: String,
}

/// How a saved selection was matched against the screens actually present.
#[derive(Debug, Clone, Copy, PartialEq, Eq, Structural)]
pub enum Match {
    /// Found by the panel's own identity, right even if the device name moved.
    Stable,
    /// Found by the device name.
    Device,
    /// Nothing was ever chosen; the primary screen is simply the default.
    Default,
    /// Something was chosen and it is not here. The primary screen stands in.
    Fallback,
}

/// The chosen target and how it was arrived at.
#[derive(Debug, Clone)]
pub struct Choice {
    pub target: CaptureTarget,
    pub how: Match,
}

/// What a search through the targets looks for.
#[derive(Debug, Clone, Copy, PartialEq, Eq, Structural)]
pub enum Wanted {
    /// A window with this handle.
    WindowById,
    /// A screen whose panel has this identity.
    MonitorByPanel,
    /// A screen with this device name.
    MonitorByDevice,
    /// The primary screen.
    PrimaryMonitor,
    /// Any screen at all.
    AnyMonitor,
}

pub open spec fn wants(w: Wanted, text: Seq<char>, t: CaptureTarget) -> bool {
    match w {
        Wanted::WindowById => t.kind == TargetKind::Window && t.id@ == text,
        Wanted::MonitorByPanel => t.kind == TargetKind::Monitor && opt_string(t.stable_id) == Some(text),
        Wanted::MonitorByDevice => t.kind == TargetKind::Monitor && t.id@ == text,
        Wanted::PrimaryMonitor => t.kind == TargetKind::Monitor && t.is_primary,
        Wanted::AnyMonitor => t.kind == TargetKind::Monitor,
    }
}

/// `i` is the first target that is wanted.
pub open spec fn is_first(ts: Seq<CaptureTarget>, w: Wanted, text: Seq<char>, i: int) -> bool {
    &&& 0 <= i < ts.len()
    &&& wants(w, text, ts[i])
    &&& forall|j: int| 0 <= j < i ==> !wants(w, text, #[trigger] ts[j])
}

/// The first wanted target, if there is one.
pub open spec fn first(ts: Seq<CaptureTarget>, w: Wanted, text: Seq<char>) -> Option<int> {
    if exists|i: int| is_first(ts, w, text, i) {
        Some(choose|i: int| is_first(ts, w, text, i))
    } else {
        None
    }
}

/// Only one target can come first.
pub proof fn lemma_first_is_unique(ts: Seq<CaptureTarget>, w: Wanted, text: Seq<char>, i: int)
    requires
        is_first(ts, w, text, i),
    ensures
        first(ts, w, text) == Some(i),
{
    let c = choose|k: int| is_first(ts, w, text, k);
    assert(is_first(ts, w, text, c));
    if c < i {
        assert(wants(w, text, ts[c]));
    } else if c > i {
        assert(wants(w, text, ts[i]));
    }
}

/// A non-empty piece of text, or nothing.
pub open spec fn given(o: Option<Seq<char>>) -> Option<Seq<char>> {
    match o {
        Some(s) => if s.len() > 0 { Some(s) } else { None },
        None => None,
    }
}

/// The first target wanted by `w` with the given text, when there is text.
pub open spec fn first_given(ts: Seq<CaptureTarget>, w: Wanted, text: Option<Seq<char>>) -> Option<int> {
    match text {
        Some(s) => first(ts, w, s),
        None => None,
    }
}

/// The primary screen, or the first screen if none is marked primary.
pub open spec fn primary(ts: Seq<CaptureTarget>) -> Option<int> {
    match first(ts, Wanted::PrimaryMonitor, Seq::empty()) {
        Some(i) => Some(i),
        None => first(ts, Wanted::AnyMonitor, Seq::empty()),
    }
}

/// Which target a saved selection means, and how it was found.
///
/// A window is only ever its handle. For a screen the panel comes first, the
/// device name second, and the primary screen last: as the default when
/// nothing was chosen, as a fallback when what was chosen is not here.
pub open spec fn pick_spec(
    ts: Seq<CaptureTarget>,
    kind: TargetKind,
    id: Option<Seq<char>>,
    stable: Option<Seq<char>>,
) -> Option<(int, Match)> {
    if kind == TargetKind::Window {
        match first_given(ts, Wanted::WindowById, id) {
            Some(i) => Some((i, Match::Device)),
            None => None,
        }
    } else if let Some(i) = first_given(ts, Wanted::MonitorByPanel, given(stable)) {
        Some((i, Match::Stable))
    } else if let Some(i) = first_given(ts, Wanted::MonitorByDevice, given(id)) {
        Some((i, Match::Device))
    } else {
        match primary(ts) {
            Some(i) => Some(
                (i, if id is Some || stable is Some { Match::Fallback } else { Match::Default }),
            ),
            None => None,
        }
    }
}

/// Does this target meet what is wanted?
fn meets(w: Wanted, text: &str, t: &CaptureTarget) -> (b: bool)
    ensures
        b == wants(w, text@, *t),
{
    match w {
        Wanted::WindowById => t.kind == TargetKind::Window && same_text(t.id.as_str(), text),
        Wanted::MonitorByPanel => {
            t.kind == TargetKind::Monitor && match &t.stable_id {
                Some(s) => same_text(s.as_str(), text),
                None => false,
            }
        },
        Wanted::MonitorByDevice => t.kind == TargetKind::Monitor && same_text(t.id.as_str(), text),
        Wanted::PrimaryMonitor => t.kind == TargetKind::Monitor && t.is_primary,
        Wanted::AnyMonitor => t.kind == TargetKind::Monitor,
    }
}

/// The index of the first wanted target.
fn find_first(targets: &[CaptureTarget], w: Wanted, text: &str) -> (r: Option<usize>)
    ensures
        match r {
            Some(i) => first(targets@, w, text@) == Some(i as int),
            None => first(targets@, w, text@) is None,
        },
{
    let mut i: usize = 0;
    while i < targets.len()
        invariant
            i <= targets@.len(),
            forall|j: int| 0 <= j < i ==> !wants(w, text@, #[trigger] targets@[j]),
        decreases targets@.len() - i,
    {
        if meets(w, text, &targets[i]) {
            proof {
                lemma_first_is_unique(targets@, w, text@, i as int);
            }
            return Some(i);
        }
        i = i + 1;
    }
    assert(!exists|k: int| is_first(targets@, w, text@, k));
    None
}

/// The first wanted target for an optional, non-empty text.
fn find_given(targets: &[CaptureTarget], w: Wanted, text: Option<&str>) -> (r: Option<usize>)
    ensures
        match r {
            Some(i) => first_given(targets@, w, given(opt_text(text))) == Some(i as int),
            None => first_given(targets@, w, given(opt_text(text))) is None,
        },
{
    match text {
        Some(s) => {
            if s.is_empty() {
                None
            } else {
                find_first(targets, w, s)
            }
        },
        None => None,
    }
}

/// Work out which of these targets the saved selection means.
pub fn pick(targets: &[CaptureTarget], kind: TargetKind, id: Option<&str>, stable: Option<&str>) -> (r:
    Option<Choice>)
    ensures
        match pick_spec(targets@, kind, opt_text(id), opt_text(stable)) {
            Some((i, how)) => r matches Some(c) && c.target == targets@[i] && c.how == how,
            None => r is None,
        },
{
    // A window's handle is new with every run of the program that owns it:
    // there is nothing stable to fall back on, and standing in with a whole
    // screen would be a surprise, not a rescue.
    if kind == TargetKind::Window {
        let found = match id {
            Some(s) => find_first(targets, Wanted::WindowById, s),
            None => None,
        };
        return match found {
            Some(i) => Some(Choice { target: targets[i].duplicate(), how: Match::Device }),
            None => None,
        };
    }
    if let Some(i) = find_given(targets, Wanted::MonitorByPanel, stable) {
        return Some(Choice { target: targets[i].duplicate(), how: Match::Stable });
    }
    if let Some(i) = find_given(targets, Wanted::MonitorByDevice, id) {
        return Some(Choice { target: targets[i].duplicate(), how: Match::Device });
    }
    let chosen = match find_first(targets, Wanted::PrimaryMonitor, "") {
        Some(i) => Some(i),
        None => find_first(targets, Wanted::AnyMonitor, ""),
    };
    proof {
        reveal_strlit("");
        assert(""@ =~= Seq::<char>::empty());
    }
    match chosen {
        Some(i) => {
            let how = if id.is_some() || stable.is_some() {
                Match::Fallback
            } else {
                Match::Default
            };
            Some(Choice { target: targets[i].duplicate(), how })
        },
        None => None,
    }
}

} // verus!

verus! {

/// Why a running screen capture no longer matches what the settings mean.
#[derive(Debug, Clone, Copy, PartialEq, Eq, Structural)]
pub enum Drift {
    /// Windows ended the capture: the screen was unplugged, or the desktop
    /// was rebuilt under it. No frame comes any more.
    Closed,
    /// The settings resolve to another screen now.
    Moved,
    /// The same screen, at another resolution.
    Resized,
}

/// The panel's identity when both know it; the device name otherwise. A
/// renumbered `\\.\DISPLAYn` is still the same screen.
pub open spec fn same_screen_spec(a: CaptureTarget, b: CaptureTarget) -> bool {
    match (a.stable_id, b.stable_id) {
        (Some(x), Some(y)) => x@ == y@,
        _ => a.id@ == b.id@,
    }
}

pub open spec fn drift_spec(running: Choice, now: Option<Choice>, closed: bool) -> Option<Drift> {
    match now {
        None => None,
        Some(n) => if closed {
            Some(Drift::Closed)
        } else if !same_screen_spec(running.target, n.target) {
            Some(Drift::Moved)
        } else if running.target.width != n.target.width || running.target.height != n.target.height {
            Some(Drift::Resized)
        } else {
            None
        },
    }
}

fn same_screen(a: &CaptureTarget, b: &CaptureTarget) -> (r: bool)
    ensures
        r == same_screen_spec(*a, *b),
{
    match (&a.stable_id, &b.stable_id) {
        (Some(x), Some(y)) => same_text(x.as_str(), y.as_str()),
        _ => same_text(a.id.as_str(), b.id.as_str()),
    }
}

/// Compare the screen a capture was started on with the one the settings mean
/// now, and say whether (and why) the capture has to start over. `now` is
/// `None` when no screen is there at all: a restart would find nothing either.
pub fn drift(running: &Choice, now: Option<&Choice>, closed: bool) -> (r: Option<Drift>)
    ensures
        r == drift_spec(
            *running,
            match now {
                Some(c) => Some(*c),
                None => None,
            },
            closed,
        ),
{
    let now = match now {
        Some(c) => c,
        None => return None,
    };
    if closed {
        return Some(Drift::Closed);
    }
    if !same_screen(&running.target, &now.target) {
        return Some(Drift::Moved);
    }
    if running.target.width != now.target.width || running.target.height != now.target.height {
        return Some(Drift::Resized);
    }
    None
}

/// A capture compared with the very screen it runs on has not drifted, and a
/// screen that kept its panel and its size has not moved whatever its device
/// name became.
pub proof fn law_an_unchanged_screen_does_not_drift(running: Choice, now: Choice)
    requires
        running.target.stable_id is Some,
        opt_string(running.target.stable_id) == opt_string(now.target.stable_id),
        running.target.width == now.target.width,
        running.target.height == now.target.height,
    ensures
        drift_spec(running, Some(now), false) is None,
        drift_spec(running, Some(running), false) is None,
{
}

/// The usual frame rates under a screen's rate.
pub open spec fn steps_below(hz: int) -> Seq<u32> {
    if hz > 120 {
        seq![30u32, 60, 120]
    } else if hz > 60 {
        seq![30u32, 60]
    } else if hz > 30 {
        seq![30u32]
    } else {
        Seq::empty()
    }
}

/// The frame rates that suit a screen: the usual steps under its refresh rate,
/// plus that rate itself. With no usable rate, the usual steps.
pub open spec fn fps_choices_spec(refresh_hz: Option<u32>) -> Seq<u32> {
    match refresh_hz {
        Some(hz) => if hz >= 20 {
            steps_below(hz as int).push(hz)
        } else {
            seq![30u32, 60, 120]
        },
        None => seq![30u32, 60, 120],
    }
}

/// The frame rates that suit a screen with this refresh rate. Capturing more
/// frames than the screen puts out only produces duplicates.
pub fn fps_choices(refresh_hz: Option<u32>) -> (choices: Vec<u32>)
    ensures
        choices@ == fps_choices_spec(refresh_hz),
{
    let mut choices: Vec<u32> = Vec::new();
    match refresh_hz {
        Some(refresh) if refresh >= 20 => {
            if 30 < refresh {
                choices.push(30);
            }
            if 60 < refresh {
                choices.push(60);
            }
            if 120 < refresh {
                choices.push(120);
            }
            choices.push(refresh);
        },
        _ => {
            choices.push(30);
            choices.push(60);
            choices.push(120);
        },
    }
    assert(choices@ =~= fps_choices_spec(refresh_hz));
    choices
}

/// `i` is the last offered step at or below `fps`.
pub open spec fn is_last_at_most(cs: Seq<u32>, fps: u32, i: int) -> bool {
    &&& 0 <= i < cs.len()
    &&& cs[i] <= fps
    &&& forall|j: int| i < j < cs.len() ==> #[trigger] cs[j] > fps
}

pub open spec fn snap_spec(fps: u32, cs: Seq<u32>) -> u32 {
    if cs.contains(fps) {
        fps
    } else if exists|i: int| is_last_at_most(cs, fps, i) {
        cs[choose|i: int| is_last_at_most(cs, fps, i)]
    } else if cs.len() > 0 {
        cs[0]
    } else {
        fps
    }
}

/// Snap a frame rate onto one of the offered steps, downwards: capturing more
/// than was configured would be a surprise. What fits nowhere lands on the
/// first step rather than on none.
pub fn snap_fps(fps: u32, choices: &[u32]) -> (r: u32)
    ensures
        r == snap_spec(fps, choices@),
        choices@.len() > 0 ==> choices@.contains(r),
        r <= fps || (choices@.len() > 0 && r == choices@[0] && forall|j: int|
            0 <= j < choices@.len() ==> #[trigger] choices@[j] > fps),
{
    let mut k: usize = 0;
    while k < choices.len()
        invariant
            k <= choices@.len(),
            forall|j: int| 0 <= j < k ==> #[trigger] choices@[j] != fps,
        decreases choices@.len() - k,
    {
        if choices[k] == fps {
            assert(choices@.contains(fps)) by {
                assert(choices@[k as int] == fps);
            }
            return fps;
        }
        k = k + 1;
    }
    assert(!choices@.contains(fps));
    let mut i: usize = choices.len();
    while i > 0
        invariant
            i <= choices@.len(),
            !choices@.contains(fps),
            forall|j: int| i <= j < choices@.len() ==> #[trigger] choices@[j] > fps,
        decreases i,
    {
        if choices[i - 1] <= fps {
            let ghost w = i - 1;
            assert(is_last_at_most(choices@, fps, w as int));
            assert forall|c: int| is_last_at_most(choices@, fps, c) implies c == w as int by {
                if c < w {
                    assert(choices@[w as int] > fps);
                } else if c > w {
                    assert(choices@[c] > fps);
                }
            }
            assert(choices@.contains(choices@[w as int]));
            return choices[i - 1];
        }
        i = i - 1;
    }
    assert(!exists|c: int| is_last_at_most(choices@, fps, c)) by {
        assert forall|c: int| !is_last_at_most(choices@, fps, c) by {
            if 0 <= c < choices@.len() {
                assert(choices@[c] > fps);
            }
        }
    }
    if choices.len() > 0 {
        assert(choices@.contains(choices@[0]));
        choices[0]
    } else {
        fps
    }
}

} // verus!

verus! {

/// Even, by dropping the lowest bit: H.264 will not take an odd size.
pub open spec fn even(x: int) -> int {
    x - x % 2
}

/// The recording settings fitted to the screen or window they point at.
///
/// The frame rate lands on one of the steps the target offers; the height is
/// capped at the target's and never goes under two; the width follows the
/// target's own shape; both are even; and the bitrate follows the picture.
pub open spec fn fit_spec(r: RecordingConfig, ts: Seq<CaptureTarget>) -> RecordingConfig {
    match pick_spec(ts, r.target_kind, opt_string(r.target_id), opt_string(r.target_stable_id)) {
        None => r,
        Some((i, _)) => {
            let t = ts[i];
            let fps = snap_spec(r.fps, fps_choices_spec(t.refresh_hz));
            if t.width == 0 || t.height == 0 {
                RecordingConfig { fps, ..r }
            } else {
                let h = if r.height < 2 { 2 } else if r.height > t.height { t.height as int } else { r.height as int };
                let w = h * t.width / (t.height as int);
                let height = even(h);
                let width = even(if w > 2 { w } else { 2 });
                RecordingConfig {
                    fps,
                    width: width as u32,
                    height: height as u32,
                    bitrate_kbps: bitrate_spec(width, height, fps as int) as u32,
                    ..r
                }
            }
        },
    }
}

/// A target that the fitting cannot size: a height of one pixel is under the
/// two-pixel floor.
pub open spec fn fit_possible(r: RecordingConfig, ts: Seq<CaptureTarget>) -> bool {
    match pick_spec(ts, r.target_kind, opt_string(r.target_id), opt_string(r.target_stable_id)) {
        Some((i, _)) => ts[i].width == 0 || ts[i].height != 1,
        None => true,
    }
}

/// Fit capture size and frame rate to the target the settings point at, found
/// among `targets`. Upscaling shows no detail the screen does not have; frames
/// above the screen's rate are duplicates.
pub fn fit_to_target(recording: &mut RecordingConfig, targets: &[CaptureTarget])
    requires
        fit_possible(*old(recording), targets@),
    ensures
        *final(recording) == fit_spec(*old(recording), targets@),
{
    let choice = match pick(
        targets,
        recording.target_kind,
        as_text(&recording.target_id),
        as_text(&recording.target_stable_id),
    ) {
        Some(c) => c,
        None => return ,
    };
    let target = choice.target;
    recording.fps = snap_fps(recording.fps, fps_choices(target.refresh_hz).as_slice());
    if target.width == 0 || target.height == 0 {
        return ;
    }
    let native_width = target.width;
    let native_height = target.height;
    let height = if recording.height < 2 {
        2
    } else if recording.height > native_height {
        native_height
    } else {
        recording.height
    };
    assert(height as int * native_width as int <= native_height as int * native_width as int)
        by (nonlinear_arith)
        requires height <= native_height;
    assert(height as int * native_width as int / (native_height as int) <= native_width as int)
        by (nonlinear_arith)
        requires height as int * native_width as int <= native_height as int * native_width as int,
            native_height > 0;
    assert(height as int * native_width as int <= u32::MAX as int * u32::MAX as int) by (nonlinear_arith);
    let width = (height as u64 * native_width as u64 / native_height as u64) as u32;
    recording.height = height - height % 2;
    let w2 = if width > 2 { width } else { 2 };
    recording.width = w2 - w2 % 2;
    // The bitrate follows the picture: it sizes the memory budget and still
    // governs on an encoder that refuses constant quality.
    recording.bitrate_kbps = bitrate_for(recording.width, recording.height, recording.fps);
}

/// After fitting, the picture is no larger than the target, both sides are
/// even, and the frame rate is one the target offers.
pub proof fn law_fit_never_upscales(r: RecordingConfig, ts: Seq<CaptureTarget>)
    requires
        fit_possible(r, ts),
    ensures
        ({
            let f = fit_spec(r, ts);
            match pick_spec(ts, r.target_kind, opt_string(r.target_id), opt_string(r.target_stable_id)) {
                Some((i, _)) => {
                    &&& fps_choices_spec(ts[i].refresh_hz).contains(f.fps)
                    &&& (ts[i].width != 0 && ts[i].height != 0) ==> {
                        &&& f.height <= ts[i].height
                        &&& f.height % 2 == 0
                        &&& f.width % 2 == 0
                        &&& f.width >= 2
                        &&& f.height >= 2
                    }
                },
                None => f == r,
            }
        }),
{
    if let Some((i, _)) = pick_spec(ts, r.target_kind, opt_string(r.target_id), opt_string(r.target_stable_id)) {
        let cs = fps_choices_spec(ts[i].refresh_hz);
        assert(cs.len() > 0);
        let s = snap_spec(r.fps, cs);
        if cs.contains(r.fps) {
        } else if exists|k: int| is_last_at_most(cs, r.fps, k) {
            let k = choose|k: int| is_last_at_most(cs, r.fps, k);
            assert(cs[k] == s);
        } else {
            assert(cs[0] == s);
        }
        let t = ts[i];
        if t.width != 0 && t.height != 0 {
            let h = if r.height < 2 { 2 } else if r.height > t.height { t.height as int } else { r.height as int };
            let w = h * t.width / (t.height as int);
            assert(0 <= w) by (nonlinear_arith)
                requires w == h * t.width / (t.height as int), h >= 0, t.height > 0;
            assert(w <= t.width) by (nonlinear_arith)
                requires w == h * t.width / (t.height as int), 0 <= h <= t.height, t.height > 0;
        }
    }
}

/// What a repair of a saved screen selection leaves behind: the device name
/// and panel identity, and whether either changed.
///
/// A screen found by its panel under a new device name has that name written
/// back; one found by device name gains the panel identity it did not have.
/// Nothing chosen, nothing found, or only a stand-in found: nothing changes.
pub open spec fn repair_spec(
    id: Option<Seq<char>>,
    stable: Option<Seq<char>>,
    ts: Seq<CaptureTarget>,
) -> (Option<Seq<char>>, Option<Seq<char>>, bool) {
    if id is None && stable is None {
        (id, stable, false)
    } else {
        match pick_spec(ts, TargetKind::Monitor, id, stable) {
            Some((i, how)) => if how == Match::Fallback {
                (id, stable, false)
            } else {
                let new_id = Some(ts[i].id@);
                let new_stable = if ts[i].stable_id is Some {
                    opt_string(ts[i].stable_id)
                } else {
                    stable
                };
                (new_id, new_stable, new_id != id || new_stable != stable)
            },
            None => (id, stable, false),
        }
    }
}

/// Bring a saved screen selection back in line with the screens in `targets`.
/// Returns whether anything changed, so the caller knows to save.
pub fn repair_monitor_choice(id: &mut Option<String>, stable: &mut Option<String>, targets: &[CaptureTarget]) -> (changed: bool)
    ensures
        ({
            let (i2, s2, c) = repair_spec(opt_string(*old(id)), opt_string(*old(stable)), targets@);
            &&& opt_string(*final(id)) == i2
            &&& opt_string(*final(stable)) == s2
            &&& changed == c
        }),
        !changed ==> *final(id) == *old(id) && *final(stable) == *old(stable),
{
    // Nothing chosen at all is a valid state: the primary screen, by default.
    if id.is_none() && stable.is_none() {
        return false;
    }
    let choice = match pick(targets, TargetKind::Monitor, as_text(id), as_text(stable)) {
        Some(c) => c,
        None => return false,
    };
    // A screen that is merely absent keeps its saved identity: it will be back
    // when it is plugged in again.
    if choice.how == Match::Fallback {
        return false;
    }
    let mut changed = false;
    let same_id = match &*id {
        Some(s) => same_text(s.as_str(), choice.target.id.as_str()),
        None => false,
    };
    if !same_id {
        *id = Some(choice.target.id.clone());
        changed = true;
    }
    match &choice.target.stable_id {
        Some(p) => {
            let same_panel = match &*stable {
                Some(s) => same_text(s.as_str(), p.as_str()),
                None => false,
            };
            if !same_panel {
                *stable = Some(p.clone());
                changed = true;
            }
        },
        None => {},
    }
    changed
}

/// The recording source, repaired. A window keeps its handle.
pub fn repair(recording: &mut RecordingConfig, targets: &[CaptureTarget]) -> (changed: bool)
    ensures
        old(recording).target_kind != TargetKind::Monitor ==> !changed && *final(recording) == *old(recording),
        old(recording).target_kind == TargetKind::Monitor ==> ({
            let (i2, s2, c) = repair_spec(
                opt_string(old(recording).target_id),
                opt_string(old(recording).target_stable_id),
                targets@,
            );
            &&& opt_string(final(recording).target_id) == i2
            &&& opt_string(final(recording).target_stable_id) == s2
            &&& changed == c
        }),
        (RecordingConfig {
            target_id: final(recording).target_id,
            target_stable_id: final(recording).target_stable_id,
            ..*old(recording)
        }) == *final(recording),
{
    if recording.target_kind != TargetKind::Monitor {
        return false;
    }
    let mut id = copy_opt(&recording.target_id);
    let mut stable = copy_opt(&recording.target_stable_id);
    let changed = repair_monitor_choice(&mut id, &mut stable, targets);
    recording.target_id = id;
    recording.target_stable_id = stable;
    changed
}

/// The screen the banner is pinned to, repaired the same way.
pub fn repair_overlay(overlay: &mut OverlayConfig, targets: &[CaptureTarget]) -> (changed: bool)
    ensures
        ({
            let (i2, s2, c) = repair_spec(
                opt_string(old(overlay).monitor),
                opt_string(old(overlay).monitor_stable_id),
                targets@,
            );
            &&& opt_string(final(overlay).monitor) == i2
            &&& opt_string(final(overlay).monitor_stable_id) == s2
            &&& changed == c
        }),
        (OverlayConfig {
            monitor: final(overlay).monitor,
            monitor_stable_id: final(overlay).monitor_stable_id,
            ..*old(overlay)
        }) == *final(overlay),
{
    let mut id = copy_opt(&overlay.monitor);
    let mut stable = copy_opt(&overlay.monitor_stable_id);
    let changed = repair_monitor_choice(&mut id, &mut stable, targets);
    overlay.monitor = id;
    overlay.monitor_stable_id = stable;
    changed
}

} // verus!

verus! {

/// No two screens share a panel identity.
pub open spec fn panels_unique(ts: Seq<CaptureTarget>) -> bool {
    forall|i: int, j: int|
        0 <= i < j < ts.len() && ts[i].kind == TargetKind::Monitor && ts[j].kind == TargetKind::Monitor
            && ts[i].stable_id is Some && ts[j].stable_id is Some ==> opt_string(#[trigger] ts[i].stable_id)
            != opt_string(#[trigger] ts[j].stable_id)
}

proof fn lemma_first_is_first(ts: Seq<CaptureTarget>, w: Wanted, text: Seq<char>)
    requires
        first(ts, w, text) is Some,
    ensures
        is_first(ts, w, text, first(ts, w, text)->0),
{
}

/// A repaired selection stays repaired: with the same screens present, a
/// second repair finds nothing more to change.
pub proof fn law_repair_settles(id: Option<Seq<char>>, stable: Option<Seq<char>>, ts: Seq<CaptureTarget>)
    requires
        panels_unique(ts),
    ensures
        ({
            let (i2, s2, _) = repair_spec(id, stable, ts);
            !repair_spec(i2, s2, ts).2
        }),
{
    let (i2, s2, c) = repair_spec(id, stable, ts);
    if !c {
        assert(i2 == id && s2 == stable);
        return;
    }
    let (i, how) = pick_spec(ts, TargetKind::Monitor, id, stable)->0;
    let t = ts[i];
    if how == Match::Stable {
        let s = given(stable)->0;
        lemma_first_is_first(ts, Wanted::MonitorByPanel, s);
        assert(opt_string(t.stable_id) == Some(s));
        assert(given(s2) == Some(s));
    } else {
        assert(how == Match::Device);
        let d = given(id)->0;
        lemma_first_is_first(ts, Wanted::MonitorByDevice, d);
        assert(t.id@ == d);
        assert(i2 == id);
        if t.stable_id is Some {
            let p = opt_string(t.stable_id)->0;
            if p.len() > 0 {
                assert forall|j: int| 0 <= j < i implies !wants(Wanted::MonitorByPanel, p, #[trigger] ts[j]) by {
                    if wants(Wanted::MonitorByPanel, p, ts[j]) {
                        assert(opt_string(ts[j].stable_id) == opt_string(ts[i].stable_id));
                    }
                }
                assert(is_first(ts, Wanted::MonitorByPanel, p, i));
                lemma_first_is_unique(ts, Wanted::MonitorByPanel, p, i);
            }
        } else {
            assert(s2 == stable);
        }
    }
}


/// The refresh rate a screen reports, in hertz. Windows reports 0 or 1 for
/// "the hardware's default", which says nothing.
pub fn refresh_rate(reported: u32) -> (r: Option<u32>)
    ensures
        r == (if reported <= 1 {
            None::<u32>
        } else {
            Some(reported)
        }),
{
    if reported <= 1 {
        None
    } else {
        Some(reported)
    }
}

/// How a screen is shown in the list: the panel's own name if Windows gives
/// a non-blank one, else `Monitor n` by enumeration order; then its size.
pub open spec fn monitor_title(friendly: Option<Seq<char>>, index: nat, width: nat, height: nat) -> Seq<char> {
    let label = match friendly {
        Some(f) => if trim(f).len() > 0 {
            trim(f)
        } else {
            "Monitor "@ + decimal(index)
        },
        None => "Monitor "@ + decimal(index),
    };
    label + " — "@ + decimal(width) + "×"@ + decimal(height)
}

/// A screen as a capture target: its device name as the id, the panel's
/// device path as the identity that survives a reboot.
pub fn monitor_target(
    device: &str,
    identity: Option<&Identity>,
    index: u64,
    width: u32,
    height: u32,
    is_primary: bool,
    refresh_hz: Option<u32>,
) -> (t: CaptureTarget)
    ensures
        t.kind == TargetKind::Monitor,
        t.id@ == device@,
        opt_string(t.stable_id) == (match identity {
            Some(i) => Some(i.path@),
            None => None::<Seq<char>>,
        }),
        t.title@ == monitor_title(
            match identity {
                Some(i) => Some(i.friendly@),
                None => None,
            },
            index as nat,
            width as nat,
            height as nat,
        ),
        t.width == width && t.height == height,
        t.is_primary == is_primary,
        t.refresh_hz == refresh_hz,
{
    let mut title = String::new();
    let mut named = false;
    match identity {
        Some(i) => {
            let f = trimmed(i.friendly.as_str());
            if !f.as_str().is_empty() {
                push_str(&mut title, f.as_str());
                named = true;
            }
        },
        None => {},
    }
    if !named {
        push_str(&mut title, "Monitor ");
        push_decimal(&mut title, index);
    }
    push_str(&mut title, " — ");
    push_decimal(&mut title, width as u64);
    push_str(&mut title, "×");
    push_decimal(&mut title, height as u64);
    let stable_id = match identity {
        Some(i) => Some(String::from_str(i.path.as_str())),
        None => None,
    };
    CaptureTarget {
        kind: TargetKind::Monitor,
        id: String::from_str(device),
        stable_id,
        title,
        width,
        height,
        is_primary,
        refresh_hz,
    }
}

/// Windows smaller than this are helpers nobody wants to record.
pub const MIN_WINDOW_WIDTH: u32 = 320;
pub const MIN_WINDOW_HEIGHT: u32 = 240;

/// A visible window as a capture target, or `None` for one without a title
/// or too small to be worth recording. Its id is the handle in upper-case
/// hex; it has no identity that outlives the run.
pub fn window_target(handle: u64, title: &str, width: u32, height: u32, refresh_hz: Option<u32>) -> (r: Option<
    CaptureTarget,
>)
    ensures
        title@.len() == 0 || width < MIN_WINDOW_WIDTH || height < MIN_WINDOW_HEIGHT ==> r is None,
        !(title@.len() == 0 || width < MIN_WINDOW_WIDTH || height < MIN_WINDOW_HEIGHT) ==> (r matches Some(t) && {
            &&& t.kind == TargetKind::Window
            &&& t.id@ == "0x"@ + hex(handle as nat, true)
            &&& t.stable_id is None
            &&& t.title@ == title@
            &&& t.width == width && t.height == height
            &&& !t.is_primary
            &&& t.refresh_hz == refresh_hz
        }),
{
    if title.is_empty() || width < MIN_WINDOW_WIDTH || height < MIN_WINDOW_HEIGHT {
        return None;
    }
    let mut id = String::from_str("0x");
    push_hex(&mut id, handle, 1, true);
    Some(CaptureTarget {
        kind: TargetKind::Window,
        id,
        stable_id: None,
        title: String::from_str(title),
        width,
        height,
        is_primary: false,
        refresh_hz,
    })
}

} // verus!
