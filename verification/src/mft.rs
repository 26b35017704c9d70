//! What the hardware encoder's output and its driver's vendor say.
//!
//! Driving the encoder is the platform's business; reading a vendor tag and
//! telling a keyframe packet from the stream itself are decided here.
use vstd::prelude::*;
use crate::gpu::{VENDOR_AMD, VENDOR_INTEL, VENDOR_NVIDIA};
use crate::model::{EncoderId, RateControl};
use crate::text::{contains_text, hex_padded, push_hex, text_contains};

verus! {

/// How many frames may wait to be submitted. At 60 fps four slots are a good
/// 66 ms of headroom for a brief stall of the encoder.
pub const QUEUE_DEPTH: usize = 4;

/// The deepest queue a transform has been caught holding, in frames.
pub const ENCODER_HOLD_MAX: usize = 16;

/// The encoder's vendor stated as text, `VEN_10DE`, where the adapter states
/// the same number as `0x10DE`.
pub open spec fn vendor_tag_spec(id: u32) -> Seq<char> {
    "VEN_"@ + hex_padded(id as nat, 4, true)
}

pub fn vendor_tag(id: u32) -> (tag: String)
    ensures
        tag@ == vendor_tag_spec(id),
{
    let mut tag = String::from_str("VEN_");
    push_hex(&mut tag, id as u64, 4, true);
    tag
}

/// The encoder behind a transform's vendor string, which the driver writes
/// upper-cased: the first of NVIDIA, AMD and Intel whose tag it holds.
pub open spec fn encoder_of_vendor(vendor: Seq<char>) -> Option<EncoderId> {
    if contains_text(vendor, vendor_tag_spec(VENDOR_NVIDIA)) {
        Some(EncoderId::Nvenc)
    } else if contains_text(vendor, vendor_tag_spec(VENDOR_AMD)) {
        Some(EncoderId::Amf)
    } else if contains_text(vendor, vendor_tag_spec(VENDOR_INTEL)) {
        Some(EncoderId::Qsv)
    } else {
        None
    }
}

pub fn vendor_to_encoder(vendor: &str) -> (e: Option<EncoderId>)
    ensures
        e == encoder_of_vendor(vendor@),
{
    if text_contains(vendor, vendor_tag(VENDOR_NVIDIA).as_str()) {
        Some(EncoderId::Nvenc)
    } else if text_contains(vendor, vendor_tag(VENDOR_AMD).as_str()) {
        Some(EncoderId::Amf)
    } else if text_contains(vendor, vendor_tag(VENDOR_INTEL).as_str()) {
        Some(EncoderId::Qsv)
    } else {
        None
    }
}

/// Whether the encoder runs in low-latency mode unless told otherwise: on
/// AMD and Intel, where the lookahead holds frames long enough for a game to
/// stutter; not on NVIDIA or in software.
pub fn low_latency_default(chosen: EncoderId) -> (b: bool)
    ensures
        b == (chosen == EncoderId::Amf || chosen == EncoderId::Qsv),
{
    match chosen {
        EncoderId::Amf | EncoderId::Qsv => true,
        EncoderId::Nvenc | EncoderId::X264 => false,
    }
}

/// In Annex-B a NAL unit begins after `00 00 01`, and the low five bits of
/// the byte after that are its type: 5 is an IDR slice, 7 a sequence
/// parameter set, which only ever stands in front of one.
pub open spec fn opens_gop_at(data: Seq<u8>, i: int) -> bool {
    &&& 2 <= i
    &&& i + 1 < data.len()
    &&& data[i - 2] == 0 && data[i - 1] == 0 && data[i] == 1
    &&& (data[i + 1] % 32 == 5 || data[i + 1] % 32 == 7)
}

/// Does this packet open a group of pictures? Where the encoder does not say,
/// the stream is asked.
pub fn opens_a_gop(data: &[u8]) -> (b: bool)
    ensures
        b == exists|i: int| opens_gop_at(data@, i),
{
    let mut zeros: usize = 0;
    let mut index: usize = 0;
    while index < data.len()
        invariant
            index <= data@.len(),
            zeros <= index,
            forall|j: int| index - zeros <= j < index ==> data@[j] == 0,
            zeros < index ==> data@[index - zeros - 1] != 0,
            forall|i: int| 0 <= i < index ==> !#[trigger] opens_gop_at(data@, i),
        decreases data@.len() - index,
    {
        let byte = data[index];
        if byte == 0 {
            zeros = zeros + 1;
        } else {
            if byte == 1 && zeros >= 2 && index + 1 < data.len() {
                let header = data[index + 1];
                let kind = header & 0x1f;
                assert(header & 0x1f == header % 32) by (bit_vector);
                if kind == 5 || kind == 7 {
                    assert(opens_gop_at(data@, index as int));
                    return true;
                }
            }
            proof {
                if opens_gop_at(data@, index as int) {
                    assert(data@[index - 1] == 0 && data@[index - 2] == 0);
                    assert(zeros >= 2);
                }
            }
            zeros = 0;
        }
        index = index + 1;
    }
    false
}


/// The encoders found, each once, in the order the first transform of each
/// turned up; transforms of no known vendor are left out.
pub open spec fn distinct_found(found: Seq<Option<EncoderId>>) -> Seq<EncoderId>
    decreases found.len(),
{
    if found.len() == 0 {
        Seq::empty()
    } else {
        let earlier = distinct_found(found.drop_last());
        match found.last() {
            Some(id) => if earlier.contains(id) {
                earlier
            } else {
                earlier.push(id)
            },
            None => earlier,
        }
    }
}

fn listed_already(out: &Vec<EncoderId>, id: EncoderId) -> (b: bool)
    ensures
        b == out@.contains(id),
{
    let mut i: usize = 0;
    while i < out.len()
        invariant
            i <= out@.len(),
            forall|j: int| 0 <= j < i ==> out@[j] != id,
        decreases out@.len() - i,
    {
        if out[i] == id {
            return true;
        }
        i = i + 1;
    }
    false
}

/// Which encoders the machine offers, from the hardware transforms the system
/// enumerated (each with the encoder its vendor maps to): an NVIDIA card in
/// the machine does not yet mean its encoder is registered, so only what was
/// found counts.
pub fn available_encoders(found: &[Option<EncoderId>]) -> (out: Vec<EncoderId>)
    ensures
        out@ == distinct_found(found@),
{
    let mut out: Vec<EncoderId> = Vec::new();
    let mut i: usize = 0;
    while i < found.len()
        invariant
            i <= found@.len(),
            out@ == distinct_found(found@.subrange(0, i as int)),
        decreases found@.len() - i,
    {
        assert(found@.subrange(0, i as int + 1).drop_last() =~= found@.subrange(0, i as int));
        match found[i] {
            Some(id) => {
                if !listed_already(&out, id) {
                    out.push(id);
                }
            },
            None => {},
        }
        i = i + 1;
    }
    assert(found@.subrange(0, found@.len() as int) =~= found@);
    out
}

/// Every encoder found is offered exactly once, and nothing else is offered.
pub proof fn law_each_encoder_found_is_offered_once(found: Seq<Option<EncoderId>>)
    ensures
        forall|id: EncoderId| #[trigger] distinct_found(found).contains(id) <==> found.contains(Some(id)),
        forall|a: int, b: int|
            0 <= a < b < distinct_found(found).len() ==> distinct_found(found)[a] != distinct_found(found)[b],
    decreases found.len(),
{
    if found.len() > 0 {
        let rest = found.drop_last();
        law_each_encoder_found_is_offered_once(rest);
        let earlier = distinct_found(rest);
        let now = distinct_found(found);
        assert forall|id: EncoderId| #[trigger] now.contains(id) <==> found.contains(Some(id)) by {
            if found.contains(Some(id)) {
                let k = choose|k: int| 0 <= k < found.len() && found[k] == Some(id);
                if k < found.len() - 1 {
                    assert(rest[k] == Some(id));
                    assert(rest.contains(Some(id)));
                    assert(earlier.contains(id));
                    let w = choose|w: int| 0 <= w < earlier.len() && earlier[w] == id;
                    assert(now[w] == id);
                } else {
                    assert(found.last() == Some(id));
                    if !earlier.contains(id) {
                        assert(now[now.len() - 1] == id);
                    }
                }
            }
            if now.contains(id) {
                if earlier.contains(id) {
                    let k = choose|k: int| 0 <= k < rest.len() && rest[k] == Some(id);
                    assert(found[k] == Some(id));
                } else {
                    let w = choose|w: int| 0 <= w < now.len() && now[w] == id;
                    assert(w == now.len() - 1);
                    assert(found[found.len() - 1] == Some(id));
                }
            }
        }
    }
}


/// Which enumerated transform to start: the one of the requested encoder;
/// otherwise the first of any vendor; otherwise the first at all. A request
/// for software is passed over for hardware: the software transform cannot
/// take pictures straight off the graphics card, and only lands last, on a
/// machine without any. `ids` holds the encoder each transform's vendor maps
/// to.
pub open spec fn pick_spec(requested: EncoderId, ids: Seq<Option<EncoderId>>) -> int {
    if requested != EncoderId::X264 && ids.contains(Some(requested)) {
        choose|i: int|
            0 <= i < ids.len() && ids[i] == Some(requested) && forall|j: int| 0 <= j < i ==> ids[j] != Some(requested)
    } else if exists|i: int| 0 <= i < ids.len() && ids[i] is Some {
        choose|i: int| 0 <= i < ids.len() && ids[i] is Some && forall|j: int| 0 <= j < i ==> ids[j] is None
    } else {
        0
    }
}

/// Where `wanted` first stands in `ids`.
fn first_of(ids: &[Option<EncoderId>], wanted: Option<EncoderId>) -> (r: Option<usize>)
    ensures
        match r {
            Some(k) => k < ids@.len() && ids@[k as int] == wanted && forall|j: int|
                0 <= j < k ==> ids@[j] != wanted,
            None => forall|j: int| 0 <= j < ids@.len() ==> ids@[j] != wanted,
        },
{
    let mut i: usize = 0;
    while i < ids.len()
        invariant
            i <= ids@.len(),
            forall|j: int| 0 <= j < i ==> ids@[j] != wanted,
        decreases ids@.len() - i,
    {
        if ids[i] == wanted {
            return Some(i);
        }
        i = i + 1;
    }
    None
}

/// Where the first transform of any vendor stands in `ids`.
fn first_vendor(ids: &[Option<EncoderId>]) -> (r: Option<usize>)
    ensures
        match r {
            Some(k) => k < ids@.len() && ids@[k as int] is Some && forall|j: int|
                0 <= j < k ==> ids@[j] is None,
            None => forall|j: int| 0 <= j < ids@.len() ==> ids@[j] is None,
        },
{
    let mut i: usize = 0;
    while i < ids.len()
        invariant
            i <= ids@.len(),
            forall|j: int| 0 <= j < i ==> ids@[j] is None,
        decreases ids@.len() - i,
    {
        if ids[i].is_some() {
            return Some(i);
        }
        i = i + 1;
    }
    None
}

/// The transform to start, and the encoder it runs as (software when its
/// vendor names none).
pub fn pick_transform(requested: EncoderId, ids: &[Option<EncoderId>]) -> (r: (usize, EncoderId))
    requires
        ids.len() > 0,
    ensures
        r.0 < ids.len(),
        r.0 == pick_spec(requested, ids@),
        r.1 == match ids@[r.0 as int] {
            Some(id) => id,
            None => EncoderId::X264,
        },
{
    let asked = if requested != EncoderId::X264 {
        first_of(ids, Some(requested))
    } else {
        None
    };
    proof {
        if requested != EncoderId::X264 {
            match asked {
                Some(k) => {
                    assert(ids@.contains(Some(requested)));
                    let f = choose|i: int|
                        0 <= i < ids@.len() && ids@[i] == Some(requested) && forall|j: int|
                            0 <= j < i ==> ids@[j] != Some(requested);
                    assert(f == k as int) by {
                        if f < k {
                            assert(ids@[f] != Some(requested));
                        }
                        if f > k {
                            assert(ids@[k as int] == Some(requested));
                        }
                    }
                },
                None => {
                    assert(!ids@.contains(Some(requested)));
                },
            }
        }
    }
    let pick = match asked {
        Some(k) => k,
        None => match first_vendor(ids) {
            Some(k) => {
                proof {
                    let c = choose|i: int|
                        0 <= i < ids@.len() && ids@[i] is Some && forall|j: int| 0 <= j < i ==> ids@[j] is None;
                    assert(c == k as int) by {
                        if c < k {
                            assert(ids@[c] is None);
                        }
                        if c > k {
                            assert(ids@[k as int] is None);
                        }
                    }
                }
                k
            },
            None => 0,
        },
    };
    let chosen = match ids[pick] {
        Some(id) => id,
        None => EncoderId::X264,
    };
    (pick, chosen)
}

/// What the rate control is set to: the mean in bits a second, a peak half
/// as high again (a fast turn in the game needs a multiple of a still frame),
/// both saturating; and the quality held to 1..=100.
pub fn rate_targets(bitrate_kbps: u32, quality: u32) -> (r: (u32, u32, u32))
    ensures
        r.0 == (if bitrate_kbps * 1000 > u32::MAX { u32::MAX as int } else { bitrate_kbps * 1000 }),
        r.1 == (if r.0 + r.0 / 2 > u32::MAX { u32::MAX as int } else { r.0 + r.0 / 2 }),
        r.2 == (if quality < 1 { 1 } else if quality > 100 { 100 } else { quality as int }),
{
    let mean: u32 = if bitrate_kbps > u32::MAX / 1000 {
        u32::MAX
    } else {
        bitrate_kbps * 1000
    };
    let half = mean / 2;
    let peak: u32 = if mean > u32::MAX - half {
        u32::MAX
    } else {
        mean + half
    };
    let q = if quality < 1 {
        1
    } else if quality > 100 {
        100
    } else {
        quality
    };
    (mean, peak, q)
}

/// The rate control in force once the driver has answered: constant quality
/// when it took both the mode and the level; else a bitrate with a ceiling
/// when it took that mode, the mean and the peak; else the unconstrained
/// bitrate every encoder falls back to. A transform accepts a mode it then
/// ignores, so only what was read back counts.
pub fn rate_control_in_force(
    quality_mode: bool,
    quality_level: bool,
    peak_mode: bool,
    mean_taken: bool,
    peak_taken: bool,
) -> (r: RateControl)
    ensures
        r == (if quality_mode && quality_level {
            RateControl::Quality
        } else if peak_mode && mean_taken && peak_taken {
            RateControl::PeakConstrainedVbr
        } else {
            RateControl::UnconstrainedVbr
        }),
{
    if quality_mode && quality_level {
        RateControl::Quality
    } else if peak_mode && mean_taken && peak_taken {
        RateControl::PeakConstrainedVbr
    } else {
        RateControl::UnconstrainedVbr
    }
}

} // verus!

verus! {

/// How long one frame lasts at `fps`, in 100 ns units; a rate of zero counts
/// as one frame a second.
pub open spec fn frame_duration_spec(fps: u32) -> int {
    10_000_000int / (if fps > 1 { fps as int } else { 1int })
}

pub fn frame_duration_100ns(fps: u32) -> (d: i64)
    ensures
        d == frame_duration_spec(fps),
{
    let frames: i64 = if fps > 1 { fps as i64 } else { 1 };
    10_000_000 / frames
}

/// Frames from one keyframe to the next: the frame rate times the keyframe
/// distance in seconds, each at least one.
pub open spec fn gop_spec(fps: u32, keyframe_seconds: u32) -> int {
    (if fps > 1 { fps as int } else { 1int }) * (if keyframe_seconds > 1 { keyframe_seconds as int } else { 1int })
}

pub fn gop_length(fps: u32, keyframe_seconds: u32) -> (n: u32)
    requires
        gop_spec(fps, keyframe_seconds) <= u32::MAX,
    ensures
        n == gop_spec(fps, keyframe_seconds),
{
    let f: u32 = if fps > 1 { fps } else { 1 };
    let k: u32 = if keyframe_seconds > 1 { keyframe_seconds } else { 1 };
    f * k
}

/// Where the loop that drives a hardware encoder stands.
#[derive(Clone, Copy)]
pub struct PumpState {
    /// Frames the encoder asked for and has not got yet. Counted, because
    /// the encoder does not ask a second time.
    pub pending_input: u32,
    /// Did the encoder say anything in this round?
    pub handled: bool,
    /// Has the encoder finished, or did its event queue fail?
    pub finished: bool,
}

/// What happened since the last step.
#[derive(Clone, Copy)]
pub enum PumpEvent {
    /// The encoder wants a frame.
    NeedInput,
    /// The encoder has a packet ready.
    HaveOutput,
    /// The encoder has drained and is done.
    DrainComplete,
    /// Its event queue failed; that ends the loop too.
    QueueError,
    /// An event of no interest here.
    OtherEvent,
    /// Nothing more is in the event queue right now.
    NoMoreEvents,
    /// A frame to encode arrived while waiting for one.
    JobArrived,
    /// No frame came within the short wait.
    JobTimedOut,
    /// Nobody will send frames any more.
    JobsGone,
}

/// What the loop does next.
#[derive(Clone, Copy, PartialEq, Eq, Debug)]
pub enum PumpAction {
    /// Ask the event queue for the next event, without waiting.
    NextEvent,
    /// Collect the finished packet, then go on with the events.
    TakeOutput,
    /// Wait briefly for a frame to encode.
    WaitForJob,
    /// Hand the frame that arrived to the encoder, then start a new round.
    Feed,
    /// Nothing happened and nothing is owed: pause a moment, then start a
    /// new round.
    Sleep,
    /// Leave the loop.
    Stop,
}

/// The loop's decisions: count the requests for input, collect output when
/// it is announced, stop when the encoder is drained or its queue fails or
/// the frames stop coming, feed only while a frame is owed, and sleep only
/// when a whole round brought nothing.
pub open spec fn pump_spec(s: PumpState, e: PumpEvent) -> (PumpState, PumpAction) {
    match e {
        PumpEvent::NeedInput => (
            PumpState { pending_input: (s.pending_input + 1) as u32, handled: true, ..s },
            PumpAction::NextEvent,
        ),
        PumpEvent::HaveOutput => (PumpState { handled: true, ..s }, PumpAction::TakeOutput),
        PumpEvent::DrainComplete => (PumpState { handled: true, finished: true, ..s }, PumpAction::Stop),
        PumpEvent::QueueError => (PumpState { finished: true, ..s }, PumpAction::Stop),
        PumpEvent::OtherEvent => (PumpState { handled: true, ..s }, PumpAction::NextEvent),
        PumpEvent::NoMoreEvents => if s.pending_input > 0 {
            (s, PumpAction::WaitForJob)
        } else if !s.handled {
            (PumpState { handled: false, ..s }, PumpAction::Sleep)
        } else {
            (PumpState { handled: false, ..s }, PumpAction::NextEvent)
        },
        PumpEvent::JobArrived => (
            PumpState { pending_input: (s.pending_input - 1) as u32, handled: false, ..s },
            PumpAction::Feed,
        ),
        PumpEvent::JobTimedOut => (PumpState { handled: false, ..s }, PumpAction::NextEvent),
        PumpEvent::JobsGone => (s, PumpAction::Stop),
    }
}

/// One step of the loop that drives a hardware encoder. A frame only
/// arrives after the loop waited for one, which it only does while a frame
/// is owed.
pub fn pump_step(s: PumpState, e: PumpEvent) -> (r: (PumpState, PumpAction))
    requires
        e is NeedInput ==> s.pending_input < u32::MAX,
        e is JobArrived ==> s.pending_input > 0,
    ensures
        r == pump_spec(s, e),
{
    match e {
        PumpEvent::NeedInput => (
            PumpState { pending_input: s.pending_input + 1, handled: true, ..s },
            PumpAction::NextEvent,
        ),
        PumpEvent::HaveOutput => (PumpState { handled: true, ..s }, PumpAction::TakeOutput),
        PumpEvent::DrainComplete => (PumpState { handled: true, finished: true, ..s }, PumpAction::Stop),
        PumpEvent::QueueError => (PumpState { finished: true, ..s }, PumpAction::Stop),
        PumpEvent::OtherEvent => (PumpState { handled: true, ..s }, PumpAction::NextEvent),
        PumpEvent::NoMoreEvents => if s.pending_input > 0 {
            (s, PumpAction::WaitForJob)
        } else if !s.handled {
            (PumpState { handled: false, ..s }, PumpAction::Sleep)
        } else {
            (PumpState { handled: false, ..s }, PumpAction::NextEvent)
        },
        PumpEvent::JobArrived => (
            PumpState { pending_input: s.pending_input - 1, handled: false, ..s },
            PumpAction::Feed,
        ),
        PumpEvent::JobTimedOut => (PumpState { handled: false, ..s }, PumpAction::NextEvent),
        PumpEvent::JobsGone => (s, PumpAction::Stop),
    }
}

/// The loop feeds exactly once per request: a feed takes one owed frame off
/// the count, a wait happens only while a frame is owed, and only a request
/// adds to the count.
pub proof fn law_the_pump_feeds_only_what_was_asked(s: PumpState, e: PumpEvent)
    requires
        e is NeedInput ==> s.pending_input < u32::MAX,
        e is JobArrived ==> s.pending_input > 0,
    ensures
        ({
            let (t, a) = pump_spec(s, e);
            &&& a == PumpAction::Feed ==> t.pending_input == s.pending_input - 1
            &&& a == PumpAction::WaitForJob ==> s.pending_input > 0
            &&& t.pending_input > s.pending_input ==> e is NeedInput && t.pending_input == s.pending_input + 1
            &&& a == PumpAction::Sleep ==> !s.handled && s.pending_input == 0
            &&& t.finished ==> a == PumpAction::Stop || s.finished
        }),
{
}

/// An owed frame is always waited for: when a round finds the event queue
/// empty while the encoder still wants a frame, the loop waits for one,
/// whatever else the round saw, and forgets nothing it owes. It sleeps only
/// after a round in which nothing happened and nothing is owed, and it never
/// waits when nothing is owed.
pub proof fn law_an_owed_frame_is_waited_for(s: PumpState)
    ensures
        s.pending_input > 0 ==> pump_spec(s, PumpEvent::NoMoreEvents) == (s, PumpAction::WaitForJob),
        pump_spec(s, PumpEvent::NoMoreEvents).1 == PumpAction::WaitForJob ==> s.pending_input > 0,
        pump_spec(s, PumpEvent::NoMoreEvents).1 == PumpAction::Sleep <==> (s.pending_input == 0 && !s.handled),
        pump_spec(s, PumpEvent::NoMoreEvents).0.pending_input == s.pending_input,
        !pump_spec(s, PumpEvent::NoMoreEvents).0.finished <==> !s.finished,
{
}

} // verus!
