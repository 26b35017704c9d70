//! Encoder selection and the bitrate a picture is worth.
//!
//! Which hardware encoders exist is asked of the Media Foundation registry,
//! not the GPU; that answer comes in as `hardware`.
use vstd::prelude::*;
use crate::model::{EncoderId, EncoderInfo};

verus! {

pub open spec fn listed(hardware: Seq<EncoderId>, id: EncoderId) -> bool {
    exists|i: int| 0 <= i < hardware.len() && hardware[i] == id
}

fn has(hardware: &[EncoderId], id: EncoderId) -> (b: bool)
    ensures
        b == listed(hardware@, id),
{
    let mut i: usize = 0;
    while i < hardware.len()
        invariant
            i <= hardware@.len(),
            forall|k: int| 0 <= k < i ==> hardware@[k] != id,
        decreases hardware@.len() - i,
    {
        if hardware[i] == id {
            return true;
        }
        i = i + 1;
    }
    false
}

/// The four encoders in the order the settings list them, each marked with
/// whether it is there. Software is always there.
pub open spec fn encoders_spec(hardware: Seq<EncoderId>) -> Seq<(EncoderId, Seq<char>, bool, bool)> {
    seq![
        (EncoderId::Nvenc, "NVIDIA NVENC (H.264)"@, listed(hardware, EncoderId::Nvenc), true),
        (EncoderId::Amf, "AMD AMF (H.264)"@, listed(hardware, EncoderId::Amf), true),
        (EncoderId::Qsv, "Intel QuickSync (H.264)"@, listed(hardware, EncoderId::Qsv), true),
        (EncoderId::X264, "Software (CPU, fallback)"@, true, false),
    ]
}

pub open spec fn info_view(e: EncoderInfo) -> (EncoderId, Seq<char>, bool, bool) {
    (e.id, e.name@, e.available, e.hardware)
}

/// The encoders to offer, given the hardware encoders the registry lists.
pub fn list_encoders(hardware: &[EncoderId]) -> (out: Vec<EncoderInfo>)
    ensures
        out@.len() == 4,
        forall|i: int| 0 <= i < 4 ==> info_view(#[trigger] out@[i]) == encoders_spec(hardware@)[i],
{
    let mut out: Vec<EncoderInfo> = Vec::new();
    out.push(EncoderInfo {
        id: EncoderId::Nvenc,
        name: String::from_str("NVIDIA NVENC (H.264)"),
        available: has(hardware, EncoderId::Nvenc),
        hardware: true,
    });
    out.push(EncoderInfo {
        id: EncoderId::Amf,
        name: String::from_str("AMD AMF (H.264)"),
        available: has(hardware, EncoderId::Amf),
        hardware: true,
    });
    out.push(EncoderInfo {
        id: EncoderId::Qsv,
        name: String::from_str("Intel QuickSync (H.264)"),
        available: has(hardware, EncoderId::Qsv),
        hardware: true,
    });
    // For recording this is the Windows software H.264 transform, for export
    // it is x264. Both are always there.
    out.push(EncoderInfo {
        id: EncoderId::X264,
        name: String::from_str("Software (CPU, fallback)"),
        available: true,
        hardware: false,
    });
    out
}

/// Bits spent per pixel and frame, as a fraction: 0.15 puts 1080p60 at a good
/// 19 Mbit/s.
pub const BITS_PER_PIXEL_NUM: u64 = 15;
pub const BITS_PER_PIXEL_DEN: u64 = 100;

/// Sensible bitrate for a picture of this size and speed, in kbit/s: 0.15 bit
/// per pixel and frame, to the nearest megabit, held between 2 and 100 Mbit/s.
pub open spec fn bitrate_spec(width: int, height: int, fps: int) -> int {
    let frames = if fps > 1 { fps } else { 1 };
    let kbps = width * height * frames * BITS_PER_PIXEL_NUM / (BITS_PER_PIXEL_DEN * 1000);
    let rounded = (kbps + 500) / 1000 * 1000;
    if rounded < 2000 {
        2000
    } else if rounded > 100_000 {
        100_000
    } else {
        rounded
    }
}

pub fn bitrate_for(width: u32, height: u32, fps: u32) -> (kbps: u32)
    ensures
        kbps == bitrate_spec(width as int, height as int, fps as int),
        2000 <= kbps <= 100_000,
{
    let frames: u128 = if fps > 1 { fps as u128 } else { 1 };
    assert((width as u128) * (height as u128) <= u64::MAX as u128) by (nonlinear_arith);
    let area: u128 = width as u128 * height as u128;
    assert(area * frames <= u64::MAX as u128 * u32::MAX as u128) by (nonlinear_arith)
        requires area <= u64::MAX as u128, frames <= u32::MAX as u128;
    let pixels_per_second: u128 = area * frames;
    let num: u128 = BITS_PER_PIXEL_NUM as u128;
    let den: u128 = BITS_PER_PIXEL_DEN as u128 * 1000;
    assert(num == 15 && den == 100_000);
    let kbps: u128 = pixels_per_second * num / den;
    let rounded: u128 = (kbps + 500) / 1000 * 1000;
    let clamped: u128 = if rounded < 2000 {
        2000
    } else if rounded > 100_000 {
        100_000
    } else {
        rounded
    };
    assert(pixels_per_second == width as int * height as int * (if fps > 1 { fps as int } else { 1 }));
    clamped as u32
}

/// Pixels per second of a picture, at one frame a second at least.
pub open spec fn pixel_rate(width: int, height: int, fps: int) -> int {
    width * height * if fps > 1 { fps } else { 1 }
}

proof fn lemma_rate_is_monotone(w1: int, h1: int, f1: int, w2: int, h2: int, f2: int)
    requires
        0 <= pixel_rate(w1, h1, f1) <= pixel_rate(w2, h2, f2),
    ensures
        bitrate_spec(w1, h1, f1) <= bitrate_spec(w2, h2, f2),
{
    let p1 = pixel_rate(w1, h1, f1);
    let p2 = pixel_rate(w2, h2, f2);
    let fr1 = if f1 > 1 { f1 } else { 1 };
    let fr2 = if f2 > 1 { f2 } else { 1 };
    assert(w1 * h1 * fr1 * 15 == p1 * 15);
    assert(w2 * h2 * fr2 * 15 == p2 * 15);
    assert(p1 * 15 <= p2 * 15) by (nonlinear_arith)
        requires p1 <= p2;
    let k1 = p1 * 15 / 100_000;
    let k2 = p2 * 15 / 100_000;
    vstd::arithmetic::div_mod::lemma_div_is_ordered(p1 * 15, p2 * 15, 100_000);
    assert(k1 <= k2);
    vstd::arithmetic::div_mod::lemma_div_is_ordered(k1 + 500, k2 + 500, 1000);
}

/// More pixels per second never cost less: the bitrate grows with the frame
/// rate at a fixed size, with the area at a fixed frame rate, and in general
/// with the pixels per second.
pub proof fn law_more_pixels_never_cost_less(w1: u32, h1: u32, f1: u32, w2: u32, h2: u32, f2: u32)
    ensures
        f1 <= f2 ==> bitrate_spec(w1 as int, h1 as int, f1 as int) <= bitrate_spec(
            w1 as int,
            h1 as int,
            f2 as int,
        ),
        w1 * h1 <= w2 * h2 ==> bitrate_spec(w1 as int, h1 as int, f1 as int) <= bitrate_spec(
            w2 as int,
            h2 as int,
            f1 as int,
        ),
        pixel_rate(w1 as int, h1 as int, f1 as int) <= pixel_rate(w2 as int, h2 as int, f2 as int)
            ==> bitrate_spec(w1 as int, h1 as int, f1 as int) <= bitrate_spec(
            w2 as int,
            h2 as int,
            f2 as int,
        ),
{
    let a1 = w1 as int * h1 as int;
    let a2 = w2 as int * h2 as int;
    let fr1: int = if f1 > 1 { f1 as int } else { 1 };
    let fr2: int = if f2 > 1 { f2 as int } else { 1 };
    assert(a1 >= 0 && a2 >= 0) by (nonlinear_arith)
        requires a1 == w1 as int * h1 as int, a2 == w2 as int * h2 as int, w1 >= 0, h1 >= 0, w2 >= 0, h2 >= 0;
    assert(a1 * fr1 >= 0) by (nonlinear_arith)
        requires a1 >= 0, fr1 >= 1;
    if f1 <= f2 {
        assert(a1 * fr1 <= a1 * fr2) by (nonlinear_arith)
            requires a1 >= 0, fr1 <= fr2;
        lemma_rate_is_monotone(w1 as int, h1 as int, f1 as int, w1 as int, h1 as int, f2 as int);
    }
    if a1 <= a2 {
        assert(a1 * fr1 <= a2 * fr1) by (nonlinear_arith)
            requires a1 <= a2, fr1 >= 1;
        lemma_rate_is_monotone(w1 as int, h1 as int, f1 as int, w2 as int, h2 as int, f1 as int);
    }
    if pixel_rate(w1 as int, h1 as int, f1 as int) <= pixel_rate(w2 as int, h2 as int, f2 as int) {
        lemma_rate_is_monotone(w1 as int, h1 as int, f1 as int, w2 as int, h2 as int, f2 as int);
    }
}

pub open spec fn preferred_spec(hardware: Seq<EncoderId>) -> EncoderId {
    if listed(hardware, EncoderId::Nvenc) {
        EncoderId::Nvenc
    } else if listed(hardware, EncoderId::Amf) {
        EncoderId::Amf
    } else if listed(hardware, EncoderId::Qsv) {
        EncoderId::Qsv
    } else {
        EncoderId::X264
    }
}

/// Best available encoder — hardware before CPU, in the order of the list.
pub fn preferred_encoder(hardware: &[EncoderId]) -> (e: EncoderId)
    ensures
        e == preferred_spec(hardware@),
{
    let list = list_encoders(hardware);
    let mut i: usize = 0;
    while i < list.len()
        invariant
            list@.len() == 4,
            forall|i: int| 0 <= i < 4 ==> info_view(#[trigger] list@[i]) == encoders_spec(hardware@)[i],
            i <= list@.len(),
            forall|k: int| 0 <= k < i ==> !(#[trigger] list@[k].available && list@[k].hardware),
        decreases list@.len() - i,
    {
        assert(info_view(list@[i as int]) == encoders_spec(hardware@)[i as int]);
        if list[i].available && list[i].hardware {
            proof {
                assert(info_view(list@[0]) == encoders_spec(hardware@)[0]);
                assert(info_view(list@[1]) == encoders_spec(hardware@)[1]);
                assert(info_view(list@[2]) == encoders_spec(hardware@)[2]);
                assert(info_view(list@[3]) == encoders_spec(hardware@)[3]);
                if i > 0 {
                    assert(!(list@[0].available && list@[0].hardware));
                }
                if i > 1 {
                    assert(!(list@[1].available && list@[1].hardware));
                }
                if i > 2 {
                    assert(!(list@[2].available && list@[2].hardware));
                }
            }
            return list[i].id;
        }
        i = i + 1;
    }
    assert(info_view(list@[0]) == encoders_spec(hardware@)[0]);
    assert(info_view(list@[1]) == encoders_spec(hardware@)[1]);
    assert(info_view(list@[2]) == encoders_spec(hardware@)[2]);
    EncoderId::X264
}

pub open spec fn available(hardware: Seq<EncoderId>, id: EncoderId) -> bool {
    id == EncoderId::X264 || listed(hardware, id)
}

/// Falls back to an available encoder if the requested one is missing — a
/// config carried over from another machine, for instance.
pub fn resolve(requested: EncoderId, hardware: &[EncoderId]) -> (e: EncoderId)
    ensures
        available(hardware@, requested) ==> e == requested,
        !available(hardware@, requested) ==> e == preferred_spec(hardware@),
        available(hardware@, e),
{
    let ok = requested == EncoderId::X264 || has(hardware, requested);
    if ok {
        requested
    } else {
        preferred_encoder(hardware)
    }
}

} // verus!
