//! The encoder profile: one block of text, logged when the encoder starts,
//! listing what was wanted, what was found, what actually runs, on which
//! card, and what the driver quietly refused. A log sent back from a machine
//! nobody can sit in front of then answers those questions at once.
use vstd::prelude::*;
use crate::gpu::AdapterInfo;
use crate::model::{EncoderId, RateControl};
use crate::text::{decimal, push_decimal, push_str};

verus! {

/// What the encoder's driver answered about the settings that come after
/// the media types.
#[derive(Debug, Clone)]
pub struct CodecReport {
    /// The properties it refused, by name.
    pub rejected: Vec<String>,
    pub gop_wanted: u32,
    /// `None` when the encoder will not say.
    pub gop_effective: Option<u32>,
    pub quality_vs_speed: u32,
    pub low_latency: bool,
}

/// Everything the profile reports.
#[derive(Debug, Clone)]
pub struct EncoderProfile {
    pub requested: EncoderId,
    pub chosen: EncoderId,
    /// The transforms found, by name, with the encoder each one's vendor maps
    /// to (none for the software one).
    pub candidates: Vec<(String, Option<EncoderId>)>,
    /// Which of them runs.
    pub pick: usize,
    /// The card, when one was asked for.
    pub adapter: Option<AdapterInfo>,
    pub width: u32,
    pub height: u32,
    pub fps: u32,
    pub bitrate_kbps: u32,
    pub quality: u32,
    pub rate_control: RateControl,
    pub is_async: bool,
    pub provides_samples: bool,
    /// `None` when the encoder offers no codec interface at all.
    pub report: Option<CodecReport>,
    /// B-frames asked for, and whether the driver took them.
    pub bframes: Option<(u32, bool)>,
}

/// An encoder's name as `{:?}` writes it.
pub open spec fn encoder_name(id: EncoderId) -> Seq<char> {
    match id {
        EncoderId::Nvenc => "Nvenc"@,
        EncoderId::Amf => "Amf"@,
        EncoderId::Qsv => "Qsv"@,
        EncoderId::X264 => "X264"@,
    }
}

/// A rate control as `{:?}` writes it.
pub open spec fn rate_name(r: RateControl) -> Seq<char> {
    match r {
        RateControl::Quality => "Quality"@,
        RateControl::PeakConstrainedVbr => "PeakConstrainedVbr"@,
        RateControl::UnconstrainedVbr => "UnconstrainedVbr"@,
    }
}

pub open spec fn bool_text(b: bool) -> Seq<char> {
    if b {
        "true"@
    } else {
        "false"@
    }
}

/// Texts one after another with `sep` between them.
pub open spec fn joined_with(parts: Seq<Seq<char>>, sep: Seq<char>) -> Seq<char>
    decreases parts.len(),
{
    if parts.len() == 0 {
        Seq::empty()
    } else if parts.len() == 1 {
        parts[0]
    } else {
        joined_with(parts.drop_last(), sep) + sep + parts.last()
    }
}

pub open spec fn candidate_line(p: EncoderProfile, i: int) -> Seq<char> {
    "    ["@ + decimal(i as nat) + "]"@ + (if i == p.pick {
        " *"@
    } else {
        "  "@
    }) + " "@ + p.candidates@[i].0@ + " — "@ + match p.candidates@[i].1 {
        Some(id) => encoder_name(id),
        None => "software"@,
    }
}

pub open spec fn report_lines(p: EncoderProfile) -> Seq<Seq<char>> {
    match p.report {
        Some(r) => seq![
            "  keyframes        every "@ + decimal(r.gop_wanted as nat) + " frames, encoder says "@
                + match r.gop_effective {
                Some(v) => decimal(v as nat),
                None => "(will not say)"@,
            },
            "  quality/speed    "@ + decimal(r.quality_vs_speed as nat) + ", low latency "@ + bool_text(
                r.low_latency,
            ) + ", B-frames "@ + match p.bframes {
                Some((count, true)) => decimal(count as nat),
                Some((count, false)) => decimal(count as nat)
                    + " asked for and REFUSED, so the driver's own"@,
                None => "not asked, so the driver's own"@,
            },
            "  refused          "@ + if r.rejected@.len() == 0 {
                "nothing"@
            } else {
                joined_with(r.rejected.deep_view(), ", "@)
            },
        ],
        None => seq!["  refused          no ICodecAPI at all — nothing could be set"@],
    }
}

/// The first eight lines: what was asked for and what runs.
pub open spec fn head_lines(p: EncoderProfile) -> Seq<Seq<char>> {
    seq![
        "encoder profile"@,
        "  requested        "@ + encoder_name(p.requested),
        "  running          "@ + encoder_name(p.chosen) + if p.chosen == p.requested {
            Seq::empty()
        } else {
            "   <-- NOT what was asked for"@
        },
        "  transform        "@ + p.candidates@[p.pick as int].0@ + " ("@ + match p.candidates@[p.pick as int].1 {
            Some(id) => encoder_name(id),
            None => "no vendor, so software"@,
        } + ")"@,
        "  adapter          "@ + match p.adapter {
            Some(a) => a.describe_spec(),
            None => "DXGI default (nothing was requested)"@,
        },
        "  picture          "@ + decimal(p.width as nat) + "x"@ + decimal(p.height as nat) + " @ "@ + decimal(
            p.fps as nat,
        ) + " fps, "@ + decimal(p.bitrate_kbps as nat) + " kbit/s, quality "@ + decimal(p.quality as nat),
        "  rate control     "@ + rate_name(p.rate_control) + if p.rate_control == RateControl::Quality {
            Seq::empty()
        } else {
            "   <-- not constant quality"@
        },
        "  model            "@ + (if p.is_async {
            "asynchronous (hardware)"@
        } else {
            "synchronous (software)"@
        }) + ", samples "@ + if p.provides_samples {
            "from the encoder"@
        } else {
            "ours to provide"@
        },
    ]
}

pub open spec fn count_line(p: EncoderProfile) -> Seq<char> {
    "  candidates       "@ + decimal(p.candidates@.len() as nat)
}

pub open spec fn candidate_lines(p: EncoderProfile, n: int) -> Seq<Seq<char>> {
    Seq::new(n as nat, |i: int| candidate_line(p, i))
}

/// The profile's lines, in order.
pub open spec fn profile_lines(p: EncoderProfile) -> Seq<Seq<char>> {
    head_lines(p) + report_lines(p) + seq![count_line(p)] + candidate_lines(p, p.candidates@.len() as int)
}

/// The whole profile, one line under the other.
pub open spec fn profile_spec(p: EncoderProfile) -> Seq<char> {
    joined_with(profile_lines(p), "\n"@)
}

fn push_encoder(s: &mut String, id: EncoderId)
    ensures
        final(s)@ == old(s)@ + encoder_name(id),
{
    match id {
        EncoderId::Nvenc => push_str(s, "Nvenc"),
        EncoderId::Amf => push_str(s, "Amf"),
        EncoderId::Qsv => push_str(s, "Qsv"),
        EncoderId::X264 => push_str(s, "X264"),
    }
}

pub(crate) fn join_lines(parts: &Vec<String>, sep: &str) -> (out: String)
    ensures
        out@ == joined_with(parts.deep_view(), sep@),
{
    let mut out = String::new();
    let mut i: usize = 0;
    while i < parts.len()
        invariant
            i <= parts@.len(),
            out@ == joined_with(parts.deep_view().take(i as int), sep@),
        decreases parts@.len() - i,
    {
        assert(parts.deep_view().take(i as int + 1).drop_last() =~= parts.deep_view().take(i as int));
        if i > 0 {
            push_str(&mut out, sep);
        }
        push_str(&mut out, parts[i].as_str());
        proof {
            if i == 0 {
                assert(out@ =~= parts.deep_view().take(1)[0]);
            }
        }
        i = i + 1;
    }
    assert(parts.deep_view().take(i as int) =~= parts.deep_view());
    out
}

fn candidate_text(p: &EncoderProfile, i: usize) -> (s: String)
    requires
        i < p.candidates@.len(),
    ensures
        s@ == candidate_line(*p, i as int),
{
    let mut s = String::from_str("    [");
    push_decimal(&mut s, i as u64);
    push_str(&mut s, "]");
    if i == p.pick {
        push_str(&mut s, " *");
    } else {
        push_str(&mut s, "  ");
    }
    push_str(&mut s, " ");
    push_str(&mut s, p.candidates[i].0.as_str());
    push_str(&mut s, " — ");
    match p.candidates[i].1 {
        Some(id) => push_encoder(&mut s, id),
        None => push_str(&mut s, "software"),
    }
    s
}

fn report_texts(p: &EncoderProfile, lines: &mut Vec<String>)
    ensures
        final(lines).deep_view() == old(lines).deep_view() + report_lines(*p),
{
    let ghost start = lines.deep_view();
    match &p.report {
        Some(r) => {
            let mut a = String::from_str("  keyframes        every ");
            push_decimal(&mut a, r.gop_wanted as u64);
            push_str(&mut a, " frames, encoder says ");
            match r.gop_effective {
                Some(v) => push_decimal(&mut a, v as u64),
                None => push_str(&mut a, "(will not say)"),
            }
            let mut b = String::from_str("  quality/speed    ");
            push_decimal(&mut b, r.quality_vs_speed as u64);
            push_str(&mut b, ", low latency ");
            if r.low_latency {
                push_str(&mut b, "true");
            } else {
                push_str(&mut b, "false");
            }
            push_str(&mut b, ", B-frames ");
            match p.bframes {
                Some((count, taken)) => {
                    push_decimal(&mut b, count as u64);
                    if !taken {
                        push_str(&mut b, " asked for and REFUSED, so the driver's own");
                    }
                },
                None => push_str(&mut b, "not asked, so the driver's own"),
            }
            let mut c = String::from_str("  refused          ");
            if r.rejected.len() == 0 {
                push_str(&mut c, "nothing");
            } else {
                let all = join_lines(&r.rejected, ", ");
                push_str(&mut c, all.as_str());
            }
            assert(a@ == report_lines(*p)[0]);
            assert(b@ == report_lines(*p)[1]);
            assert(c@ == report_lines(*p)[2]);
            lines.push(a);
            lines.push(b);
            lines.push(c);
            assert(lines.deep_view() =~= start + report_lines(*p));
        },
        None => {
            lines.push(String::from_str("  refused          no ICodecAPI at all — nothing could be set"));
            assert(lines.deep_view() =~= start + report_lines(*p));
        },
    }
}

/// The encoder profile as one block of lines.
pub fn profile_text(p: &EncoderProfile) -> (s: String)
    requires
        p.pick < p.candidates@.len(),
    ensures
        s@ == profile_spec(*p),
{
    let mut lines: Vec<String> = Vec::new();
    lines.push(String::from_str("encoder profile"));
    let mut l = String::from_str("  requested        ");
    push_encoder(&mut l, p.requested);
    lines.push(l);
    let mut l = String::from_str("  running          ");
    push_encoder(&mut l, p.chosen);
    if p.chosen != p.requested {
        push_str(&mut l, "   <-- NOT what was asked for");
    }
    lines.push(l);
    let mut l = String::from_str("  transform        ");
    push_str(&mut l, p.candidates[p.pick].0.as_str());
    push_str(&mut l, " (");
    match p.candidates[p.pick].1 {
        Some(id) => push_encoder(&mut l, id),
        None => push_str(&mut l, "no vendor, so software"),
    }
    push_str(&mut l, ")");
    lines.push(l);
    let mut l = String::from_str("  adapter          ");
    match &p.adapter {
        Some(a) => {
            let d = a.describe();
            push_str(&mut l, d.as_str());
        },
        None => push_str(&mut l, "DXGI default (nothing was requested)"),
    }
    lines.push(l);
    let mut l = String::from_str("  picture          ");
    push_decimal(&mut l, p.width as u64);
    push_str(&mut l, "x");
    push_decimal(&mut l, p.height as u64);
    push_str(&mut l, " @ ");
    push_decimal(&mut l, p.fps as u64);
    push_str(&mut l, " fps, ");
    push_decimal(&mut l, p.bitrate_kbps as u64);
    push_str(&mut l, " kbit/s, quality ");
    push_decimal(&mut l, p.quality as u64);
    lines.push(l);
    let mut l = String::from_str("  rate control     ");
    match p.rate_control {
        RateControl::Quality => push_str(&mut l, "Quality"),
        RateControl::PeakConstrainedVbr => {
            push_str(&mut l, "PeakConstrainedVbr");
            push_str(&mut l, "   <-- not constant quality");
        },
        RateControl::UnconstrainedVbr => {
            push_str(&mut l, "UnconstrainedVbr");
            push_str(&mut l, "   <-- not constant quality");
        },
    }
    lines.push(l);
    let mut l = String::from_str("  model            ");
    if p.is_async {
        push_str(&mut l, "asynchronous (hardware)");
    } else {
        push_str(&mut l, "synchronous (software)");
    }
    push_str(&mut l, ", samples ");
    if p.provides_samples {
        push_str(&mut l, "from the encoder");
    } else {
        push_str(&mut l, "ours to provide");
    }
    lines.push(l);
    let ghost head = lines.deep_view();
    assert(head =~= head_lines(*p));
    report_texts(p, &mut lines);
    let mut l = String::from_str("  candidates       ");
    push_decimal(&mut l, p.candidates.len() as u64);
    lines.push(l);
    let ghost upto = lines.deep_view();
    assert(upto =~= head_lines(*p) + report_lines(*p) + seq![count_line(*p)]);
    assert(Seq::new(0, |k: int| candidate_line(*p, k)) =~= Seq::<Seq<char>>::empty());
    let mut i: usize = 0;
    while i < p.candidates.len()
        invariant
            i <= p.candidates@.len(),
            p.pick < p.candidates@.len(),
            upto == head_lines(*p) + report_lines(*p) + seq![count_line(*p)],
            lines.deep_view() == upto + Seq::new(i as nat, |k: int| candidate_line(*p, k)),
        decreases p.candidates@.len() - i,
    {
        let c = candidate_text(p, i);
        let ghost before = lines.deep_view();
        lines.push(c);
        assert(lines.deep_view() =~= before.push(candidate_line(*p, i as int)));
        assert(Seq::new((i + 1) as nat, |k: int| candidate_line(*p, k)) =~= Seq::new(
            i as nat,
            |k: int| candidate_line(*p, k),
        ).push(candidate_line(*p, i as int)));
        i = i + 1;
    }
    assert(lines.deep_view() =~= profile_lines(*p));
    join_lines(&lines, "\n")
}

} // verus!
