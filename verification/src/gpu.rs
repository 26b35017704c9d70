//! Which graphics adapter an encoder has to run on.
//!
//! Listing the adapters is the platform's business; which of them an encoder
//! is given is decided here.
use vstd::prelude::*;
use crate::model::EncoderId;
use crate::text::{decimal, hex_padded, push_decimal, push_hex, push_str};

verus! {

pub const VENDOR_NVIDIA: u32 = 0x10DE;

pub const VENDOR_AMD: u32 = 0x1002;

pub const VENDOR_INTEL: u32 = 0x8086;

pub open spec fn vendor_spec(encoder: EncoderId) -> Option<u32> {
    match encoder {
        EncoderId::Nvenc => Some(VENDOR_NVIDIA),
        EncoderId::Amf => Some(VENDOR_AMD),
        EncoderId::Qsv => Some(VENDOR_INTEL),
        EncoderId::X264 => None,
    }
}

/// Which vendor has to supply the adapter for this encoder. The software
/// encoder has none: it runs wherever it is put.
pub fn vendor_for(encoder: EncoderId) -> (v: Option<u32>)
    ensures
        v == vendor_spec(encoder),
{
    match encoder {
        EncoderId::Nvenc => Some(VENDOR_NVIDIA),
        EncoderId::Amf => Some(VENDOR_AMD),
        EncoderId::Qsv => Some(VENDOR_INTEL),
        EncoderId::X264 => None,
    }
}

/// One graphics adapter, as far as the choice cares about it.
#[derive(Debug, Clone)]
pub struct AdapterInfo {
    pub index: u32,
    pub name: String,
    pub vendor_id: u32,
    pub device_id: u32,
    /// Memory on the card itself. Nought means the GPU borrows main memory,
    /// which is how an integrated one looks.
    pub dedicated_vram: u64,
}

impl AdapterInfo {
    /// `#0 Radeon (1002:73ff, 8176 MB dedicated)`, for the log.
    pub open spec fn describe_spec(&self) -> Seq<char> {
        "#"@ + decimal(self.index as nat) + " "@ + self.name@ + " ("@ + hex_padded(self.vendor_id as nat, 4, false)
            + ":"@ + hex_padded(self.device_id as nat, 4, false) + ", "@ + decimal(
            (self.dedicated_vram / 1048576u64) as nat,
        ) + " MB dedicated)"@
    }

    pub fn describe(&self) -> (s: String)
        ensures
            s@ == self.describe_spec(),
    {
        let mut s = String::from_str("#");
        push_decimal(&mut s, self.index as u64);
        push_str(&mut s, " ");
        push_str(&mut s, self.name.as_str());
        push_str(&mut s, " (");
        push_hex(&mut s, self.vendor_id as u64, 4, false);
        push_str(&mut s, ":");
        push_hex(&mut s, self.device_id as u64, 4, false);
        push_str(&mut s, ", ");
        push_decimal(&mut s, self.dedicated_vram / (1024 * 1024));
        push_str(&mut s, " MB dedicated)");
        s
    }
}

/// `i` is the adapter an encoder of this vendor gets: of its vendor, with the
/// most memory of its own, the last of equals.
pub open spec fn is_pick(list: Seq<AdapterInfo>, vendor: u32, i: int) -> bool {
    &&& 0 <= i < list.len()
    &&& list[i].vendor_id == vendor
    &&& forall|j: int|
        0 <= j < list.len() && (#[trigger] list[j]).vendor_id == vendor ==> list[j].dedicated_vram
            <= list[i].dedicated_vram
    &&& forall|j: int|
        i < j < list.len() && (#[trigger] list[j]).vendor_id == vendor ==> list[j].dedicated_vram
            < list[i].dedicated_vram
}

/// The adapter an encoder has to run on, or `None` for "whatever the system
/// hands out first".
///
/// Two makes in one machine: the encoder's own make. Two cards of the same
/// make, as in a laptop with an integrated and a discrete GPU of one vendor:
/// the one with real memory of its own, the card the game is drawn on.
pub fn pick_adapter(encoder: EncoderId, list: &[AdapterInfo]) -> (r: Option<usize>)
    ensures
        match (vendor_spec(encoder), r) {
            (None, None) => true,
            (Some(v), Some(i)) => is_pick(list@, v, i as int),
            (Some(v), None) => forall|j: int| 0 <= j < list@.len() ==> (#[trigger] list@[j]).vendor_id != v,
            (None, Some(_)) => false,
        },
{
    let vendor = match vendor_for(encoder) {
        Some(v) => v,
        None => return None,
    };
    let mut best: Option<usize> = None;
    let mut i: usize = 0;
    while i < list.len()
        invariant
            i <= list@.len(),
            vendor_spec(encoder) == Some(vendor),
            match best {
                Some(b) => {
                    &&& b < i
                    &&& list@[b as int].vendor_id == vendor
                    &&& forall|j: int|
                        0 <= j < i && (#[trigger] list@[j]).vendor_id == vendor ==> list@[j].dedicated_vram
                            <= list@[b as int].dedicated_vram
                    &&& forall|j: int|
                        b < j < i && (#[trigger] list@[j]).vendor_id == vendor ==> list@[j].dedicated_vram
                            < list@[b as int].dedicated_vram
                },
                None => forall|j: int| 0 <= j < i ==> (#[trigger] list@[j]).vendor_id != vendor,
            },
        decreases list@.len() - i,
    {
        if list[i].vendor_id == vendor {
            let better = match best {
                Some(b) => list[i].dedicated_vram >= list[b].dedicated_vram,
                None => true,
            };
            if better {
                best = Some(i);
            }
        }
        i = i + 1;
    }
    best
}

} // verus!
