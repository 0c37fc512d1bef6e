use vstd::prelude::*;

use crate::error::PtlError;
use crate::protocol::PrinterStatus;

verus! {

/// Capability flags of a printer model.
#[derive(Debug, Clone, Copy, PartialEq, Eq, Structural)]
pub struct DeviceFlags {
    pub bits: u32,
}

/// Uses "fake" PackBits framing for raster lines.
pub const FLAG_RASTER_PACKBITS: u32 = 1;

/// Requires the PT-P700/P750W special raster-mode init sequence.
pub const FLAG_P700_INIT: u32 = 2;

/// Device is in P-Lite USB mode (unsupported).
pub const FLAG_PLITE: u32 = 4;

impl DeviceFlags {
    pub open spec fn has(self, flag: u32) -> bool {
        self.bits & flag == flag
    }

    pub fn empty() -> (r: Self)
        ensures
            r.bits == 0,
    {
        DeviceFlags { bits: 0 }
    }

    pub fn raster_packbits() -> (r: Self)
        ensures
            r.bits == FLAG_RASTER_PACKBITS,
    {
        DeviceFlags { bits: FLAG_RASTER_PACKBITS }
    }

    pub fn p700_init() -> (r: Self)
        ensures
            r.bits == FLAG_P700_INIT,
    {
        DeviceFlags { bits: FLAG_P700_INIT }
    }

    pub fn plite() -> (r: Self)
        ensures
            r.bits == FLAG_PLITE,
    {
        DeviceFlags { bits: FLAG_PLITE }
    }

    /// The flags set in either operand.
    pub fn union(self, other: Self) -> (r: Self)
        ensures
            r.bits == self.bits | other.bits,
    {
        DeviceFlags { bits: self.bits | other.bits }
    }

    /// Whether every flag of `other` is set in `self`.
    pub fn contains(&self, other: Self) -> (r: bool)
        ensures
            r == (self.bits & other.bits == other.bits),
    {
        self.bits & other.bits == other.bits
    }
}

#[derive(Debug, Clone, Copy)]
pub struct DeviceInfo {
    pub vid: u16,
    pub pid: u16,
    pub name: &'static str,
    /// Maximum printable pixels across the tape (always 128 for current models)
    pub max_px: u32,
    pub dpi: u32,
    pub flags: DeviceFlags,
    /// Blank raster lines to prepend before label content (some models need this)
    pub pre_print_padding_px: u32,
}

/// The supported printer models, in lookup order.
pub open spec fn device_table() -> Seq<DeviceInfo> {
    seq![
        DeviceInfo {
            vid: 0x04f9,
            pid: 0x2007,
            name: "PT-2420PC",
            max_px: 128,
            dpi: 180,
            flags: DeviceFlags { bits: 1 },
            pre_print_padding_px: 0,
        },
        DeviceInfo {
            vid: 0x04f9,
            pid: 0x202c,
            name: "PT-1230PC",
            max_px: 128,
            dpi: 180,
            flags: DeviceFlags { bits: 0 },
            pre_print_padding_px: 0,
        },
        DeviceInfo {
            vid: 0x04f9,
            pid: 0x2030,
            name: "PT-1230PC (PLite)",
            max_px: 128,
            dpi: 180,
            flags: DeviceFlags { bits: 4 },
            pre_print_padding_px: 0,
        },
        DeviceInfo {
            vid: 0x04f9,
            pid: 0x202d,
            name: "PT-2430PC",
            max_px: 128,
            dpi: 180,
            flags: DeviceFlags { bits: 0 },
            pre_print_padding_px: 0,
        },
        DeviceInfo {
            vid: 0x04f9,
            pid: 0x2031,
            name: "PT-2430PC (PLite)",
            max_px: 128,
            dpi: 180,
            flags: DeviceFlags { bits: 4 },
            pre_print_padding_px: 0,
        },
        DeviceInfo {
            vid: 0x04f9,
            pid: 0x2041,
            name: "PT-2730",
            max_px: 128,
            dpi: 180,
            flags: DeviceFlags { bits: 0 },
            pre_print_padding_px: 48,
        },
        DeviceInfo {
            vid: 0x04f9,
            pid: 0x205f,
            name: "PT-E500",
            max_px: 128,
            dpi: 180,
            flags: DeviceFlags { bits: 1 },
            pre_print_padding_px: 48,
        },
        DeviceInfo {
            vid: 0x04f9,
            pid: 0x2061,
            name: "PT-P700",
            max_px: 128,
            dpi: 180,
            flags: DeviceFlags { bits: 3 },
            pre_print_padding_px: 0,
        },
        DeviceInfo {
            vid: 0x04f9,
            pid: 0x2064,
            name: "PT-P700 (PLite)",
            max_px: 128,
            dpi: 180,
            flags: DeviceFlags { bits: 4 },
            pre_print_padding_px: 0,
        },
        DeviceInfo {
            vid: 0x04f9,
            pid: 0x2062,
            name: "PT-P750W",
            max_px: 128,
            dpi: 180,
            flags: DeviceFlags { bits: 3 },
            pre_print_padding_px: 0,
        },
        DeviceInfo {
            vid: 0x04f9,
            pid: 0x2065,
            name: "PT-P750W (PLite)",
            max_px: 128,
            dpi: 180,
            flags: DeviceFlags { bits: 4 },
            pre_print_padding_px: 0,
        },
        DeviceInfo {
            vid: 0x04f9,
            pid: 0x2073,
            name: "PT-D450",
            max_px: 128,
            dpi: 180,
            flags: DeviceFlags { bits: 1 },
            pre_print_padding_px: 0,
        },
        DeviceInfo {
            vid: 0x04f9,
            pid: 0x2074,
            name: "PT-D600",
            max_px: 128,
            dpi: 180,
            flags: DeviceFlags { bits: 1 },
            pre_print_padding_px: 0,
        },
    ]
}

/// The supported printer models, in lookup order.
pub fn devices() -> (v: Vec<DeviceInfo>)
    ensures
        v@ == device_table(),
{
    let mut v: Vec<DeviceInfo> = Vec::new();
    v.push(
        DeviceInfo {
            vid: 0x04f9,
            pid: 0x2007,
            name: "PT-2420PC",
            max_px: 128,
            dpi: 180,
            flags: DeviceFlags { bits: 1 },
            pre_print_padding_px: 0,
        },
    );
    v.push(
        DeviceInfo {
            vid: 0x04f9,
            pid: 0x202c,
            name: "PT-1230PC",
            max_px: 128,
            dpi: 180,
            flags: DeviceFlags { bits: 0 },
            pre_print_padding_px: 0,
        },
    );
    v.push(
        DeviceInfo {
            vid: 0x04f9,
            pid: 0x2030,
            name: "PT-1230PC (PLite)",
            max_px: 128,
            dpi: 180,
            flags: DeviceFlags { bits: 4 },
            pre_print_padding_px: 0,
        },
    );
    v.push(
        DeviceInfo {
            vid: 0x04f9,
            pid: 0x202d,
            name: "PT-2430PC",
            max_px: 128,
            dpi: 180,
            flags: DeviceFlags { bits: 0 },
            pre_print_padding_px: 0,
        },
    );
    v.push(
        DeviceInfo {
            vid: 0x04f9,
            pid: 0x2031,
            name: "PT-2430PC (PLite)",
            max_px: 128,
            dpi: 180,
            flags: DeviceFlags { bits: 4 },
            pre_print_padding_px: 0,
        },
    );
    v.push(
        DeviceInfo {
            vid: 0x04f9,
            pid: 0x2041,
            name: "PT-2730",
            max_px: 128,
            dpi: 180,
            flags: DeviceFlags { bits: 0 },
            pre_print_padding_px: 48,
        },
    );
    v.push(
        DeviceInfo {
            vid: 0x04f9,
            pid: 0x205f,
            name: "PT-E500",
            max_px: 128,
            dpi: 180,
            flags: DeviceFlags { bits: 1 },
            pre_print_padding_px: 48,
        },
    );
    v.push(
        DeviceInfo {
            vid: 0x04f9,
            pid: 0x2061,
            name: "PT-P700",
            max_px: 128,
            dpi: 180,
            flags: DeviceFlags { bits: 3 },
            pre_print_padding_px: 0,
        },
    );
    v.push(
        DeviceInfo {
            vid: 0x04f9,
            pid: 0x2064,
            name: "PT-P700 (PLite)",
            max_px: 128,
            dpi: 180,
            flags: DeviceFlags { bits: 4 },
            pre_print_padding_px: 0,
        },
    );
    v.push(
        DeviceInfo {
            vid: 0x04f9,
            pid: 0x2062,
            name: "PT-P750W",
            max_px: 128,
            dpi: 180,
            flags: DeviceFlags { bits: 3 },
            pre_print_padding_px: 0,
        },
    );
    v.push(
        DeviceInfo {
            vid: 0x04f9,
            pid: 0x2065,
            name: "PT-P750W (PLite)",
            max_px: 128,
            dpi: 180,
            flags: DeviceFlags { bits: 4 },
            pre_print_padding_px: 0,
        },
    );
    v.push(
        DeviceInfo {
            vid: 0x04f9,
            pid: 0x2073,
            name: "PT-D450",
            max_px: 128,
            dpi: 180,
            flags: DeviceFlags { bits: 1 },
            pre_print_padding_px: 0,
        },
    );
    v.push(
        DeviceInfo {
            vid: 0x04f9,
            pid: 0x2074,
            name: "PT-D600",
            max_px: 128,
            dpi: 180,
            flags: DeviceFlags { bits: 1 },
            pre_print_padding_px: 0,
        },
    );
    assert(v@ =~= device_table());
    v
}

/// Whether table entry `d` describes the device `vid:pid`.
pub open spec fn matches_id(d: DeviceInfo, vid: u16, pid: u16) -> bool {
    d.vid == vid && d.pid == pid
}

/// The first table entry for `vid:pid`, if any.
#[verifier::opaque]
pub open spec fn spec_find_device(vid: u16, pid: u16) -> Option<DeviceInfo> {
    let t = device_table();
    if exists|i: int| 0 <= i < t.len() && matches_id(#[trigger] t[i], vid, pid) {
        let i = choose|i: int|
            0 <= i < t.len() && matches_id(#[trigger] t[i], vid, pid) && forall|j: int|
                0 <= j < i ==> !matches_id(#[trigger] t[j], vid, pid);
        Some(t[i])
    } else {
        None
    }
}

/// Pixel width of a tape of the given width in millimetres, if known.
pub open spec fn spec_tape_mm_to_px(mm: u8) -> Option<u32> {
    if mm == 6 {
        Some(32)
    } else if mm == 9 {
        Some(52)
    } else if mm == 12 {
        Some(76)
    } else if mm == 18 {
        Some(120)
    } else if mm == 24 {
        Some(128)
    } else if mm == 36 {
        Some(192)
    } else {
        None
    }
}

/// Convert tape width in mm to pixel width
pub fn tape_mm_to_px(mm: u8) -> (px: Option<u32>)
    ensures
        px == spec_tape_mm_to_px(mm),
{
    match mm {
        6 => Some(32),
        9 => Some(52),
        12 => Some(76),
        18 => Some(120),
        24 => Some(128),
        36 => Some(192),
        _ => None,
    }
}

/// Find device info by VID/PID
pub fn find_device(vid: u16, pid: u16) -> (r: Option<DeviceInfo>)
    ensures
        r == spec_find_device(vid, pid),
        r matches Some(d) ==> d.vid == vid && d.pid == pid,
{
    let table = devices();
    let mut i: usize = 0;
    while i < table.len()
        invariant
            0 <= i <= table@.len(),
            table@ == device_table(),
            forall|j: int| 0 <= j < i ==> !matches_id(#[trigger] table@[j], vid, pid),
        decreases table@.len() - i,
    {
        if table[i].vid == vid && table[i].pid == pid {
            proof {
                reveal(spec_find_device);
                let t = device_table();
                assert(matches_id(t[i as int], vid, pid));
                let k = choose|k: int|
                    0 <= k < t.len() && matches_id(#[trigger] t[k], vid, pid) && forall|j: int|
                        0 <= j < k ==> !matches_id(#[trigger] t[j], vid, pid);
                if k < i {
                    assert(!matches_id(t[k], vid, pid));
                }
                if k > i {
                    assert(!matches_id(t[i as int], vid, pid));
                }
                assert(k == i);
            }
            return Some(table[i]);
        }
        i = i + 1;
    }
    proof {
        reveal(spec_find_device);
    }
    None
}

} // verus!
