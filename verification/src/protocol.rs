use vstd::prelude::*;

verus! {

/// Initialize the printer (ESC @)
pub const CMD_INIT: [u8; 2] = [0x1B, 0x40];

/// Request status (ESC i S)
pub const CMD_STATUS_REQUEST: [u8; 3] = [0x1B, 0x69, 0x53];

/// Enter raster graphics mode — standard printers
pub const CMD_RASTER_MODE_STANDARD: [u8; 4] = [0x1B, 0x69, 0x52, 0x01];

/// Enter raster graphics mode — PT-P700 / PT-P750W
pub const CMD_RASTER_MODE_P700: [u8; 4] = [0x1B, 0x69, 0x61, 0x01];

/// Enable PackBits compression
pub const CMD_COMPRESSION_PACKBITS: [u8; 2] = [0x4D, 0x02];

/// Empty raster line (tape advances one column without printing)
pub const CMD_EMPTY_RASTER_LINE: [u8; 1] = [0x5A];

/// Print and cut
pub const CMD_PRINT_CUT: [u8; 1] = [0x1A];

/// 32-byte status response from the printer
#[derive(Debug, Default, Clone, Copy)]
pub struct PrinterStatus {
    pub error: u16,
    pub media_width_mm: u8,
    pub media_type: u8,
    pub mode: u8,
    pub status_type: u8,
    pub phase_type: u8,
    pub tape_color: u8,
    pub text_color: u8,
}

/// A status reply starts with the bytes 0x80 0x20 'B'.
pub open spec fn status_header_ok(buf: Seq<u8>) -> bool {
    buf[0] == 0x80 && buf[1] == 0x20 && buf[2] == 0x42
}

/// The status that a 32-byte reply describes, if its header is valid.
pub open spec fn spec_status_from_bytes(buf: Seq<u8>) -> Option<PrinterStatus> {
    if status_header_ok(buf) {
        Some(
            PrinterStatus {
                error: (buf[8] + 256 * buf[9]) as u16,
                media_width_mm: buf[10],
                media_type: buf[11],
                mode: buf[15],
                status_type: buf[18],
                phase_type: buf[19],
                tape_color: buf[24],
                text_color: buf[25],
            },
        )
    } else {
        None
    }
}

/// Name of a tape colour code.
pub open spec fn tape_color_label(code: u8) -> Seq<char> {
    if code == 0x01 {
        "white"@
    } else if code == 0x02 {
        "other"@
    } else if code == 0x03 {
        "clear"@
    } else if code == 0x04 {
        "red"@
    } else if code == 0x05 {
        "blue"@
    } else if code == 0x06 {
        "yellow"@
    } else if code == 0x07 {
        "green"@
    } else if code == 0x08 {
        "black"@
    } else if code == 0x09 {
        "clear (white text)"@
    } else if code == 0x20 {
        "matte white"@
    } else if code == 0x21 {
        "matte clear"@
    } else if code == 0x22 {
        "matte silver"@
    } else if code == 0x23 {
        "satin gold"@
    } else if code == 0x24 {
        "satin silver"@
    } else if code == 0x30 {
        "blue (D)"@
    } else if code == 0x31 {
        "red (D)"@
    } else if code == 0x40 {
        "fluorescent orange"@
    } else if code == 0x41 {
        "fluorescent yellow"@
    } else if code == 0x50 {
        "berry (pink)"@
    } else if code == 0x51 {
        "light grey"@
    } else if code == 0x52 {
        "lime green"@
    } else if code == 0x60 {
        "yellow (F)"@
    } else if code == 0x61 {
        "pink (F)"@
    } else if code == 0x62 {
        "blue (F)"@
    } else if code == 0x70 {
        "white (heat shrink)"@
    } else if code == 0x90 {
        "white (flex. ID)"@
    } else if code == 0x91 {
        "yellow (flex. ID)"@
    } else if code == 0xf0 {
        "cleaning"@
    } else if code == 0xf1 {
        "stencil"@
    } else if code == 0xff {
        "incompatible"@
    } else {
        "unknown"@
    }
}

/// Name of a text colour code.
pub open spec fn text_color_label(code: u8) -> Seq<char> {
    if code == 0x01 {
        "white"@
    } else if code == 0x04 {
        "red"@
    } else if code == 0x05 {
        "blue"@
    } else if code == 0x08 {
        "black"@
    } else if code == 0x0a {
        "gold"@
    } else if code == 0x62 {
        "blue (F)"@
    } else if code == 0xf0 {
        "cleaning"@
    } else if code == 0xf1 {
        "stencil"@
    } else if code == 0xff {
        "incompatible"@
    } else {
        "unknown"@
    }
}

/// Name of a media type code.
pub open spec fn media_type_label(code: u8) -> Seq<char> {
    if code == 0x00 {
        "no media"@
    } else if code == 0x01 {
        "laminated tape"@
    } else if code == 0x03 {
        "non-laminated tape"@
    } else if code == 0x11 {
        "heat-shrink tube"@
    } else if code == 0xff {
        "incompatible"@
    } else {
        "unknown"@
    }
}

impl PrinterStatus {
    pub fn from_bytes(buf: &[u8; 32]) -> (r: Option<Self>)
        ensures
            r == spec_status_from_bytes(buf@),
    {
        // Validate magic header bytes
        if buf[0] != 0x80 || buf[1] != 0x20 || buf[2] != 0x42 {
            return None;
        }
        let lo = buf[8] as u16;
        let hi = buf[9] as u16;
        Some(
            Self {
                error: lo + 256 * hi,
                media_width_mm: buf[10],
                media_type: buf[11],
                mode: buf[15],
                status_type: buf[18],
                phase_type: buf[19],
                tape_color: buf[24],
                text_color: buf[25],
            },
        )
    }

    pub fn tape_color_name(&self) -> (r: &'static str)
        ensures
            r@ == tape_color_label(self.tape_color),
    {
        match self.tape_color {
            0x01 => "white",
            0x02 => "other",
            0x03 => "clear",
            0x04 => "red",
            0x05 => "blue",
            0x06 => "yellow",
            0x07 => "green",
            0x08 => "black",
            0x09 => "clear (white text)",
            0x20 => "matte white",
            0x21 => "matte clear",
            0x22 => "matte silver",
            0x23 => "satin gold",
            0x24 => "satin silver",
            0x30 => "blue (D)",
            0x31 => "red (D)",
            0x40 => "fluorescent orange",
            0x41 => "fluorescent yellow",
            0x50 => "berry (pink)",
            0x51 => "light grey",
            0x52 => "lime green",
            0x60 => "yellow (F)",
            0x61 => "pink (F)",
            0x62 => "blue (F)",
            0x70 => "white (heat shrink)",
            0x90 => "white (flex. ID)",
            0x91 => "yellow (flex. ID)",
            0xf0 => "cleaning",
            0xf1 => "stencil",
            0xff => "incompatible",
            _ => "unknown",
        }
    }

    pub fn text_color_name(&self) -> (r: &'static str)
        ensures
            r@ == text_color_label(self.text_color),
    {
        match self.text_color {
            0x01 => "white",
            0x04 => "red",
            0x05 => "blue",
            0x08 => "black",
            0x0a => "gold",
            0x62 => "blue (F)",
            0xf0 => "cleaning",
            0xf1 => "stencil",
            0xff => "incompatible",
            _ => "unknown",
        }
    }

    pub fn media_type_name(&self) -> (r: &'static str)
        ensures
            r@ == media_type_label(self.media_type),
    {
        match self.media_type {
            0x00 => "no media",
            0x01 => "laminated tape",
            0x03 => "non-laminated tape",
            0x11 => "heat-shrink tube",
            0xff => "incompatible",
            _ => "unknown",
        }
    }
}

} // verus!
