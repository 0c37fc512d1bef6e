use vstd::prelude::*;

use crate::devices::{
    find_device, spec_find_device, spec_tape_mm_to_px, tape_mm_to_px, DeviceFlags, DeviceInfo,
    FLAG_P700_INIT, FLAG_PLITE, FLAG_RASTER_PACKBITS,
};
use crate::error::PtlError;
use crate::protocol::{
    spec_status_from_bytes, PrinterStatus, CMD_COMPRESSION_PACKBITS, CMD_PRINT_CUT,
    CMD_RASTER_MODE_P700, CMD_RASTER_MODE_STANDARD,
};
use crate::raster::{bitmap_to_raster_lines, pack_column, raster_column, RasterLine};

verus! {

/// Largest payload of one USB bulk transfer.
pub const USB_CHUNK: usize = 128;

/// Status reads attempted before giving up.
pub const STATUS_RETRIES: u32 = 10;

/// Whether the USB id `id` belongs to a supported model in P-Lite mode.
pub open spec fn is_plite_id(id: (u16, u16)) -> bool {
    spec_find_device(id.0, id.1) matches Some(d) && d.flags.has(FLAG_PLITE)
}

/// Whether the USB id `id` is a supported model that `preferred` accepts.
pub open spec fn is_wanted_id(id: (u16, u16), preferred: Option<(u16, u16)>) -> bool {
    &&& spec_find_device(id.0, id.1) is Some
    &&& (preferred matches Some(p) ==> id == p)
}

pub open spec fn any_plite(found: Seq<(u16, u16)>) -> bool {
    exists|i: int| 0 <= i < found.len() && is_plite_id(#[trigger] found[i])
}

pub open spec fn any_wanted(found: Seq<(u16, u16)>, preferred: Option<(u16, u16)>) -> bool {
    exists|i: int| 0 <= i < found.len() && is_wanted_id(#[trigger] found[i], preferred)
}

/// Choose the printer to open among the USB ids `found` (in bus order).
///
/// Any supported model in P-Lite mode makes the whole search fail; otherwise
/// the first supported device that matches `preferred` (or the first
/// supported device when there is no preference) is chosen, with its index
/// in `found` and its table entry.
pub fn select_device(found: &[(u16, u16)], preferred: Option<(u16, u16)>) -> (r: Result<
    (usize, DeviceInfo),
    PtlError,
>)
    ensures
        any_plite(found@) ==> r == Err::<(usize, DeviceInfo), PtlError>(PtlError::PliteMode),
        !any_plite(found@) && !any_wanted(found@, preferred) ==> r == Err::<
            (usize, DeviceInfo),
            PtlError,
        >(PtlError::NoPrinterFound),
        !any_plite(found@) && any_wanted(found@, preferred) ==> (r matches Ok((i, info)) && {
            &&& i < found@.len()
            &&& is_wanted_id(found@[i as int], preferred)
            &&& forall|j: int| 0 <= j < i ==> !is_wanted_id(#[trigger] found@[j], preferred)
            &&& spec_find_device(found@[i as int].0, found@[i as int].1) == Some(info)
        }),
{
    let mut chosen: Option<(usize, DeviceInfo)> = None;
    let mut k: usize = 0;
    while k < found.len()
        invariant
            0 <= k <= found@.len(),
            forall|j: int| 0 <= j < k ==> !is_plite_id(#[trigger] found@[j]),
            match chosen {
                None => forall|j: int| 0 <= j < k ==> !is_wanted_id(#[trigger] found@[j], preferred),
                Some((i, info)) => {
                    &&& i < k
                    &&& is_wanted_id(found@[i as int], preferred)
                    &&& forall|j: int| 0 <= j < i ==> !is_wanted_id(#[trigger] found@[j], preferred)
                    &&& spec_find_device(found@[i as int].0, found@[i as int].1) == Some(info)
                },
            },
        decreases found@.len() - k,
    {
        let (vid, pid) = found[k];
        if let Some(info) = find_device(vid, pid) {
            if info.flags.contains(DeviceFlags::plite()) {
                assert(is_plite_id(found@[k as int]));
                return Err(PtlError::PliteMode);
            }
            if chosen.is_none() {
                let take = match preferred {
                    Some((pv, pp)) => vid == pv && pid == pp,
                    None => true,
                };
                if take {
                    chosen = Some((k, info));
                }
            }
        }
        k = k + 1;
    }
    match chosen {
        Some(c) => Ok(c),
        None => Err(PtlError::NoPrinterFound),
    }
}

/// The tape width in pixels that a printer status reports.
pub fn tape_width_for(status: &PrinterStatus) -> (r: Result<u32, PtlError>)
    ensures
        match spec_tape_mm_to_px(status.media_width_mm) {
            Some(px) => r == Ok::<u32, PtlError>(px),
            None => r == Err::<u32, PtlError>(PtlError::UnknownTapeWidth(status.media_width_mm)),
        },
{
    match tape_mm_to_px(status.media_width_mm) {
        Some(px) => Ok(px),
        None => Err(PtlError::UnknownTapeWidth(status.media_width_mm)),
    }
}

/// What one attempt to read the printer status returned.
pub enum StatusRead {
    /// `len` bytes arrived in `buf`.
    Bytes { len: usize, buf: [u8; 32] },
    /// The transfer failed.
    Failed,
}

/// What to do after a status read.
#[derive(Debug)]
pub enum StatusPoll {
    /// A valid status arrived.
    Done(PrinterStatus),
    /// Wait and read again; this is the number of the next attempt.
    Retry(u32),
    /// Every attempt failed: report a timeout.
    TimedOut,
}

/// The status carried by a read, if it is a full reply with a valid header.
pub open spec fn read_status_value(read: StatusRead) -> Option<PrinterStatus> {
    match read {
        StatusRead::Bytes { len, buf } => if len == 32 {
            spec_status_from_bytes(buf@)
        } else {
            None
        },
        StatusRead::Failed => None,
    }
}

/// Decide what follows status read number `attempt` (counting from 0).
pub fn next_status_step(attempt: u32, read: &StatusRead) -> (r: StatusPoll)
    requires
        attempt < STATUS_RETRIES,
    ensures
        match read_status_value(*read) {
            Some(s) => r == StatusPoll::Done(s),
            None => if attempt + 1 < STATUS_RETRIES {
                r == StatusPoll::Retry((attempt + 1) as u32)
            } else {
                r == StatusPoll::TimedOut
            },
        },
{
    if let StatusRead::Bytes { len, buf } = read {
        if *len == 32 {
            if let Some(status) = PrinterStatus::from_bytes(buf) {
                return StatusPoll::Done(status);
            }
        }
    }
    if attempt + 1 < STATUS_RETRIES {
        StatusPoll::Retry(attempt + 1)
    } else {
        StatusPoll::TimedOut
    }
}

/// The `i`-th USB transfer of a message: at most `USB_CHUNK` bytes.
pub open spec fn chunk_at(data: Seq<u8>, i: int) -> Seq<u8> {
    let start = i * USB_CHUNK;
    let end = if start + USB_CHUNK <= data.len() {
        start + USB_CHUNK
    } else {
        data.len() as int
    };
    data.subrange(start, end)
}

/// Number of USB transfers a message of `len` bytes needs.
pub open spec fn chunk_count(len: nat) -> nat {
    ((len + USB_CHUNK - 1) / USB_CHUNK as int) as nat
}

/// Split a message into the USB transfers that carry it, in order.
pub fn chunk_message(data: &[u8]) -> (chunks: Vec<Vec<u8>>)
    ensures
        chunks@.len() == chunk_count(data@.len()),
        forall|i: int| 0 <= i < chunks@.len() ==> (#[trigger] chunks@[i])@ == chunk_at(data@, i),
{
    let n = data.len();
    let mut chunks: Vec<Vec<u8>> = Vec::new();
    let mut start: usize = 0;
    while start < n
        invariant
            n == data@.len(),
            start <= n,
            start == n || start == chunks@.len() * USB_CHUNK,
            chunks@.len() == chunk_count(start as nat),
            forall|i: int| 0 <= i < chunks@.len() ==> (#[trigger] chunks@[i])@ == chunk_at(data@, i),
        decreases n - start,
    {
        let end = if n - start >= USB_CHUNK {
            start + USB_CHUNK
        } else {
            n
        };
        let mut chunk: Vec<u8> = Vec::new();
        let mut j = start;
        while j < end
            invariant
                start <= j <= end,
                end <= n,
                n == data@.len(),
                chunk@ == data@.subrange(start as int, j as int),
            decreases end - j,
        {
            chunk.push(data[j]);
            assert(data@.subrange(start as int, j + 1) =~= data@.subrange(start as int, j as int).push(
                data@[j as int],
            ));
            j = j + 1;
        }
        let ghost k = chunks@.len() as int;
        assert(chunk@ == chunk_at(data@, k));
        chunks.push(chunk);
        start = end;
    }
    chunks
}

/// The command that selects raster mode on a model.
pub open spec fn raster_mode_command(info: DeviceInfo) -> Seq<u8> {
    if info.flags.has(FLAG_P700_INIT) {
        seq![0x1Bu8, 0x69u8, 0x61u8, 0x01u8]
    } else {
        seq![0x1Bu8, 0x69u8, 0x52u8, 0x01u8]
    }
}

/// The raster command that carries one column's bytes.
pub open spec fn raster_line_command(packbits: bool, bytes: Seq<u8>) -> Seq<u8> {
    if packbits {
        seq![0x47u8, 17u8, 0u8, 15u8] + bytes
    } else {
        seq![0x47u8, 16u8, 0u8] + bytes
    }
}

/// The messages that print a bitmap on a model, in order: raster mode,
/// PackBits mode where the model uses it, the model's leading blank lines,
/// one raster command per bitmap column, then print-and-cut.
pub open spec fn spec_print_job(info: DeviceInfo, pixels: Seq<u8>, width: u32, height: u32) -> Seq<
    Seq<u8>,
> {
    let packbits = info.flags.has(FLAG_RASTER_PACKBITS);
    let setup = if packbits {
        seq![raster_mode_command(info), seq![0x4Du8, 0x02u8]]
    } else {
        seq![raster_mode_command(info)]
    };
    setup + Seq::new(info.pre_print_padding_px as nat, |i: int| seq![0x5Au8]) + Seq::new(
        width as nat,
        |c: int|
            raster_line_command(
                packbits,
                pack_column(raster_column(pixels, width, height, info.max_px, c)),
            ),
    ) + seq![seq![0x1Au8]]
}

/// The byte contents of a list of messages.
pub open spec fn message_views(msgs: Seq<Vec<u8>>) -> Seq<Seq<u8>> {
    msgs.map_values(|m: Vec<u8>| m@)
}

proof fn lemma_message_views_push(msgs: Seq<Vec<u8>>, m: Vec<u8>)
    ensures
        message_views(msgs.push(m)) == message_views(msgs).push(m@),
{
    assert(message_views(msgs.push(m)) =~= message_views(msgs).push(m@));
}

/// A vector holding `bytes`.
fn bytes_vec(bytes: &[u8]) -> (v: Vec<u8>)
    ensures
        v@ == bytes@,
{
    let mut v: Vec<u8> = Vec::new();
    let mut i: usize = 0;
    while i < bytes.len()
        invariant
            0 <= i <= bytes@.len(),
            v@ == bytes@.take(i as int),
        decreases bytes@.len() - i,
    {
        v.push(bytes[i]);
        assert(bytes@.take(i + 1) =~= bytes@.take(i as int).push(bytes@[i as int]));
        i = i + 1;
    }
    assert(bytes@.take(bytes@.len() as int) =~= bytes@);
    v
}

/// The messages to send to print a pre-composed label bitmap and cut the tape.
pub fn print_job(info: &DeviceInfo, pixels: &[u8], width: u32, height: u32) -> (msgs: Vec<Vec<u8>>)
    requires
        pixels@.len() >= width * height,
    ensures
        message_views(msgs@) == spec_print_job(*info, pixels@, width, height),
{
    let use_packbits = info.flags.contains(DeviceFlags { bits: FLAG_RASTER_PACKBITS });
    let use_p700_init = info.flags.contains(DeviceFlags { bits: FLAG_P700_INIT });
    let mut msgs: Vec<Vec<u8>> = Vec::new();
    // Select raster mode
    if use_p700_init {
        msgs.push(bytes_vec(&CMD_RASTER_MODE_P700));
    } else {
        msgs.push(bytes_vec(&CMD_RASTER_MODE_STANDARD));
    }
    if use_packbits {
        msgs.push(bytes_vec(&CMD_COMPRESSION_PACKBITS));
    }
    let ghost setup = message_views(msgs@);
    // Leading blank lines for models that need them
    let mut k: u32 = 0;
    while k < info.pre_print_padding_px
        invariant
            0 <= k <= info.pre_print_padding_px,
            message_views(msgs@) == setup + Seq::new(k as nat, |i: int| seq![0x5Au8]),
        decreases info.pre_print_padding_px - k,
    {
        let ghost before = msgs@;
        let blank = bytes_vec(RasterLine::encode_empty());
        msgs.push(blank);
        proof {
            lemma_message_views_push(before, blank);
        }
        assert(message_views(msgs@) =~= setup + Seq::new(
            (k + 1) as nat,
            |i: int| seq![0x5Au8],
        ));
        k = k + 1;
    }
    let ghost padded = message_views(msgs@);
    // Convert and send raster lines
    let lines = bitmap_to_raster_lines(pixels, width, height, info.max_px);
    let ghost cols = Seq::new(
        width as nat,
        |c: int|
            raster_line_command(
                use_packbits,
                pack_column(raster_column(pixels@, width, height, info.max_px, c)),
            ),
    );
    let mut c: usize = 0;
    while c < lines.len()
        invariant
            0 <= c <= lines@.len(),
            lines@.len() == width,
            forall|j: int|
                0 <= j < width ==> (#[trigger] lines@[j]).pixels() == raster_column(
                    pixels@,
                    width,
                    height,
                    info.max_px,
                    j,
                ),
            cols == Seq::new(
                width as nat,
                |j: int|
                    raster_line_command(
                        use_packbits,
                        pack_column(raster_column(pixels@, width, height, info.max_px, j)),
                    ),
            ),
            message_views(msgs@) == padded + cols.take(c as int),
        decreases lines@.len() - c,
    {
        let line = &lines[c];
        proof {
            line.lemma_bytes_from_pixels();
        }
        let encoded = if use_packbits {
            line.encode_packbits()
        } else {
            line.encode_standard()
        };
        assert(encoded@ == cols[c as int]);
        let ghost before = msgs@;
        msgs.push(encoded);
        proof {
            lemma_message_views_push(before, encoded);
        }
        assert(cols.take(c + 1) =~= cols.take(c as int).push(cols[c as int]));
        assert(message_views(msgs@) =~= padded + cols.take(c + 1));
        c = c + 1;
    }
    // Print and cut
    let ghost body = message_views(msgs@);
    let ghost before = msgs@;
    let cut = bytes_vec(&CMD_PRINT_CUT);
    msgs.push(cut);
    proof {
        lemma_message_views_push(before, cut);
        assert(cut@ =~= seq![0x1Au8]);
        assert(cols.take(width as int) =~= cols);
        assert(setup =~= (if info.flags.has(FLAG_RASTER_PACKBITS) {
            seq![raster_mode_command(*info), seq![0x4Du8, 0x02u8]]
        } else {
            seq![raster_mode_command(*info)]
        }));
        assert(message_views(msgs@) =~= body.push(seq![0x1Au8]));
    }
    msgs
}

} // verus!
