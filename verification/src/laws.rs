use vstd::prelude::*;

use crate::bitmap::{hcat, lemma_row_bounds, lemma_rows_ordered, luma_to_ink};
use crate::editor::{key_step, AppMode, EditorModel, Key, KeyAction, EDITOR_LINES};
use crate::session::{chunk_at, chunk_count, raster_mode_command, spec_print_job, USB_CHUNK};
use crate::devices::{device_table, matches_id, spec_find_device, DeviceInfo};

verus! {

/// Appending bitmaps is associative: `(a + b) + c` and `a + (b + c)` have
/// the same rows.
pub proof fn law_append_associative(a: Seq<Seq<u8>>, b: Seq<Seq<u8>>, c: Seq<Seq<u8>>)
    requires
        a.len() == b.len(),
        b.len() == c.len(),
    ensures
        hcat(hcat(a, b), c) == hcat(a, hcat(b, c)),
{
    assert forall|y: int| 0 <= y < a.len() implies #[trigger] hcat(hcat(a, b), c)[y] == hcat(
        a,
        hcat(b, c),
    )[y] by {
        assert(hcat(hcat(a, b), c)[y] =~= hcat(a, hcat(b, c))[y]);
    }
    assert(hcat(hcat(a, b), c) =~= hcat(a, hcat(b, c)));
}

/// Reading a pixel back after inking it gives ink, and the other pixels keep
/// their values (`set_pixel` followed by `get_pixel`).
pub proof fn law_set_then_get(pixels: Seq<u8>, width: u32, height: u32, x: u32, y: u32, qx: u32, qy: u32)
    requires
        pixels.len() == width * height,
        x < width,
        y < height,
        qx < width,
        qy < height,
    ensures
        pixels.update(y * width + x, 255)[y * width + x] == 255,
        (qx != x || qy != y) ==> pixels.update(y * width + x, 255)[qy * width + qx] == pixels[qy
            * width + qx],
{
    lemma_row_bounds(y as int, width as int, height as int);
    lemma_row_bounds(qy as int, width as int, height as int);
    if qy < y {
        lemma_rows_ordered(qy as int, y as int, width as int);
    } else if y < qy {
        lemma_rows_ordered(y as int, qy as int, width as int);
    }
}

/// Writing a bitmap as grayscale and thresholding it again gives the bitmap
/// back, for bitmaps whose pixels are white (0) or ink (255).
pub proof fn law_luma_round_trip(pixels: Seq<u8>)
    requires
        forall|i: int| 0 <= i < pixels.len() ==> #[trigger] pixels[i] == 0 || pixels[i] == 255,
    ensures
        Seq::new(pixels.len(), |i: int| luma_to_ink((255 - pixels[i]) as u8)) == pixels,
{
    assert(Seq::new(pixels.len(), |i: int| luma_to_ink((255 - pixels[i]) as u8)) =~= pixels);
}

/// The USB transfers of a message carry the message: joined in order they
/// give it back, and none is empty or longer than `USB_CHUNK`.
pub proof fn law_chunks_rejoin(data: Seq<u8>)
    ensures
        Seq::new(chunk_count(data.len()), |i: int| chunk_at(data, i)).flatten() == data,
        forall|i: int|
            0 <= i < chunk_count(data.len()) ==> 0 < (#[trigger] chunk_at(data, i)).len() <= USB_CHUNK,
    decreases data.len(),
{
    let n = chunk_count(data.len());
    let chunks = Seq::new(n, |i: int| chunk_at(data, i));
    if data.len() == 0 {
        assert(n == 0);
        assert(chunks =~= Seq::<Seq<u8>>::empty());
    } else {
        assert(n >= 1);
        let first = chunk_at(data, 0);
        let rest = data.subrange(first.len() as int, data.len() as int);
        law_chunks_rejoin(rest);
        let m = chunk_count(rest.len());
        let rest_chunks = Seq::new(m, |i: int| chunk_at(rest, i));
        assert(n == m + 1);
        assert forall|i: int| 0 <= i < m implies #[trigger] rest_chunks[i] == chunks[i + 1] by {
            assert(chunk_at(rest, i) =~= chunk_at(data, i + 1));
        }
        assert(chunks.drop_first() =~= rest_chunks);
        assert(chunks.flatten() == chunks[0] + chunks.drop_first().flatten());
        assert(data =~= first + rest);
        assert forall|i: int| 0 <= i < n implies 0 < (#[trigger] chunk_at(data, i)).len()
            <= USB_CHUNK by {
            if i > 0 {
                assert(chunk_at(rest, i - 1) =~= chunk_at(data, i));
            }
        }
    }
}

/// A print job selects the model's raster mode first and prints and cuts
/// last, with one raster command per bitmap column in between (after the
/// setup commands and the model's blank lines).
pub proof fn law_print_job_frame(info: DeviceInfo, pixels: Seq<u8>, width: u32, height: u32)
    ensures
        spec_print_job(info, pixels, width, height)[0] == raster_mode_command(info),
        spec_print_job(info, pixels, width, height).last() == seq![0x1Au8],
        spec_print_job(info, pixels, width, height).len() == width + info.pre_print_padding_px
            + if info.flags.bits & 1 == 1 {
            3int
        } else {
            2int
        },
{
}

/// Typing a character into the focused line and then pressing Backspace
/// leaves the text as it was.
pub proof fn law_type_then_erase(m: EditorModel, c: char, control_only: bool)
    requires
        m.mode == AppMode::Editing,
        m.focused < EDITOR_LINES,
        m.lines.len() == EDITOR_LINES,
        c != 'q',
        c != 'p',
        !(c == 'c' && control_only),
    ensures
        key_step(key_step(m, Key::Char { c, control_only }).0, Key::Backspace).0.lines == m.lines,
{
    let m1 = key_step(m, Key::Char { c, control_only }).0;
    assert(m1.lines[m.focused as int] == m.lines[m.focused as int].push(c));
    assert(m1.lines[m.focused as int].drop_last() =~= m.lines[m.focused as int]);
    assert(key_step(m1, Key::Backspace).0.lines =~= m.lines);
}

/// Four presses of Tab bring the focus back to the same line.
pub proof fn law_tab_cycles(m: EditorModel)
    requires
        m.mode == AppMode::Editing,
        m.focused < EDITOR_LINES,
    ensures
        key_step(
            key_step(key_step(key_step(m, Key::Tab).0, Key::Tab).0, Key::Tab).0,
            Key::Tab,
        ).0.focused == m.focused,
{
}

/// Shift-Tab moves the focus to the previous line, and on the first line it
/// stays there; it changes neither the text nor the mode. Tab followed by
/// Shift-Tab gives the focus back to the line it started on, except on the
/// last line (where Tab wraps round to the first), and Shift-Tab followed by
/// Tab does so except on the first line.
pub proof fn law_backtab_steps_back(m: EditorModel)
    requires
        m.mode == AppMode::Editing,
        m.focused < EDITOR_LINES,
    ensures
        m.focused > 0 ==> key_step(m, Key::BackTab).0.focused + 1 == m.focused,
        m.focused == 0 ==> key_step(m, Key::BackTab).0.focused == 0,
        key_step(m, Key::BackTab).0.lines == m.lines,
        key_step(m, Key::BackTab).0.mode == AppMode::Editing,
        key_step(m, Key::BackTab).1 == KeyAction::Nothing,
        m.focused + 1 < EDITOR_LINES ==> key_step(key_step(m, Key::Tab).0, Key::BackTab).0.focused
            == m.focused,
        m.focused > 0 ==> key_step(key_step(m, Key::BackTab).0, Key::Tab).0.focused == m.focused,
{
}

/// What the model facts of a looked-up printer are, by product id.
spec fn original_model(d: DeviceInfo) -> bool {
    let pid = d.pid;
    let packbits = pid == 0x2007 || pid == 0x205f || pid == 0x2061 || pid == 0x2062 || pid
        == 0x2073 || pid == 0x2074;
    let p700_init = pid == 0x2061 || pid == 0x2062;
    let plite = pid == 0x2030 || pid == 0x2031 || pid == 0x2064 || pid == 0x2065;
    &&& d.vid == 0x04f9
    &&& d.max_px == 128
    &&& d.dpi == 180
    &&& d.flags.bits == (if packbits { 1u32 } else { 0u32 }) + (if p700_init { 2u32 } else { 0u32 })
        + (if plite { 4u32 } else { 0u32 })
    &&& d.pre_print_padding_px == (if pid == 0x2041 || pid == 0x205f { 48u32 } else { 0u32 })
    &&& pid == 0x2007 ==> d.name@ == "PT-2420PC"@
    &&& pid == 0x202c ==> d.name@ == "PT-1230PC"@
    &&& pid == 0x2030 ==> d.name@ == "PT-1230PC (PLite)"@
    &&& pid == 0x202d ==> d.name@ == "PT-2430PC"@
    &&& pid == 0x2031 ==> d.name@ == "PT-2430PC (PLite)"@
    &&& pid == 0x2041 ==> d.name@ == "PT-2730"@
    &&& pid == 0x205f ==> d.name@ == "PT-E500"@
    &&& pid == 0x2061 ==> d.name@ == "PT-P700"@
    &&& pid == 0x2064 ==> d.name@ == "PT-P700 (PLite)"@
    &&& pid == 0x2062 ==> d.name@ == "PT-P750W"@
    &&& pid == 0x2065 ==> d.name@ == "PT-P750W (PLite)"@
    &&& pid == 0x2073 ==> d.name@ == "PT-D450"@
    &&& pid == 0x2074 ==> d.name@ == "PT-D600"@
}

/// Looking up a USB id finds a printer exactly for Brother's vendor id and
/// the thirteen supported product ids, and the printer found has that id,
/// 128 pixels across the head at 180 dpi, and its model's name, flags and
/// leading blank lines: PackBits framing for the PT-2420PC, PT-E500,
/// PT-P700, PT-P750W, PT-D450 and PT-D600; the P700 start-up sequence for the
/// PT-P700 and PT-P750W; the P-Lite flag for the four P-Lite ids and no
/// other flag; 48 blank lines for the PT-2730 and PT-E500 and none for the
/// others.
pub proof fn law_supported_devices(vid: u16, pid: u16)
    ensures
        spec_find_device(vid, pid) is Some <==> vid == 0x04f9 && (pid == 0x2007 || pid == 0x202c
            || pid == 0x2030 || pid == 0x202d || pid == 0x2031 || pid == 0x2041 || pid == 0x205f
            || pid == 0x2061 || pid == 0x2064 || pid == 0x2062 || pid == 0x2065 || pid == 0x2073
            || pid == 0x2074),
        spec_find_device(vid, pid) matches Some(d) ==> {
            let packbits = pid == 0x2007 || pid == 0x205f || pid == 0x2061 || pid == 0x2062 || pid
                == 0x2073 || pid == 0x2074;
            let p700_init = pid == 0x2061 || pid == 0x2062;
            let plite = pid == 0x2030 || pid == 0x2031 || pid == 0x2064 || pid == 0x2065;
            &&& d.vid == vid
            &&& d.pid == pid
            &&& d.max_px == 128
            &&& d.dpi == 180
            &&& d.flags.bits == (if packbits { 1u32 } else { 0u32 }) + (if p700_init {
                2u32
            } else {
                0u32
            }) + (if plite { 4u32 } else { 0u32 })
            &&& d.pre_print_padding_px == (if pid == 0x2041 || pid == 0x205f {
                48u32
            } else {
                0u32
            })
            &&& pid == 0x2007 ==> d.name@ == "PT-2420PC"@
            &&& pid == 0x202c ==> d.name@ == "PT-1230PC"@
            &&& pid == 0x2030 ==> d.name@ == "PT-1230PC (PLite)"@
            &&& pid == 0x202d ==> d.name@ == "PT-2430PC"@
            &&& pid == 0x2031 ==> d.name@ == "PT-2430PC (PLite)"@
            &&& pid == 0x2041 ==> d.name@ == "PT-2730"@
            &&& pid == 0x205f ==> d.name@ == "PT-E500"@
            &&& pid == 0x2061 ==> d.name@ == "PT-P700"@
            &&& pid == 0x2064 ==> d.name@ == "PT-P700 (PLite)"@
            &&& pid == 0x2062 ==> d.name@ == "PT-P750W"@
            &&& pid == 0x2065 ==> d.name@ == "PT-P750W (PLite)"@
            &&& pid == 0x2073 ==> d.name@ == "PT-D450"@
            &&& pid == 0x2074 ==> d.name@ == "PT-D600"@
        },
{
    reveal(spec_find_device);
    let t = device_table();
    assert(t.len() == 13);
    assert forall|i: int| 0 <= i < t.len() implies original_model(#[trigger] t[i]) by {
        if i == 0 {
        } else if i == 1 {
        } else if i == 2 {
        } else if i == 3 {
        } else if i == 4 {
        } else if i == 5 {
        } else if i == 6 {
        } else if i == 7 {
        } else if i == 8 {
        } else if i == 9 {
        } else if i == 10 {
        } else if i == 11 {
        } else {
        }
    }
    if vid == 0x04f9 {
        if pid == 0x2007 {
            assert(matches_id(t[0], vid, pid));
        } else if pid == 0x202c {
            assert(matches_id(t[1], vid, pid));
        } else if pid == 0x2030 {
            assert(matches_id(t[2], vid, pid));
        } else if pid == 0x202d {
            assert(matches_id(t[3], vid, pid));
        } else if pid == 0x2031 {
            assert(matches_id(t[4], vid, pid));
        } else if pid == 0x2041 {
            assert(matches_id(t[5], vid, pid));
        } else if pid == 0x205f {
            assert(matches_id(t[6], vid, pid));
        } else if pid == 0x2061 {
            assert(matches_id(t[7], vid, pid));
        } else if pid == 0x2064 {
            assert(matches_id(t[8], vid, pid));
        } else if pid == 0x2062 {
            assert(matches_id(t[9], vid, pid));
        } else if pid == 0x2065 {
            assert(matches_id(t[10], vid, pid));
        } else if pid == 0x2073 {
            assert(matches_id(t[11], vid, pid));
        } else if pid == 0x2074 {
            assert(matches_id(t[12], vid, pid));
        }
    }
    if exists|i: int| 0 <= i < t.len() && matches_id(#[trigger] t[i], vid, pid) {
        let i = choose|i: int|
            0 <= i < t.len() && matches_id(#[trigger] t[i], vid, pid) && forall|j: int|
                0 <= j < i ==> !matches_id(#[trigger] t[j], vid, pid);
        let w = choose|i: int| 0 <= i < t.len() && matches_id(#[trigger] t[i], vid, pid);
        assert(original_model(t[w]));
        assert(exists|i: int|
            0 <= i < t.len() && matches_id(#[trigger] t[i], vid, pid) && forall|j: int|
                0 <= j < i ==> !matches_id(#[trigger] t[j], vid, pid)) by {
            lemma_first_match(t, vid, pid, w);
        }
        assert(original_model(t[i]));
    }
}

/// Where some entry matches, a first matching entry exists.
proof fn lemma_first_match(t: Seq<DeviceInfo>, vid: u16, pid: u16, w: int)
    requires
        0 <= w < t.len(),
        matches_id(t[w], vid, pid),
    ensures
        exists|i: int|
            0 <= i < t.len() && matches_id(#[trigger] t[i], vid, pid) && forall|j: int|
                0 <= j < i ==> !matches_id(#[trigger] t[j], vid, pid),
    decreases w,
{
    if exists|j: int| 0 <= j < w && matches_id(#[trigger] t[j], vid, pid) {
        let j = choose|j: int| 0 <= j < w && matches_id(#[trigger] t[j], vid, pid);
        lemma_first_match(t, vid, pid, j);
    } else {
        assert(forall|j: int| 0 <= j < w ==> !matches_id(#[trigger] t[j], vid, pid));
    }
}

} // verus!
