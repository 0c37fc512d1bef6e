use vstd::prelude::*;

use crate::bitmap::{lemma_row_bounds, LabelBitmap};
use crate::compose::{composed_segments, composed_width, hcat_all, label_segments, strip_height};
use crate::devices::DeviceInfo;
use crate::raster::{lemma_pixel_of_packed, pixel_on, raster_column};
use crate::session::spec_print_job;

verus! {

/// The first raster pixel that a bitmap of `height` rows occupies when it is
/// centred in a field of `max_px` pixels.
pub open spec fn centre_offset(height: u32, max_px: u32) -> int {
    let half_max = max_px / 2;
    let half_h = height / 2;
    if half_max >= half_h {
        half_max - half_h
    } else {
        0
    }
}

/// Raster column `col` of a bitmap reads the bitmap's column `col` bottom to
/// top: raster pixel `offset + i` is ink exactly when the pixel in row
/// `height - 1 - i`, column `col` of the bitmap's rows (buffer index
/// `y * width + x`) is non-zero, and no other raster pixel is ink.
pub proof fn law_raster_column_reads_rows(b: LabelBitmap, max_px: u32, col: int, p: int)
    requires
        b.wf(),
        0 <= col < b.width,
        0 <= p < 128,
    ensures
        ({
            let off = centre_offset(b.height, max_px);
            raster_column(b.pixels@, b.width, b.height, max_px, col)[p] == (off <= p < off
                + b.height && b.rows()[b.height - 1 - (p - off)][col] > 0)
        }),
{
    let off = centre_offset(b.height, max_px);
    if off <= p < off + b.height {
        let y = b.height - 1 - (p - off);
        b.lemma_pixel_in_row(col, y);
    }
}

/// In a print job, bitmap column `c` is sent as the `c`-th raster command
/// after the setup commands and the model's blank lines, so the columns go
/// out left to right. Its header is the model's raster header, and raster
/// pixel `p` of its 16 bytes is ink exactly when the bitmap, centred on the
/// print head, has ink in column `c` at row `height - 1 - (p - offset)`.
pub proof fn law_print_job_columns_in_order(
    info: DeviceInfo,
    pixels: Seq<u8>,
    width: u32,
    height: u32,
    c: int,
    p: int,
)
    requires
        0 <= c < width,
        0 <= p < 128,
    ensures
        ({
            let packbits = info.flags.bits & 1 == 1;
            let setup: int = if packbits {
                2
            } else {
                1
            };
            let msg = spec_print_job(info, pixels, width, height)[setup
                + info.pre_print_padding_px + c];
            let hdr: int = if packbits {
                4
            } else {
                3
            };
            let off = centre_offset(height, info.max_px);
            &&& msg.len() == hdr + 16
            &&& msg.take(hdr) == if packbits {
                seq![0x47u8, 17u8, 0u8, 15u8]
            } else {
                seq![0x47u8, 16u8, 0u8]
            }
            &&& pixel_on(msg.skip(hdr), p) == (off <= p < off + height && pixels[(height - 1 - (p
                - off)) * width + c] > 0)
        }),
{
    let packbits = info.flags.bits & 1 == 1;
    let setup: int = if packbits {
        2
    } else {
        1
    };
    let job = spec_print_job(info, pixels, width, height);
    let k = setup + info.pre_print_padding_px + c;
    let col = raster_column(pixels, width, height, info.max_px, c);
    let hdr: int = if packbits {
        4
    } else {
        3
    };
    lemma_pixel_of_packed(col, p);
    let msg = job[k];
    assert(msg.skip(hdr) =~= crate::raster::pack_column(col));
    if packbits {
        assert(msg.take(hdr) =~= seq![0x47u8, 17u8, 0u8, 15u8]);
    } else {
        assert(msg.take(hdr) =~= seq![0x47u8, 16u8, 0u8]);
    }
}

/// Row `y` of each segment, left to right.
spec fn row_pieces(segs: Seq<Seq<Seq<u8>>>, y: int) -> Seq<Seq<u8>> {
    Seq::new(segs.len(), |k: int| segs[k][y])
}

/// Labels of one strip: well formed, all of height `h`, and of the tape's
/// height wherever a cut mark or padding joins them.
spec fn strip_labels(labels: Seq<LabelBitmap>, pad: u32, cut: bool, tape_px: u32, h: nat) -> bool {
    &&& forall|k: int| 0 <= k < labels.len() ==> (#[trigger] labels[k]).wf() && labels[k].height == h
    &&& (cut || pad > 0) ==> h == tape_px
}

/// Row `y` of segments placed side by side is their rows `y` joined.
proof fn lemma_hcat_all_row(segs: Seq<Seq<Seq<u8>>>, h: nat, y: int)
    requires
        segs.len() > 0,
        forall|k: int| 0 <= k < segs.len() ==> (#[trigger] segs[k]).len() == h,
        0 <= y < h,
    ensures
        hcat_all(segs).len() == h,
        hcat_all(segs)[y] == row_pieces(segs, y).flatten(),
    decreases segs.len(),
{
    if segs.len() == 1 {
        row_pieces(segs, y).lemma_flatten_singleton();
    } else {
        let d = segs.drop_last();
        lemma_hcat_all_row(d, h, y);
        assert(row_pieces(segs, y) =~= row_pieces(d, y).push(segs.last()[y]));
        row_pieces(d, y).lemma_flatten_push(segs.last()[y]);
    }
}

/// Every segment of a strip has the strip's height.
proof fn lemma_segments_height(labels: Seq<LabelBitmap>, pad: u32, cut: bool, tape_px: u32, h: nat)
    requires
        strip_labels(labels, pad, cut, tape_px, h),
    ensures
        labels.len() > 0 ==> composed_segments(labels, pad, cut, tape_px).len() > 0,
        forall|k: int|
            0 <= k < composed_segments(labels, pad, cut, tape_px).len() ==> (#[trigger] composed_segments(
                labels,
                pad,
                cut,
                tape_px,
            )[k]).len() == h,
    decreases labels.len(),
{
    if labels.len() > 0 {
        let d = labels.drop_last();
        assert forall|k: int| 0 <= k < d.len() implies (#[trigger] d[k]).wf() && d[k].height == h by {
            assert(d[k] == labels[k]);
        }
        lemma_segments_height(d, pad, cut, tape_px, h);
        let l = labels[labels.len() - 1];
        assert(l == labels.last());
        let a = composed_segments(d, pad, cut, tape_px);
        let b = label_segments(l.rows(), pad, cut, tape_px);
        assert forall|k: int| 0 <= k < b.len() implies (#[trigger] b[k]).len() == h by {
            if cut {
                assert(crate::compose::cutmark_rows(tape_px as nat).len() == h);
            }
            if pad > 0 {
                assert(crate::bitmap::blank_rows(pad as nat, tape_px as nat).len() == h);
            }
        }
        assert forall|k: int| 0 <= k < (a + b).len() implies (#[trigger] (a + b)[k]).len() == h by {
            if k >= a.len() {
                assert((a + b)[k] == b[k - a.len()]);
            }
        }
    }
}

/// Row `y` of the segments of one label: the cut mark's row, the padding,
/// the label's row, the padding.
proof fn lemma_label_row(lr: Seq<Seq<u8>>, pad: u32, cut: bool, tape_px: u32, y: int)
    requires
        0 <= y < lr.len(),
        (cut || pad > 0) ==> y < tape_px,
    ensures
        row_pieces(label_segments(lr, pad, cut, tape_px), y).flatten() == (if cut {
            seq![0u8, 0u8, (if (y / 4) % 2 == 0 { 255u8 } else { 0u8 }), 0u8, 0u8]
        } else {
            Seq::empty()
        }) + Seq::new(pad as nat, |x: int| 0u8) + lr[y] + Seq::new(pad as nat, |x: int| 0u8),
{
    let crow: Seq<u8> = seq![0u8, 0u8, (if (y / 4) % 2 == 0 { 255u8 } else { 0u8 }), 0u8, 0u8];
    let prow: Seq<u8> = Seq::new(pad as nat, |x: int| 0u8);
    let cs: Seq<Seq<u8>> = if cut {
        seq![crow]
    } else {
        Seq::empty()
    };
    let ps: Seq<Seq<u8>> = if pad > 0 {
        seq![prow]
    } else {
        Seq::empty()
    };
    let mid: Seq<Seq<u8>> = seq![lr[y]];
    if cut {
        assert(crate::compose::cutmark_rows(tape_px as nat)[y] =~= crow);
    }
    if pad > 0 {
        assert(crate::bitmap::blank_rows(pad as nat, tape_px as nat)[y] =~= prow);
    }
    assert(row_pieces(label_segments(lr, pad, cut, tape_px), y) =~= cs + ps + mid + ps);
    vstd::seq_lib::lemma_flatten_concat(cs + ps + mid, ps);
    vstd::seq_lib::lemma_flatten_concat(cs + ps, mid);
    vstd::seq_lib::lemma_flatten_concat(cs, ps);
    mid.lemma_flatten_singleton();
    if pad > 0 {
        ps.lemma_flatten_singleton();
    } else {
        assert(prow =~= Seq::<u8>::empty());
    }
    if cut {
        cs.lemma_flatten_singleton();
    }
    assert(ps.flatten() == prow);
}

/// Row `y` of a strip is row `y` of the strip of all labels but the last,
/// followed by the last label's row with its cut mark and padding.
proof fn lemma_strip_row_step(
    labels: Seq<LabelBitmap>,
    pad: u32,
    cut: bool,
    tape_px: u32,
    h: nat,
    y: int,
)
    requires
        labels.len() > 0,
        strip_labels(labels, pad, cut, tape_px, h),
        0 <= y < h,
    ensures
        ({
            let l = labels.last();
            row_pieces(composed_segments(labels, pad, cut, tape_px), y).flatten() == row_pieces(
                composed_segments(labels.drop_last(), pad, cut, tape_px),
                y,
            ).flatten() + (if cut {
                seq![0u8, 0u8, (if (y / 4) % 2 == 0 { 255u8 } else { 0u8 }), 0u8, 0u8]
            } else {
                Seq::empty()
            }) + Seq::new(pad as nat, |x: int| 0u8) + l.rows()[y] + Seq::new(
                pad as nat,
                |x: int| 0u8,
            )
        }),
{
    let l = labels.last();
    let a = composed_segments(labels.drop_last(), pad, cut, tape_px);
    let b = label_segments(l.rows(), pad, cut, tape_px);
    assert(l == labels[labels.len() - 1]);
    assert(row_pieces(a + b, y) =~= row_pieces(a, y) + row_pieces(b, y));
    vstd::seq_lib::lemma_flatten_concat(row_pieces(a, y), row_pieces(b, y));
    lemma_label_row(l.rows(), pad, cut, tape_px, y);
}

/// Row `y` of a strip is as long as the strip is wide.
proof fn lemma_strip_row_len(
    labels: Seq<LabelBitmap>,
    pad: u32,
    cut: bool,
    tape_px: u32,
    h: nat,
    y: int,
)
    requires
        strip_labels(labels, pad, cut, tape_px, h),
        0 <= y < h,
    ensures
        row_pieces(composed_segments(labels, pad, cut, tape_px), y).flatten().len()
            == composed_width(labels, pad, cut),
    decreases labels.len(),
{
    if labels.len() > 0 {
        let d = labels.drop_last();
        assert forall|k: int| 0 <= k < d.len() implies (#[trigger] d[k]).wf() && d[k].height == h by {
            assert(d[k] == labels[k]);
        }
        lemma_strip_row_len(d, pad, cut, tape_px, h, y);
        lemma_strip_row_step(labels, pad, cut, tape_px, h, y);
        let l = labels[labels.len() - 1];
        lemma_row_bounds(y, l.width as int, l.height as int);
    } else {
        assert(row_pieces(composed_segments(labels, pad, cut, tape_px), y) =~= Seq::empty());
    }
}

/// Where label `i` stands in row `y` of the strip, counted in the joined
/// rows of the segments.
proof fn lemma_label_in_strip(
    labels: Seq<LabelBitmap>,
    pad: u32,
    cut: bool,
    tape_px: u32,
    h: nat,
    i: int,
    y: int,
)
    requires
        strip_labels(labels, pad, cut, tape_px, h),
        0 <= i < labels.len(),
        0 <= y < h,
    ensures
        ({
            let row = row_pieces(composed_segments(labels, pad, cut, tape_px), y).flatten();
            let mark: int = if cut {
                5
            } else {
                0
            };
            let s = composed_width(labels.take(i), pad, cut) + mark + pad;
            let w = labels[i].width as int;
            &&& s + w + pad <= row.len()
            &&& row.subrange(s - pad, s) == Seq::new(pad as nat, |x: int| 0u8)
            &&& row.subrange(s, s + w) == labels[i].rows()[y]
            &&& row.subrange(s + w, s + w + pad) == Seq::new(pad as nat, |x: int| 0u8)
            &&& cut ==> row.subrange(s - pad - 5, s - pad) == seq![
                0u8,
                0u8,
                (if (y / 4) % 2 == 0 {
                    255u8
                } else {
                    0u8
                }),
                0u8,
                0u8,
            ]
        }),
    decreases labels.len(),
{
    let n = labels.len() as int;
    let d = labels.drop_last();
    assert forall|k: int| 0 <= k < d.len() implies (#[trigger] d[k]).wf() && d[k].height == h by {
        assert(d[k] == labels[k]);
    }
    let row = row_pieces(composed_segments(labels, pad, cut, tape_px), y).flatten();
    let front = row_pieces(composed_segments(d, pad, cut, tape_px), y).flatten();
    lemma_strip_row_step(labels, pad, cut, tape_px, h, y);
    lemma_strip_row_len(d, pad, cut, tape_px, h, y);
    lemma_strip_row_len(labels, pad, cut, tape_px, h, y);
    let mark: int = if cut {
        5
    } else {
        0
    };
    let s = composed_width(labels.take(i), pad, cut) + mark + pad;
    let w = labels[i].width as int;
    lemma_row_bounds(y, labels[i].width as int, labels[i].height as int);
    if i == n - 1 {
        assert(labels.take(i) =~= d);
        let crow: Seq<u8> = if cut {
            seq![0u8, 0u8, (if (y / 4) % 2 == 0 { 255u8 } else { 0u8 }), 0u8, 0u8]
        } else {
            Seq::empty()
        };
        lemma_last_piece(front, crow, pad as nat, labels[i].rows()[y]);
    } else {
        lemma_label_in_strip(d, pad, cut, tape_px, h, i, y);
        assert(d.take(i) =~= labels.take(i));
        assert(d[i] == labels[i]);
        assert(labels.take(i + 1).drop_last() =~= labels.take(i));
        crate::compose::lemma_composed_width_prefix(d, i + 1, pad, cut);
        assert(d.take(i + 1) =~= labels.take(i + 1));
        lemma_front_piece(front, row.subrange(front.len() as int, row.len() as int), s - pad - mark, s + w + pad);
        assert(front + row.subrange(front.len() as int, row.len() as int) =~= row);
    }
}

/// In `front + c + p + l + p` with `p` blank, the pieces stand where their
/// lengths put them.
proof fn lemma_last_piece(front: Seq<u8>, c: Seq<u8>, pad: nat, l: Seq<u8>)
    ensures
        ({
            let p = Seq::new(pad, |x: int| 0u8);
            let row = front + c + p + l + p;
            let f = front.len() as int;
            let s = f + c.len() + pad;
            let e = s + l.len();
            &&& row.subrange(s - pad, s) == p
            &&& row.subrange(s, e) == l
            &&& row.subrange(e, e + pad) == p
            &&& row.subrange(f, f + c.len()) == c
        }),
{
    let p = Seq::new(pad, |x: int| 0u8);
    let row = front + c + p + l + p;
    let f = front.len() as int;
    let s = f + c.len() + pad;
    let e = s + l.len();
    assert(row.subrange(s - pad, s) =~= p);
    assert(row.subrange(s, e) =~= l);
    assert(row.subrange(e, e + pad) =~= p);
    assert(row.subrange(f, f + c.len()) =~= c);
}

/// Ranges that lie inside `front` read the same in `front + rest`.
proof fn lemma_front_piece(front: Seq<u8>, rest: Seq<u8>, lo: int, hi: int)
    requires
        0 <= lo <= hi <= front.len(),
    ensures
        forall|a: int, b: int|
            lo <= a <= b <= hi ==> #[trigger] (front + rest).subrange(a, b) == front.subrange(a, b),
{
    assert forall|a: int, b: int| lo <= a <= b <= hi implies #[trigger] (front + rest).subrange(a, b)
        == front.subrange(a, b) by {
        assert((front + rest).subrange(a, b) =~= front.subrange(a, b));
    }
}

/// In a composed strip each label stands between two runs of `pad` blank
/// columns, whether or not cut marks are on: in every row, the label's
/// columns start `pad` columns after the end of the previous label's
/// trailing padding (and of the cut mark, when cut marks are on), the `pad`
/// columns before them and the `pad` columns after them are blank, and with
/// cut marks the 5 columns before the leading padding are the cut mark: a
/// dash in the middle column, ink on rows whose quarter is even.
pub proof fn law_compose_pads_each_label(
    labels: Seq<LabelBitmap>,
    pad: u32,
    cut: bool,
    tape_px: u32,
    i: int,
    y: int,
)
    requires
        labels.len() > 0,
        forall|k: int|
            0 <= k < labels.len() ==> (#[trigger] labels[k]).wf() && labels[k].height
                == strip_height(labels, pad, cut, tape_px),
        0 <= i < labels.len(),
        0 <= y < strip_height(labels, pad, cut, tape_px),
    ensures
        ({
            let row = hcat_all(composed_segments(labels, pad, cut, tape_px))[y];
            let mark: int = if cut {
                5
            } else {
                0
            };
            let s = composed_width(labels.take(i), pad, cut) + mark + pad;
            let w = labels[i].width as int;
            &&& row.len() == composed_width(labels, pad, cut)
            &&& row.subrange(s - pad, s) == Seq::new(pad as nat, |x: int| 0u8)
            &&& row.subrange(s, s + w) == labels[i].rows()[y]
            &&& row.subrange(s + w, s + w + pad) == Seq::new(pad as nat, |x: int| 0u8)
            &&& cut ==> row.subrange(s - pad - 5, s - pad) == seq![
                0u8,
                0u8,
                (if (y / 4) % 2 == 0 {
                    255u8
                } else {
                    0u8
                }),
                0u8,
                0u8,
            ]
        }),
{
    let h = strip_height(labels, pad, cut, tape_px) as nat;
    let segs = composed_segments(labels, pad, cut, tape_px);
    lemma_segments_height(labels, pad, cut, tape_px, h);
    lemma_hcat_all_row(segs, h, y);
    lemma_strip_row_len(labels, pad, cut, tape_px, h, y);
    lemma_label_in_strip(labels, pad, cut, tape_px, h, i, y);
}

} // verus!
