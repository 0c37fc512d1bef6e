use vstd::prelude::*;

use crate::bitmap::{blank_rows, hcat, LabelBitmap};
use crate::error::PtlError;

verus! {

/// Width of a cut mark in pixels.
pub const CUTMARK_WIDTH: u32 = 5;

/// Ink of row `y` of a cut mark: dashes of 4 pixels on, 4 off.
pub open spec fn cutmark_ink(y: int) -> u8 {
    if (y / 4) % 2 == 0 {
        255
    } else {
        0
    }
}

/// Rows of a cut mark of the given height: a dashed line in the middle column.
pub open spec fn cutmark_rows(height: nat) -> Seq<Seq<u8>> {
    Seq::new(height, |y: int| seq![0u8, 0u8, cutmark_ink(y), 0u8, 0u8])
}

/// Create a blank padding bitmap of `pixels` width and `height` height.
pub fn make_padding(pixels: u32, height: u32) -> (r: LabelBitmap)
    requires
        pixels * height <= u32::MAX,
    ensures
        r.wf(),
        r.width == pixels,
        r.height == height,
        r.rows() == blank_rows(pixels as nat, height as nat),
{
    LabelBitmap::new_white(pixels, height)
}

/// Create a dashed vertical cut-mark bitmap (5 pixels wide).
pub fn make_cutmark(height: u32) -> (r: LabelBitmap)
    requires
        CUTMARK_WIDTH * height <= u32::MAX,
    ensures
        r.wf(),
        r.width == CUTMARK_WIDTH,
        r.height == height,
        r.rows() == cutmark_rows(height as nat),
{
    let width = CUTMARK_WIDTH;
    let mut bm = LabelBitmap::new_white(width, height);
    // Dashed pattern: draw a center line with dashes of 4 on / 4 off
    let cx = width / 2;
    let mut y: u32 = 0;
    while y < height
        invariant
            0 <= y <= height,
            cx == 2,
            bm.wf(),
            bm.width == 5,
            bm.height == height,
            bm.pixels@ == Seq::new(
                (5 * height) as nat,
                |i: int|
                    if i / 5 < y && i % 5 == 2 {
                        cutmark_ink(i / 5)
                    } else {
                        0u8
                    },
            ),
        decreases height - y,
    {
        if (y / 4) % 2 == 0 {
            bm.set_pixel(cx, y);
        }
        assert(bm.pixels@ =~= Seq::new(
            (5 * height) as nat,
            |i: int|
                if i / 5 < y + 1 && i % 5 == 2 {
                    cutmark_ink(i / 5)
                } else {
                    0u8
                },
        ));
        y = y + 1;
    }
    assert forall|r: int| 0 <= r < height implies #[trigger] bm.rows()[r] == cutmark_rows(
        height as nat,
    )[r] by {
        assert(bm.rows()[r] =~= cutmark_rows(height as nat)[r]);
    }
    assert(bm.rows() =~= cutmark_rows(height as nat));
    bm
}

/// The segments that stand for one label: `[cut][pad] LABEL [pad]`.
pub open spec fn label_segments(label: Seq<Seq<u8>>, pad: u32, cut: bool, tape_px: u32) -> Seq<
    Seq<Seq<u8>>,
> {
    let c = if cut {
        seq![cutmark_rows(tape_px as nat)]
    } else {
        Seq::empty()
    };
    let p = if pad > 0 {
        seq![blank_rows(pad as nat, tape_px as nat)]
    } else {
        Seq::empty()
    };
    c + p + seq![label] + p
}

/// All segments of a composed strip, left to right.
pub open spec fn composed_segments(labels: Seq<LabelBitmap>, pad: u32, cut: bool, tape_px: u32) -> Seq<
    Seq<Seq<u8>>,
>
    decreases labels.len(),
{
    if labels.len() == 0 {
        Seq::empty()
    } else {
        composed_segments(labels.drop_last(), pad, cut, tape_px) + label_segments(
            labels.last().rows(),
            pad,
            cut,
            tape_px,
        )
    }
}

/// Segments placed side by side, left to right.
pub open spec fn hcat_all(segs: Seq<Seq<Seq<u8>>>) -> Seq<Seq<u8>>
    decreases segs.len(),
{
    if segs.len() == 0 {
        Seq::empty()
    } else if segs.len() == 1 {
        segs[0]
    } else {
        hcat(hcat_all(segs.drop_last()), segs.last())
    }
}

/// Width of the strip that `compose_labels` builds.
pub open spec fn composed_width(labels: Seq<LabelBitmap>, pad: u32, cut: bool) -> nat
    decreases labels.len(),
{
    if labels.len() == 0 {
        0
    } else {
        (composed_width(labels.drop_last(), pad, cut) + labels.last().width + 2 * pad + if cut {
            CUTMARK_WIDTH as int
        } else {
            0
        }) as nat
    }
}

/// Height every segment of the strip must have.
pub open spec fn strip_height(labels: Seq<LabelBitmap>, pad: u32, cut: bool, tape_px: u32) -> u32 {
    if cut || pad > 0 {
        tape_px
    } else {
        labels[0].height
    }
}

/// The labels can be composed: they are well formed, of the strip height,
/// and the strip's pixel count fits in `u32`.
pub open spec fn composable(labels: Seq<LabelBitmap>, pad: u32, cut: bool, tape_px: u32) -> bool {
    &&& labels.len() > 0
    &&& forall|i: int|
        0 <= i < labels.len() ==> (#[trigger] labels[i]).wf() && labels[i].height == strip_height(
            labels,
            pad,
            cut,
            tape_px,
        )
    &&& composed_width(labels, pad, cut) <= u32::MAX
    &&& composed_width(labels, pad, cut) * strip_height(labels, pad, cut, tape_px) <= u32::MAX
}

/// Adding a segment to the right of a run of segments.
pub proof fn lemma_hcat_all_push(segs: Seq<Seq<Seq<u8>>>, s: Seq<Seq<u8>>)
    requires
        segs.len() > 0,
    ensures
        hcat_all(segs.push(s)) == hcat(hcat_all(segs), s),
{
    assert(segs.push(s).drop_last() =~= segs);
}

pub proof fn lemma_composed_width_prefix(labels: Seq<LabelBitmap>, k: int, pad: u32, cut: bool)
    requires
        0 <= k <= labels.len(),
    ensures
        composed_width(labels.take(k), pad, cut) <= composed_width(labels, pad, cut),
    decreases labels.len() - k,
{
    if k < labels.len() {
        lemma_composed_width_prefix(labels, k + 1, pad, cut);
        assert(labels.take(k + 1).drop_last() =~= labels.take(k));
    } else {
        assert(labels.take(k) =~= labels);
    }
}

proof fn lemma_mul_mono(a: int, b: int, h: int)
    requires
        0 <= a <= b,
        0 <= h,
    ensures
        a * h <= b * h,
{
    assert(a * h <= b * h) by (nonlinear_arith)
        requires
            0 <= a <= b,
            0 <= h,
    ;
}

/// Add `seg` to the right of the strip built so far (or start the strip).
pub fn push(acc: &mut Option<LabelBitmap>, seg: LabelBitmap)
    requires
        *old(acc) matches Some(a) ==> {
            &&& a.wf()
            &&& seg.wf()
            &&& a.height == seg.height
            &&& a.width + seg.width <= u32::MAX
            &&& (a.width + seg.width) * a.height <= u32::MAX
        },
    ensures
        match *old(acc) {
            None => *final(acc) == Some(seg),
            Some(a) => *final(acc) matches Some(b) && {
                &&& b.wf()
                &&& b.width == a.width + seg.width
                &&& b.height == a.height
                &&& b.rows() == hcat(a.rows(), seg.rows())
            },
        },
{
    match acc {
        None => *acc = Some(seg),
        Some(bm) => bm.append(&seg),
    }
}

/// Compose labels with optional cut marks and padding.
///
/// Layout: `[cut][pad] LABEL [pad]` repeated for each label — cut before
/// every label, padding on both sides, no trailing cut.
pub fn compose_labels(labels: Vec<LabelBitmap>, pad: u32, cut: bool, tape_px: u32) -> (r:
    LabelBitmap)
    requires
        composable(labels@, pad, cut, tape_px),
    ensures
        r.wf(),
        r.width == composed_width(labels@, pad, cut),
        r.height == strip_height(labels@, pad, cut, tape_px),
        r.rows() == hcat_all(composed_segments(labels@, pad, cut, tape_px)),
{
    let ghost all = labels@;
    let ghost h = strip_height(all, pad, cut, tape_px);
    let ghost total = composed_width(all, pad, cut);
    let mut acc: Option<LabelBitmap> = None;
    let ghost mut segs: Seq<Seq<Seq<u8>>> = Seq::empty();
    for label in it: labels.into_iter()
        invariant
            it.seq() == all,
            composable(all, pad, cut, tape_px),
            h == strip_height(all, pad, cut, tape_px),
            total == composed_width(all, pad, cut),
            segs == composed_segments(all.take(it.index() as int), pad, cut, tape_px),
            it.index() == 0 ==> acc is None && segs.len() == 0,
            it.index() > 0 ==> segs.len() > 0,
            it.index() > 0 ==> (acc matches Some(b) && {
                &&& b.wf()
                &&& b.height == h
                &&& b.width == composed_width(all.take(it.index() as int), pad, cut)
                &&& b.rows() == hcat_all(segs)
            }),
    {
        let ghost k = it.index() as int;
        let ghost before = all.take(k);
        assert(all.take(k + 1).drop_last() =~= before);
        assert(all.take(k + 1).last() == label);
        proof {
            lemma_composed_width_prefix(all, k + 1, pad, cut);
            lemma_mul_mono(composed_width(all.take(k + 1), pad, cut) as int, total as int, h as int);
        }
        let ghost wk = composed_width(before, pad, cut);
        let ghost wk1 = composed_width(all.take(k + 1), pad, cut);
        assert(label.wf() && label.height == h);
        if cut {
            proof {
                lemma_mul_mono(CUTMARK_WIDTH as int, total as int, h as int);
                lemma_mul_mono(wk + CUTMARK_WIDTH, wk1 as int, h as int);
            }
            let ghost s = cutmark_rows(tape_px as nat);
            push(&mut acc, make_cutmark(tape_px));
            proof {
                if segs.len() > 0 {
                    lemma_hcat_all_push(segs, s);
                } else {
                    assert(seq![s].len() == 1);
                }
                segs = segs.push(s);
            }
        }
        let ghost c = if cut { CUTMARK_WIDTH as int } else { 0 };
        if pad > 0 {
            proof {
                lemma_mul_mono(pad as int, total as int, h as int);
                lemma_mul_mono(wk + c + pad, wk1 as int, h as int);
            }
            let ghost s = blank_rows(pad as nat, tape_px as nat);
            push(&mut acc, make_padding(pad, tape_px));
            proof {
                if segs.len() > 0 {
                    lemma_hcat_all_push(segs, s);
                }
                segs = segs.push(s);
            }
        }
        let ghost p = if pad > 0 { pad as int } else { 0 };
        let ghost lr = label.rows();
        let ghost lw = label.width as int;
        proof {
            lemma_mul_mono(wk + c + p + label.width, wk1 as int, h as int);
        }
        push(&mut acc, label);
        proof {
            if segs.len() > 0 {
                lemma_hcat_all_push(segs, lr);
            }
            segs = segs.push(lr);
        }
        if pad > 0 {
            proof {
                lemma_mul_mono(pad as int, total as int, h as int);
                lemma_mul_mono(wk + c + p + lw + pad, wk1 as int, h as int);
            }
            let ghost s = blank_rows(pad as nat, tape_px as nat);
            push(&mut acc, make_padding(pad, tape_px));
            proof {
                lemma_hcat_all_push(segs, s);
                segs = segs.push(s);
            }
        }
        assert(segs =~= composed_segments(all.take(k + 1), pad, cut, tape_px));
    }
    assert(all.take(all.len() as int) =~= all);
    match acc {
        Some(b) => b,
        None => {
            proof {
                assert(false);
            }
            LabelBitmap::new_white(0, 0)
        },
    }
}

} // verus!
