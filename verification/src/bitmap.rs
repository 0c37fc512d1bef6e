use vstd::prelude::*;

verus! {

/// The rows of a row-major pixel buffer of the given width and height.
pub open spec fn rows_of(pixels: Seq<u8>, width: nat, height: nat) -> Seq<Seq<u8>> {
    Seq::new(height, |y: int| pixels.subrange(y * width, y * width + width))
}

/// Rows of `width` white pixels.
pub open spec fn blank_rows(width: nat, height: nat) -> Seq<Seq<u8>> {
    Seq::new(height, |y: int| Seq::new(width, |x: int| 0u8))
}

/// Place the rows of `b` to the right of the rows of `a`.
pub open spec fn hcat(a: Seq<Seq<u8>>, b: Seq<Seq<u8>>) -> Seq<Seq<u8>> {
    Seq::new(a.len(), |y: int| a[y] + b[y])
}

/// Every row has `width` pixels.
pub open spec fn uniform_rows(rows: Seq<Seq<u8>>, width: nat) -> bool {
    forall|y: int| 0 <= y < rows.len() ==> (#[trigger] rows[y]).len() == width
}

pub proof fn lemma_row_bounds(y: int, w: int, h: int)
    requires
        0 <= y < h,
        0 <= w,
    ensures
        0 <= y * w,
        y * w + w <= h * w,
        h * w == w * h,
{
    assert(0 <= y * w) by (nonlinear_arith)
        requires
            0 <= y,
            0 <= w,
    ;
    assert(y * w + w <= h * w) by (nonlinear_arith)
        requires
            0 <= y < h,
            0 <= w,
    ;
    assert(h * w == w * h) by (nonlinear_arith);
}

pub proof fn lemma_rows_ordered(y1: int, y2: int, w: int)
    requires
        0 <= y1 < y2,
        0 <= w,
    ensures
        y1 * w + w <= y2 * w,
{
    assert(y1 * w + w <= y2 * w) by (nonlinear_arith)
        requires
            0 <= y1 < y2,
            0 <= w,
    ;
}

/// Joining rows of equal width and cutting the result back into rows gives
/// the rows back.
pub proof fn lemma_flatten_rows(rows: Seq<Seq<u8>>, w: nat)
    requires
        uniform_rows(rows, w),
    ensures
        rows.flatten().len() == rows.len() * w,
        rows_of(rows.flatten(), w, rows.len()) == rows,
    decreases rows.len(),
{
    let n = rows.len() as int;
    if n == 0 {
        assert(rows_of(rows.flatten(), w, rows.len()) =~= rows);
    } else {
        let p = rows.drop_last();
        let l = rows.last();
        assert(p.push(l) =~= rows);
        p.lemma_flatten_push(l);
        lemma_flatten_rows(p, w);
        let f = rows.flatten();
        assert(f == p.flatten() + l);
        assert((n - 1) * w + w == n * w) by (nonlinear_arith);
        assert forall|y: int| 0 <= y < n implies #[trigger] rows_of(f, w, rows.len())[y]
            == rows[y] by {
            lemma_row_bounds(y, w as int, n);
            if y < n - 1 {
                lemma_row_bounds(y, w as int, n - 1);
                assert(f.subrange(y * w, y * w + w) =~= p.flatten().subrange(y * w, y * w + w));
                assert(rows_of(p.flatten(), w, p.len())[y] == p[y]);
            } else {
                assert(y * w == (n - 1) * w);
                assert(f.subrange(y * w, y * w + w) =~= l);
            }
        }
        assert(rows_of(f, w, rows.len()) =~= rows);
    }
}

/// Rows of a buffer of the right length have the given width, and the
/// buffer is recovered by joining them.
pub proof fn lemma_rows_of_flatten(pixels: Seq<u8>, w: nat, h: nat)
    requires
        pixels.len() == w * h,
    ensures
        uniform_rows(rows_of(pixels, w, h), w),
        rows_of(pixels, w, h).flatten() == pixels,
    decreases h,
{
    let r = rows_of(pixels, w, h);
    assert forall|y: int| 0 <= y < h implies (#[trigger] r[y]).len() == w by {
        lemma_row_bounds(y, w as int, h as int);
    }
    if h > 0 {
        let hm = (h - 1) as nat;
        assert(hm * w + w == h * w) by (nonlinear_arith)
            requires
                hm == h - 1,
        ;
        assert(w * h == h * w) by (nonlinear_arith);
        let front = pixels.subrange(0, (hm * w) as int);
        assert(front.len() == w * hm) by (nonlinear_arith)
            requires
                front.len() == hm * w,
        ;
        lemma_rows_of_flatten(front, w, hm);
        let rf = rows_of(front, w, hm);
        assert forall|y: int| 0 <= y < hm implies #[trigger] rf[y] == r[y] by {
            lemma_row_bounds(y, w as int, hm as int);
            assert(front.subrange(y * w, y * w + w) =~= pixels.subrange(y * w, y * w + w));
        }
        assert(r.drop_last() =~= rf);
        assert(r.last() =~= pixels.subrange((hm * w) as int, (hm * w + w) as int));
        assert(r.drop_last().push(r.last()) =~= r);
        r.drop_last().lemma_flatten_push(r.last());
        assert(pixels =~= front + pixels.subrange((hm * w) as int, (hm * w + w) as int));
    } else {
        assert(r.flatten() =~= pixels);
    }
}

/// A monochrome label bitmap in row-major order.
/// - `width`  = number of columns (label length along the tape)
/// - `height` = tape width in pixels
/// - `pixels` = row-major, 0 = white, 255 = black ink
#[derive(Debug, Clone)]
pub struct LabelBitmap {
    pub width: u32,
    pub height: u32,
    pub pixels: Vec<u8>,
}

impl LabelBitmap {
    /// The buffer holds exactly `width * height` pixels, a number that fits
    /// in `u32`.
    pub open spec fn wf(&self) -> bool {
        &&& self.pixels@.len() == self.width * self.height
        &&& self.width * self.height <= u32::MAX
    }

    /// The bitmap's rows, top to bottom.
    pub open spec fn rows(&self) -> Seq<Seq<u8>> {
        rows_of(self.pixels@, self.width as nat, self.height as nat)
    }

    /// Pixel (`x` = column, `y` = row) of a well-formed bitmap is entry
    /// `x` of row `y`.
    pub proof fn lemma_pixel_in_row(&self, x: int, y: int)
        requires
            self.wf(),
            0 <= x < self.width,
            0 <= y < self.height,
        ensures
            0 <= y * self.width + x < self.pixels@.len(),
            self.rows()[y].len() == self.width,
            self.rows()[y][x] == self.pixels@[y * self.width + x],
    {
        lemma_row_bounds(y, self.width as int, self.height as int);
    }

    /// Two well-formed bitmaps of the same size with the same rows are equal.
    pub proof fn lemma_rows_determine(&self, other: &Self)
        requires
            self.wf(),
            other.wf(),
            self.width == other.width,
            self.height == other.height,
            self.rows() == other.rows(),
        ensures
            self.pixels@ == other.pixels@,
    {
        lemma_rows_of_flatten(self.pixels@, self.width as nat, self.height as nat);
        lemma_rows_of_flatten(other.pixels@, other.width as nat, other.height as nat);
    }

    pub fn new_white(width: u32, height: u32) -> (r: Self)
        requires
            width * height <= u32::MAX,
        ensures
            r.wf(),
            r.width == width,
            r.height == height,
            r.pixels@ == Seq::new((width * height) as nat, |i: int| 0u8),
            r.rows() == blank_rows(width as nat, height as nat),
    {
        let n = (width * height) as usize;
        let mut pixels: Vec<u8> = Vec::with_capacity(n);
        let mut i: usize = 0;
        while i < n
            invariant
                0 <= i <= n,
                pixels@ == Seq::new(i as nat, |k: int| 0u8),
            decreases n - i,
        {
            pixels.push(0);
            assert(pixels@ =~= Seq::new((i + 1) as nat, |k: int| 0u8));
            i = i + 1;
        }
        let r = Self { width, height, pixels };
        assert forall|y: int| 0 <= y < height implies #[trigger] r.rows()[y] == blank_rows(
            width as nat,
            height as nat,
        )[y] by {
            lemma_row_bounds(y, width as int, height as int);
            assert(r.rows()[y] =~= Seq::new(width as nat, |x: int| 0u8));
        }
        assert(r.rows() =~= blank_rows(width as nat, height as nat));
        r
    }

    /// Get pixel value at (x=col, y=row)
    pub fn get_pixel(&self, x: u32, y: u32) -> (v: u8)
        requires
            y * self.width + x <= u32::MAX,
            y * self.width + x < self.pixels@.len(),
        ensures
            v == self.pixels@[y * self.width + x],
    {
        self.pixels[(y * self.width + x) as usize]
    }

    /// Set pixel at (x=col, y=row) to ink (255); coordinates outside the
    /// bitmap are ignored.
    pub fn set_pixel(&mut self, x: u32, y: u32)
        requires
            old(self).wf(),
        ensures
            final(self).wf(),
            final(self).width == old(self).width,
            final(self).height == old(self).height,
            final(self).pixels@ == if x < old(self).width && y < old(self).height {
                old(self).pixels@.update(y * old(self).width + x, 255)
            } else {
                old(self).pixels@
            },
    {
        if x < self.width && y < self.height {
            proof {
                lemma_row_bounds(y as int, self.width as int, self.height as int);
            }
            let i = (y * self.width + x) as usize;
            self.pixels.set(i, 255);
        }
    }

    /// Append `other` to the right of this bitmap (horizontal concatenation).
    /// Both bitmaps must have the same height.
    pub fn append(&mut self, other: &LabelBitmap)
        requires
            old(self).wf(),
            other.wf(),
            old(self).height == other.height,
            old(self).width + other.width <= u32::MAX,
            (old(self).width + other.width) * old(self).height <= u32::MAX,
        ensures
            final(self).wf(),
            final(self).width == old(self).width + other.width,
            final(self).height == old(self).height,
            final(self).rows() == hcat(old(self).rows(), other.rows()),
    {
        let new_width = self.width + other.width;
        let mut new_pixels: Vec<u8> = Vec::with_capacity((new_width * self.height) as usize);
        let ghost target = hcat(self.rows(), other.rows());
        let h = self.height as usize;
        let w1 = self.width as usize;
        let w2 = other.width as usize;
        let mut row: usize = 0;
        while row < h
            invariant
                0 <= row <= h,
                h == self.height,
                w1 == self.width,
                w2 == other.width,
                self.wf(),
                other.wf(),
                self.height == other.height,
                target == hcat(self.rows(), other.rows()),
                new_pixels@ == target.take(row as int).flatten(),
            decreases h - row,
        {
            proof {
                lemma_row_bounds(row as int, w1 as int, h as int);
                lemma_row_bounds(row as int, w2 as int, h as int);
            }
            let self_start = row * w1;
            let ghost before = new_pixels@;
            extend_from_range(&mut new_pixels, &self.pixels, self_start, self_start + w1);
            let other_start = row * w2;
            extend_from_range(&mut new_pixels, &other.pixels, other_start, other_start + w2);
            proof {
                assert(new_pixels@ =~= before + target[row as int]);
                assert(target.take(row + 1) =~= target.take(row as int).push(target[row as int]));
                target.take(row as int).lemma_flatten_push(target[row as int]);
            }
            row = row + 1;
        }
        proof {
            assert(target.take(h as int) =~= target);
            assert forall|y: int| 0 <= y < h implies (#[trigger] target[y]).len() == w1 + w2 by {
                lemma_row_bounds(y, w1 as int, h as int);
                lemma_row_bounds(y, w2 as int, h as int);
            }
            lemma_flatten_rows(target, (w1 + w2) as nat);
        }
        self.pixels = new_pixels;
        self.width = new_width;
        proof {
            assert(self.pixels@.len() == self.width * self.height) by (nonlinear_arith)
                requires
                    self.pixels@.len() == target.len() * (w1 + w2),
                    target.len() == self.height,
                    self.width == w1 + w2,
            ;
        }
    }

    /// Ink the glyph rectangle of a rendered text run: `w` × `h` cells with
    /// corner (`x`, `y_offset + y`), when its coverage `alpha` is at least 64.
    /// Cells outside the bitmap are skipped.
    pub fn plot_coverage(&mut self, x: i32, y: i32, w: u32, h: u32, alpha: u8, y_offset: i32)
        requires
            old(self).wf(),
            alpha >= 64 ==> i32::MIN <= y_offset + y <= i32::MAX,
            alpha >= 64 && glyph_extent(w) > 0 && glyph_extent(h) > 0 ==> {
                &&& x + glyph_extent(w) - 1 <= i32::MAX
                &&& y_offset + y + glyph_extent(h) - 1 <= i32::MAX
            },
        ensures
            final(self).wf(),
            final(self).width == old(self).width,
            final(self).height == old(self).height,
            alpha < 64 ==> final(self).pixels@ == old(self).pixels@,
            alpha >= 64 ==> final(self).rows() == glyph_rows(
                old(self).rows(),
                old(self).width as nat,
                x as int,
                y_offset + y,
                glyph_extent(w),
                glyph_extent(h),
            ),
    {
        // The coverage alpha: 0 is transparent, 255 opaque.
        if alpha < 64 {
            return;
        }
        let py = y_offset + y;
        let gw: i32 = if w <= 0x7fff_ffff {
            w as i32
        } else {
            0
        };
        let gh: i32 = if h <= 0x7fff_ffff {
            h as i32
        } else {
            0
        };
        let ghost start = self.rows();
        let ghost wd = self.width as nat;
        let ghost ht = self.height as nat;
        proof {
            let first = inked_rows(start, wd, x as int, py as int, gw as int, gh as int, 0, 0);
            assert forall|r: int| 0 <= r < ht implies #[trigger] first[r] == start[r] by {
                lemma_row_bounds(r, wd as int, ht as int);
                assert(first[r] =~= start[r]);
            }
            assert(first =~= start);
        }
        let mut dy: i32 = 0;
        while dy < gh
            invariant
                0 <= dy <= gh,
                gh == glyph_extent(h),
                gw == glyph_extent(w),
                py == y_offset + y,
                gw > 0 && gh > 0 ==> x + gw - 1 <= i32::MAX && py + gh - 1 <= i32::MAX,
                self.wf(),
                self.width == wd,
                self.height == ht,
                start.len() == ht,
                self.rows() == inked_rows(start, wd, x as int, py as int, gw as int, gh as int, dy as int, 0),
            decreases gh - dy,
        {
            let mut dx: i32 = 0;
            while dx < gw
                invariant
                    0 <= dx <= gw,
                    0 <= dy < gh,
                    gh == glyph_extent(h),
                    gw == glyph_extent(w),
                    gw > 0 ==> x + gw - 1 <= i32::MAX && py + gh - 1 <= i32::MAX,
                    self.wf(),
                    self.width == wd,
                    self.height == ht,
                    start.len() == ht,
                    self.rows() == inked_rows(
                        start,
                        wd,
                        x as int,
                        py as int,
                        gw as int,
                        gh as int,
                        dy as int,
                        dx as int,
                    ),
                decreases gw - dx,
            {
                let px = x + dx;
                let prow = py + dy;
                let ghost before = self.rows();
                let ghost old_pixels = self.pixels@;
                if px >= 0 && prow >= 0 {
                    self.set_pixel(px as u32, prow as u32);
                    proof {
                        if (px as u32) < wd && (prow as u32) < ht {
                            lemma_rows_update(old_pixels, wd, ht, px as int, prow as int, 255);
                        }
                    }
                }
                proof {
                    let next = inked_rows(
                        start,
                        wd,
                        x as int,
                        py as int,
                        gw as int,
                        gh as int,
                        dy as int,
                        dx + 1,
                    );
                    assert forall|r: int| 0 <= r < ht implies #[trigger] self.rows()[r] == next[r] by {
                        lemma_row_bounds(r, wd as int, ht as int);
                        assert(self.rows()[r] =~= next[r]);
                    }
                    assert(self.rows() =~= next);
                }
                dx = dx + 1;
            }
            proof {
                let next = inked_rows(
                    start,
                    wd,
                    x as int,
                    py as int,
                    gw as int,
                    gh as int,
                    dy + 1,
                    0,
                );
                let cur = inked_rows(
                    start,
                    wd,
                    x as int,
                    py as int,
                    gw as int,
                    gh as int,
                    dy as int,
                    gw as int,
                );
                assert forall|r: int| 0 <= r < ht implies #[trigger] cur[r] == next[r] by {
                    assert(cur[r] =~= next[r]);
                }
                assert(cur =~= next);
            }
            dy = dy + 1;
        }
    }

    /// A bitmap from an 8-bit grayscale buffer: pixels darker than 128 become
    /// ink, all others white.
    pub fn from_luma(width: u32, height: u32, luma: &[u8]) -> (r: Self)
        requires
            luma@.len() == width * height,
        ensures
            r.width == width,
            r.height == height,
            r.pixels@ == Seq::new(luma@.len(), |i: int| luma_to_ink(luma@[i])),
            width * height <= u32::MAX ==> r.wf(),
    {
        let n = luma.len();
        let mut pixels: Vec<u8> = Vec::with_capacity(n);
        let mut i: usize = 0;
        while i < n
            invariant
                0 <= i <= n,
                n == luma@.len(),
                pixels@ == Seq::new(i as nat, |k: int| luma_to_ink(luma@[k])),
            decreases n - i,
        {
            let v: u8 = if luma[i] < 128 {
                255
            } else {
                0
            };
            pixels.push(v);
            assert(pixels@ =~= Seq::new((i + 1) as nat, |k: int| luma_to_ink(luma@[k])));
            i = i + 1;
        }
        Self { width, height, pixels }
    }

    /// The bitmap as an 8-bit grayscale buffer (0 = black, 255 = white), in
    /// the same row-major order: ink becomes dark.
    pub fn to_luma(&self) -> (luma: Vec<u8>)
        requires
            self.wf(),
        ensures
            luma@ == Seq::new(self.pixels@.len(), |i: int| (255 - self.pixels@[i]) as u8),
    {
        let n = self.pixels.len();
        let mut luma: Vec<u8> = Vec::with_capacity(n);
        let mut i: usize = 0;
        while i < n
            invariant
                0 <= i <= n,
                n == self.pixels@.len(),
                luma@ == Seq::new(i as nat, |k: int| (255 - self.pixels@[k]) as u8),
            decreases n - i,
        {
            luma.push(255 - self.pixels[i]);
            assert(luma@ =~= Seq::new((i + 1) as nat, |k: int| (255 - self.pixels@[k]) as u8));
            i = i + 1;
        }
        luma
    }
}

/// Loop length that a glyph dimension gives after the cast to `i32`:
/// dimensions above `i32::MAX` wrap to a negative count and draw nothing.
pub open spec fn glyph_extent(n: u32) -> int {
    if n <= i32::MAX {
        n as int
    } else {
        0
    }
}

/// Rows after inking the cells of the glyph rectangle with corner
/// (`x`, `top`) and extent `gw` × `gh` that come before row `dy`, column
/// `dx` of the rectangle (row by row).
pub open spec fn inked_rows(
    rows: Seq<Seq<u8>>,
    width: nat,
    x: int,
    top: int,
    gw: int,
    gh: int,
    dy: int,
    dx: int,
) -> Seq<Seq<u8>> {
    Seq::new(
        rows.len(),
        |r: int|
            Seq::new(
                width,
                |c: int|
                    if x <= c < x + gw && top <= r < top + gh && (r - top < dy || (r - top == dy
                        && c - x < dx)) {
                        255u8
                    } else {
                        rows[r][c]
                    },
            ),
    )
}

/// Rows after inking the whole glyph rectangle.
pub open spec fn glyph_rows(
    rows: Seq<Seq<u8>>,
    width: nat,
    x: int,
    top: int,
    gw: int,
    gh: int,
) -> Seq<Seq<u8>> {
    inked_rows(rows, width, x, top, gw, gh, gh, 0)
}

/// Writing one pixel of a well-formed buffer changes one entry of one row.
pub proof fn lemma_rows_update(pixels: Seq<u8>, w: nat, h: nat, x: int, y: int, v: u8)
    requires
        pixels.len() == w * h,
        0 <= x < w,
        0 <= y < h,
    ensures
        rows_of(pixels.update(y * w + x, v), w, h) == rows_of(pixels, w, h).update(
            y,
            rows_of(pixels, w, h)[y].update(x, v),
        ),
{
    let a = rows_of(pixels.update(y * w + x, v), w, h);
    let b = rows_of(pixels, w, h).update(y, rows_of(pixels, w, h)[y].update(x, v));
    assert forall|r: int| 0 <= r < h implies #[trigger] a[r] == b[r] by {
        lemma_row_bounds(r, w as int, h as int);
        lemma_row_bounds(y, w as int, h as int);
        if r < y {
            lemma_rows_ordered(r, y, w as int);
        } else if r > y {
            lemma_rows_ordered(y, r, w as int);
        }
        assert(a[r] =~= b[r]);
    }
    assert(a =~= b);
}

/// Ink value for a grayscale level: dark (below 128) is ink.
pub open spec fn luma_to_ink(level: u8) -> u8 {
    if level < 128 {
        255
    } else {
        0
    }
}

/// Append `src[start..end]` to `dst`.
fn extend_from_range(dst: &mut Vec<u8>, src: &Vec<u8>, start: usize, end: usize)
    requires
        start <= end <= src@.len(),
    ensures
        final(dst)@ == old(dst)@ + src@.subrange(start as int, end as int),
{
    let mut i = start;
    while i < end
        invariant
            start <= i <= end,
            end <= src@.len(),
            dst@ == old(dst)@ + src@.subrange(start as int, i as int),
        decreases end - i,
    {
        dst.push(src[i]);
        assert(src@.subrange(start as int, i + 1) =~= src@.subrange(start as int, i as int).push(
            src@[i as int],
        ));
        i = i + 1;
    }
}

} // verus!
