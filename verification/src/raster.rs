use vstd::prelude::*;

use crate::protocol::CMD_EMPTY_RASTER_LINE;

verus! {

/// Number of pixels across one raster column.
pub const RASTER_PX: usize = 128;

/// Whether pixel `p` is inked in the 16-byte column `bytes`.
///
/// Pixel `p` lives in byte `15 - p / 8`, bit `p % 8` (LSB first), so pixel 0
/// is byte 15 bit 0 and pixel 127 is byte 0 bit 7.
pub open spec fn pixel_on(bytes: Seq<u8>, p: int) -> bool {
    bytes[15 - p / 8] & (1u8 << ((p % 8) as u8)) != 0
}

/// The 128 pixels described by 16 column bytes.
pub open spec fn column_pixels(bytes: Seq<u8>) -> Seq<bool> {
    Seq::new(128, |p: int| pixel_on(bytes, p))
}

/// Bit value `mask` when `on`, else nothing.
pub open spec fn bit_if(on: bool, mask: u8) -> u8 {
    if on {
        mask
    } else {
        0
    }
}

/// The byte holding pixels `base .. base + 8` (pixel `base + k` in bit `k`).
pub open spec fn pack_byte(pix: Seq<bool>, base: int) -> u8 {
    bit_if(pix[base], 1) | bit_if(pix[base + 1], 2) | bit_if(pix[base + 2], 4) | bit_if(
        pix[base + 3],
        8,
    ) | bit_if(pix[base + 4], 16) | bit_if(pix[base + 5], 32) | bit_if(pix[base + 6], 64)
        | bit_if(pix[base + 7], 128)
}

/// The 16 wire bytes of a column of 128 pixels.
pub open spec fn pack_column(pix: Seq<bool>) -> Seq<u8> {
    Seq::new(16, |j: int| pack_byte(pix, (15 - j) * 8))
}

/// A byte is the sum of its bits.
proof fn lemma_byte_from_bits(b: u8)
    ensures
        b == bit_if(b & (1u8 << 0u8) != 0, 1) | bit_if(b & (1u8 << 1u8) != 0, 2) | bit_if(
            b & (1u8 << 2u8) != 0,
            4,
        ) | bit_if(b & (1u8 << 3u8) != 0, 8) | bit_if(b & (1u8 << 4u8) != 0, 16) | bit_if(
            b & (1u8 << 5u8) != 0,
            32,
        ) | bit_if(b & (1u8 << 6u8) != 0, 64) | bit_if(b & (1u8 << 7u8) != 0, 128),
{
    assert(b == (if b & (1u8 << 0u8) != 0 {
        1u8
    } else {
        0u8
    }) | (if b & (1u8 << 1u8) != 0 {
        2u8
    } else {
        0u8
    }) | (if b & (1u8 << 2u8) != 0 {
        4u8
    } else {
        0u8
    }) | (if b & (1u8 << 3u8) != 0 {
        8u8
    } else {
        0u8
    }) | (if b & (1u8 << 4u8) != 0 {
        16u8
    } else {
        0u8
    }) | (if b & (1u8 << 5u8) != 0 {
        32u8
    } else {
        0u8
    }) | (if b & (1u8 << 6u8) != 0 {
        64u8
    } else {
        0u8
    }) | (if b & (1u8 << 7u8) != 0 {
        128u8
    } else {
        0u8
    })) by (bit_vector);
}

/// The bytes of 16-byte column are packed from its pixels, so the pixels
/// determine the bytes.
pub proof fn lemma_column_bytes(bytes: Seq<u8>)
    requires
        bytes.len() == 16,
    ensures
        bytes == pack_column(column_pixels(bytes)),
{
    let pix = column_pixels(bytes);
    assert forall|j: int| 0 <= j < 16 implies #[trigger] bytes[j] == pack_byte(pix, (15 - j) * 8) by {
        let base = (15 - j) * 8;
        assert(pix[base + 0] == (bytes[j] & (1u8 << 0u8) != 0));
        assert(pix[base + 1] == (bytes[j] & (1u8 << 1u8) != 0));
        assert(pix[base + 2] == (bytes[j] & (1u8 << 2u8) != 0));
        assert(pix[base + 3] == (bytes[j] & (1u8 << 3u8) != 0));
        assert(pix[base + 4] == (bytes[j] & (1u8 << 4u8) != 0));
        assert(pix[base + 5] == (bytes[j] & (1u8 << 5u8) != 0));
        assert(pix[base + 6] == (bytes[j] & (1u8 << 6u8) != 0));
        assert(pix[base + 7] == (bytes[j] & (1u8 << 7u8) != 0));
        lemma_byte_from_bits(bytes[j]);
    }
    assert(bytes =~= pack_column(pix));
}

/// Packing pixels into bytes loses nothing: each pixel reads back from the
/// packed column.
pub proof fn lemma_pixel_of_packed(pix: Seq<bool>, p: int)
    requires
        pix.len() == 128,
        0 <= p < 128,
    ensures
        pixel_on(pack_column(pix), p) == pix[p],
{
    let base = (p / 8) * 8;
    let k = p % 8;
    assert(15 - (15 - p / 8) == p / 8);
    assert(pack_column(pix)[15 - p / 8] == pack_byte(pix, base));
    let b0 = pix[base];
    let b1 = pix[base + 1];
    let b2 = pix[base + 2];
    let b3 = pix[base + 3];
    let b4 = pix[base + 4];
    let b5 = pix[base + 5];
    let b6 = pix[base + 6];
    let b7 = pix[base + 7];
    assert(pack_byte(pix, base) == (if b0 { 1u8 } else { 0u8 }) | (if b1 { 2u8 } else { 0u8 }) | (if b2 { 4u8 } else { 0u8 }) | (if b3 { 8u8 } else { 0u8 }) | (if b4 { 16u8 } else { 0u8 }) | (if b5 { 32u8 } else { 0u8 }) | (if b6 { 64u8 } else { 0u8 }) | (if b7 { 128u8 } else { 0u8 }));
    if k == 0 {
        assert((((if b0 { 1u8 } else { 0u8 }) | (if b1 { 2u8 } else { 0u8 }) | (if b2 { 4u8 } else { 0u8 }) | (if b3 { 8u8 } else { 0u8 }) | (if b4 { 16u8 } else { 0u8 }) | (if b5 { 32u8 } else { 0u8 }) | (if b6 { 64u8 } else { 0u8 }) | (if b7 { 128u8 } else { 0u8 })) & (1u8 << 0u8) != 0) == b0) by (bit_vector);
    }
    if k == 1 {
        assert((((if b0 { 1u8 } else { 0u8 }) | (if b1 { 2u8 } else { 0u8 }) | (if b2 { 4u8 } else { 0u8 }) | (if b3 { 8u8 } else { 0u8 }) | (if b4 { 16u8 } else { 0u8 }) | (if b5 { 32u8 } else { 0u8 }) | (if b6 { 64u8 } else { 0u8 }) | (if b7 { 128u8 } else { 0u8 })) & (1u8 << 1u8) != 0) == b1) by (bit_vector);
    }
    if k == 2 {
        assert((((if b0 { 1u8 } else { 0u8 }) | (if b1 { 2u8 } else { 0u8 }) | (if b2 { 4u8 } else { 0u8 }) | (if b3 { 8u8 } else { 0u8 }) | (if b4 { 16u8 } else { 0u8 }) | (if b5 { 32u8 } else { 0u8 }) | (if b6 { 64u8 } else { 0u8 }) | (if b7 { 128u8 } else { 0u8 })) & (1u8 << 2u8) != 0) == b2) by (bit_vector);
    }
    if k == 3 {
        assert((((if b0 { 1u8 } else { 0u8 }) | (if b1 { 2u8 } else { 0u8 }) | (if b2 { 4u8 } else { 0u8 }) | (if b3 { 8u8 } else { 0u8 }) | (if b4 { 16u8 } else { 0u8 }) | (if b5 { 32u8 } else { 0u8 }) | (if b6 { 64u8 } else { 0u8 }) | (if b7 { 128u8 } else { 0u8 })) & (1u8 << 3u8) != 0) == b3) by (bit_vector);
    }
    if k == 4 {
        assert((((if b0 { 1u8 } else { 0u8 }) | (if b1 { 2u8 } else { 0u8 }) | (if b2 { 4u8 } else { 0u8 }) | (if b3 { 8u8 } else { 0u8 }) | (if b4 { 16u8 } else { 0u8 }) | (if b5 { 32u8 } else { 0u8 }) | (if b6 { 64u8 } else { 0u8 }) | (if b7 { 128u8 } else { 0u8 })) & (1u8 << 4u8) != 0) == b4) by (bit_vector);
    }
    if k == 5 {
        assert((((if b0 { 1u8 } else { 0u8 }) | (if b1 { 2u8 } else { 0u8 }) | (if b2 { 4u8 } else { 0u8 }) | (if b3 { 8u8 } else { 0u8 }) | (if b4 { 16u8 } else { 0u8 }) | (if b5 { 32u8 } else { 0u8 }) | (if b6 { 64u8 } else { 0u8 }) | (if b7 { 128u8 } else { 0u8 })) & (1u8 << 5u8) != 0) == b5) by (bit_vector);
    }
    if k == 6 {
        assert((((if b0 { 1u8 } else { 0u8 }) | (if b1 { 2u8 } else { 0u8 }) | (if b2 { 4u8 } else { 0u8 }) | (if b3 { 8u8 } else { 0u8 }) | (if b4 { 16u8 } else { 0u8 }) | (if b5 { 32u8 } else { 0u8 }) | (if b6 { 64u8 } else { 0u8 }) | (if b7 { 128u8 } else { 0u8 })) & (1u8 << 6u8) != 0) == b6) by (bit_vector);
    }
    if k == 7 {
        assert((((if b0 { 1u8 } else { 0u8 }) | (if b1 { 2u8 } else { 0u8 }) | (if b2 { 4u8 } else { 0u8 }) | (if b3 { 8u8 } else { 0u8 }) | (if b4 { 16u8 } else { 0u8 }) | (if b5 { 32u8 } else { 0u8 }) | (if b6 { 64u8 } else { 0u8 }) | (if b7 { 128u8 } else { 0u8 })) & (1u8 << 7u8) != 0) == b7) by (bit_vector);
    }
}

/// A single 128-pixel wide raster column (16 bytes).
pub struct RasterLine([u8; 16]);

impl RasterLine {
    /// The 16 bytes of this column, in wire order.
    pub closed spec fn bytes(&self) -> Seq<u8> {
        self.0@
    }

    /// The 128 pixels of this column; index 0 is the leftmost pixel.
    pub open spec fn pixels(&self) -> Seq<bool> {
        column_pixels(self.bytes())
    }

    pub proof fn lemma_bytes_from_pixels(&self)
        ensures
            self.bytes().len() == 16,
            self.bytes() == pack_column(self.pixels()),
    {
        lemma_column_bytes(self.bytes());
    }

    /// A blank column: no pixel is inked.
    pub fn new() -> (r: Self)
        ensures
            r.bytes() == Seq::new(16, |i: int| 0u8),
            r.pixels() == Seq::new(128, |p: int| false),
    {
        let r = RasterLine([0u8; 16]);
        assert(r.bytes() =~= Seq::new(16, |i: int| 0u8));
        assert forall|p: int| 0 <= p < 128 implies !pixel_on(r.bytes(), p) by {
            let k = (p % 8) as u8;
            assert(k < 8);
            assert(0u8 & (1u8 << k) == 0) by (bit_vector);
        }
        assert(r.pixels() =~= Seq::new(128, |p: int| false));
        r
    }

    /// Set a single pixel (0 = leftmost). Out-of-range pixels are silently ignored.
    pub fn set_pixel(&mut self, pixel: usize)
        ensures
            final(self).pixels() == if pixel < 128 {
                old(self).pixels().update(pixel as int, true)
            } else {
                old(self).pixels()
            },
            final(self).bytes().len() == 16,
    {
        if pixel >= 128 {
            return;
        }
        let j: usize = 15 - pixel / 8;
        let k: u8 = (pixel % 8) as u8;
        let b: u8 = self.0[j];
        let nb: u8 = b | (1u8 << k);
        self.0[j] = nb;
        proof {
            let ob = old(self).bytes();
            let nbytes = self.bytes();
            assert(nbytes == ob.update(j as int, nb));
            assert forall|q: int| 0 <= q < 128 implies #[trigger] pixel_on(nbytes, q) == (q
                == pixel || pixel_on(ob, q)) by {
                let kq = (q % 8) as u8;
                assert(kq < 8);
                if 15 - q / 8 == j {
                    assert(q / 8 == pixel / 8);
                    assert(nbytes[15 - q / 8] == nb);
                    assert(ob[15 - q / 8] == b);
                    assert((q == pixel) == (kq == k));
                    assert(k < 8 && kq < 8 ==> ((b | (1u8 << k)) & (1u8 << kq) != 0) == (kq == k
                        || b & (1u8 << kq) != 0)) by (bit_vector);
                } else {
                    assert(q != pixel);
                    assert(nbytes[15 - q / 8] == ob[15 - q / 8]);
                }
            }
            assert(self.pixels() =~= old(self).pixels().update(pixel as int, true));
        }
    }

    /// Encode for standard (non-PackBits) printers:
    ///   0x47 [0x10] 0x00 [16 bytes]
    pub fn encode_standard(&self) -> (out: Vec<u8>)
        ensures
            out@ == seq![0x47u8, 16u8, 0u8] + self.bytes(),
            out@ == seq![0x47u8, 16u8, 0u8] + pack_column(self.pixels()),
    {
        proof {
            self.lemma_bytes_from_pixels();
        }
        let mut out: Vec<u8> = Vec::with_capacity(19);
        out.push(0x47);
        out.push(16);
        out.push(0x00);
        push_column(&mut out, &self.0);
        out
    }

    /// Encode for PackBits-capable printers (trivial/uncompressed run):
    ///   0x47 [0x11] 0x00 [0x0F] [16 bytes]
    ///
    /// The PackBits literal-run byte 0x0F means "copy next 16 bytes" (N+1 bytes).
    pub fn encode_packbits(&self) -> (out: Vec<u8>)
        ensures
            out@ == seq![0x47u8, 17u8, 0u8, 15u8] + self.bytes(),
            out@ == seq![0x47u8, 17u8, 0u8, 15u8] + pack_column(self.pixels()),
    {
        proof {
            self.lemma_bytes_from_pixels();
        }
        let mut out: Vec<u8> = Vec::with_capacity(20);
        out.push(0x47);
        out.push(17);  // total payload length (1 header + 16 data)
        out.push(0x00);  // reserved
        out.push(15);  // PackBits: literal run of 15+1 = 16 bytes
        push_column(&mut out, &self.0);
        out
    }

    /// Empty raster line command (no printing, tape advances)
    pub fn encode_empty() -> (r: &'static [u8])
        ensures
            r@ == seq![0x5Au8],
    {
        &CMD_EMPTY_RASTER_LINE
    }
}

/// Append the 16 column bytes to `out`.
fn push_column(out: &mut Vec<u8>, bytes: &[u8; 16])
    ensures
        final(out)@ == old(out)@ + bytes@,
{
    let mut i: usize = 0;
    while i < 16
        invariant
            0 <= i <= 16,
            bytes@.len() == 16,
            out@ == old(out)@ + bytes@.take(i as int),
        decreases 16 - i,
    {
        out.push(bytes[i]);
        assert(bytes@.take(i + 1) =~= bytes@.take(i as int).push(bytes@[i as int]));
        i = i + 1;
    }
    assert(bytes@.take(16) =~= bytes@);
}

/// First raster pixel that receives bitmap row `height - 1`: the bitmap is
/// centered within the printer's raster field.
pub open spec fn raster_offset(height: u32, max_px: u32) -> int {
    if max_px / 2 >= height / 2 {
        max_px / 2 - height / 2
    } else {
        0
    }
}

/// The raster pixels for column `col` of a row-major bitmap: raster pixel
/// `offset + i` is inked when bitmap row `height - 1 - i` is non-zero there.
pub open spec fn raster_column(pixels: Seq<u8>, width: u32, height: u32, max_px: u32, col: int) -> Seq<
    bool,
> {
    let off = raster_offset(height, max_px);
    Seq::new(
        128,
        |p: int|
            off <= p < off + height && pixels[(height - 1 - (p - off)) * width + col] > 0,
    )
}

proof fn lemma_index_in_grid(row: int, col: int, w: int, h: int)
    requires
        0 <= row < h,
        0 <= col < w,
    ensures
        0 <= row * w + col < h * w,
{
    assert(row * w + col < h * w) by (nonlinear_arith)
        requires
            0 <= row < h,
            0 <= col < w,
    ;
    assert(0 <= row * w) by (nonlinear_arith)
        requires
            0 <= row,
            0 <= w,
    ;
}

/// Build a vec of raster lines from a label bitmap, applying centering.
///
/// `bitmap_pixels` is row-major (row 0 = top), 0 = white, non-zero = ink.
/// `bitmap_width` = number of columns, `bitmap_height` = tape height in pixels.
/// `max_px` = printer's maximum raster width (usually 128).
///
/// The image is centered vertically within the 128-pixel raster field.
pub fn bitmap_to_raster_lines(
    bitmap_pixels: &[u8],
    bitmap_width: u32,
    bitmap_height: u32,
    max_px: u32,
) -> (lines: Vec<RasterLine>)
    requires
        bitmap_pixels@.len() >= bitmap_width as int * bitmap_height as int,
    ensures
        lines@.len() == bitmap_width,
        forall|c: int|
            0 <= c < bitmap_width ==> (#[trigger] lines@[c]).pixels() == raster_column(
                bitmap_pixels@,
                bitmap_width,
                bitmap_height,
                max_px,
                c,
            ),
{
    let half_max = max_px / 2;
    let half_h = bitmap_height / 2;
    let offset: usize = if half_max >= half_h {
        (half_max - half_h) as usize
    } else {
        0
    };
    let w = bitmap_width as usize;
    let h = bitmap_height as usize;
    let ghost off = raster_offset(bitmap_height, max_px);
    assert(offset == off);

    let n = bitmap_pixels.len();
    let mut lines: Vec<RasterLine> = Vec::new();
    let mut col: usize = 0;
    while col < w
        invariant
            0 <= col <= w,
            w == bitmap_width,
            h == bitmap_height,
            offset == raster_offset(bitmap_height, max_px),
            bitmap_pixels@.len() >= bitmap_width as int * bitmap_height as int,
            n == bitmap_pixels@.len(),
            lines@.len() == col,
            forall|c: int|
                0 <= c < col ==> (#[trigger] lines@[c]).pixels() == raster_column(
                    bitmap_pixels@,
                    bitmap_width,
                    bitmap_height,
                    max_px,
                    c,
                ),
        decreases w - col,
    {
        let mut line = RasterLine::new();
        let mut i: usize = 0;
        while i < h
            invariant
                0 <= i <= h,
                0 <= col < w,
                w == bitmap_width,
                h == bitmap_height,
                offset == raster_offset(bitmap_height, max_px),
                bitmap_pixels@.len() >= bitmap_width as int * bitmap_height as int,
                n == bitmap_pixels@.len(),
                line.pixels() == Seq::new(
                    128,
                    |p: int|
                        offset <= p < offset + i && bitmap_pixels@[(bitmap_height - 1 - (p
                            - offset)) * bitmap_width + col] > 0,
                ),
            decreases h - i,
        {
            // Mirror the row axis: raster pixel offset+i takes bitmap row h-1-i.
            let row = h - 1 - i;
            proof {
                lemma_index_in_grid(row as int, col as int, w as int, h as int);
            }
            let ghost before = line.pixels();
            if bitmap_pixels[row * w + col] > 0 {
                if offset < 128 && i < 128 - offset {
                    line.set_pixel(offset + i);
                }
            }
            assert(line.pixels() =~= Seq::new(
                128,
                |p: int|
                    offset <= p < offset + (i + 1) && bitmap_pixels@[(bitmap_height - 1 - (p
                        - offset)) * bitmap_width + col] > 0,
            ));
            i = i + 1;
        }
        assert(line.pixels() =~= raster_column(
            bitmap_pixels@,
            bitmap_width,
            bitmap_height,
            max_px,
            col as int,
        ));
        lines.push(line);
        col = col + 1;
    }
    lines
}

} // verus!
