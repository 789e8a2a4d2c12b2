//! Raster images for thermal printing: RGBA → gray conversion,
//! Floyd–Steinberg dithering to 1-bit, and the ESC/POS `GS v 0` raster
//! encoding of a page.

use vstd::prelude::*;

use crate::text::{push_all, str_eq};

verus! {

/// A rendered page: `width × height` pixels, 4 bytes each (R, G, B, A),
/// row-major from the top-left corner.
pub struct RgbaRaster {
    pub width: u32,
    pub height: u32,
    pub data: Vec<u8>,
}

/// A gray image: one byte per pixel (0 = black, 255 = white), row-major.
pub struct GrayRaster {
    pub width: u32,
    pub height: u32,
    pub pixels: Vec<u8>,
}

impl RgbaRaster {
    pub open spec fn wf(&self) -> bool {
        self.data@.len() == 4 * (self.width * self.height)
    }
}

impl GrayRaster {
    pub open spec fn wf(&self) -> bool {
        self.pixels@.len() == self.width * self.height
    }
}

/// Index of pixel `(x, y)` in a row-major buffer of rows of `w` pixels.
pub open spec fn cell(w: int, x: int, y: int) -> int {
    y * w + x
}

proof fn lemma_cell(w: int, h: int, x: int, y: int)
    requires
        0 <= x < w,
        0 <= y < h,
    ensures
        0 <= cell(w, x, y) < w * h,
        cell(w, x, y) + w == cell(w, x, y + 1),
        cell(w, x, y) - x + w <= w * h,
{
    assert(0 <= y * w + x < w * h) by (nonlinear_arith)
        requires
            0 <= x < w,
            0 <= y < h,
    ;
    assert(y * w + w == (y + 1) * w) by (nonlinear_arith);
    assert(y * w + w <= w * h) by (nonlinear_arith)
        requires
            0 <= y < h,
            0 <= w,
    ;
}

// ───────────────────────── gray conversion ─────────────────────────

/// ITU-R 601 luma with integer weights, as the printing pipeline computes it.
pub open spec fn luma(r: u8, g: u8, b: u8) -> u8 {
    ((r as int * 299 + g as int * 587 + b as int * 114) / 1000) as u8
}

/// Gray version of an RGBA raster (alpha is ignored).
/// Gray levels of the first `n` pixels of RGBA data.
pub open spec fn gray_pixels(data: Seq<u8>, n: nat) -> Seq<u8> {
    Seq::new(n, |i: int| luma(data[4 * i], data[4 * i + 1], data[4 * i + 2]))
}

pub fn gray_from_rgba(img: &RgbaRaster) -> (g: GrayRaster)
    requires
        img.wf(),
    ensures
        g.wf(),
        g.width == img.width,
        g.height == img.height,
        g.pixels@ == gray_pixels(img.data@, (img.width * img.height) as nat),
        forall|i: int|
            0 <= i < g.pixels@.len() ==> #[trigger] g.pixels@[i] == luma(
                img.data@[4 * i],
                img.data@[4 * i + 1],
                img.data@[4 * i + 2],
            ),
{
    let dl = img.data.len();
    let n = dl / 4;
    let mut pixels: Vec<u8> = Vec::new();
    let mut i: usize = 0;
    while i < n
        invariant
            dl == img.data@.len(),
            n == img.width * img.height,
            img.data@.len() == 4 * n,
            i <= n,
            pixels@.len() == i,
            forall|k: int|
                0 <= k < i ==> #[trigger] pixels@[k] == luma(
                    img.data@[4 * k],
                    img.data@[4 * k + 1],
                    img.data@[4 * k + 2],
                ),
        decreases n - i,
    {
        let r = img.data[4 * i] as u32;
        let g = img.data[4 * i + 1] as u32;
        let b = img.data[4 * i + 2] as u32;
        let l = (r * 299 + g * 587 + b * 114) / 1000;
        assert(l <= 255);
        pixels.push(l as u8);
        i += 1;
    }
    assert(pixels@ =~= gray_pixels(img.data@, (img.width * img.height) as nat));
    GrayRaster { width: img.width, height: img.height, pixels }
}

// ───────────────────────── Floyd–Steinberg dithering ─────────────────────────

/// 1-bit threshold: below 128 is black (0), otherwise white (255).
pub open spec fn threshold(v: int) -> int {
    if v < 128 {
        0
    } else {
        255
    }
}

/// Integer division by 16 rounding toward zero (Rust's `/` on `i32`).
pub open spec fn div16(a: int) -> int {
    if a >= 0 {
        a / 16
    } else {
        -((-a) / 16)
    }
}

pub open spec fn clamp_byte(v: int) -> int {
    if v < 0 {
        0
    } else if v > 255 {
        255
    } else {
        v
    }
}

/// Adds `err * frac / 16` to pixel `(nx, ny)` of the working buffer, clamped
/// to 0..=255; neighbours outside the image are left alone.
pub open spec fn diffuse(b: Seq<i32>, w: int, h: int, nx: int, ny: int, err: int, frac: int) -> Seq<
    i32,
> {
    if 0 <= nx < w && 0 <= ny < h {
        let i = cell(w, nx, ny);
        b.update(i, clamp_byte(b[i] + div16(err * frac)) as i32)
    } else {
        b
    }
}

/// Quantizes pixel `(x, y)` and spreads its error with the Floyd–Steinberg
/// weights 7/16 (right), 3/16 (below left), 5/16 (below), 1/16 (below right).
pub open spec fn dither_pixel(b: Seq<i32>, w: int, h: int, x: int, y: int) -> Seq<i32> {
    let i = cell(w, x, y);
    let old = b[i] as int;
    let err = old - threshold(old);
    let b1 = b.update(i, threshold(old) as i32);
    let b2 = diffuse(b1, w, h, x + 1, y, err, 7);
    let b3 = diffuse(b2, w, h, x - 1, y + 1, err, 3);
    let b4 = diffuse(b3, w, h, x, y + 1, err, 5);
    diffuse(b4, w, h, x + 1, y + 1, err, 1)
}

/// The buffer after the first `x` pixels of row `y` were processed.
pub open spec fn dither_row(b: Seq<i32>, w: int, h: int, y: int, x: int) -> Seq<i32>
    decreases x,
{
    if x <= 0 {
        b
    } else {
        dither_pixel(dither_row(b, w, h, y, x - 1), w, h, x - 1, y)
    }
}

/// The buffer after the first `y` rows were processed.
pub open spec fn dither_rows(b: Seq<i32>, w: int, h: int, y: int) -> Seq<i32>
    decreases y,
{
    if y <= 0 {
        b
    } else {
        dither_row(dither_rows(b, w, h, y - 1), w, h, y - 1, w)
    }
}

/// Floyd–Steinberg dithering of a `w × h` gray image, scanning rows top to
/// bottom and each row left to right.
pub open spec fn dithered(pixels: Seq<u8>, w: int, h: int) -> Seq<u8> {
    dither_rows(pixels.map_values(|p: u8| p as i32), w, h, h).map_values(|v: i32| v as u8)
}

pub open spec fn in_byte_range(b: Seq<i32>) -> bool {
    forall|i: int| 0 <= i < b.len() ==> 0 <= #[trigger] b[i] <= 255
}

fn div16_exec(a: i32) -> (r: i32)
    requires
        -4096 <= a <= 4096,
    ensures
        r == div16(a as int),
{
    if a >= 0 {
        a / 16
    } else {
        -((-a) / 16)
    }
}

fn diffuse_at(buf: &mut Vec<i32>, w: usize, h: usize, nx: usize, ny: usize, err: i32, frac: i32)
    requires
        old(buf)@.len() == w * h,
        nx < w,
        ny < h,
        -255 <= err <= 255,
        1 <= frac <= 7,
        in_byte_range(old(buf)@),
    ensures
        final(buf)@ == diffuse(old(buf)@, w as int, h as int, nx as int, ny as int, err as int, frac as int),
        final(buf)@.len() == old(buf)@.len(),
        forall|j: int| 0 <= j < old(buf)@.len() && j != cell(w as int, nx as int, ny as int) ==> #[trigger] final(buf)@[j] == old(buf)@[j],
        in_byte_range(final(buf)@),
{
    let bl = buf.len();
    proof {
        lemma_cell(w as int, h as int, nx as int, ny as int);
    }
    let i = ny * w + nx;
    assert(-1785 <= err * frac <= 1785) by (nonlinear_arith)
        requires
            -255 <= err <= 255,
            1 <= frac <= 7,
    ;
    let d = div16_exec(err * frac);
    let v = buf[i] + d;
    let c = if v < 0 {
        0
    } else if v > 255 {
        255
    } else {
        v
    };
    buf.set(i, c);
}

/// Floyd–Steinberg dithering to black (0) and white (255).
///
/// Every pixel of the result is 0 or 255, and the result is exactly the
/// raster scan described by [`dithered`].
pub fn floyd_steinberg(src: &GrayRaster) -> (r: GrayRaster)
    requires
        src.wf(),
    ensures
        r.wf(),
        r.width == src.width,
        r.height == src.height,
        r.pixels@ == dithered(src.pixels@, src.width as int, src.height as int),
        forall|i: int| 0 <= i < r.pixels@.len() ==> #[trigger] r.pixels@[i] == 0 || r.pixels@[i] == 255,
{
    let w = src.width as usize;
    let h = src.height as usize;
    let n = src.pixels.len();
    let ghost wi = w as int;
    let ghost hi = h as int;
    let mut buf: Vec<i32> = Vec::new();
    let mut k: usize = 0;
    while k < n
        invariant
            n == src.pixels@.len(),
            k <= n,
            buf@ == src.pixels@.take(k as int).map_values(|p: u8| p as i32),
        decreases n - k,
    {
        buf.push(src.pixels[k] as i32);
        assert(src.pixels@.take(k + 1).map_values(|p: u8| p as i32) =~= src.pixels@.take(
            k as int,
        ).map_values(|p: u8| p as i32).push(src.pixels@[k as int] as i32));
        k += 1;
    }
    let ghost b0 = src.pixels@.map_values(|p: u8| p as i32);
    assert(src.pixels@.take(n as int) =~= src.pixels@);
    assert(buf@ == b0);
    let mut y: usize = 0;
    while y < h
        invariant
            w == src.width,
            h == src.height,
            wi == w,
            hi == h,
            n == w * h,
            y <= h,
            buf@.len() == n,
            buf@ == dither_rows(b0, wi, hi, y as int),
            in_byte_range(buf@),
            forall|j: int| 0 <= j < cell(wi, 0, y as int) ==> #[trigger] buf@[j] == 0 || buf@[j] == 255,
        decreases h - y,
    {
        let mut x: usize = 0;
        let ghost row_start = buf@;
        while x < w
            invariant
                w == src.width,
                h == src.height,
                wi == w,
                hi == h,
                n == w * h,
                y < h,
                x <= w,
                buf@.len() == n,
                row_start == dither_rows(b0, wi, hi, y as int),
                buf@ == dither_row(row_start, wi, hi, y as int, x as int),
                in_byte_range(buf@),
                forall|j: int| 0 <= j < cell(wi, x as int, y as int) ==> #[trigger] buf@[j] == 0 || buf@[j] == 255,
            decreases w - x,
        {
            proof {
                lemma_cell(wi, hi, x as int, y as int);
            }
            let ghost before = buf@;
            let i = y * w + x;
            let old = buf[i];
            let new: i32 = if old < 128 {
                0
            } else {
                255
            };
            buf.set(i, new);
            let err = old - new;
            let ghost set_state = buf@;
            proof {
                assert(cell(wi, x as int, y as int + 1) == i + w);
            }
            if x + 1 < w {
                diffuse_at(&mut buf, w, h, x + 1, y, err, 7);
            }
            if x >= 1 && y + 1 < h {
                diffuse_at(&mut buf, w, h, x - 1, y + 1, err, 3);
            }
            if y + 1 < h {
                diffuse_at(&mut buf, w, h, x, y + 1, err, 5);
            }
            if x + 1 < w && y + 1 < h {
                diffuse_at(&mut buf, w, h, x + 1, y + 1, err, 1);
            }
            proof {
                assert(buf@ == dither_pixel(before, wi, hi, x as int, y as int));
                assert(cell(wi, x as int + 1, y as int) == i + 1);
                assert forall|j: int| 0 <= j < cell(wi, x as int + 1, y as int) implies #[trigger] buf@[j]
                    == 0 || buf@[j] == 255 by {
                    if j < i {
                        assert(buf@[j] == before[j]);
                    }
                }
            }
            x += 1;
        }
        proof {
            assert(cell(wi, wi, y as int) == cell(wi, 0, y as int + 1)) by (nonlinear_arith);
        }
        y += 1;
    }
    proof {
        assert(cell(wi, 0, hi) == n) by (nonlinear_arith)
            requires
                n == wi * hi,
        ;
    }
    let mut pixels: Vec<u8> = Vec::new();
    let mut k: usize = 0;
    while k < n
        invariant
            n == buf@.len(),
            k <= n,
            in_byte_range(buf@),
            pixels@ == buf@.take(k as int).map_values(|v: i32| v as u8),
            forall|j: int| 0 <= j < n ==> #[trigger] buf@[j] == 0 || buf@[j] == 255,
        decreases n - k,
    {
        pixels.push(buf[k] as u8);
        assert(buf@.take(k + 1).map_values(|v: i32| v as u8) =~= buf@.take(k as int).map_values(
            |v: i32| v as u8,
        ).push(buf@[k as int] as u8));
        k += 1;
    }
    proof {
        assert(buf@.take(n as int) =~= buf@);
    }
    GrayRaster { width: src.width, height: src.height, pixels }
}

// ───────────────────────── ESC/POS GS v 0 raster ─────────────────────────

/// Whether pixel `(x, y)` is printed as a black dot.
pub open spec fn is_dark(pixels: Seq<u8>, w: int, x: int, y: int) -> bool {
    pixels[cell(w, x, y)] < 128
}

/// Bit `k` (0 = leftmost, most significant) of a raster byte.
pub open spec fn dot_bit(v: u8, k: u8) -> bool {
    (v >> ((7 - k) as u8)) & 1u8 == 1u8
}

/// The raster byte for dots `8b .. 8b+7` of row `y`, after its first `n`
/// bits were filled: a bit is set for each dark pixel inside the image.
pub open spec fn pack_bits(pixels: Seq<u8>, w: int, y: int, b: int, n: int) -> u8
    decreases n,
{
    if n <= 0 {
        0
    } else {
        let prev = pack_bits(pixels, w, y, b, n - 1);
        let x = b * 8 + (n - 1);
        if x < w && is_dark(pixels, w, x, y) {
            prev | (1u8 << ((7 - (n - 1)) as u8))
        } else {
            prev
        }
    }
}

pub open spec fn row_bytes(pixels: Seq<u8>, w: int, y: int, bpr: int) -> Seq<u8> {
    Seq::new(bpr as nat, |b: int| pack_bits(pixels, w, y, b, 8))
}

/// The raster bytes of the first `y` rows.
pub open spec fn raster_body(pixels: Seq<u8>, w: int, bpr: int, y: int) -> Seq<u8>
    decreases y,
{
    if y <= 0 {
        seq![]
    } else {
        raster_body(pixels, w, bpr, y - 1) + row_bytes(pixels, w, y - 1, bpr)
    }
}

pub open spec fn bytes_per_row(w: u32) -> u32 {
    ((w as int + 7) / 8) as u32
}

/// `GS v 0 m xL xH yL yH`: the raster command header in normal mode.
pub open spec fn gsv0_header(w: u32, h: u32) -> Seq<u8> {
    let bpr = bytes_per_row(w);
    seq![
        0x1du8,
        0x76u8,
        0x30u8,
        0x00u8,
        (bpr & 0xff) as u8,
        ((bpr >> 8u32) & 0xff) as u8,
        (h & 0xff) as u8,
        ((h >> 8u32) & 0xff) as u8,
    ]
}

/// The complete `GS v 0` command for a `w × h` image.
pub open spec fn gsv0_bytes(pixels: Seq<u8>, w: u32, h: u32) -> Seq<u8> {
    gsv0_header(w, h) + raster_body(pixels, w as int, bytes_per_row(w) as int, h as int)
}

proof fn lemma_set_dot(v: u8, t: u8, k: u8)
    requires
        t < 8,
        k < 8,
    ensures
        dot_bit(v | (1u8 << ((7 - t) as u8)), k) == (k == t || dot_bit(v, k)),
{
    assert(dot_bit(v | (1u8 << ((7 - t) as u8)), k) == (k == t || dot_bit(v, k))) by (bit_vector)
        requires
            t < 8,
            k < 8,
    ;
}

proof fn lemma_zero_dots(k: u8)
    requires
        k < 8,
    ensures
        !dot_bit(0u8, k),
{
    assert(!dot_bit(0u8, k)) by (bit_vector)
        requires
            k < 8,
    ;
}

/// Bit `k` of a packed byte is set exactly for the dark pixels among the
/// first `n` dots.
proof fn lemma_pack_bits(pixels: Seq<u8>, w: int, y: int, b: int, n: int, k: u8)
    requires
        0 <= n <= 8,
        k < 8,
    ensures
        dot_bit(pack_bits(pixels, w, y, b, n), k) == (k < n && b * 8 + k < w && is_dark(
            pixels,
            w,
            b * 8 + k,
            y,
        )),
    decreases n,
{
    if n == 0 {
        lemma_zero_dots(k);
    } else {
        lemma_pack_bits(pixels, w, y, b, n - 1, k);
        let prev = pack_bits(pixels, w, y, b, n - 1);
        let x = b * 8 + (n - 1);
        if x < w && is_dark(pixels, w, x, y) {
            lemma_set_dot(prev, (n - 1) as u8, k);
        }
    }
}

proof fn lemma_raster_body_len(pixels: Seq<u8>, w: int, bpr: int, rows: int)
    requires
        0 <= bpr,
        0 <= rows,
    ensures
        raster_body(pixels, w, bpr, rows).len() == rows * bpr,
    decreases rows,
{
    if rows > 0 {
        lemma_raster_body_len(pixels, w, bpr, rows - 1);
        assert((rows - 1) * bpr + bpr == rows * bpr) by (nonlinear_arith);
    } else {
        assert(rows * bpr == 0) by (nonlinear_arith)
            requires
                rows == 0,
        ;
    }
}

proof fn lemma_raster_body_index(pixels: Seq<u8>, w: int, bpr: int, rows: int, y: int, b: int)
    requires
        0 <= y < rows,
        0 <= b < bpr,
    ensures
        raster_body(pixels, w, bpr, rows).len() == rows * bpr,
        raster_body(pixels, w, bpr, rows)[y * bpr + b] == pack_bits(pixels, w, y, b, 8),
    decreases rows,
{
    lemma_raster_body_len(pixels, w, bpr, rows);
    lemma_raster_body_len(pixels, w, bpr, rows - 1);
    let prefix = raster_body(pixels, w, bpr, rows - 1);
    assert(raster_body(pixels, w, bpr, rows) == prefix + row_bytes(pixels, w, rows - 1, bpr));
    if y < rows - 1 {
        lemma_raster_body_index(pixels, w, bpr, rows - 1, y, b);
        assert(y * bpr + b < (rows - 1) * bpr) by (nonlinear_arith)
            requires
                0 <= y < rows - 1,
                0 <= b < bpr,
        ;
    } else {
        assert(y * bpr == (rows - 1) * bpr);
        assert(0 <= y * bpr) by (nonlinear_arith)
            requires
                0 <= y,
                0 <= bpr,
        ;
    }
}

/// Decoding the `GS v 0` command gives back the 1-bit image: bit `k` of
/// byte `b` of row `y` is set exactly when dot `8b + k` of that row lies
/// inside the image and its gray level is below 128.
pub proof fn lemma_gsv0_dots(pixels: Seq<u8>, w: u32, h: u32, y: int, b: int, k: u8)
    requires
        0 <= y < h,
        0 <= b < bytes_per_row(w),
        k < 8,
        w as int + 7 <= u32::MAX,
    ensures
        gsv0_bytes(pixels, w, h).len() == 8 + h * bytes_per_row(w),
        dot_bit(gsv0_bytes(pixels, w, h)[8 + y * bytes_per_row(w) + b], k) == (b * 8 + k < w
            && is_dark(pixels, w as int, b * 8 + k, y)),
{
    let bpr = bytes_per_row(w) as int;
    lemma_raster_body_index(pixels, w as int, bpr, h as int, y, b);
    lemma_pack_bits(pixels, w as int, y, b, 8, k);
    let body = raster_body(pixels, w as int, bpr, h as int);
    assert(y * bpr + b < h * bpr) by (nonlinear_arith)
        requires
            0 <= y < h,
            0 <= b < bpr,
    ;
    assert(0 <= y * bpr) by (nonlinear_arith)
        requires
            0 <= y,
            0 <= bpr,
    ;
    assert(gsv0_header(w, h).len() == 8);
    assert(gsv0_bytes(pixels, w, h)[8 + y * bpr + b] == body[y * bpr + b]);
}

/// Encodes a gray image as an ESC/POS `GS v 0` raster command (normal
/// density); a pixel below 128 becomes a black dot.
pub fn raster_to_escpos_gsvzero(img: &GrayRaster) -> (out: Vec<u8>)
    requires
        img.wf(),
        img.width as int + 7 <= u32::MAX,
    ensures
        out@ == gsv0_bytes(img.pixels@, img.width, img.height),
{
    let w = img.width;
    let h = img.height;
    let bpr = (w + 7) / 8;
    let xl = (bpr & 0xFF) as u8;
    let xh = ((bpr >> 8) & 0xFF) as u8;
    let yl = (h & 0xFF) as u8;
    let yh = ((h >> 8) & 0xFF) as u8;
    let mut out: Vec<u8> = vec![0x1d, 0x76, 0x30, 0x00, xl, xh, yl, yh];
    let ghost pixels = img.pixels@;
    let ghost wi = w as int;
    let ghost bi = bpr as int;
    assert(out@ =~= gsv0_header(w, h));
    assert(raster_body(pixels, wi, bi, 0) =~= seq![]);
    let mut y: u32 = 0;
    while y < h
        invariant
            w == img.width,
            h == img.height,
            wi == w,
            bi == bpr,
            bpr == bytes_per_row(w),
            w as int + 7 <= u32::MAX,
            pixels == img.pixels@,
            img.wf(),
            y <= h,
            out@ == gsv0_header(w, h) + raster_body(pixels, wi, bi, y as int),
        decreases h - y,
    {
        let mut b: u32 = 0;
        while b < bpr
            invariant
                w == img.width,
                h == img.height,
                wi == w,
                bi == bpr,
                bpr == bytes_per_row(w),
                w as int + 7 <= u32::MAX,
                pixels == img.pixels@,
                img.wf(),
                y < h,
                b <= bpr,
                out@ == gsv0_header(w, h) + raster_body(pixels, wi, bi, y as int) + row_bytes(
                    pixels,
                    wi,
                    y as int,
                    bi,
                ).take(b as int),
            decreases bpr - b,
        {
            let mut byte: u8 = 0;
            let mut bit: u32 = 0;
            while bit < 8
                invariant
                    w == img.width,
                    h == img.height,
                    wi == w,
                    bpr == bytes_per_row(w),
                    w as int + 7 <= u32::MAX,
                    pixels == img.pixels@,
                    img.wf(),
                    y < h,
                    b < bpr,
                    bit <= 8,
                    byte == pack_bits(pixels, wi, y as int, b as int, bit as int),
                decreases 8 - bit,
            {
                let x = b * 8 + bit;
                if x < w {
                    let plen = img.pixels.len();
                    proof {
                        lemma_cell(wi, h as int, x as int, y as int);
                    }
                    let pixel = img.pixels[(y as usize) * (w as usize) + (x as usize)];
                    if pixel < 128 {
                        let sh: u8 = (7 - bit) as u8;
                        byte = byte | (1u8 << sh);
                    }
                }
                bit += 1;
            }
            out.push(byte);
            proof {
                assert(row_bytes(pixels, wi, y as int, bi).take(b + 1) =~= row_bytes(
                    pixels,
                    wi,
                    y as int,
                    bi,
                ).take(b as int).push(byte));
            }
            b += 1;
        }
        proof {
            assert(row_bytes(pixels, wi, y as int, bi).take(bi) =~= row_bytes(
                pixels,
                wi,
                y as int,
                bi,
            ));
            assert(raster_body(pixels, wi, bi, y + 1) == raster_body(pixels, wi, bi, y as int)
                + row_bytes(pixels, wi, y as int, bi));
        }
        y += 1;
    }
    out
}

// ───────────────────────── ESC/POS page document ─────────────────────────

/// `ESC @`: printer initialization.
pub open spec fn esc_init() -> Seq<u8> {
    seq![0x1bu8, 0x40u8]
}

/// Three line feeds followed by `GS V B 0` (feed and cut).
pub open spec fn feed_and_cut() -> Seq<u8> {
    seq![0x0au8, 0x0au8, 0x0au8, 0x1du8, 0x56u8, 0x42u8, 0x00u8]
}

/// The bytes printed for one rendered page: gray conversion, dithering,
/// `GS v 0` raster, then a line feed.
pub open spec fn page_escpos(p: RgbaRaster) -> Seq<u8> {
    let g = gray_pixels(p.data@, (p.width * p.height) as nat);
    gsv0_bytes(dithered(g, p.width as int, p.height as int), p.width, p.height) + seq![0x0au8]
}

pub open spec fn pages_escpos(pages: Seq<RgbaRaster>) -> Seq<u8>
    decreases pages.len(),
{
    if pages.len() == 0 {
        seq![]
    } else {
        pages_escpos(pages.drop_last()) + page_escpos(pages.last())
    }
}

/// The stream of pages `a` followed by pages `b` is the stream of `a`
/// followed by the stream of `b`: every page is printed, in order.
pub proof fn lemma_pages_escpos_concat(a: Seq<RgbaRaster>, b: Seq<RgbaRaster>)
    ensures
        pages_escpos(a + b) == pages_escpos(a) + pages_escpos(b),
    decreases b.len(),
{
    if b.len() == 0 {
        assert(a + b =~= a);
        assert(pages_escpos(a) + pages_escpos(b) =~= pages_escpos(a));
    } else {
        lemma_pages_escpos_concat(a, b.drop_last());
        assert((a + b).drop_last() =~= a + b.drop_last());
        assert((a + b).last() == b.last());
        assert(pages_escpos(a + b) =~= pages_escpos(a) + pages_escpos(b));
    }
}

/// One page gives exactly its own raster command and line feed.
pub proof fn lemma_pages_escpos_single(p: RgbaRaster)
    ensures
        pages_escpos(seq![p]) == page_escpos(p),
{
    assert(seq![p].drop_last() =~= Seq::<RgbaRaster>::empty());
    assert(pages_escpos(Seq::<RgbaRaster>::empty()) =~= Seq::<u8>::empty());
    assert(pages_escpos(seq![p]) =~= page_escpos(p));
}

/// Page `i` of the document appears in the stream right after the pages
/// before it and right before the pages after it.
pub proof fn lemma_page_in_stream(pages: Seq<RgbaRaster>, i: int)
    requires
        0 <= i < pages.len(),
    ensures
        pages_escpos(pages) == pages_escpos(pages.take(i)) + page_escpos(pages[i]) + pages_escpos(
            pages.skip(i + 1),
        ),
{
    assert(pages =~= pages.take(i) + seq![pages[i]] + pages.skip(i + 1));
    lemma_pages_escpos_concat(pages.take(i) + seq![pages[i]], pages.skip(i + 1));
    lemma_pages_escpos_concat(pages.take(i), seq![pages[i]]);
    lemma_pages_escpos_single(pages[i]);
}

/// The bytes a page takes: the 8-byte header, `ceil(width / 8)` bytes for
/// each of its rows, and the line feed.
pub open spec fn page_len(p: RgbaRaster) -> int {
    8 + p.height * ((p.width + 7) / 8) + 1
}

/// The length of the stream of `pages`, page by page from the first.
pub open spec fn stream_len(pages: Seq<RgbaRaster>) -> int
    decreases pages.len(),
{
    if pages.len() == 0 {
        0
    } else {
        page_len(pages[0]) + stream_len(pages.drop_first())
    }
}

/// A page of the stream has the length of its header, rows and line feed.
pub proof fn lemma_page_escpos_len(p: RgbaRaster)
    requires
        p.width as int + 7 <= u32::MAX,
    ensures
        page_escpos(p).len() == page_len(p),
{
    let g = gray_pixels(p.data@, (p.width * p.height) as nat);
    let bpr = bytes_per_row(p.width) as int;
    assert(bpr == (p.width + 7) / 8);
    lemma_raster_body_len(dithered(g, p.width as int, p.height as int), p.width as int, bpr, p.height as int);
}

/// The stream of printable pages is as long as all its pages together: it
/// grows by the length of each page added.
pub proof fn lemma_pages_escpos_len(pages: Seq<RgbaRaster>)
    requires
        forall|i: int| 0 <= i < pages.len() ==> (#[trigger] pages[i]).width as int + 7 <= u32::MAX,
    ensures
        pages_escpos(pages).len() == stream_len(pages),
    decreases pages.len(),
{
    if pages.len() > 0 {
        let rest = pages.drop_first();
        assert forall|i: int| 0 <= i < rest.len() implies (#[trigger] rest[i]).width as int + 7
            <= u32::MAX by {
            assert(rest[i] == pages[i + 1]);
        }
        lemma_pages_escpos_len(rest);
        assert(pages =~= seq![pages[0]] + rest);
        lemma_pages_escpos_concat(seq![pages[0]], rest);
        lemma_pages_escpos_single(pages[0]);
        lemma_page_escpos_len(pages[0]);
    }
}

pub open spec fn printable_page(p: RgbaRaster) -> bool {
    p.wf() && p.width as int + 7 <= u32::MAX
}

/// Builds the ESC/POS stream that prints the rendered pages of a PDF on a
/// thermal printer: `ESC @`, one raster command per page, then feed and cut.
pub fn pdf_to_escpos(pages: &Vec<RgbaRaster>) -> (out: Vec<u8>)
    requires
        forall|i: int| 0 <= i < pages@.len() ==> printable_page(#[trigger] pages@[i]),
    ensures
        out@ == esc_init() + pages_escpos(pages@) + feed_and_cut(),
        out@.len() == 2 + stream_len(pages@) + 7,
        forall|i: int|
            0 <= i < pages@.len() ==> out@.subrange(
                2 + stream_len(pages@.take(i)),
                2 + stream_len(pages@.take(i)) + page_len(#[trigger] pages@[i]),
            ) == page_escpos(pages@[i]),
{
    let mut out: Vec<u8> = vec![0x1b, 0x40];
    let mut i: usize = 0;
    assert(pages@.take(0) =~= seq![]);
    while i < pages.len()
        invariant
            i <= pages@.len(),
            forall|j: int| 0 <= j < pages@.len() ==> printable_page(#[trigger] pages@[j]),
            out@ == esc_init() + pages_escpos(pages@.take(i as int)),
        decreases pages@.len() - i,
    {
        let page = &pages[i];
        assert(printable_page(pages@[i as int]));
        let gray = gray_from_rgba(page);
        let dithered_img = floyd_steinberg(&gray);
        let encoded = raster_to_escpos_gsvzero(&dithered_img);
        push_all(&mut out, encoded.as_slice());
        out.push(0x0a);
        proof {
            let t = pages@.take(i + 1);
            assert(t.drop_last() =~= pages@.take(i as int));
            assert(t.last() == pages@[i as int]);
        }
        i += 1;
    }
    assert(pages@.take(pages@.len() as int) =~= pages@);
    let tail: [u8; 7] = [0x0a, 0x0a, 0x0a, 0x1d, 0x56, 0x42, 0x00];
    push_all(&mut out, &tail);
    assert(tail@ =~= feed_and_cut());
    proof {
        assert forall|j: int| 0 <= j < pages@.len() implies (#[trigger] pages@[j]).width as int + 7
            <= u32::MAX by {
            assert(printable_page(pages@[j]));
        }
        lemma_pages_escpos_len(pages@);
        assert forall|i: int| 0 <= i < pages@.len() implies out@.subrange(
            2 + stream_len(pages@.take(i)),
            2 + stream_len(pages@.take(i)) + page_len(#[trigger] pages@[i]),
        ) == page_escpos(pages@[i]) by {
            let before = pages@.take(i);
            assert forall|j: int| 0 <= j < before.len() implies (#[trigger] before[j]).width as int + 7
                <= u32::MAX by {
                assert(printable_page(pages@[j]));
            }
            lemma_pages_escpos_len(before);
            lemma_page_escpos_len(pages@[i]);
            lemma_page_in_stream(pages@, i);
            let a = pages_escpos(before);
            let p = page_escpos(pages@[i]);
            let b = pages_escpos(pages@.skip(i + 1));
            assert(out@ =~= esc_init() + a + p + b + feed_and_cut());
            assert(out@.subrange(2 + a.len() as int, 2 + a.len() + p.len() as int) =~= p);
        }
    }
    out
}

/// Dot width of the rendered page for a paper profile: 384 dots on 58 mm
/// paper (48 mm printable at 8 dots/mm), 832 dots on 80 mm paper, 576 dots
/// on 50 mm paper and for any other profile.
pub open spec fn target_width(size: Seq<char>) -> u32 {
    if size == "58mm"@ {
        384
    } else if size == "80mm"@ {
        832
    } else {
        576
    }
}

pub fn escpos_target_width(size: &str) -> (px: u32)
    ensures
        px == target_width(size@),
{
    if str_eq(size, "58mm") {
        384
    } else if str_eq(size, "80mm") {
        832
    } else {
        576
    }
}

} // verus!
