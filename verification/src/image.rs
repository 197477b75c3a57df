//! A small RGBA image type: cropping, alpha compositing and scaling.

use vstd::prelude::*;
use vstd::string::*;
use png::Transformations;
use crate::text::{dec, push_decimal};

verus! {

/// One pixel: red, green, blue and alpha, each 0..=255.
pub type Rgba = [u8; 4];

/// A `w` by `h` image stored row by row in `px`.
#[derive(Clone, Debug, PartialEq, Eq)]
pub struct Image {
    pub w: u32,
    pub h: u32,
    pub px: Vec<Rgba>,
}

/// Index of pixel (x, y) in the row-major pixel buffer of an image `w` wide.
pub open spec fn pixel_index(w: int, x: int, y: int) -> int {
    y * w + x
}

/// A pixel inside a `w` by `h` image has an index inside its buffer.
pub proof fn lemma_index_in_bounds(w: int, h: int, x: int, y: int)
    requires
        0 <= x < w,
        0 <= y < h,
    ensures
        0 <= pixel_index(w, x, y) < w * h,
        pixel_index(w, x, y) <= w * h - 1,
{
    assert(0 <= y * w + x < w * h) by (nonlinear_arith)
        requires 0 <= x < w, 0 <= y < h;
}

/// Distinct pixels of an image `w` wide have distinct buffer indices.
pub proof fn lemma_index_injective(w: int, x1: int, y1: int, x2: int, y2: int)
    requires
        0 <= x1 < w,
        0 <= x2 < w,
        0 <= y1,
        0 <= y2,
        pixel_index(w, x1, y1) == pixel_index(w, x2, y2),
    ensures
        x1 == x2,
        y1 == y2,
{
    if y1 < y2 {
        assert(y1 * w + x1 < y2 * w + x2) by (nonlinear_arith)
            requires 0 <= x1 < w, 0 <= x2, y1 < y2;
    } else if y2 < y1 {
        assert(y2 * w + x2 < y1 * w + x1) by (nonlinear_arith)
            requires 0 <= x2 < w, 0 <= x1, y2 < y1;
    }
}

/// The pixel at (x, y) of `dst` after the pixels of `src` in rows before `rows`,
/// and in row `rows` before column `cols`, have been composited onto it at (dx, dy).
pub open spec fn over_partial(
    dst: Image,
    src: Image,
    dx: int,
    dy: int,
    rows: int,
    cols: int,
    x: int,
    y: int,
) -> Rgba {
    let u = x - dx;
    let v = y - dy;
    if 0 <= u < src.w && 0 <= v < src.h && (v < rows || (v == rows && u < cols)) {
        blended(dst.at(x, y), src.at(u, v))
    } else {
        dst.at(x, y)
    }
}

/// A coordinate inside a `n * k` wide range maps to one inside `n` when divided by `k`.
proof fn lemma_div_below(x: int, n: int, k: int)
    requires
        0 <= x < n * k,
        0 <= n,
    ensures
        k > 0,
        0 <= x / k < n,
{
    if k <= 0 {
        assert(n * k <= 0) by (nonlinear_arith)
            requires k <= 0, 0 <= n;
    }
    vstd::arithmetic::div_mod::lemma_fundamental_div_mod(x, k);
    assert(0 <= x / k < n) by (nonlinear_arith)
        requires 0 <= x < n * k, k > 0, x == k * (x / k) + x % k, 0 <= x % k < k;
}

impl Image {
    /// The pixel at (x, y) of this image once `src` is composited onto it at (dx, dy).
    pub open spec fn over_at(&self, src: &Image, dx: int, dy: int, x: int, y: int) -> Rgba {
        let u = x - dx;
        let v = y - dy;
        if 0 <= u < src.w && 0 <= v < src.h {
            blended(self.at(x, y), src.at(u, v))
        } else {
            self.at(x, y)
        }
    }

    /// The image has exactly `w * h` pixels, and that count fits in a `u32`.
    pub open spec fn wf(&self) -> bool {
        &&& self.w * self.h <= u32::MAX
        &&& self.px@.len() == self.w * self.h
    }

    /// Pixel (x, y) of the image.
    pub open spec fn at(&self, x: int, y: int) -> Rgba {
        self.px@[pixel_index(self.w as int, x, y)]
    }

    /// A `w` by `h` image of fully transparent black pixels.
    pub fn new(w: u32, h: u32) -> (img: Image)
        requires
            w * h <= u32::MAX,
        ensures
            img.wf(),
            img.w == w,
            img.h == h,
            forall|i: int| 0 <= i < img.px@.len() ==> img.px@[i] == [0u8, 0u8, 0u8, 0u8],
    {
        let n: u32 = w * h;
        let mut px: Vec<Rgba> = Vec::new();
        let mut i: u32 = 0;
        while i < n
            invariant
                i <= n,
                px@.len() == i,
                forall|j: int| 0 <= j < i ==> px@[j] == [0u8, 0u8, 0u8, 0u8],
            decreases n - i,
        {
            px.push([0u8, 0u8, 0u8, 0u8]);
            i = i + 1;
        }
        Image { w, h, px }
    }

    /// Decodes a PNG file, converting any colour type to RGBA.
    pub fn decode_png(bytes: &[u8]) -> (res: Result<Image, String>)
        ensures
            match png_image(bytes@) {
                Ok((w, h, px)) => res matches Ok(img) && img.wf() && img.w == w && img.h == h && img.px@ == px,
                Err(m) => res matches Err(e) && e@ == m,
            },
            forall|w: u32, h: u32, data: Seq<u8>|
                #[trigger] png_encoded(w, h, data) == bytes@ && encodable_rgba(w, h, data) && w * h <= u32::MAX
                    ==> (res matches Ok(img) && img.w == w && img.h == h && img.px@ == pixels_of(data)),
    {
        match png_decode_frame(bytes) {
            Err(PngFailure::TooLarge) => Err(String::from_str("PNG too large")),
            Err(PngFailure::Invalid(detail)) => {
                let mut msg = String::from_str("invalid PNG: ");
                msg.append(detail.as_str());
                proof {
                    assert(msg@ == "invalid PNG: "@ + detail@);
                }
                Err(msg)
            },
            Ok((w, h, code, size, buf)) => {
                let mut data = buf;
                data.truncate(size);
                let px = rgba_from_samples(png_color(code), data.as_slice())?;
                assert((w as u64) * (h as u64) <= u32::MAX as u64 * u32::MAX as u64) by (nonlinear_arith)
                    requires w <= u32::MAX, h <= u32::MAX;
                let count: u64 = (w as u64) * (h as u64);
                if count > u32::MAX as u64 {
                    return Err(String::from_str("PNG too large"));
                }
                if px.len() as u64 != count {
                    return Err(String::from_str("invalid PNG: pixel data does not match the image size"));
                }
                Ok(Image { w, h, px })
            },
        }
    }

    /// Encodes the image as an 8-bit RGBA PNG file.
    pub fn encode_png(&self) -> (out: Vec<u8>)
        requires
            self.wf(),
            self.w > 0,
            self.h > 0,
            self.px@.len() * 4 <= usize::MAX,
        ensures
            out@ == png_encoded(self.w, self.h, bytes_of(self.px@)),
    {
        let data = self.rgba_bytes();
        png_encode_rgba(self.w, self.h, data.as_slice())
    }

    /// The pixel buffer as bytes, four per pixel.
    pub fn rgba_bytes(&self) -> (out: Vec<u8>)
        requires
            self.px@.len() * 4 <= usize::MAX,
        ensures
            out@ == bytes_of(self.px@),
    {
        let mut out: Vec<u8> = Vec::new();
        let mut i: usize = 0;
        while i < self.px.len()
            invariant
                i <= self.px@.len(),
                self.px@.len() * 4 <= usize::MAX,
                out@.len() == 4 * i,
                forall|j: int| 0 <= j < 4 * i ==> #[trigger] out@[j] == self.px@[j / 4][j % 4],
            decreases self.px@.len() - i,
        {
            let p = self.px[i];
            out.push(p[0]);
            out.push(p[1]);
            out.push(p[2]);
            out.push(p[3]);
            proof {
                assert forall|j: int| 0 <= j < 4 * (i + 1) implies #[trigger] out@[j] == self.px@[j / 4][j % 4] by {
                    if j >= 4 * i {
                        assert(j / 4 == i && j % 4 == j - 4 * i) by (nonlinear_arith)
                            requires 4 * i <= j < 4 * i + 4;
                    }
                }
            }
            i = i + 1;
        }
        proof {
            assert(out@ =~= bytes_of(self.px@));
        }
        out
    }

    /// A `w` by `h` image from RGBA bytes, four per pixel, row by row.
    pub fn from_rgba(w: u32, h: u32, bytes: &[u8]) -> (img: Image)
        requires
            w * h * 4 <= u32::MAX,
            bytes@.len() == w * h * 4,
        ensures
            img.wf(),
            img.w == w,
            img.h == h,
            img.px@ == pixels_of(bytes@),
    {
        let n: usize = (w * h) as usize;
        let mut px: Vec<Rgba> = Vec::new();
        let mut i: usize = 0;
        while i < n
            invariant
                n == w * h,
                n * 4 <= u32::MAX,
                bytes@.len() == n * 4,
                i <= n,
                px@.len() == i,
                forall|j: int| 0 <= j < i ==> #[trigger] px@[j] == rgba_at(bytes@, j),
            decreases n - i,
        {
            assert(4 * i + 3 < n * 4) by (nonlinear_arith)
                requires i < n;
            let b: usize = 4 * i;
            px.push([bytes[b], bytes[b + 1], bytes[b + 2], bytes[b + 3]]);
            i = i + 1;
        }
        proof {
            assert(pixels_of(bytes@).len() == n) by (nonlinear_arith)
                requires bytes@.len() == n * 4;
            assert(px@ =~= pixels_of(bytes@));
        }
        Image { w, h, px }
    }

    /// The pixel at row-major position `y * w + x`.
    pub fn get(&self, x: u32, y: u32) -> (c: Rgba)
        requires
            y * self.w + x < self.px@.len(),
            y * self.w + x <= u32::MAX,
        ensures
            c == self.px@[pixel_index(self.w as int, x as int, y as int)],
    {
        proof {
            vstd::arithmetic::mul::lemma_mul_nonnegative(y as int, self.w as int);
        }
        self.px[(y * self.w + x) as usize]
    }

    /// Copies the `w` by `h` region whose top-left corner is (x, y).
    pub fn crop(&self, x: u32, y: u32, w: u32, h: u32) -> (res: Result<Image, String>)
        requires
            self.wf(),
            x + w <= u32::MAX,
            y + h <= u32::MAX,
        ensures
            res is Ok <==> (x + w <= self.w && y + h <= self.h),
            res matches Ok(out) ==> {
                &&& out.wf()
                &&& out.w == w
                &&& out.h == h
                &&& forall|i: int, j: int|
                    0 <= i < w && 0 <= j < h ==> #[trigger] out.at(i, j) == self.at(x + i, y + j)
            },
            res matches Err(e) ==> e@ == crop_error_text(
                w as nat,
                h as nat,
                x as nat,
                y as nat,
                self.w as nat,
                self.h as nat,
            ),
    {
        if x + w > self.w || y + h > self.h {
            let mut msg = String::from_str("crop ");
            push_decimal(&mut msg, w as u64);
            msg.append("x");
            push_decimal(&mut msg, h as u64);
            msg.append("+");
            push_decimal(&mut msg, x as u64);
            msg.append("+");
            push_decimal(&mut msg, y as u64);
            msg.append(" is outside the ");
            push_decimal(&mut msg, self.w as u64);
            msg.append("x");
            push_decimal(&mut msg, self.h as u64);
            msg.append(" image");
            proof {
                assert(msg@ =~= crop_error_text(
                    w as nat,
                    h as nat,
                    x as nat,
                    y as nat,
                    self.w as nat,
                    self.h as nat,
                ));
            }
            return Err(msg);
        }
        assert(w * h <= self.w * self.h) by (nonlinear_arith)
            requires w <= self.w, h <= self.h;
        let mut out = Image::new(w, h);
        let mut dy: u32 = 0;
        while dy < h
            invariant
                self.wf(),
                x + w <= self.w,
                y + h <= self.h,
                out.wf(),
                out.w == w,
                out.h == h,
                dy <= h,
                forall|i: int, j: int|
                    0 <= i < w && 0 <= j < dy ==> #[trigger] out.at(i, j) == self.at(x + i, y + j),
            decreases h - dy,
        {
            let mut dx: u32 = 0;
            while dx < w
                invariant
                    self.wf(),
                    x + w <= self.w,
                    y + h <= self.h,
                    out.wf(),
                    out.w == w,
                    out.h == h,
                    dy < h,
                    dx <= w,
                    forall|i: int, j: int|
                        0 <= i < w && 0 <= j < dy ==> #[trigger] out.at(i, j) == self.at(x + i, y + j),
                    forall|i: int| 0 <= i < dx ==> #[trigger] out.at(i, dy as int) == self.at(x + i, y + dy),
                decreases w - dx,
            {
                proof {
                    lemma_index_in_bounds(self.w as int, self.h as int, (x + dx) as int, (y + dy) as int);
                    lemma_index_in_bounds(w as int, h as int, dx as int, dy as int);
                }
                let c = self.get(x + dx, y + dy);
                let ghost before = out;
                out.set(dx, dy, c);
                proof {
                    assert forall|i: int, j: int|
                        0 <= i < w && 0 <= j < dy implies #[trigger] out.at(i, j) == self.at(x + i, y + j) by {
                        lemma_index_in_bounds(w as int, h as int, i, j);
                        if pixel_index(w as int, i, j) == pixel_index(w as int, dx as int, dy as int) {
                            lemma_index_injective(w as int, i, j, dx as int, dy as int);
                        }
                        assert(out.at(i, j) == before.at(i, j));
                    }
                    assert forall|i: int| 0 <= i < dx + 1 implies #[trigger] out.at(i, dy as int) == self.at(x + i, y + dy) by {
                        lemma_index_in_bounds(w as int, h as int, i, dy as int);
                        if i != dx {
                            if pixel_index(w as int, i, dy as int) == pixel_index(w as int, dx as int, dy as int) {
                                lemma_index_injective(w as int, i, dy as int, dx as int, dy as int);
                            }
                            assert(out.at(i, dy as int) == before.at(i, dy as int));
                        }
                    }
                }
                dx = dx + 1;
            }
            dy = dy + 1;
        }
        Ok(out)
    }

    /// Composites `src` over this image with its top-left corner at (dx, dy), using
    /// straight-alpha "over". Parts of `src` that fall outside the image are dropped.
    pub fn over(&mut self, src: &Image, dx: i32, dy: i32)
        requires
            old(self).wf(),
            src.wf(),
            old(self).w <= i32::MAX,
            old(self).h <= i32::MAX,
            src.w <= i32::MAX + 1,
            src.h <= i32::MAX + 1,
            dx + src.w <= i32::MAX + 1,
            dy + src.h <= i32::MAX + 1,
        ensures
            final(self).wf(),
            final(self).w == old(self).w,
            final(self).h == old(self).h,
            forall|x: int, y: int|
                0 <= x < old(self).w && 0 <= y < old(self).h ==> #[trigger] final(self).at(x, y)
                    == old(self).over_at(src, dx as int, dy as int, x, y),
    {
        let ghost orig = *self;
        let mut sy: u32 = 0;
        while sy < src.h
            invariant
                src.wf(),
                self.wf(),
                self.w == orig.w,
                self.h == orig.h,
                orig.w <= i32::MAX,
                orig.h <= i32::MAX,
                src.w <= i32::MAX + 1,
                src.h <= i32::MAX + 1,
                dx + src.w <= i32::MAX + 1,
                dy + src.h <= i32::MAX + 1,
                sy <= src.h,
                forall|x: int, y: int|
                    0 <= x < orig.w && 0 <= y < orig.h ==> #[trigger] self.at(x, y) == over_partial(
                        orig,
                        *src,
                        dx as int,
                        dy as int,
                        sy as int,
                        0,
                        x,
                        y,
                    ),
            decreases src.h - sy,
        {
            let mut sx: u32 = 0;
            while sx < src.w
                invariant
                    src.wf(),
                    self.wf(),
                    self.w == orig.w,
                    self.h == orig.h,
                    orig.w <= i32::MAX,
                    orig.h <= i32::MAX,
                    src.w <= i32::MAX + 1,
                    src.h <= i32::MAX + 1,
                    dx + src.w <= i32::MAX + 1,
                    dy + src.h <= i32::MAX + 1,
                    sy < src.h,
                    sx <= src.w,
                    forall|x: int, y: int|
                        0 <= x < orig.w && 0 <= y < orig.h ==> #[trigger] self.at(x, y)
                            == over_partial(orig, *src, dx as int, dy as int, sy as int, sx as int, x, y),
                decreases src.w - sx,
            {
                let tx: i32 = dx + sx as i32;
                let ty: i32 = dy + sy as i32;
                if tx < 0 || ty < 0 || tx >= self.w as i32 || ty >= self.h as i32 {
                    proof {
                        assert forall|x: int, y: int|
                            0 <= x < orig.w && 0 <= y < orig.h implies #[trigger] self.at(x, y)
                                == over_partial(orig, *src, dx as int, dy as int, sy as int, sx + 1, x, y) by {
                            assert(over_partial(orig, *src, dx as int, dy as int, sy as int, sx as int, x, y)
                                == over_partial(orig, *src, dx as int, dy as int, sy as int, sx + 1, x, y));
                        }
                    }
                    sx = sx + 1;
                    continue;
                }
                proof {
                    lemma_index_in_bounds(self.w as int, self.h as int, tx as int, ty as int);
                    lemma_index_in_bounds(src.w as int, src.h as int, sx as int, sy as int);
                }
                let d = self.get(tx as u32, ty as u32);
                let c = src.get(sx, sy);
                let blended_px = blend(d, c);
                let ghost before = *self;
                self.set(tx as u32, ty as u32, blended_px);
                proof {
                    assert forall|x: int, y: int|
                        0 <= x < orig.w && 0 <= y < orig.h implies #[trigger] self.at(x, y)
                            == over_partial(orig, *src, dx as int, dy as int, sy as int, sx + 1, x, y) by {
                        lemma_index_in_bounds(orig.w as int, orig.h as int, x, y);
                        if x == tx && y == ty {
                            assert(before.at(x, y) == over_partial(orig, *src, dx as int, dy as int, sy as int, sx as int, x, y));
                        } else {
                            if pixel_index(orig.w as int, x, y) == pixel_index(orig.w as int, tx as int, ty as int) {
                                lemma_index_injective(orig.w as int, x, y, tx as int, ty as int);
                            }
                            assert(self.at(x, y) == before.at(x, y));
                            assert(before.at(x, y) == over_partial(orig, *src, dx as int, dy as int, sy as int, sx as int, x, y));
                        }
                    }
                }
                sx = sx + 1;
            }
            proof {
                assert forall|x: int, y: int|
                    0 <= x < orig.w && 0 <= y < orig.h implies #[trigger] self.at(x, y)
                        == over_partial(orig, *src, dx as int, dy as int, sy + 1, 0, x, y) by {
                    assert(over_partial(orig, *src, dx as int, dy as int, sy as int, sx as int, x, y)
                        == over_partial(orig, *src, dx as int, dy as int, sy + 1, 0, x, y));
                }
            }
            sy = sy + 1;
        }
        proof {
            assert forall|x: int, y: int|
                0 <= x < orig.w && 0 <= y < orig.h implies #[trigger] self.at(x, y)
                    == orig.over_at(src, dx as int, dy as int, x, y) by {
                assert(over_partial(orig, *src, dx as int, dy as int, sy as int, 0, x, y)
                    == orig.over_at(src, dx as int, dy as int, x, y));
            }
        }
    }

    /// Nearest-neighbour upscale by the integer factor `k`: every pixel becomes a
    /// `k` by `k` block.
    pub fn scale(&self, k: u32) -> (out: Image)
        requires
            self.wf(),
            self.w * k <= u32::MAX,
            self.h * k <= u32::MAX,
            (self.w * k) * (self.h * k) <= u32::MAX,
        ensures
            scaled_by(out, *self, k as int),
    {
        if k == 1 {
            return self.copy();
        }
        let ow: u32 = self.w * k;
        let oh: u32 = self.h * k;
        let mut out = Image::new(ow, oh);
        let mut y: u32 = 0;
        while y < oh
            invariant
                self.wf(),
                out.wf(),
                out.w == ow,
                out.h == oh,
                ow == self.w * k,
                oh == self.h * k,
                y <= oh,
                forall|i: int, j: int|
                    0 <= i < ow && 0 <= j < y ==> #[trigger] out.at(i, j) == self.at(i / k as int, j / k as int),
            decreases oh - y,
        {
            let mut x: u32 = 0;
            while x < ow
                invariant
                    self.wf(),
                    out.wf(),
                    out.w == ow,
                    out.h == oh,
                    ow == self.w * k,
                    oh == self.h * k,
                    y < oh,
                    x <= ow,
                    forall|i: int, j: int|
                        0 <= i < ow && 0 <= j < y ==> #[trigger] out.at(i, j) == self.at(i / k as int, j / k as int),
                    forall|i: int| 0 <= i < x ==> #[trigger] out.at(i, y as int) == self.at(i / k as int, y as int / k as int),
                decreases ow - x,
            {
                proof {
                    lemma_div_below(x as int, self.w as int, k as int);
                    lemma_div_below(y as int, self.h as int, k as int);
                    lemma_index_in_bounds(self.w as int, self.h as int, (x / k) as int, (y / k) as int);
                    lemma_index_in_bounds(ow as int, oh as int, x as int, y as int);
                }
                let c = self.get(x / k, y / k);
                let ghost before = out;
                out.set(x, y, c);
                proof {
                    assert forall|i: int, j: int|
                        0 <= i < ow && 0 <= j < y implies #[trigger] out.at(i, j) == self.at(i / k as int, j / k as int) by {
                        lemma_index_in_bounds(ow as int, oh as int, i, j);
                        if pixel_index(ow as int, i, j) == pixel_index(ow as int, x as int, y as int) {
                            lemma_index_injective(ow as int, i, j, x as int, y as int);
                        }
                        assert(out.at(i, j) == before.at(i, j));
                    }
                    assert forall|i: int| 0 <= i < x + 1 implies #[trigger] out.at(i, y as int) == self.at(i / k as int, y as int / k as int) by {
                        lemma_index_in_bounds(ow as int, oh as int, i, y as int);
                        if i != x {
                            if pixel_index(ow as int, i, y as int) == pixel_index(ow as int, x as int, y as int) {
                                lemma_index_injective(ow as int, i, y as int, x as int, y as int);
                            }
                            assert(out.at(i, y as int) == before.at(i, y as int));
                        }
                    }
                }
                x = x + 1;
            }
            y = y + 1;
        }
        out
    }

    /// A copy of this image.
    fn copy(&self) -> (out: Image)
        requires
            self.wf(),
        ensures
            out.wf(),
            out.w == self.w,
            out.h == self.h,
            out.px@ == self.px@,
    {
        let mut px: Vec<Rgba> = Vec::new();
        let mut i: usize = 0;
        while i < self.px.len()
            invariant
                i <= self.px@.len(),
                px@ == self.px@.subrange(0, i as int),
            decreases self.px@.len() - i,
        {
            px.push(self.px[i]);
            i = i + 1;
            proof {
                assert(px@ =~= self.px@.subrange(0, i as int));
            }
        }
        proof {
            assert(px@ =~= self.px@);
        }
        Image { w: self.w, h: self.h, px }
    }

    /// Overwrites the pixel at row-major position `y * w + x`.
    pub fn set(&mut self, x: u32, y: u32, c: Rgba)
        requires
            y * old(self).w + x < old(self).px@.len(),
            y * old(self).w + x <= u32::MAX,
        ensures
            final(self).w == old(self).w,
            final(self).h == old(self).h,
            final(self).px@ == old(self).px@.update(pixel_index(old(self).w as int, x as int, y as int), c),
    {
        let i: usize = (y * self.w + x) as usize;
        self.px.set(i, c);
    }
}


/// The pixel made of the four bytes of `bytes` starting at `4 * i`.
pub open spec fn rgba_at(bytes: Seq<u8>, i: int) -> Rgba {
    [bytes[4 * i], bytes[4 * i + 1], bytes[4 * i + 2], bytes[4 * i + 3]]
}

/// Groups a byte buffer into pixels of four bytes, dropping a partial pixel at the end.
pub open spec fn pixels_of(bytes: Seq<u8>) -> Seq<Rgba> {
    Seq::new(bytes.len() / 4, |i: int| rgba_at(bytes, i))
}

/// The bytes of a row-major pixel buffer, four per pixel.
pub open spec fn bytes_of(px: Seq<Rgba>) -> Seq<u8> {
    Seq::new(px.len() * 4, |i: int| px[i / 4][i % 4])
}

/// Grouping the bytes of a pixel buffer gives the pixels back.
pub proof fn lemma_pixels_of_bytes_of(px: Seq<Rgba>)
    ensures
        pixels_of(bytes_of(px)) == px,
{
    let b = bytes_of(px);
    assert(b.len() / 4 == px.len()) by (nonlinear_arith)
        requires b.len() == px.len() * 4;
    assert forall|i: int| 0 <= i < px.len() implies #[trigger] pixels_of(b)[i] == px[i] by {
        assert(0 <= 4 * i && 4 * i + 3 < b.len()) by (nonlinear_arith)
            requires 0 <= i < px.len(), b.len() == px.len() * 4;
        assert((4 * i) / 4 == i && (4 * i) % 4 == 0) by (nonlinear_arith);
        assert((4 * i + 1) / 4 == i && (4 * i + 1) % 4 == 1) by (nonlinear_arith);
        assert((4 * i + 2) / 4 == i && (4 * i + 2) % 4 == 2) by (nonlinear_arith);
        assert((4 * i + 3) / 4 == i && (4 * i + 3) % 4 == 3) by (nonlinear_arith);
        assert(pixels_of(b)[i] =~= px[i]);
    }
    assert(pixels_of(b) =~= px);
}

/// The sample layout of decoded PNG data, one variant per PNG colour type.
#[derive(Clone, Copy, Debug, PartialEq, Eq, Structural)]
pub enum PngColor {
    Grayscale,
    Rgb,
    Indexed,
    GrayscaleAlpha,
    Rgba,
}

/// Why the PNG decoder gave no frame.
pub enum PngFailure {
    /// The decoder rejected the data; the text is its own description.
    Invalid(String),
    /// The decoded frame would not fit in memory.
    TooLarge,
}

/// What the `png` crate's decoder makes of `bytes` (8-bit samples, palettes expanded,
/// an alpha channel added where transparency is given): width, height, PNG colour-type
/// code, the byte count of the frame and the output buffer it was written into; or,
/// when it gives no frame, `None` when the output buffer would not fit in the address
/// space and otherwise the text of the decoder's error.
pub uninterp spec fn png_frame(bytes: Seq<u8>) -> Result<(u32, u32, u8, usize, Seq<u8>), Option<Seq<char>>>;

/// The PNG file the `png` crate writes for a `w` by `h` image of 8-bit RGBA samples.
pub uninterp spec fn png_encoded(w: u32, h: u32, data: Seq<u8>) -> Seq<u8>;

/// The `w` by `h` RGBA samples `data` are what `png_encode_rgba` takes, and the
/// decoder's limits admit them: a row of at most 64 MiB (the decoder's default
/// allocation limit, which its row buffer counts against) and a frame that fits in
/// `isize`.
pub open spec fn encodable_rgba(w: u32, h: u32, data: Seq<u8>) -> bool {
    &&& 0 < w
    &&& 0 < h
    &&& data.len() == w * h * 4
    &&& w * 4 <= 67108864
    &&& data.len() <= isize::MAX
}

/// Decodes the first frame of a PNG file with `png::Decoder` (transformations EXPAND,
/// STRIP_16 and ALPHA, so samples are 8-bit and palettes are expanded) and
/// `Reader::next_frame` into a buffer of `Reader::output_buffer_size` bytes. The outcome
/// is `png_frame(bytes)`: width, height, colour type (as its `u8` code),
/// `OutputInfo::buffer_size` and the buffer; `TooLarge` when `output_buffer_size` gives
/// nothing; the error's `Display` text otherwise. The file that `png::Encoder` writes
/// for 8-bit RGBA samples within the decoder's limits decodes back to them: colour type
/// RGBA (code 6), which the transformations leave as it is, and a buffer of exactly
/// `w * h * 4` bytes.
#[verifier::external_body]
fn png_decode_frame(bytes: &[u8]) -> (res: Result<(u32, u32, u8, usize, Vec<u8>), PngFailure>)
    ensures
        match res {
            Ok(f) => png_frame(bytes@) == Ok::<(u32, u32, u8, usize, Seq<u8>), Option<Seq<char>>>((f.0, f.1, f.2, f.3, f.4@)),
            Err(PngFailure::TooLarge) => png_frame(bytes@) == Err::<(u32, u32, u8, usize, Seq<u8>), Option<Seq<char>>>(None),
            Err(PngFailure::Invalid(d)) => png_frame(bytes@) == Err::<(u32, u32, u8, usize, Seq<u8>), Option<Seq<char>>>(Some(d@)),
        },
        res is Err ==> forall|w: u32, h: u32, data: Seq<u8>|
            !(#[trigger] png_encoded(w, h, data) == bytes@ && encodable_rgba(w, h, data)),
        res matches Ok(f) ==> forall|w: u32, h: u32, data: Seq<u8>|
            #[trigger] png_encoded(w, h, data) == bytes@ && encodable_rgba(w, h, data)
                ==> f.0 == w && f.1 == h && f.2 == 6 && f.3 == data.len() && f.4@ == data,
{
    let mut decoder = png::Decoder::new(std::io::Cursor::new(bytes));
    decoder.set_transformations(Transformations::EXPAND | Transformations::STRIP_16 | Transformations::ALPHA);
    let mut reader = decoder.read_info().map_err(|e| PngFailure::Invalid(e.to_string()))?;
    let mut buf = vec![0u8; reader.output_buffer_size().ok_or(PngFailure::TooLarge)?];
    let info = reader.next_frame(&mut buf).map_err(|e| PngFailure::Invalid(e.to_string()))?;
    Ok((info.width, info.height, info.color_type as u8, info.buffer_size(), buf))
}

/// The sample layout that a `png::ColorType` code names.
pub open spec fn color_of_code(code: u8) -> PngColor {
    if code == 0 {
        PngColor::Grayscale
    } else if code == 2 {
        PngColor::Rgb
    } else if code == 3 {
        PngColor::Indexed
    } else if code == 4 {
        PngColor::GrayscaleAlpha
    } else {
        PngColor::Rgba
    }
}

/// The sample layout of a colour-type code.
pub fn png_color(code: u8) -> (c: PngColor)
    ensures
        c == color_of_code(code),
{
    match code {
        0 => PngColor::Grayscale,
        2 => PngColor::Rgb,
        3 => PngColor::Indexed,
        4 => PngColor::GrayscaleAlpha,
        _ => PngColor::Rgba,
    }
}

/// The image `decode_png` makes of a PNG file: width, height and pixels, or its error
/// message. The decoder's frame is read by its colour type; palette indices, a pixel
/// count beyond `u32` and samples that do not make `w * h` pixels are refused.
pub open spec fn png_image(bytes: Seq<u8>) -> Result<(u32, u32, Seq<Rgba>), Seq<char>> {
    match png_frame(bytes) {
        Err(None) => Err("PNG too large"@),
        Err(Some(detail)) => Err("invalid PNG: "@ + detail),
        Ok((w, h, code, size, buf)) => match samples_to_pixels(color_of_code(code), frame_samples(size, buf)) {
            None => Err("unexpected indexed PNG output"@),
            Some(px) => if w * h > u32::MAX {
                Err("PNG too large"@)
            } else if px.len() != w * h {
                Err("invalid PNG: pixel data does not match the image size"@)
            } else {
                Ok((w, h, px))
            },
        },
    }
}

/// The decoded samples of a frame: the first `size` bytes of the output buffer (the
/// rest of the buffer is not part of the frame).
pub open spec fn frame_samples(size: usize, buf: Seq<u8>) -> Seq<u8> {
    if size <= buf.len() {
        buf.subrange(0, size as int)
    } else {
        buf
    }
}

/// Encodes 8-bit RGBA samples as a PNG file with `png::Encoder` (`write_header`, then
/// `Writer::write_image_data`, finished when the writer is dropped). Both calls fail, and
/// the wrapper would panic, only for a zero width or height or a sample count other than
/// `w * h * 4`, which `requires` leaves out.
#[verifier::external_body]
fn png_encode_rgba(w: u32, h: u32, data: &[u8]) -> (out: Vec<u8>)
    requires
        w > 0,
        h > 0,
        data@.len() == w * h * 4,
    ensures
        out@ == png_encoded(w, h, data@),
{
    let mut out = Vec::new();
    {
        let mut enc = png::Encoder::new(&mut out, w, h);
        enc.set_color(png::ColorType::Rgba);
        enc.set_depth(png::BitDepth::Eight);
        let mut writer = enc.write_header().expect("PNG header");
        writer.write_image_data(data).expect("PNG data");
    }
    out
}

/// The pixels that decoded samples of the given layout stand for; `None` for palette
/// indices, which the decoder is asked never to produce.
pub open spec fn samples_to_pixels(color: PngColor, data: Seq<u8>) -> Option<Seq<Rgba>> {
    match color {
        PngColor::Rgba => Some(pixels_of(data)),
        PngColor::Rgb => Some(Seq::new(data.len() / 3, |i: int| [data[3 * i], data[3 * i + 1], data[3 * i + 2], 255u8])),
        PngColor::GrayscaleAlpha => Some(Seq::new(data.len() / 2, |i: int| [data[2 * i], data[2 * i], data[2 * i], data[2 * i + 1]])),
        PngColor::Grayscale => Some(Seq::new(data.len(), |i: int| [data[i], data[i], data[i], 255u8])),
        PngColor::Indexed => None,
    }
}

/// Turns decoded PNG samples into RGBA pixels: RGB gets an opaque alpha, grey is
/// copied into all three colour channels. Palette indices are refused.
pub fn rgba_from_samples(color: PngColor, data: &[u8]) -> (res: Result<Vec<Rgba>, String>)
    ensures
        res is Ok <==> color != PngColor::Indexed,
        res matches Ok(px) ==> samples_to_pixels(color, data@) == Some(px@),
        res matches Err(e) ==> e@ == "unexpected indexed PNG output"@,
{
    let k: usize = match color {
        PngColor::Rgba => 4,
        PngColor::Rgb => 3,
        PngColor::GrayscaleAlpha => 2,
        PngColor::Grayscale => 1,
        PngColor::Indexed => {
            return Err(String::from_str("unexpected indexed PNG output"));
        },
    };
    let len: usize = data.len();
    let n: usize = len / k;
    let mut px: Vec<Rgba> = Vec::new();
    let mut i: usize = 0;
    while i < n
        invariant
            color != PngColor::Indexed,
            k == (match color {
                PngColor::Rgba => 4usize,
                PngColor::Rgb => 3usize,
                PngColor::GrayscaleAlpha => 2usize,
                _ => 1usize,
            }),
            len == data@.len(),
            n == data@.len() as int / k as int,
            i <= n,
            px@.len() == i,
            forall|j: int| 0 <= j < i ==> #[trigger] px@[j] == samples_to_pixels(color, data@)->0[j],
        decreases n - i,
    {
        assert(k * i + k <= data@.len()) by (nonlinear_arith)
            requires i < n, n == data@.len() as int / k as int, k > 0;
        let b: usize = k * i;
        let p: Rgba = match color {
            PngColor::Rgba => [data[b], data[b + 1], data[b + 2], data[b + 3]],
            PngColor::Rgb => [data[b], data[b + 1], data[b + 2], 255u8],
            PngColor::GrayscaleAlpha => [data[b], data[b], data[b], data[b + 1]],
            _ => [data[b], data[b], data[b], 255u8],
        };
        px.push(p);
        proof {
            assert(b == k * i);
        }
        i = i + 1;
    }
    proof {
        assert(samples_to_pixels(color, data@)->0.len() == n);
        assert(px@ =~= samples_to_pixels(color, data@)->0);
    }
    Ok(px)
}

/// The message `crop` gives for a region that does not fit inside the image.
pub open spec fn crop_error_text(w: nat, h: nat, x: nat, y: nat, iw: nat, ih: nat) -> Seq<char> {
    "crop "@ + dec(w) + "x"@ + dec(h) + "+"@ + dec(x) + "+"@ + dec(y) + " is outside the "@
        + dec(iw) + "x"@ + dec(ih) + " image"@
}

/// The straight-alpha "over" value of one colour channel: the source channel `s`
/// weighted by the source alpha, plus the destination channel `d` weighted by the part
/// of the destination alpha that shows through, normalised by the resulting alpha.
pub open spec fn blend_channel(s: int, d: int, sa: int, da: int) -> int {
    (s * sa * 255 + d * da * (255 - sa)) / (sa * 255 + da * (255 - sa))
}

/// `src` composited over `dst` with straight alpha, in 0..=255*255 fixed point.
pub open spec fn blended(dst: Rgba, src: Rgba) -> Rgba {
    let sa = src[3] as int;
    let da = dst[3] as int;
    let out_a = sa * 255 + da * (255 - sa);
    if sa == 255 {
        src
    } else if sa == 0 {
        dst
    } else if out_a == 0 {
        [0u8, 0u8, 0u8, 0u8]
    } else {
        [
            blend_channel(src[0] as int, dst[0] as int, sa, da) as u8,
            blend_channel(src[1] as int, dst[1] as int, sa, da) as u8,
            blend_channel(src[2] as int, dst[2] as int, sa, da) as u8,
            (out_a / 255) as u8,
        ]
    }
}

proof fn lemma_blend_channel_range(s: int, d: int, sa: int, da: int)
    requires
        0 <= s <= 255,
        0 <= d <= 255,
        0 < sa < 255,
        0 <= da <= 255,
    ensures
        0 <= s * sa * 255 + d * da * (255 - sa) <= 255 * 255 * 255 + 255 * 255 * 255,
        sa * 255 + da * (255 - sa) > 0,
        0 <= blend_channel(s, d, sa, da) <= 255,
        (if s <= d { s } else { d }) <= blend_channel(s, d, sa, da),
        blend_channel(s, d, sa, da) <= (if s <= d { d } else { s }),
{
    let a = sa * 255;
    let b = da * (255 - sa);
    let c = s * sa * 255 + d * da * (255 - sa);
    assert(0 <= b <= 255 * 255) by (nonlinear_arith)
        requires 0 < sa < 255, 0 <= da <= 255, b == da * (255 - sa);
    assert(255 <= a < 255 * 255) by (nonlinear_arith)
        requires 0 < sa < 255, a == sa * 255;
    assert(c == s * a + d * b) by (nonlinear_arith)
        requires a == sa * 255, b == da * (255 - sa), c == s * sa * 255 + d * da * (255 - sa);
    assert(0 <= c <= 255 * 255 * 255 + 255 * 255 * 255) by (nonlinear_arith)
        requires 0 <= s <= 255, 0 <= d <= 255, 255 <= a < 255 * 255, 0 <= b <= 255 * 255, c == s * a + d * b;
    let lo = if s <= d { s } else { d };
    let hi = if s <= d { d } else { s };
    assert(lo * (a + b) <= c <= hi * (a + b)) by (nonlinear_arith)
        requires lo <= s <= hi, lo <= d <= hi, 0 <= a, 0 <= b, c == s * a + d * b, 0 <= lo;
    assert(lo <= c / (a + b) <= hi) by (nonlinear_arith)
        requires lo * (a + b) <= c <= hi * (a + b), a + b > 0, 0 <= lo;
    assert(hi <= 255);
}

/// Composites `src` over `dst`.
fn blend(dst: Rgba, src: Rgba) -> (out: Rgba)
    ensures
        out == blended(dst, src),
{
    let sa: u32 = src[3] as u32;
    if sa == 255 {
        return src;
    }
    if sa == 0 {
        return dst;
    }
    let da: u32 = dst[3] as u32;
    assert(sa * 255 + da * (255 - sa) <= 255 * 255 + 255 * 255) by (nonlinear_arith)
        requires 0 < sa < 255, 0 <= da <= 255;
    let out_a: u32 = sa * 255 + da * (255 - sa);
    if out_a == 0 {
        return [0u8, 0u8, 0u8, 0u8];
    }
    let r: u8 = blend_one(src[0], dst[0], sa, da, out_a);
    let g: u8 = blend_one(src[1], dst[1], sa, da, out_a);
    let b: u8 = blend_one(src[2], dst[2], sa, da, out_a);
    assert(out_a / 255 <= 255) by (nonlinear_arith)
        requires out_a <= 255 * 255 + 255 * 255, out_a == sa * 255 + da * (255 - sa), 0 < sa < 255, 0 <= da <= 255;
    let a: u8 = (out_a / 255) as u8;
    [r, g, b, a]
}

/// One colour channel of `blend`.
fn blend_one(s: u8, d: u8, sa: u32, da: u32, out_a: u32) -> (c: u8)
    requires
        0 < sa < 255,
        da <= 255,
        out_a == sa * 255 + da * (255 - sa),
    ensures
        c == blend_channel(s as int, d as int, sa as int, da as int),
{
    proof {
        lemma_blend_channel_range(s as int, d as int, sa as int, da as int);
    }
    let s32: u32 = s as u32;
    let d32: u32 = d as u32;
    assert(s32 * sa * 255 <= 255 * 255 * 255) by (nonlinear_arith)
        requires s32 <= 255, sa < 255;
    assert(d32 * da * (255 - sa) <= 255 * 255 * 255) by (nonlinear_arith)
        requires d32 <= 255, da <= 255, sa < 255;
    assert(s32 * sa <= 255 * 255) by (nonlinear_arith)
        requires s32 <= 255, sa < 255;
    assert(d32 * da <= 255 * 255) by (nonlinear_arith)
        requires d32 <= 255, da <= 255;
    let c: u32 = s32 * sa * 255 + d32 * da * (255 - sa);
    (c / out_a) as u8
}

/// Writing a pixel changes that pixel and no other.
pub proof fn law_set_changes_one_pixel(w: int, h: int, px: Seq<Rgba>, x: int, y: int, c: Rgba, x2: int, y2: int)
    requires
        px.len() == w * h,
        0 <= x < w,
        0 <= y < h,
        0 <= x2 < w,
        0 <= y2 < h,
    ensures
        px.update(pixel_index(w, x, y), c)[pixel_index(w, x2, y2)] == if x2 == x && y2 == y {
            c
        } else {
            px[pixel_index(w, x2, y2)]
        },
{
    lemma_index_in_bounds(w, h, x, y);
    lemma_index_in_bounds(w, h, x2, y2);
    if pixel_index(w, x, y) == pixel_index(w, x2, y2) {
        lemma_index_injective(w, x, y, x2, y2);
    }
}

/// Compositing a fully opaque pixel replaces what is below it; compositing a fully
/// transparent one leaves it as it is.
pub proof fn law_blend_extremes(dst: Rgba, src: Rgba)
    ensures
        src[3] == 255 ==> blended(dst, src) == src,
        src[3] == 0 ==> blended(dst, src) == dst,
{
}

/// Compositing never makes a pixel more transparent than either layer, and each colour
/// channel of the result lies between the two layers' channels.
pub proof fn law_blend_bounds(dst: Rgba, src: Rgba)
    ensures
        blended(dst, src)[3] >= src[3],
        blended(dst, src)[3] >= dst[3],
        0 < src[3] < 255 ==> forall|i: int| 0 <= i < 3 ==> {
            let lo = if src[i] <= dst[i] { src[i] } else { dst[i] };
            let hi = if src[i] <= dst[i] { dst[i] } else { src[i] };
            lo <= #[trigger] blended(dst, src)[i] <= hi
        },
{
    let sa = src[3] as int;
    let da = dst[3] as int;
    if 0 < sa < 255 {
        let out_a = sa * 255 + da * (255 - sa);
        assert(out_a / 255 >= sa && out_a / 255 >= da && out_a / 255 <= 255) by (nonlinear_arith)
            requires out_a == sa * 255 + da * (255 - sa), 0 < sa < 255, 0 <= da <= 255;
        lemma_blend_channel_range(src[0] as int, dst[0] as int, sa, da);
        lemma_blend_channel_range(src[1] as int, dst[1] as int, sa, da);
        lemma_blend_channel_range(src[2] as int, dst[2] as int, sa, da);
    }
}

/// `out` is `img` scaled by `k`, as `Image::scale` makes it.
pub open spec fn scaled_by(out: Image, img: Image, k: int) -> bool {
    &&& out.wf()
    &&& out.w == img.w * k
    &&& out.h == img.h * k
    &&& forall|x: int, y: int| 0 <= x < out.w && 0 <= y < out.h ==> #[trigger] out.at(x, y) == img.at(x / k, y / k)
}

/// Scaling by `a` and then by `b` gives the image that scaling by `a * b` gives.
pub proof fn law_scale_twice(img: Image, once: Image, twice: Image, direct: Image, a: int, b: int)
    requires
        a > 0,
        b > 0,
        scaled_by(once, img, a),
        scaled_by(twice, once, b),
        scaled_by(direct, img, a * b),
    ensures
        twice.w == direct.w,
        twice.h == direct.h,
        twice.px@ == direct.px@,
{
    let w = twice.w as int;
    let h = twice.h as int;
    assert(twice.w == direct.w && twice.h == direct.h) by (nonlinear_arith)
        requires twice.w == once.w * b, once.w == img.w * a, direct.w == img.w * (a * b),
            twice.h == once.h * b, once.h == img.h * a, direct.h == img.h * (a * b);
    assert forall|i: int| 0 <= i < twice.px@.len() implies twice.px@[i] == direct.px@[i] by {
        assert(w > 0) by (nonlinear_arith)
            requires 0 <= i < w * h, 0 <= w, 0 <= h;
        let x = i % w;
        let y = i / w;
        vstd::arithmetic::div_mod::lemma_fundamental_div_mod(i, w);
        assert(0 <= y < h) by (nonlinear_arith)
            requires 0 <= i < w * h, w > 0, y == i / w, i == w * y + i % w, 0 <= i % w < w;
        assert(pixel_index(w, x, y) == i) by (nonlinear_arith)
            requires i == w * y + x;
        lemma_div_below(x, once.w as int, b);
        lemma_div_below(y, once.h as int, b);
        vstd::arithmetic::div_mod::lemma_div_denominator(x, b, a);
        vstd::arithmetic::div_mod::lemma_div_denominator(y, b, a);
        assert(b * a == a * b) by (nonlinear_arith);
        assert(twice.at(x, y) == once.at(x / b, y / b));
        assert(once.at(x / b, y / b) == img.at((x / b) / a, (y / b) / a));
        assert(direct.at(x, y) == img.at(x / (a * b), y / (a * b)));
    }
    assert(twice.px@ =~= direct.px@);
}

/// Compositing multiplies transparencies: the part of the result that lets the
/// background through, `255 - alpha`, is the product of the two layers' parts
/// `(255 - sa) * (255 - da) / 255`, rounded up. So two half-transparent layers make a
/// more opaque one, and nothing composited onto an opaque pixel makes it see-through.
pub proof fn law_blend_transparency(dst: Rgba, src: Rgba)
    ensures
        (255 - src[3]) * (255 - dst[3]) <= 255 * (255 - blended(dst, src)[3]),
        255 * (255 - blended(dst, src)[3]) < (255 - src[3]) * (255 - dst[3]) + 255,
{
    let sa = src[3] as int;
    let da = dst[3] as int;
    if 0 < sa < 255 {
        let out_a = sa * 255 + da * (255 - sa);
        let t = (255 - sa) * (255 - da);
        assert(out_a == 65025 - t && 0 < out_a <= 65025) by (nonlinear_arith)
            requires out_a == sa * 255 + da * (255 - sa), t == (255 - sa) * (255 - da), 0 < sa < 255, 0 <= da <= 255;
        vstd::arithmetic::div_mod::lemma_fundamental_div_mod(out_a, 255);
        let q = out_a / 255;
        assert(0 <= q <= 255) by (nonlinear_arith)
            requires q == out_a / 255, 0 < out_a <= 65025, out_a == 255 * q + out_a % 255, 0 <= out_a % 255 < 255;
        assert(blended(dst, src)[3] == q);
        assert(t <= 255 * (255 - q) < t + 255) by (nonlinear_arith)
            requires out_a == 65025 - t, out_a == 255 * q + out_a % 255, 0 <= out_a % 255 < 255;
    } else if sa == 0 {
        assert(blended(dst, src) == dst);
        assert((255 - sa) * (255 - da) == 255 * (255 - da)) by (nonlinear_arith)
            requires sa == 0;
    } else {
        assert(blended(dst, src) == src);
        assert((255 - sa) * (255 - da) == 0) by (nonlinear_arith)
            requires sa == 255;
    }
}

/// Scaling by `k` turns every pixel into a `k` by `k` block of copies of it.
pub proof fn law_scale_blocks(img: Image, out: Image, k: int, x: int, y: int, i: int, j: int)
    requires
        k > 0,
        out.w == img.w * k,
        out.h == img.h * k,
        forall|a: int, b: int| 0 <= a < out.w && 0 <= b < out.h ==> #[trigger] out.at(a, b) == img.at(a / k, b / k),
        0 <= x < img.w,
        0 <= y < img.h,
        0 <= i < k,
        0 <= j < k,
    ensures
        out.at(x * k + i, y * k + j) == img.at(x, y),
{
    assert(0 <= x * k + i < img.w * k && 0 <= y * k + j < img.h * k) by (nonlinear_arith)
        requires 0 <= x < img.w, 0 <= y < img.h, 0 <= i < k, 0 <= j < k;
    vstd::arithmetic::div_mod::lemma_fundamental_div_mod_converse(x * k + i, k, x, i);
    vstd::arithmetic::div_mod::lemma_fundamental_div_mod_converse(y * k + j, k, y, j);
    assert(out.at(x * k + i, y * k + j) == img.at((x * k + i) / k, (y * k + j) / k));
}

} // verus!
