//! Letterboxing: fitting an image into the square model input while keeping
//! its aspect ratio, and mapping boxes between image and model space.
use vstd::prelude::*;
use crate::geometry::{CamTrapDetection, ONE, fit_within, fit_within_exec};

verus! {

/// Grey level of the padding around a letterboxed image.
pub const FILL: u8 = 114;

/// Where a `width x height` image lands in a `size x size` model input: it is
/// scaled by `size / max(width, height)` to `new_width x new_height` and
/// pasted `pad_x` pixels from the left and `pad_y` from the top.
#[derive(Clone, Copy, Debug, PartialEq, Eq, Structural)]
pub struct Letterbox {
    pub size: u32,
    pub new_width: u32,
    pub new_height: u32,
    pub pad_x: u32,
    pub pad_y: u32,
}

/// A box in model-input pixels, in units of `1 / ONE` pixel.
#[derive(Clone, Copy, Debug, PartialEq, Eq, Structural)]
pub struct ModelBox {
    pub x: u64,
    pub y: u64,
    pub width: u64,
    pub height: u64,
}

/// `round(len * size / longest)`, halves rounded up.
pub open spec fn fitted_len(len: int, longest: int, size: int) -> int {
    (2 * len * size + longest) / (2 * longest)
}

pub open spec fn letterbox_of(width: u32, height: u32, size: u32) -> Letterbox {
    let m: int = if width >= height { width as int } else { height as int };
    let nw = fitted_len(width as int, m, size as int);
    let nh = fitted_len(height as int, m, size as int);
    Letterbox {
        size,
        new_width: nw as u32,
        new_height: nh as u32,
        pad_x: ((size - nw) / 2) as u32,
        pad_y: ((size - nh) / 2) as u32,
    }
}

/// Whether a detection holds fractions within `[0, ONE]` and its box ends
/// within the image.
pub open spec fn is_fraction_box(d: CamTrapDetection) -> bool {
    &&& d.x <= ONE && d.y <= ONE && d.width <= ONE && d.height <= ONE
    &&& d.x + d.width <= ONE && d.y + d.height <= ONE
}

/// A model-space coordinate `v` mapped back to an image fraction: padding
/// removed, divided by the scaled length, clamped to `[0, ONE]`.
pub open spec fn unscale(v: int, pad: int, len: int) -> int {
    if len == 0 || v <= pad * ONE {
        0
    } else if (v - pad * ONE) / len > ONE {
        ONE as int
    } else {
        (v - pad * ONE) / len
    }
}

pub open spec fn to_model_spec(lb: Letterbox, d: CamTrapDetection) -> ModelBox {
    ModelBox {
        x: (lb.pad_x * ONE + d.x * lb.new_width) as u64,
        y: (lb.pad_y * ONE + d.y * lb.new_height) as u64,
        width: (d.width * lb.new_width) as u64,
        height: (d.height * lb.new_height) as u64,
    }
}

/// `d` with its box taken from `m`, mapped back to image fractions and
/// clamped to the image.
pub open spec fn from_model_spec(lb: Letterbox, m: ModelBox, d: CamTrapDetection) -> CamTrapDetection {
    let x = unscale(m.x as int, lb.pad_x as int, lb.new_width as int);
    let y = unscale(m.y as int, lb.pad_y as int, lb.new_height as int);
    CamTrapDetection {
        x: x as u32,
        y: y as u32,
        width: fit_within(unscale(m.width as int, 0, lb.new_width as int), x) as u32,
        height: fit_within(unscale(m.height as int, 0, lb.new_height as int), y) as u32,
        ..d
    }
}

/// A box given as fractions of the model input, in model pixels.
pub open spec fn canvas_box(lb: Letterbox, d: CamTrapDetection) -> ModelBox {
    ModelBox {
        x: (d.x * lb.size) as u64,
        y: (d.y * lb.size) as u64,
        width: (d.width * lb.size) as u64,
        height: (d.height * lb.size) as u64,
    }
}

proof fn lemma_fitted_len_bound(len: int, longest: int, size: int)
    requires
        0 < len <= longest,
        0 <= size,
    ensures
        0 <= fitted_len(len, longest, size) <= size,
{
    let num = 2 * len * size + longest;
    let den = 2 * longest;
    assert(num < den * (size + 1)) by (nonlinear_arith)
        requires
            num == 2 * len * size + longest,
            den == 2 * longest,
            0 < len <= longest,
            0 <= size,
    ;
    assert(0 <= num) by (nonlinear_arith)
        requires
            num == 2 * len * size + longest,
            0 < len,
            0 <= size,
            0 < longest,
    ;
    let q = num / den;
    vstd::arithmetic::div_mod::lemma_fundamental_div_mod(num, den);
    vstd::arithmetic::div_mod::lemma_div_pos_is_pos(num, den);
    assert(q <= size) by (nonlinear_arith)
        requires
            num == den * q + num % den,
            0 <= num % den,
            num < den * (size + 1),
            den > 0,
    ;
}

impl Letterbox {
    /// The letterbox of a `width x height` image in a `size x size` input.
    pub fn new(width: u32, height: u32, size: u32) -> (r: Letterbox)
        requires
            width > 0,
            height > 0,
        ensures
            r == letterbox_of(width, height, size),
            r.new_width <= size,
            r.new_height <= size,
            r.pad_x <= size,
            r.pad_y <= size,
            r.pad_x + r.new_width <= size,
            r.pad_y + r.new_height <= size,
    {
        let m: u128 = if width >= height { width as u128 } else { height as u128 };
        proof {
            lemma_fitted_len_bound(width as int, m as int, size as int);
            lemma_fitted_len_bound(height as int, m as int, size as int);
            assert(2 * width * size <= 2 * (u32::MAX as int) * (u32::MAX as int)) by (nonlinear_arith);
            assert(2 * height * size <= 2 * (u32::MAX as int) * (u32::MAX as int)) by (nonlinear_arith);
        }
        let nw = ((2 * (width as u128) * (size as u128) + m) / (2 * m)) as u32;
        let nh = ((2 * (height as u128) * (size as u128) + m) / (2 * m)) as u32;
        Letterbox { size, new_width: nw, new_height: nh, pad_x: (size - nw) / 2, pad_y: (size - nh) / 2 }
    }

    /// Maps a box given as image fractions into model pixels.
    pub fn to_model(&self, d: &CamTrapDetection) -> (r: ModelBox)
        requires
            is_fraction_box(*d),
        ensures
            r == to_model_spec(*self, *d),
    {
        proof {
            crate::geometry::lemma_mul_mono(d.x as int, ONE as int, self.new_width as int, u32::MAX as int);
            crate::geometry::lemma_mul_mono(d.y as int, ONE as int, self.new_height as int, u32::MAX as int);
            crate::geometry::lemma_mul_mono(d.width as int, ONE as int, self.new_width as int, u32::MAX as int);
            crate::geometry::lemma_mul_mono(d.height as int, ONE as int, self.new_height as int, u32::MAX as int);
            crate::geometry::lemma_mul_mono(self.pad_x as int, u32::MAX as int, ONE as int, ONE as int);
            crate::geometry::lemma_mul_mono(self.pad_y as int, u32::MAX as int, ONE as int, ONE as int);
        }
        ModelBox {
            x: self.pad_x as u64 * ONE as u64 + d.x as u64 * self.new_width as u64,
            y: self.pad_y as u64 * ONE as u64 + d.y as u64 * self.new_height as u64,
            width: d.width as u64 * self.new_width as u64,
            height: d.height as u64 * self.new_height as u64,
        }
    }

    /// Maps a box in model pixels back to image fractions, keeping the class
    /// and confidence of `d`.
    pub fn from_model(&self, m: &ModelBox, d: &CamTrapDetection) -> (r: CamTrapDetection)
        ensures
            r == from_model_spec(*self, *m, *d),
            is_fraction_box(r),
    {
        let x = unscale_exec(m.x, self.pad_x, self.new_width);
        let y = unscale_exec(m.y, self.pad_y, self.new_height);
        CamTrapDetection {
            x,
            y,
            width: fit_within_exec(unscale_exec(m.width, 0, self.new_width), x),
            height: fit_within_exec(unscale_exec(m.height, 0, self.new_height), y),
            ..*d
        }
    }

    /// Maps a detection given as fractions of the model input back to
    /// fractions of the original image.
    pub fn unletterbox(&self, d: &CamTrapDetection) -> (r: CamTrapDetection)
        requires
            is_fraction_box(*d),
        ensures
            r == from_model_spec(*self, canvas_box(*self, *d), *d),
    {
        proof {
            crate::geometry::lemma_mul_mono(d.x as int, ONE as int, self.size as int, u32::MAX as int);
            crate::geometry::lemma_mul_mono(d.y as int, ONE as int, self.size as int, u32::MAX as int);
            crate::geometry::lemma_mul_mono(d.width as int, ONE as int, self.size as int, u32::MAX as int);
            crate::geometry::lemma_mul_mono(d.height as int, ONE as int, self.size as int, u32::MAX as int);
        }
        let m = ModelBox {
            x: d.x as u64 * self.size as u64,
            y: d.y as u64 * self.size as u64,
            width: d.width as u64 * self.size as u64,
            height: d.height as u64 * self.size as u64,
        };
        self.from_model(&m, d)
    }
}

fn unscale_exec(v: u64, pad: u32, len: u32) -> (r: u32)
    ensures
        r == unscale(v as int, pad as int, len as int),
        r <= ONE,
{
    let p: u64 = pad as u64 * ONE as u64;
    if len == 0 || v <= p {
        0
    } else {
        let q = (v - p) / len as u64;
        if q > ONE as u64 {
            ONE
        } else {
            q as u32
        }
    }
}

/// Mapping a fraction box into model space and back gives the box again,
/// whenever the scaled image has positive width and height.
pub proof fn lemma_letterbox_round_trip(lb: Letterbox, d: CamTrapDetection)
    requires
        is_fraction_box(d),
        lb.new_width > 0,
        lb.new_height > 0,
    ensures
        from_model_spec(lb, to_model_spec(lb, d), d) == d,
{
    crate::geometry::lemma_mul_mono(d.x as int, ONE as int, lb.new_width as int, u32::MAX as int);
    crate::geometry::lemma_mul_mono(d.y as int, ONE as int, lb.new_height as int, u32::MAX as int);
    crate::geometry::lemma_mul_mono(d.width as int, ONE as int, lb.new_width as int, u32::MAX as int);
    crate::geometry::lemma_mul_mono(d.height as int, ONE as int, lb.new_height as int, u32::MAX as int);
    crate::geometry::lemma_mul_mono(lb.pad_x as int, u32::MAX as int, ONE as int, ONE as int);
    crate::geometry::lemma_mul_mono(lb.pad_y as int, u32::MAX as int, ONE as int, ONE as int);
    lemma_unscale_scaled(d.x as int, lb.pad_x as int, lb.new_width as int);
    lemma_unscale_scaled(d.y as int, lb.pad_y as int, lb.new_height as int);
    lemma_unscale_scaled(d.width as int, 0, lb.new_width as int);
    lemma_unscale_scaled(d.height as int, 0, lb.new_height as int);
}

proof fn lemma_unscale_scaled(v: int, pad: int, len: int)
    requires
        0 <= v <= ONE,
        0 <= pad,
        0 < len,
    ensures
        unscale(pad * ONE + v * len, pad, len) == v,
{
    vstd::arithmetic::div_mod::lemma_div_multiples_vanish(v, len);
    assert(v * len == len * v) by (nonlinear_arith);
    if v > 0 {
        assert(v * len > 0) by (nonlinear_arith)
            requires
                v > 0,
                len > 0,
        ;
    } else {
        assert(v * len == 0);
    }
}

/// A fraction box mapped forward into fractions of the model input, rounded down.
pub open spec fn to_canvas_spec(lb: Letterbox, d: CamTrapDetection) -> CamTrapDetection {
    let m = to_model_spec(lb, d);
    CamTrapDetection {
        x: (m.x as int / lb.size as int) as u32,
        y: (m.y as int / lb.size as int) as u32,
        width: (m.width as int / lb.size as int) as u32,
        height: (m.height as int / lb.size as int) as u32,
        ..d
    }
}

/// One coordinate through the model input and back loses at most
/// `size / len + 1` units, and never gains.
proof fn lemma_unscale_canvas(x: int, pad: int, len: int, size: int)
    requires
        0 <= x <= ONE,
        0 <= pad,
        0 < len,
        0 < size,
    ensures
        ({
            let v = pad * ONE + x * len;
            let r = unscale((v / size) * size, pad, len);
            r <= x <= r + size / len + 1
        }),
{
    let v = pad * ONE + x * len;
    let c = v / size;
    let m = c * size;
    let p = pad * ONE;
    vstd::arithmetic::div_mod::lemma_fundamental_div_mod(v, size);
    vstd::arithmetic::div_mod::lemma_fundamental_div_mod(size, len);
    let sq = size / len;
    assert(m <= v && m > v - size) by (nonlinear_arith)
        requires
            v == size * c + v % size,
            0 <= v % size < size,
            m == c * size,
    ;
    assert((sq + 1) * len > size) by (nonlinear_arith)
        requires
            size == len * sq + size % len,
            0 <= size % len < len,
    ;
    if m <= p {
        assert(x <= sq + 1) by (nonlinear_arith)
            requires
                x * len < size + 0,
                (sq + 1) * len > size,
                len > 0,
        ;
    } else {
        let q = (m - p) / len;
        vstd::arithmetic::div_mod::lemma_fundamental_div_mod(m - p, len);
        assert(q <= x) by (nonlinear_arith)
            requires
                m - p == len * q + (m - p) % len,
                0 <= (m - p) % len,
                m - p <= x * len,
                len > 0,
        ;
        assert(x <= q + sq + 1) by (nonlinear_arith)
            requires
                m - p == len * q + (m - p) % len,
                (m - p) % len < len,
                m - p > x * len - size,
                (sq + 1) * len > size,
                len > 0,
        ;
    }
}

/// Mapping a fraction box forward into fractions of the model input (rounded
/// down) and back through the letterbox gives the box again to within
/// `size / new_width + 1` units across and `size / new_height + 1` down, never
/// larger.
pub proof fn lemma_letterbox_canvas_round_trip(lb: Letterbox, d: CamTrapDetection)
    requires
        is_fraction_box(d),
        lb.new_width > 0,
        lb.new_height > 0,
        lb.pad_x + lb.new_width <= lb.size,
        lb.pad_y + lb.new_height <= lb.size,
    ensures
        ({
            let c = to_canvas_spec(lb, d);
            let r = from_model_spec(lb, canvas_box(lb, c), c);
            let ex = lb.size / lb.new_width + 1;
            let ey = lb.size / lb.new_height + 1;
            &&& r.x <= d.x <= r.x + ex
            &&& r.y <= d.y <= r.y + ey
            &&& r.width <= d.width <= r.width + ex
            &&& r.height <= d.height <= r.height + ey
        }),
{
    let s = lb.size as int;
    crate::geometry::lemma_mul_mono(d.x as int, ONE as int, lb.new_width as int, u32::MAX as int);
    crate::geometry::lemma_mul_mono(d.y as int, ONE as int, lb.new_height as int, u32::MAX as int);
    crate::geometry::lemma_mul_mono(d.width as int, ONE as int, lb.new_width as int, u32::MAX as int);
    crate::geometry::lemma_mul_mono(d.height as int, ONE as int, lb.new_height as int, u32::MAX as int);
    crate::geometry::lemma_mul_mono(lb.pad_x as int, u32::MAX as int, ONE as int, ONE as int);
    crate::geometry::lemma_mul_mono(lb.pad_y as int, u32::MAX as int, ONE as int, ONE as int);
    let m = to_model_spec(lb, d);
    assert(m.x == lb.pad_x * ONE + d.x * lb.new_width);
    assert(m.y == lb.pad_y * ONE + d.y * lb.new_height);
    assert(m.width == 0 * ONE + d.width * lb.new_width);
    assert(m.height == 0 * ONE + d.height * lb.new_height);
    lemma_unscale_canvas(d.x as int, lb.pad_x as int, lb.new_width as int, s);
    lemma_unscale_canvas(d.y as int, lb.pad_y as int, lb.new_height as int, s);
    lemma_unscale_canvas(d.width as int, 0, lb.new_width as int, s);
    lemma_unscale_canvas(d.height as int, 0, lb.new_height as int, s);
    assert(m.x <= s * ONE && m.y <= s * ONE && m.width <= s * ONE && m.height <= s * ONE) by (nonlinear_arith)
        requires
            m.x == lb.pad_x * ONE + d.x * lb.new_width,
            m.y == lb.pad_y * ONE + d.y * lb.new_height,
            m.width == 0 * ONE + d.width * lb.new_width,
            m.height == 0 * ONE + d.height * lb.new_height,
            d.x <= ONE && d.y <= ONE && d.width <= ONE && d.height <= ONE,
            lb.pad_x + lb.new_width <= s,
            lb.pad_y + lb.new_height <= s,
            lb.pad_x >= 0 && lb.pad_y >= 0 && lb.new_width >= 0 && lb.new_height >= 0,
    ;
    lemma_canvas_bounds(m.x as int, s);
    lemma_canvas_bounds(m.y as int, s);
    lemma_canvas_bounds(m.width as int, s);
    lemma_canvas_bounds(m.height as int, s);
}

proof fn lemma_canvas_bounds(v: int, size: int)
    requires
        0 <= v <= size * ONE,
        0 < size,
    ensures
        0 <= v / size <= ONE,
        0 <= (v / size) * size <= v,
{
    vstd::arithmetic::div_mod::lemma_fundamental_div_mod(v, size);
    vstd::arithmetic::div_mod::lemma_div_pos_is_pos(v, size);
    assert((v / size) * size <= v) by (nonlinear_arith)
        requires
            v == size * (v / size) + v % size,
            0 <= v % size,
    ;
    assert(v / size <= ONE) by (nonlinear_arith)
        requires
            v == size * (v / size) + v % size,
            0 <= v % size,
            0 < size,
            v <= size * ONE,
    ;
}

/// The model input built from a resized RGB image (interleaved, row-major):
/// value `k` of the result is channel `k / size²`, row `(k % size²) / size`,
/// column `k % size` of the padded canvas (channel-major planes).
pub open spec fn canvas_value(resized: Seq<u8>, lb: Letterbox, k: int) -> u8 {
    let s = lb.size as int;
    let c = k / (s * s);
    let y = (k % (s * s)) / s;
    let x = (k % (s * s)) % s;
    if lb.pad_x <= x < lb.pad_x + lb.new_width && lb.pad_y <= y < lb.pad_y + lb.new_height {
        resized[((y - lb.pad_y) * lb.new_width + (x - lb.pad_x)) * 3 + c]
    } else {
        FILL
    }
}

/// What `image::imageops::resize` makes of an RGB buffer.
pub uninterp spec fn resized_pixels(
    pixels: Seq<u8>,
    width: nat,
    height: nat,
    new_width: nat,
    new_height: nat,
) -> Seq<u8>;

/// Relies on `image::imageops::resize` with the Catmull-Rom filter: the result
/// is a `new_width x new_height` RGB buffer that depends on the arguments alone.
#[verifier::external_body]
fn resize_rgb(pixels: &Vec<u8>, width: u32, height: u32, new_width: u32, new_height: u32) -> (r: Vec<u8>)
    requires
        pixels@.len() == width * height * 3,
        new_width * new_height * 3 <= usize::MAX,
    ensures
        r@.len() == new_width * new_height * 3,
        r@ == resized_pixels(pixels@, width as nat, height as nat, new_width as nat, new_height as nat),
{
    let img = image::RgbImage::from_raw(width, height, pixels.clone()).unwrap();
    image::imageops::resize(&img, new_width, new_height, image::imageops::FilterType::CatmullRom).into_raw()
}

/// Pastes a resized image into the padded square canvas, one plane per channel.
pub fn letterbox_canvas(resized: &Vec<u8>, lb: &Letterbox) -> (r: Vec<u8>)
    requires
        resized@.len() == lb.new_width * lb.new_height * 3,
        3 * lb.size * lb.size <= usize::MAX,
    ensures
        r@.len() == 3 * lb.size * lb.size,
        forall|k: int| 0 <= k < r@.len() ==> #[trigger] r@[k] == canvas_value(resized@, *lb, k),
{
    let s: usize = lb.size as usize;
    assert(3 * (s * s) <= usize::MAX) by (nonlinear_arith)
        requires
            s == lb.size,
            3 * lb.size * lb.size <= usize::MAX,
    ;
    let plane: usize = s * s;
    let total: usize = 3 * plane;
    assert(total == 3 * lb.size * lb.size) by (nonlinear_arith)
        requires
            s == lb.size,
            plane == s * s,
            total == 3 * plane,
    ;
    let mut out: Vec<u8> = Vec::with_capacity(total);
    let mut k: usize = 0;
    while k < total
        invariant
            s == lb.size,
            plane == s * s,
            total == 3 * plane,
            total == 3 * lb.size * lb.size,
            k <= total,
            out@.len() == k,
            resized@.len() == lb.new_width * lb.new_height * 3,
            forall|j: int| 0 <= j < k ==> #[trigger] out@[j] == canvas_value(resized@, *lb, j),
        decreases total - k,
    {
        assert(plane > 0) by (nonlinear_arith)
            requires
                plane == s * s,
                k < 3 * plane,
        ;
        assert(s > 0) by (nonlinear_arith)
            requires
                plane == s * s,
                plane > 0,
        ;
        let c = k / plane;
        let y = (k % plane) / s;
        let x = (k % plane) % s;
        let px = lb.pad_x as usize;
        let py = lb.pad_y as usize;
        let v: u8 = if px <= x && x - px < lb.new_width as usize && py <= y && y - py < lb.new_height as usize {
            let xx = x - px;
            let yy = y - py;
            let nw = lb.new_width as usize;
            let nh = lb.new_height as usize;
            assert(c < 3) by (nonlinear_arith)
                requires
                    c == k / plane,
                    k < 3 * plane,
                    plane > 0,
            ;
            assert(yy * nw + xx < nw * nh && yy * nw <= nw * nh) by (nonlinear_arith)
                requires
                    yy < nh,
                    xx < nw,
            ;
            assert((yy * nw + xx) * 3 + c < nw * nh * 3) by (nonlinear_arith)
                requires
                    yy * nw + xx < nw * nh,
                    c < 3,
            ;
            let len = resized.len();
            assert(yy * nw <= len && (yy * nw + xx) * 3 + c < len) by (nonlinear_arith)
                requires
                    yy * nw + xx < nw * nh,
                    yy * nw <= nw * nh,
                    (yy * nw + xx) * 3 + c < nw * nh * 3,
                    len == nw * nh * 3,
            ;
            resized[(yy * nw + xx) * 3 + c]
        } else {
            FILL
        };
        out.push(v);
        k += 1;
    }
    out
}

/// Letterboxes an RGB image (interleaved, row-major) into a `size x size`
/// model input, one plane per channel, padded with `FILL`.
pub fn preprocess(pixels: &Vec<u8>, width: u32, height: u32, size: u32) -> (r: (Letterbox, Vec<u8>))
    requires
        width > 0,
        height > 0,
        pixels@.len() == width * height * 3,
        3 * size * size <= usize::MAX,
    ensures
        r.0 == letterbox_of(width, height, size),
        r.1@.len() == 3 * size * size,
        forall|k: int|
            0 <= k < r.1@.len() ==> #[trigger] r.1@[k] == canvas_value(
                resized_pixels(
                    pixels@,
                    width as nat,
                    height as nat,
                    r.0.new_width as nat,
                    r.0.new_height as nat,
                ),
                r.0,
                k,
            ),
{
    let lb = Letterbox::new(width, height, size);
    proof {
        crate::geometry::lemma_mul_mono(lb.new_width as int, size as int, lb.new_height as int, size as int);
        assert(lb.new_width * lb.new_height * 3 <= 3 * size * size) by (nonlinear_arith)
            requires
                lb.new_width * lb.new_height <= size * size,
        ;
    }
    let resized = resize_rgb(pixels, width, height, lb.new_width, lb.new_height);
    let canvas = letterbox_canvas(&resized, &lb);
    (lb, canvas)
}

} // verus!
