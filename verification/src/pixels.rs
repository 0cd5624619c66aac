//! Pixel-buffer transforms of the frame classification pipeline.
//!
//! Frames arrive as packed 24-bit RGB buffers. Before text recognition a
//! frame may be downscaled, is binarized against an inclusive per-channel
//! RGB envelope, and may get a second brightness/contrast/inversion pass.
//! Brightness and contrast are fixed-point values in millionths, so the
//! per-pixel arithmetic is exact integer arithmetic.

use vstd::prelude::*;
use vstd::arithmetic::div_mod::lemma_fundamental_div_mod;
use fast_image_resize::FilterType as FrFilter;
use fast_image_resize::PixelType as FrPixelType;
use fast_image_resize::ResizeAlg as FrAlg;
use fast_image_resize::ResizeOptions as FrOptions;
use fast_image_resize::Resizer as FrResizer;
use fast_image_resize::images::Image as FrImage;

verus! {

/// Denominator of all fixed-point fractions: one million.
pub const FRAC_DEN: i64 = 1000000;

/// Inclusive per-channel RGB envelope mapped to black by binarization.
pub struct BinarisationParams {
    pub min_rgb: [u8; 3],
    pub max_rgb: [u8; 3],
}

/// Brightness/contrast/inversion pass parameters; brightness and
/// contrast are fixed-point millionths.
pub struct BrightnessContrastParams {
    pub brightness: i64,
    pub contrast: i64,
    pub invert: bool,
}

impl BrightnessContrastParams {
    /// Parameter magnitudes the exact arithmetic accepts.
    pub open spec fn wf(&self) -> bool {
        &&& -100 * FRAC_DEN <= self.brightness <= 100 * FRAC_DEN
        &&& -10000 * FRAC_DEN <= self.contrast <= 10000 * FRAC_DEN
    }
}

/// A downscale target: frames taller than this are resized to this
/// height before recognition, preserving aspect ratio.
pub struct Resize {
    pub height: u32,
}

/// A pixel is in range when every channel lies inside the inclusive
/// envelope.
pub open spec fn rgb_in_range(r: u8, g: u8, b: u8, min: [u8; 3], max: [u8; 3]) -> bool {
    &&& min[0] <= r <= max[0]
    &&& min[1] <= g <= max[1]
    &&& min[2] <= b <= max[2]
}

/// Binarizes a packed RGB buffer in place: pixels inside the envelope
/// become black, all others white; trailing bytes of a ragged buffer are
/// untouched.
pub fn frame_binarisation(image_data: &mut Vec<u8>, min_rgb: [u8; 3], max_rgb: [u8; 3])
    ensures
        final(image_data)@.len() == old(image_data)@.len(),
        forall|p: int| 0 <= p < old(image_data)@.len() / 3 ==> {
            let v: u8 = if rgb_in_range(
                #[trigger] old(image_data)@[3 * p],
                old(image_data)@[3 * p + 1],
                old(image_data)@[3 * p + 2],
                min_rgb,
                max_rgb,
            ) {
                0
            } else {
                255
            };
            final(image_data)@[3 * p] == v && final(image_data)@[3 * p + 1] == v
                && final(image_data)@[3 * p + 2] == v
        },
        forall|i: int| 3 * (old(image_data)@.len() / 3) <= i < old(image_data)@.len()
            ==> final(image_data)@[i] == old(image_data)@[i],
{
    let ghost orig = image_data@;
    let n = image_data.len() / 3;
    proof {
        lemma_fundamental_div_mod(orig.len() as int, 3);
    }
    let mut p: usize = 0;
    while p < n
        invariant
            p <= n,
            n == orig.len() / 3,
            3 * n <= orig.len(),
            orig.len() <= usize::MAX,
            image_data@.len() == orig.len(),
            forall|q: int| p <= q < n ==> #[trigger] image_data@[3 * q] == orig[3 * q]
                && image_data@[3 * q + 1] == orig[3 * q + 1]
                && image_data@[3 * q + 2] == orig[3 * q + 2],
            forall|q: int| 0 <= q < p ==> {
                let v: u8 = if rgb_in_range(
                    #[trigger] orig[3 * q],
                    orig[3 * q + 1],
                    orig[3 * q + 2],
                    min_rgb,
                    max_rgb,
                ) {
                    0
                } else {
                    255
                };
                image_data@[3 * q] == v && image_data@[3 * q + 1] == v
                    && image_data@[3 * q + 2] == v
            },
            forall|i: int| 3 * n <= i < orig.len() ==> #[trigger] image_data@[i] == orig[i],
        decreases n - p,
    {
        let r = image_data[3 * p];
        let g = image_data[3 * p + 1];
        let b = image_data[3 * p + 2];
        let v: u8 = if min_rgb[0] <= r && r <= max_rgb[0] && min_rgb[1] <= g && g <= max_rgb[1]
            && min_rgb[2] <= b && b <= max_rgb[2] {
            0
        } else {
            255
        };
        image_data[3 * p] = v;
        image_data[3 * p + 1] = v;
        image_data[3 * p + 2] = v;
        proof {
            assert forall|q: int| p + 1 <= q < n implies #[trigger] image_data@[3 * q] == orig[3
                * q] && image_data@[3 * q + 1] == orig[3 * q + 1] && image_data@[3 * q + 2]
                == orig[3 * q + 2] by {
                assert(3 * q >= 3 * (p as int) + 3);
            }
        }
        p += 1;
    }
}

/// A pixel whose every channel sits exactly on the envelope is in range;
/// moving any channel one unit outside the envelope puts the pixel out
/// of range.
pub proof fn lemma_binarisation_boundary(min: [u8; 3], max: [u8; 3])
    requires
        min[0] <= max[0],
        min[1] <= max[1],
        min[2] <= max[2],
    ensures
        rgb_in_range(min[0], min[1], min[2], min, max),
        rgb_in_range(max[0], max[1], max[2], min, max),
        min[0] > 0 ==> !rgb_in_range((min[0] - 1) as u8, min[1], min[2], min, max),
        min[1] > 0 ==> !rgb_in_range(min[0], (min[1] - 1) as u8, min[2], min, max),
        min[2] > 0 ==> !rgb_in_range(min[0], min[1], (min[2] - 1) as u8, min, max),
        max[0] < 255 ==> !rgb_in_range((max[0] + 1) as u8, max[1], max[2], min, max),
        max[1] < 255 ==> !rgb_in_range(max[0], (max[1] + 1) as u8, max[2], min, max),
        max[2] < 255 ==> !rgb_in_range(max[0], max[1], (max[2] + 1) as u8, min, max),
{
}

/// Division truncating toward zero, as machine division does.
pub open spec fn div_trunc(a: int, b: int) -> int {
    if a >= 0 {
        a / b
    } else {
        -((-a) / b)
    }
}

/// One channel through the brightness/contrast pass: the byte is mapped
/// to a unit-scale fraction, shifted by `brightness`, scaled by
/// `contrast`, clamped back into the unit range, mapped back to a byte,
/// and optionally inverted.
pub open spec fn bc_channel(v: u8, brightness: int, contrast: int, invert: bool) -> u8 {
    let shifted = v * FRAC_DEN / 255 + brightness;
    let scaled = div_trunc(shifted * contrast, FRAC_DEN as int);
    let clamped = if scaled < 0 {
        0
    } else if scaled > FRAC_DEN {
        FRAC_DEN as int
    } else {
        scaled
    };
    let out = clamped * 255 / FRAC_DEN as int;
    if invert {
        (255 - out) as u8
    } else {
        out as u8
    }
}

proof fn lemma_bc_channel_bounds(clamped: int)
    by (nonlinear_arith)
    requires
        0 <= clamped <= FRAC_DEN,
    ensures
        0 <= clamped * 255 / FRAC_DEN as int <= 255,
{
}

/// Applies the brightness/contrast/inversion pass to every byte of a
/// packed RGB buffer; trailing bytes of a ragged buffer are untouched.
pub fn frame_brightness_contrast(
    image_data: &mut Vec<u8>,
    brightness: i64,
    contrast: i64,
    invert: bool,
)
    requires
        -100 * FRAC_DEN <= brightness <= 100 * FRAC_DEN,
        -10000 * FRAC_DEN <= contrast <= 10000 * FRAC_DEN,
    ensures
        final(image_data)@.len() == old(image_data)@.len(),
        forall|i: int| 0 <= i < 3 * (old(image_data)@.len() / 3)
            ==> final(image_data)@[i] == bc_channel(
                #[trigger] old(image_data)@[i],
                brightness as int,
                contrast as int,
                invert,
            ),
        forall|i: int| 3 * (old(image_data)@.len() / 3) <= i < old(image_data)@.len()
            ==> final(image_data)@[i] == old(image_data)@[i],
{
    let ghost orig = image_data@;
    let n = image_data.len() / 3;
    proof {
        lemma_fundamental_div_mod(orig.len() as int, 3);
    }
    let end: usize = 3 * n;
    let mut i: usize = 0;
    while i < end
        invariant
            i <= end,
            n == orig.len() / 3,
            end == 3 * n,
            3 * n <= orig.len(),
            image_data@.len() == orig.len(),
            -100 * FRAC_DEN <= brightness <= 100 * FRAC_DEN,
            -10000 * FRAC_DEN <= contrast <= 10000 * FRAC_DEN,
            forall|j: int| i <= j < orig.len() ==> #[trigger] image_data@[j] == orig[j],
            forall|j: int| 0 <= j < i ==> #[trigger] image_data@[j] == bc_channel(
                orig[j],
                brightness as int,
                contrast as int,
                invert,
            ),
        decreases end - i,
    {
        let v = image_data[i];
        let shifted: i64 = v as i64 * FRAC_DEN / 255 + brightness;
        let sa: i64 = if shifted >= 0 { shifted } else { -shifted };
        let ca: i64 = if contrast >= 0 { contrast } else { -contrast };
        proof {
            lemma_abs_mul_bounds(sa as int, ca as int, 101 * FRAC_DEN as int,
                10000 * FRAC_DEN as int);
            lemma_abs_mul_signs(shifted as int, contrast as int, sa as int, ca as int,
                FRAC_DEN as int);
        }
        let q: i64 = (sa as i128 * ca as i128 / FRAC_DEN as i128) as i64;
        let scaled: i64 = if (shifted < 0) != (contrast < 0) { -q } else { q };
        let clamped: i64 = if scaled < 0 {
            0
        } else if scaled > FRAC_DEN {
            FRAC_DEN
        } else {
            scaled
        };
        proof {
            lemma_bc_channel_bounds(clamped as int);
        }
        let out: i64 = clamped * 255 / FRAC_DEN;
        let nv: u8 = if invert {
            (255 - out) as u8
        } else {
            out as u8
        };
        image_data[i] = nv;
        i += 1;
    }
}

proof fn lemma_abs_mul_bounds(a: int, b: int, amax: int, bmax: int)
    by (nonlinear_arith)
    requires
        0 <= a <= amax,
        0 <= b <= bmax,
    ensures
        0 <= a * b <= amax * bmax,
{
}

/// Relates the magnitude-and-sign computation of a truncating division
/// to `div_trunc` on the signed product.
proof fn lemma_abs_mul_signs(x: int, y: int, ax: int, ay: int, d: int)
    by (nonlinear_arith)
    requires
        d >= 1,
        ax == if x >= 0 { x } else { -x },
        ay == if y >= 0 { y } else { -y },
    ensures
        (x < 0) != (y < 0) ==> div_trunc(x * y, d) == -(ax * ay / d),
        !((x < 0) != (y < 0)) ==> div_trunc(x * y, d) == ax * ay / d,
        div_trunc(x * y, d) == if (x < 0) != (y < 0) { -(ax * ay / d) } else { ax * ay / d },
{
}

/// Sum of channel `c` over the first `n` pixels of a packed RGB row.
pub open spec fn chan_sum(row: Seq<u8>, c: int, n: int) -> int
    decreases n,
{
    if n <= 0 {
        0
    } else {
        chan_sum(row, c, n - 1) + row[3 * (n - 1) + c]
    }
}

proof fn lemma_chan_sum_bounds(row: Seq<u8>, c: int, n: int)
    requires
        0 <= n,
        3 * n <= row.len(),
        0 <= c < 3,
    ensures
        0 <= chan_sum(row, c, n) <= 255 * n,
    decreases n,
{
    if n > 0 {
        lemma_chan_sum_bounds(row, c, n - 1);
    }
}

/// The tuned color envelope of the "spectating" banner: averages of the
/// frame's bottom row within these bounds mean the player is spectating.
/// A calibration constant; the bounds are exclusive.
pub open spec fn spectator_envelope(r: int, g: int, b: int) -> bool {
    r > 173 && r < 205 && g > 4 && g < 45 && b > 50 && b < 76
}

/// Whether the average color of the frame's bottom pixel row falls in
/// the spectator envelope.
pub open spec fn is_spectating_spec(frame: Seq<u8>, width: int) -> bool {
    let row = frame.subrange(frame.len() - 3 * width, frame.len() as int);
    spectator_envelope(
        chan_sum(row, 0, width) / width,
        chan_sum(row, 1, width) / width,
        chan_sum(row, 2, width) / width,
    )
}

/// Samples the frame's bottom pixel row and reports whether its average
/// color falls inside the spectator envelope.
pub fn is_spectating(frame: &Vec<u8>, width: usize) -> (r: bool)
    requires
        1 <= width <= 0x100000,
        3 * width <= frame@.len(),
    ensures
        r == is_spectating_spec(frame@, width as int),
{
    let ghost row = frame@.subrange(frame@.len() - 3 * width, frame@.len() as int);
    let base = frame.len() - 3 * width;
    let mut sums: [i64; 3] = [0, 0, 0];
    let mut k: usize = 0;
    while k < width
        invariant
            k <= width,
            1 <= width <= 0x100000,
            3 * width <= frame@.len(),
            frame@.len() <= usize::MAX,
            base == frame@.len() - 3 * width,
            row == frame@.subrange(frame@.len() - 3 * width, frame@.len() as int),
            sums[0] == chan_sum(row, 0, k as int),
            sums[1] == chan_sum(row, 1, k as int),
            sums[2] == chan_sum(row, 2, k as int),
            0 <= sums[0] <= 255 * k,
            0 <= sums[1] <= 255 * k,
            0 <= sums[2] <= 255 * k,
        decreases width - k,
    {
        proof {
            assert(row[3 * (k as int) + 0] == frame@[base + 3 * (k as int) + 0]);
            assert(row[3 * (k as int) + 1] == frame@[base + 3 * (k as int) + 1]);
            assert(row[3 * (k as int) + 2] == frame@[base + 3 * (k as int) + 2]);
        }
        let r = frame[base + 3 * k];
        let g = frame[base + 3 * k + 1];
        let b = frame[base + 3 * k + 2];
        sums[0] = sums[0] + r as i64;
        sums[1] = sums[1] + g as i64;
        sums[2] = sums[2] + b as i64;
        k += 1;
    }
    let w = width as i64;
    let avg_r = sums[0] / w;
    let avg_g = sums[1] / w;
    let avg_b = sums[2] / w;
    avg_r > 173 && avg_r < 205 && avg_g > 4 && avg_g < 45 && avg_b > 50 && avg_b < 76
}

/// Sum of all bytes of a buffer.
pub open spec fn byte_sum(s: Seq<u8>) -> int
    decreases s.len(),
{
    if s.len() == 0 {
        0
    } else {
        byte_sum(s.drop_last()) + s.last()
    }
}

proof fn lemma_byte_sum_bounds(s: Seq<u8>)
    ensures
        0 <= byte_sum(s) <= 255 * s.len(),
    decreases s.len(),
{
    if s.len() > 0 {
        lemma_byte_sum_bounds(s.drop_last());
    }
}

/// Mean byte value of a buffer, as the average-pixel-value profile
/// samples it.
pub fn average_byte_value(data: &Vec<u8>) -> (r: u8)
    requires
        1 <= data@.len() <= 0xff_ffff_ffff_ffff,
    ensures
        r == byte_sum(data@) / data@.len() as int,
{
    let mut sum: u64 = 0;
    let mut i: usize = 0;
    proof {
        lemma_byte_sum_bounds(data@);
    }
    while i < data.len()
        invariant
            i <= data@.len(),
            data@.len() <= 0xff_ffff_ffff_ffff,
            sum == byte_sum(data@.take(i as int)),
            0 <= sum <= 255 * i,
        decreases data@.len() - i,
    {
        proof {
            assert(data@.take(i + 1).drop_last() =~= data@.take(i as int));
            assert(data@.take(i + 1).last() == data@[i as int]);
            lemma_byte_sum_bounds(data@.take(i as int));
        }
        sum = sum + data[i] as u64;
        i += 1;
    }
    proof {
        assert(data@.take(data@.len() as int) =~= data@);
        lemma_byte_sum_bounds(data@);
        assert(byte_sum(data@) / data@.len() as int <= 255) by {
            vstd::arithmetic::div_mod::lemma_div_is_ordered(
                byte_sum(data@), 255 * data@.len() as int, data@.len() as int);
            vstd::arithmetic::div_mod::lemma_div_by_multiple(255, data@.len() as int);
        }
        vstd::arithmetic::div_mod::lemma_div_pos_is_pos(byte_sum(data@), data@.len() as int);
    }
    (sum / data.len() as u64) as u8
}

/// The width a frame downscaled to `target_height` keeps, preserving
/// aspect ratio.
pub fn resize_dims(width: u32, height: u32, target_height: u32) -> (r: (u32, u32))
    requires
        height >= 1,
        target_height >= 1,
        width as int * target_height as int / height as int <= u32::MAX,
    ensures
        r.0 == width as int * target_height as int / height as int,
        r.1 == target_height,
{
    proof {
        lemma_abs_mul_bounds(width as int, target_height as int, 0xffff_ffff, 0xffff_ffff);
        vstd::arithmetic::div_mod::lemma_div_pos_is_pos(
            width as int * target_height as int, height as int);
    }
    let dw: u64 = width as u64 * target_height as u64 / height as u64;
    (dw as u32, target_height)
}

/// Resampling algorithm choices for downscaling, dispatched to the image
/// resampler.
pub enum ResizeAlgorithm {
    Nearest,
    Box,
    Bilinear,
    Hamming,
    CatmullRom,
    Mitchell,
    Lanczos3,
}

/// Stable code of a resampling algorithm, naming it in contracts.
pub open spec fn alg_code(a: ResizeAlgorithm) -> int {
    match a {
        ResizeAlgorithm::Nearest => 0,
        ResizeAlgorithm::Box => 1,
        ResizeAlgorithm::Bilinear => 2,
        ResizeAlgorithm::Hamming => 3,
        ResizeAlgorithm::CatmullRom => 4,
        ResizeAlgorithm::Mitchell => 5,
        ResizeAlgorithm::Lanczos3 => 6,
    }
}

/// Pixels of `data` (a `width` x `height` packed RGB image) resampled to
/// `dst_width` x `dst_height` with the algorithm of code `alg`. The
/// resampler computes this from its arguments alone.
pub uninterp spec fn resized_pixels(
    data: Seq<u8>,
    width: int,
    height: int,
    dst_width: int,
    dst_height: int,
    alg: int,
) -> Seq<u8>;

/// Relies on fast_image_resize's Resizer::resize between two packed
/// 8-bit-RGB images: the destination buffer holds dst_width * dst_height
/// pixels of 3 bytes, filled by a resample that depends only on the
/// source pixels, the dimensions and the algorithm.
#[verifier::external_body]
fn resize_rgb(
    data: &Vec<u8>,
    width: u32,
    height: u32,
    dst_width: u32,
    dst_height: u32,
    alg: &ResizeAlgorithm,
) -> (r: Vec<u8>)
    requires
        data@.len() == width as int * height as int * 3,
        1 <= width,
        1 <= height,
        1 <= dst_width,
        1 <= dst_height,
    ensures
        r@.len() == dst_width as int * dst_height as int * 3,
        r@ == resized_pixels(
            data@,
            width as int,
            height as int,
            dst_width as int,
            dst_height as int,
            alg_code(*alg),
        ),
{
    let fr_alg = match alg {
        ResizeAlgorithm::Nearest => FrAlg::Nearest,
        ResizeAlgorithm::Box => FrAlg::Convolution(FrFilter::Box),
        ResizeAlgorithm::Bilinear => FrAlg::Convolution(FrFilter::Bilinear),
        ResizeAlgorithm::Hamming => FrAlg::Convolution(FrFilter::Hamming),
        ResizeAlgorithm::CatmullRom => FrAlg::Convolution(FrFilter::CatmullRom),
        ResizeAlgorithm::Mitchell => FrAlg::Convolution(FrFilter::Mitchell),
        ResizeAlgorithm::Lanczos3 => FrAlg::Convolution(FrFilter::Lanczos3),
    };
    let src = FrImage::from_vec_u8(width, height, data.clone(), FrPixelType::U8x3).unwrap();
    let mut dst = FrImage::new(dst_width, dst_height, FrPixelType::U8x3);
    let opts = FrOptions::new().resize_alg(fr_alg);
    let _ = FrResizer::new().resize(&src, &mut dst, Some(&opts));
    dst.into_vec()
}

/// Downscales a packed RGB frame to `max_height`, preserving aspect
/// ratio.
pub fn scale_frame(
    frame_data: &Vec<u8>,
    width: u32,
    height: u32,
    max_height: u32,
    alg: &ResizeAlgorithm,
) -> (r: Vec<u8>)
    requires
        frame_data@.len() == width as int * height as int * 3,
        1 <= width,
        1 <= height,
        1 <= max_height,
        width as int * max_height as int / height as int >= 1,
        width as int * max_height as int / height as int <= u32::MAX,
    ensures
        r@.len() == (width as int * max_height as int / height as int) * max_height as int * 3,
        r@ == resized_pixels(
            frame_data@,
            width as int,
            height as int,
            width as int * max_height as int / height as int,
            max_height as int,
            alg_code(*alg),
        ),
{
    let (dw, dh) = resize_dims(width, height, max_height);
    resize_rgb(frame_data, width, height, dw, dh, alg)
}

} // verus!
