//! Bitmap emission for preview frames.
//!
//! A preview frame is served as a 24-bit bitmap: a fixed 54-byte header
//! (file header and info header) with the dimensions and file size
//! patched in at fixed offsets, followed by the pixel rows bottom-up,
//! each row in blue-green-red channel order and padded to a four-byte
//! boundary.

use vstd::prelude::*;
use vstd::string::StringExecFns;
use base64::Engine;
use base64::prelude::BASE64_STANDARD;

verus! {

/// Little-endian bytes of a 32-bit value.
pub open spec fn u32_le(x: u32) -> Seq<u8> {
    seq![
        (x & 0xff) as u8,
        ((x >> 8) & 0xff) as u8,
        ((x >> 16) & 0xff) as u8,
        ((x >> 24) & 0xff) as u8,
    ]
}

/// The 54-byte bitmap header: magic, file size, pixel-array offset, info
/// header with dimensions, one plane of 24 bits per pixel, no
/// compression, and print resolutions nothing reads.
pub open spec fn bmp_header(width: u32, height: u32, total: u32) -> Seq<u8> {
    seq![66u8, 77u8] + u32_le(total) + seq![0u8, 0u8, 0u8, 0u8] + seq![54u8, 0u8, 0u8, 0u8]
        + seq![40u8, 0u8, 0u8, 0u8] + u32_le(width) + u32_le(height) + seq![1u8, 0u8]
        + seq![24u8, 0u8] + seq![0u8, 0u8, 0u8, 0u8] + seq![4u8, 0u8, 0u8, 0u8]
        + seq![0x23u8, 0x2eu8, 0u8, 0u8] + seq![0x23u8, 0x2eu8, 0u8, 0u8]
        + seq![0u8, 0u8, 0u8, 0u8] + seq![0u8, 0u8, 0u8, 0u8]
}

/// Bytes of padding that bring a row of `width` pixels to a four-byte
/// boundary.
pub open spec fn bmp_row_padding(width: int) -> int {
    (4 - (3 * width) % 4) % 4
}

/// The first `n` pixels of source row `row`, each in blue-green-red
/// order.
pub open spec fn row_bgr(pixels: Seq<u8>, width: int, row: int, n: int) -> Seq<u8>
    decreases n,
{
    if n <= 0 {
        Seq::empty()
    } else {
        row_bgr(pixels, width, row, n - 1) + seq![
            pixels[3 * (row * width + (n - 1)) + 2],
            pixels[3 * (row * width + (n - 1)) + 1],
            pixels[3 * (row * width + (n - 1))],
        ]
    }
}

/// Zero padding of length `n`.
pub open spec fn zero_bytes(n: int) -> Seq<u8> {
    Seq::new(n as nat, |i: int| 0u8)
}

/// The pixel array after the first `d` output rows: output rows walk the
/// source bottom-up, so output row `d - 1` is source row `height - d`.
pub open spec fn bmp_body(pixels: Seq<u8>, width: int, height: int, d: int) -> Seq<u8>
    decreases d,
{
    if d <= 0 {
        Seq::empty()
    } else {
        bmp_body(pixels, width, height, d - 1) + row_bgr(pixels, width, height - d, width)
            + zero_bytes(bmp_row_padding(width))
    }
}

/// The whole bitmap for a packed RGB frame.
pub open spec fn bmp_bytes(pixels: Seq<u8>, width: u32, height: u32) -> Seq<u8> {
    let total = 54 + height * (3 * width + bmp_row_padding(width as int));
    bmp_header(width, height, total as u32) + bmp_body(
        pixels,
        width as int,
        height as int,
        height as int,
    )
}

proof fn lemma_row_len(pixels: Seq<u8>, width: int, row: int, n: int)
    requires
        n >= 0,
    ensures
        row_bgr(pixels, width, row, n).len() == 3 * n,
    decreases n,
{
    if n > 0 {
        lemma_row_len(pixels, width, row, n - 1);
    }
}

proof fn lemma_body_len(pixels: Seq<u8>, width: int, height: int, d: int)
    requires
        d >= 0,
        width >= 0,
    ensures
        bmp_body(pixels, width, height, d).len() == d * (3 * width + bmp_row_padding(width)),
    decreases d,
{
    let p = bmp_row_padding(width);
    assert(0 <= p < 4);
    if d > 0 {
        lemma_body_len(pixels, width, height, d - 1);
        lemma_row_len(pixels, width, height - d, width);
        assert(zero_bytes(p).len() == p);
        assert((d - 1) * (3 * width + p) + (3 * width + p) == d * (3 * width + p))
            by (nonlinear_arith);
    } else {
        assert(d * (3 * width + p) == 0) by (nonlinear_arith)
            requires
                d == 0,
        ;
    }
}

proof fn lemma_pixel_index_bounds(width: int, height: int, row: int, x: int)
    by (nonlinear_arith)
    requires
        0 <= row < height,
        0 <= x < width,
    ensures
        0 <= 3 * (row * width + x),
        3 * (row * width + x) + 2 < 3 * (width * height),
{
}

/// Encodes a packed RGB frame as a 24-bit bitmap: 54-byte header with
/// the dimensions and total size patched in, rows bottom-up, channels
/// blue-green-red, rows padded to four bytes.
#[verifier::rlimit(100)]
pub fn pixels_to_bmp(pixels: &Vec<u8>, width: u32, height: u32) -> (r: Vec<u8>)
    requires
        pixels@.len() == 3 * (width as int * height as int),
        1 <= width <= 0x4000,
        1 <= height <= 0x4000,
    ensures
        r@ == bmp_bytes(pixels@, width, height),
        r@.len() == 54 + height as int * (3 * width as int + bmp_row_padding(width as int)),
{
    let pad: u32 = (4 - (width * 3) % 4) % 4;
    let row_bytes: u32 = width * 3 + pad;
    proof {
        assert(height as int * row_bytes as int <= 0x4000int * 0xc004int) by (nonlinear_arith)
            requires
                1 <= height <= 0x4000,
                0 <= row_bytes <= 0xc004,
        ;
    }
    let total: u32 = 54 + height * row_bytes;
    let t = total;
    let w = width;
    let h = height;
    let mut out: Vec<u8> = vec![
        66u8,
        77u8,
        (t & 0xff) as u8,
        ((t >> 8) & 0xff) as u8,
        ((t >> 16) & 0xff) as u8,
        ((t >> 24) & 0xff) as u8,
        0u8, 0u8, 0u8, 0u8,
        54u8, 0u8, 0u8, 0u8,
        40u8, 0u8, 0u8, 0u8,
        (w & 0xff) as u8,
        ((w >> 8) & 0xff) as u8,
        ((w >> 16) & 0xff) as u8,
        ((w >> 24) & 0xff) as u8,
        (h & 0xff) as u8,
        ((h >> 8) & 0xff) as u8,
        ((h >> 16) & 0xff) as u8,
        ((h >> 24) & 0xff) as u8,
        1u8, 0u8,
        24u8, 0u8,
        0u8, 0u8, 0u8, 0u8,
        4u8, 0u8, 0u8, 0u8,
        0x23u8, 0x2eu8, 0u8, 0u8,
        0x23u8, 0x2eu8, 0u8, 0u8,
        0u8, 0u8, 0u8, 0u8,
        0u8, 0u8, 0u8, 0u8,
    ];
    proof {
        assert(pad as int == bmp_row_padding(width as int));
        assert(total as int == 54 + height as int * (3 * width as int + bmp_row_padding(
            width as int,
        ))) by (nonlinear_arith)
            requires
                1 <= width <= 0x4000,
                1 <= height <= 0x4000,
                pad as int == bmp_row_padding(width as int),
                row_bytes == width * 3 + pad,
                total == 54 + height * row_bytes,
        ;
        assert(out@ =~= bmp_header(width, height, total));
        assert(bmp_body(pixels@, width as int, height as int, 0) =~= Seq::empty());
    }
    let ghost header = out@;
    let mut d: u32 = 0;
    while d < height
        invariant
            d <= height,
            1 <= width <= 0x4000,
            1 <= height <= 0x4000,
            pixels@.len() == 3 * (width as int * height as int),
            pad < 4,
            pad as int == bmp_row_padding(width as int),
            header == bmp_header(width, height, total),
            out@ == header + bmp_body(pixels@, width as int, height as int, d as int),
        decreases height - d,
    {
        let sr: u32 = height - 1 - d;
        let ghost body0 = bmp_body(pixels@, width as int, height as int, d as int);
        let mut x: u32 = 0;
        while x < width
            invariant
                x <= width,
                1 <= width <= 0x4000,
                1 <= height <= 0x4000,
                d < height,
                sr == height - 1 - d,
                pixels@.len() == 3 * (width as int * height as int),
                body0 == bmp_body(pixels@, width as int, height as int, d as int),
                out@ == header + body0 + row_bgr(pixels@, width as int, sr as int, x as int),
            decreases width - x,
        {
            proof {
                lemma_pixel_index_bounds(width as int, height as int, sr as int, x as int);
                assert(sr as int * width as int <= 0x4000int * 0x4000int) by (nonlinear_arith)
                    requires
                        0 <= sr < 0x4000,
                        0 <= width <= 0x4000,
                ;
            }
            let base: usize = 3 * (sr as usize * width as usize + x as usize);
            let blue = pixels[base + 2];
            let green = pixels[base + 1];
            let red = pixels[base];
            out.push(blue);
            out.push(green);
            out.push(red);
            proof {
                assert(out@ =~= header + body0 + row_bgr(
                    pixels@,
                    width as int,
                    sr as int,
                    x as int + 1,
                ));
            }
            x += 1;
        }
        let mut p: u32 = 0;
        while p < pad
            invariant
                p <= pad,
                pad < 4,
                out@ == header + body0 + row_bgr(pixels@, width as int, sr as int, width as int)
                    + zero_bytes(p as int),
            decreases pad - p,
        {
            out.push(0);
            proof {
                assert(out@ =~= header + body0 + row_bgr(
                    pixels@,
                    width as int,
                    sr as int,
                    width as int,
                ) + zero_bytes(p as int + 1));
            }
            p += 1;
        }
        proof {
            assert(height as int - (d as int + 1) == sr as int);
            assert(out@ =~= header + bmp_body(pixels@, width as int, height as int, d as int + 1));
        }
        d += 1;
    }
    proof {
        assert(out@ == bmp_bytes(pixels@, width, height));
        lemma_body_len(pixels@, width as int, height as int, height as int);
    }
    out
}

/// The standard padded base64 encoding of a byte string. The encoder
/// computes this from its input alone.
pub uninterp spec fn base64_of(b: Seq<u8>) -> Seq<char>;

/// Relies on base64's standard engine: a padded encoding four characters
/// long for every complete or partial group of three input bytes,
/// depending on the input bytes alone.
#[verifier::external_body]
fn base64_encode(b: &Vec<u8>) -> (r: String)
    requires
        b@.len() <= 0x3fff_ffff_ffff_ffff,
    ensures
        r@ == base64_of(b@),
        r@.len() == 4 * (b@.len() / 3) + (if b@.len() % 3 == 0 { 0int } else { 4int }),
{
    BASE64_STANDARD.encode(b)
}

/// Encodes a preview frame as a bitmap data URL, as the parameter-tuning
/// preview returns it.
pub fn pixels_to_base64_image(pixels: &Vec<u8>, width: u32, height: u32) -> (r: String)
    requires
        pixels@.len() == 3 * (width as int * height as int),
        1 <= width <= 0x4000,
        1 <= height <= 0x4000,
    ensures
        r@ == ("data:image/bmp;base64,")@ + base64_of(bmp_bytes(pixels@, width, height)),
{
    let bytes = pixels_to_bmp(pixels, width, height);
    let prefix = String::from_str("data:image/bmp;base64,");
    proof {
        assert(bytes@.len() <= 54 + 0x4000int * (3 * 0x4000int + 3)) by (nonlinear_arith)
            requires
                bytes@.len() == 54 + height as int * (3 * width as int + bmp_row_padding(
                    width as int,
                )),
                1 <= width <= 0x4000,
                1 <= height <= 0x4000,
                0 <= bmp_row_padding(width as int) < 4,
        ;
    }
    let encoded = base64_encode(&bytes);
    prefix.concat(encoded.as_str())
}

} // verus!
