//! Offline filter experimentation.
//!
//! To tune detection parameters, the host feeds a single still image
//! through one preprocessing filter, a downscale, and text recognition,
//! and gets the filtered preview plus the recognized text back. No
//! caching is involved.

use vstd::prelude::*;
use crate::bmp::base64_of;
use crate::bmp::bmp_bytes;
use crate::bmp::pixels_to_base64_image;
use crate::pixels::FRAC_DEN;
use crate::pixels::bc_channel;
use crate::pixels::frame_binarisation;
use crate::pixels::frame_brightness_contrast;
use crate::pixels::rgb_in_range;

verus! {

/// The preprocessing pass to try on the image.
pub enum ImageFilterType {
    /// Binarize against an inclusive RGB envelope.
    MinMaxRgb { min_rgb: [u8; 3], max_rgb: [u8; 3] },
    /// Brightness/contrast in fixed-point millionths, always inverted as
    /// the experiment pipeline does.
    BrightnessContrast { brightness: i64, contrast: i64 },
}

impl ImageFilterType {
    /// Brightness/contrast magnitudes the exact arithmetic accepts.
    pub open spec fn wf(&self) -> bool {
        match self {
            ImageFilterType::MinMaxRgb { .. } => true,
            ImageFilterType::BrightnessContrast { brightness, contrast } => {
                &&& -100 * FRAC_DEN <= *brightness <= 100 * FRAC_DEN
                &&& -10000 * FRAC_DEN <= *contrast <= 10000 * FRAC_DEN
            },
        }
    }
}

/// The preview the experiment returns: the filtered, downscaled image as
/// a bitmap data URL, and the text recognized on it.
pub struct ProcessImageResult {
    pub image: String,
    pub ocr_result: String,
}

/// Applies the chosen filter to a packed RGB image in place: either the
/// scan's binarization or its brightness/contrast pass with inversion.
pub fn apply_image_filter(pixels: &mut Vec<u8>, filter: &ImageFilterType)
    requires
        filter.wf(),
    ensures
        final(pixels)@.len() == old(pixels)@.len(),
        match *filter {
            ImageFilterType::MinMaxRgb { min_rgb, max_rgb } => {
                &&& forall|p: int| 0 <= p < old(pixels)@.len() / 3 ==> {
                    let v: u8 = if rgb_in_range(
                        #[trigger] old(pixels)@[3 * p],
                        old(pixels)@[3 * p + 1],
                        old(pixels)@[3 * p + 2],
                        min_rgb,
                        max_rgb,
                    ) {
                        0
                    } else {
                        255
                    };
                    final(pixels)@[3 * p] == v && final(pixels)@[3 * p + 1] == v
                        && final(pixels)@[3 * p + 2] == v
                }
                &&& forall|i: int| 3 * (old(pixels)@.len() / 3) <= i < old(pixels)@.len()
                    ==> final(pixels)@[i] == old(pixels)@[i]
            },
            ImageFilterType::BrightnessContrast { brightness, contrast } => {
                &&& forall|i: int| 0 <= i < 3 * (old(pixels)@.len() / 3)
                    ==> final(pixels)@[i] == bc_channel(
                        #[trigger] old(pixels)@[i],
                        brightness as int,
                        contrast as int,
                        true,
                    )
                &&& forall|i: int| 3 * (old(pixels)@.len() / 3) <= i < old(pixels)@.len()
                    ==> final(pixels)@[i] == old(pixels)@[i]
            },
        },
{
    match filter {
        ImageFilterType::MinMaxRgb { min_rgb, max_rgb } => {
            frame_binarisation(pixels, *min_rgb, *max_rgb);
        },
        ImageFilterType::BrightnessContrast { brightness, contrast } => {
            frame_brightness_contrast(pixels, *brightness, *contrast, true);
        },
    }
}

/// Packages the experiment's outcome: the scaled pixels as a bitmap data
/// URL together with the recognized text.
pub fn process_image_result(
    scaled: &Vec<u8>,
    width: u32,
    height: u32,
    ocr_result: String,
) -> (r: ProcessImageResult)
    requires
        scaled@.len() == 3 * (width as int * height as int),
        1 <= width <= 0x4000,
        1 <= height <= 0x4000,
    ensures
        r.image@ == ("data:image/bmp;base64,")@ + base64_of(bmp_bytes(scaled@, width, height)),
        r.ocr_result == ocr_result,
{
    let image = pixels_to_base64_image(scaled, width, height);
    ProcessImageResult { image, ocr_result }
}

} // verus!
