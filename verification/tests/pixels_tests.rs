use eclipper::experiment::{apply_image_filter, process_image_result, ImageFilterType};
use eclipper::pixels::{
    average_byte_value, frame_binarisation, frame_brightness_contrast, is_spectating,
    resize_dims, scale_frame, ResizeAlgorithm,
};

#[test]
fn binarisation_boundary_values() {
    let min = [215, 215, 215];
    let max = [255, 254, 253];
    let mut data = vec![
        215, 215, 215, // exactly at the lower bound on every channel: black
        255, 254, 253, // exactly at the upper bound on every channel: black
        214, 215, 215, // one unit below a lower bound: white
        255, 255, 253, // one unit above an upper bound: white
    ];
    frame_binarisation(&mut data, min, max);
    assert_eq!(data, vec![0, 0, 0, 0, 0, 0, 255, 255, 255, 255, 255, 255]);
}

#[test]
fn binarisation_leaves_ragged_tail() {
    let mut data = vec![0, 0, 0, 9, 9];
    frame_binarisation(&mut data, [0, 0, 0], [1, 1, 1]);
    assert_eq!(data, vec![0, 0, 0, 9, 9]);
}

#[test]
fn brightness_contrast_exact_values() {
    // the calibration pass: brightness -0.8, contrast 10, inverted
    let mut data = vec![100, 100, 100, 250, 250, 250];
    frame_brightness_contrast(&mut data, -800000, 10000000, true);
    // 100/255 - 0.8 is negative: clamps to 0, inverted to 255
    // 250/255 - 0.8 scaled by 10 exceeds 1: clamps to 1, inverted to 0
    assert_eq!(data, vec![255, 255, 255, 0, 0, 0]);
}

#[test]
fn brightness_contrast_without_inversion() {
    let mut data = vec![255, 255, 255];
    frame_brightness_contrast(&mut data, 0, 1000000, false);
    assert_eq!(data, vec![255, 255, 255]);
}

#[test]
fn spectator_envelope_detection() {
    // bottom-row average (190, 25, 65) sits inside the tuned envelope
    let frame = vec![180, 20, 60, 200, 30, 70];
    assert!(is_spectating(&frame, 2));
    // push the green average to the boundary value 45: out of the envelope
    let frame = vec![180, 45, 60, 200, 45, 70];
    assert!(!is_spectating(&frame, 2));
}

#[test]
fn spectator_check_reads_only_last_row() {
    let mut frame = vec![0u8; 6];
    frame.extend_from_slice(&[180, 20, 60, 200, 30, 70]);
    assert!(is_spectating(&frame, 2));
}

#[test]
fn average_pixel_value_truncates() {
    assert_eq!(average_byte_value(&vec![10, 20, 31]), 20);
    assert_eq!(average_byte_value(&vec![255]), 255);
    assert_eq!(average_byte_value(&vec![0, 1]), 0);
}

#[test]
fn resize_dims_preserves_aspect_ratio() {
    assert_eq!(resize_dims(1920, 1080, 720), (1280, 720));
    assert_eq!(resize_dims(1280, 720, 360), (640, 360));
}

#[test]
fn scale_frame_produces_scaled_buffer() {
    // 2x2 solid color down to 1x1: the output is one pixel of that color,
    // not the input handed back
    let data = vec![90u8; 12];
    let scaled = scale_frame(&data, 2, 2, 1, &ResizeAlgorithm::Nearest);
    assert_eq!(scaled, vec![90, 90, 90]);
    let scaled = scale_frame(&data, 2, 2, 1, &ResizeAlgorithm::Bilinear);
    assert_eq!(scaled.len(), 3);
}

#[test]
fn scale_frame_downscales_tall_frames() {
    let data = vec![7u8; 4 * 2 * 3];
    let scaled = scale_frame(&data, 4, 2, 1, &ResizeAlgorithm::Nearest);
    // 4x2 at target height 1 keeps the aspect ratio: 2x1
    assert_eq!(scaled.len(), 2 * 1 * 3);
}

#[test]
fn filter_dispatch_matches_the_passes() {
    let mut a = vec![215, 215, 215, 10, 10, 10];
    apply_image_filter(
        &mut a,
        &ImageFilterType::MinMaxRgb { min_rgb: [215, 215, 215], max_rgb: [255, 255, 255] },
    );
    assert_eq!(a, vec![0, 0, 0, 255, 255, 255]);
    let mut b = vec![250, 250, 250];
    apply_image_filter(
        &mut b,
        &ImageFilterType::BrightnessContrast { brightness: -800000, contrast: 10000000 },
    );
    assert_eq!(b, vec![0, 0, 0]);
}

#[test]
fn experiment_result_packages_data_url() {
    let scaled = vec![10, 20, 30];
    let r = process_image_result(&scaled, 1, 1, String::from("elim"));
    assert_eq!(
        r.image,
        "data:image/bmp;base64,Qk06AAAAAAAAADYAAAAoAAAAAQAAAAEAAAABABgAAAAAAAQAAAAjLgAAIy4AAAAAAAAAAAAAHhQKAA=="
    );
    assert_eq!(r.ocr_result, "elim");
}
