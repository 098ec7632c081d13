use cam_vis::cam::Cam;
use cam_vis::demosaic::demosaic;
use cam_vis::format::PixelFormat;

fn decode(format: PixelFormat, w: u32, h: u32, frame: &[u8]) -> Vec<[u8; 3]> {
    let cam = Cam::new(format, (w, h), (1, 30)).unwrap();
    assert_eq!(frame.len(), cam.get_frame_size());
    let mut buf = vec![[0u8; 3]; cam.get_pixels()];
    demosaic(&cam, &mut buf, frame);
    buf
}

#[test]
fn every_format_yields_pixel_count_triples() {
    let cases = [
        (PixelFormat::Yuyv, 2usize),
        (PixelFormat::Grey, 1),
        (PixelFormat::Rggb, 1),
        (PixelFormat::Bgr3, 3),
        (PixelFormat::Rgb3, 3),
    ];
    for &(f, bpp) in &cases {
        let frame = vec![77u8; bpp * 6 * 4];
        let out = decode(f, 6, 4, &frame);
        assert_eq!(out.len(), 24);
    }
}

#[test]
fn yuyv_midpoint_is_mid_gray() {
    let frame = vec![128u8; 2 * 4 * 2];
    let out = decode(PixelFormat::Yuyv, 4, 2, &frame);
    for p in &out {
        assert_eq!(*p, [128, 128, 128]);
    }
}

#[test]
fn yuyv_clamps_extremes() {
    // Y0 Cb Y1 Cr for one pixel pair.
    let out = decode(PixelFormat::Yuyv, 2, 1, &[255, 255, 255, 255]);
    assert_eq!(out[0][0], 255);
    assert_eq!(out[0][2], 255);
    assert_eq!(out[1][0], 255);
    let out = decode(PixelFormat::Yuyv, 2, 1, &[0, 0, 0, 0]);
    assert_eq!(out[0], [0, 135, 0]);
    let out = decode(PixelFormat::Yuyv, 2, 1, &[255, 0, 255, 255]);
    assert_eq!(out[0], [255, 208, 28]);
}

#[test]
fn yuyv_exact_values_and_chroma_sharing() {
    // Pixel 0 has Y 100, pixel 1 has Y 60; both use Cb 150 and Cr 90.
    let out = decode(PixelFormat::Yuyv, 2, 1, &[100, 150, 60, 90]);
    assert_eq!(out[0], [46, 119, 138]);
    assert_eq!(out[1], [6, 79, 98]);
}

#[test]
fn yuyv_green_exact_at_whole_values() {
    // 0.344136 * 100 - 0.714136 * 100 is exactly -37.
    let out = decode(PixelFormat::Yuyv, 2, 1, &[0, 228, 0, 28]);
    assert_eq!(out[0], [0, 37, 177]);
}

#[test]
fn grey_replicates_sample() {
    let out = decode(PixelFormat::Grey, 2, 2, &[0, 9, 200, 255]);
    assert_eq!(out, vec![[0, 0, 0], [9, 9, 9], [200, 200, 200], [255, 255, 255]]);
}

#[test]
fn bgr3_swaps_and_rgb3_copies() {
    let frame = [1u8, 2, 3, 4, 5, 6];
    assert_eq!(decode(PixelFormat::Bgr3, 2, 1, &frame), vec![[3, 2, 1], [6, 5, 4]]);
    assert_eq!(decode(PixelFormat::Rgb3, 2, 1, &frame), vec![[1, 2, 3], [4, 5, 6]]);
}

#[test]
fn rggb_frame_goes_through_demosaic() {
    let frame: Vec<u8> = (0..16u32).map(|i| ((i * 13) % 256) as u8).collect();
    let out = decode(PixelFormat::Rggb, 4, 4, &frame);
    assert_eq!(out[0], [0, 32, 65]);
    assert_eq!(out[15], [130, 162, 195]);
}
