use cam_vis::cam::{is_drop, Cam};
use cam_vis::format::PixelFormat;
use cam_vis::frame::{calc_hist, process_frame, rgb2rgba, FrameBuf, Step, Worker, ERROR_COLOR};

#[test]
fn histogram_buckets_and_total() {
    let buf = vec![[0u8, 0, 0], [255, 255, 255], [4, 0, 0], [1, 1, 1], [10, 20, 30], [0, 0, 255]];
    let hist = calc_hist(&buf);
    assert_eq!(hist[0], 1);
    assert_eq!(hist[1], 2);
    assert_eq!(hist[255], 1);
    assert_eq!(hist[20], 1);
    assert_eq!(hist[63], 1);
    let total: u32 = hist.iter().sum();
    assert_eq!(total as usize, buf.len());
}

#[test]
fn histogram_of_empty_buffer_is_empty() {
    let hist = calc_hist(&[]);
    assert!(hist.iter().all(|&v| v == 0));
}

#[test]
fn drop_detection_boundary() {
    assert!(is_drop(40_000, 0, (1, 30)));
    assert!(!is_drop(30_000, 0, (1, 30)));
    assert!(is_drop(1_036_667, 1_000_000, (1, 30)));
    assert!(!is_drop(1_036_666, 1_000_000, (1, 30)));
}

#[test]
fn drop_detection_ignores_backwards_time() {
    assert!(!is_drop(5, 100_000, (1, 30)));
}

#[test]
fn short_frame_becomes_error_color() {
    let cam = Cam::new(PixelFormat::Rgb3, (4, 2), (1, 30)).unwrap();
    let mut out = FrameBuf::new(cam.get_pixels());
    let raw = vec![7u8; cam.get_frame_size() - 1];
    let decoded = process_frame(&cam, &raw, 1234, &mut out);
    assert!(!decoded);
    assert_eq!(out.ts, 1234);
    assert_eq!(out.buf.len(), 8);
    assert!(out.buf.iter().all(|p| *p == ERROR_COLOR));
    assert_eq!(out.hist[63], 8);
}

#[test]
fn correct_frame_is_decoded_with_histogram() {
    let cam = Cam::new(PixelFormat::Grey, (2, 2), (1, 30)).unwrap();
    let mut out = FrameBuf::new(cam.get_pixels());
    let decoded = process_frame(&cam, &[0, 40, 40, 255], 99, &mut out);
    assert!(decoded);
    assert_eq!(out.buf, vec![[0, 0, 0], [40, 40, 40], [40, 40, 40], [255, 255, 255]]);
    assert_eq!(out.hist[40], 2);
    assert_eq!(out.hist[0], 1);
    assert_eq!(out.hist[255], 1);
}

#[test]
fn initial_record_is_placeholder() {
    let f = FrameBuf::new(3);
    assert_eq!(f.buf, vec![ERROR_COLOR; 3]);
    assert_eq!(f.ts, 0);
    assert!(f.hist.iter().all(|&v| v == 0));
}

#[test]
fn worker_skips_while_paused_and_publishes_whole_frames() {
    let cam = Cam::new(PixelFormat::Grey, (2, 1), (1, 30)).unwrap();
    let mut store = FrameBuf::new(cam.get_pixels());
    let mut worker = Worker::new(cam);

    assert_eq!(worker.step(true, &[1, 2], 10), Step::Skipped);

    let step = worker.step(false, &[8, 12], 100_000);
    assert_eq!(step, Step::Ready { dropped: true, decoded: true });
    worker.publish(&mut store);
    assert_eq!(store.ts, 100_000);
    assert_eq!(store.buf, vec![[8, 8, 8], [12, 12, 12]]);
    assert_eq!(store.hist[8], 1);
    assert_eq!(store.hist[12], 1);

    let step = worker.step(false, &[1, 2, 3], 130_000);
    assert_eq!(step, Step::Ready { dropped: false, decoded: false });
    worker.publish(&mut store);
    assert_eq!(store.ts, 130_000);
    assert_eq!(store.buf, vec![ERROR_COLOR; 2]);
    assert_eq!(store.hist[63], 2);
}

#[test]
fn rgba_adds_opaque_alpha() {
    assert_eq!(rgb2rgba(&[1, 2, 3]), [1, 2, 3, 255]);
}
