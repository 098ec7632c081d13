use cam_vis::cam::{
    select_format, select_interval, select_resolution, Cam, DeviceError, IntervalInfo,
    ResolutionInfo,
};
use cam_vis::format::PixelFormat;

#[test]
fn format_priority() {
    assert_eq!(select_format(&vec![*b"YUYV", *b"GREY"]), Ok(PixelFormat::Grey));
    assert_eq!(select_format(&vec![*b"RGB3", *b"MJPG", *b"YUYV"]), Ok(PixelFormat::Rgb3));
    assert_eq!(select_format(&vec![*b"BGR3", *b"RGGB"]), Ok(PixelFormat::Bgr3));
    assert_eq!(select_format(&vec![*b"YUYV"]), Ok(PixelFormat::Yuyv));
}

#[test]
fn no_known_format_is_unsupported() {
    assert_eq!(select_format(&vec![*b"MJPG", *b"H264"]), Err(DeviceError::Unsupported));
    assert_eq!(select_format(&vec![]), Err(DeviceError::Unsupported));
}

#[test]
fn format_tags_round_trip() {
    for f in [PixelFormat::Yuyv, PixelFormat::Grey, PixelFormat::Rggb, PixelFormat::Bgr3, PixelFormat::Rgb3] {
        assert_eq!(PixelFormat::from_tag(&f.tag()), Some(f));
    }
    assert_eq!(&PixelFormat::Rggb.tag(), b"RGGB");
    assert_eq!(PixelFormat::from_tag(b"yuyv"), None);
}

#[test]
fn largest_discrete_resolution() {
    let info = ResolutionInfo::Discretes(vec![(640, 480), (1280, 720), (1280, 960), (320, 240)]);
    assert_eq!(select_resolution(&info), Ok((1280, 960)));
    let info = ResolutionInfo::Discretes(vec![]);
    assert_eq!(select_resolution(&info), Err(DeviceError::NoResolution));
}

#[test]
fn stepwise_resolution_takes_maximum() {
    let info = ResolutionInfo::Stepwise { min: (16, 16), max: (2448, 2048), step: (2, 2) };
    assert_eq!(select_resolution(&info), Ok((2448, 2048)));
}

#[test]
fn fastest_usable_discrete_interval() {
    let info = IntervalInfo::Discretes(vec![(1, 30), (1, 60), (1, 120), (2, 60), (1, 15)]);
    assert_eq!(select_interval(&info), Ok((1, 60)));
    let info = IntervalInfo::Discretes(vec![(1, 120), (2, 30)]);
    assert_eq!(select_interval(&info), Err(DeviceError::NoInterval));
}

#[test]
fn stepwise_interval_takes_highest_rate() {
    let info = IntervalInfo::Stepwise { min: (1, 90), max: (1, 5), step: (1, 1) };
    assert_eq!(select_interval(&info), Ok((1, 90)));
}

#[test]
fn frame_size_follows_format() {
    let sizes = [
        (PixelFormat::Yuyv, 2 * 640 * 480),
        (PixelFormat::Grey, 640 * 480),
        (PixelFormat::Rggb, 640 * 480),
        (PixelFormat::Bgr3, 3 * 640 * 480),
        (PixelFormat::Rgb3, 3 * 640 * 480),
    ];
    for &(f, size) in &sizes {
        let cam = Cam::new(f, (640, 480), (1, 30)).unwrap();
        assert_eq!(cam.get_frame_size(), size);
        assert_eq!(cam.get_pixels(), 640 * 480);
        assert_eq!(cam.get_resolution(), [640, 480]);
        assert_eq!(cam.get_interval(), (1, 30));
        assert_eq!(cam.get_format(), f.tag());
        assert_eq!(cam.pixel_format(), f);
        assert_eq!(cam.is_grey(), f == PixelFormat::Grey);
    }
}

#[test]
fn unsuitable_configurations_are_refused() {
    assert_eq!(Cam::new(PixelFormat::Rggb, (6, 5), (1, 30)).err(), Some(DeviceError::BadResolution));
    assert_eq!(Cam::new(PixelFormat::Rggb, (2, 2), (1, 30)).err(), Some(DeviceError::BadResolution));
    assert_eq!(Cam::new(PixelFormat::Yuyv, (3, 3), (1, 30)).err(), Some(DeviceError::BadResolution));
    assert_eq!(Cam::new(PixelFormat::Rgb3, (65536, 32768), (1, 30)).err(), Some(DeviceError::BadResolution));
    assert_eq!(Cam::new(PixelFormat::Grey, (640, 480), (1, 0)).err(), Some(DeviceError::BadInterval));
    assert!(Cam::new(PixelFormat::Grey, (3, 3), (1, 30)).is_ok());
}
