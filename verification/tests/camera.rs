use loomik::capture::camera::{
    accept_mode, camera_frame, choose_format, swap_red_blue, CameraError, CameraMode, Colorspace,
    PixelFormat, Quantization, FOURCC_MJPG, FOURCC_YUYV,
};
use loomik::capture::clock::ClockError;
use loomik::capture::linux::HostClock;
use loomik::capture::linux_pixels::PixelError;
use loomik::capture::portal::{portal_frame, PortalError};

const S: u64 = 1_000_000_000;

fn yuyv_mode(width: u32, height: u32, stride: u32) -> CameraMode {
    accept_mode(PixelFormat::Yuyv, FOURCC_YUYV, width, height, stride, Colorspace::Smpte170m, Quantization::Default)
        .unwrap()
}

#[test]
fn mjpeg_is_preferred_over_yuyv() {
    assert_eq!(u32::from_le_bytes(*b"MJPG"), FOURCC_MJPG);
    assert_eq!(u32::from_le_bytes(*b"YUYV"), FOURCC_YUYV);
    assert_eq!(choose_format(&vec![FOURCC_YUYV, FOURCC_MJPG]), Ok(PixelFormat::Mjpeg));
    assert_eq!(choose_format(&vec![1, FOURCC_YUYV]), Ok(PixelFormat::Yuyv));
    assert_eq!(choose_format(&vec![1, 2]), Err(CameraError::NoSupportedFormat));
    assert_eq!(PixelFormat::Mjpeg.fourcc(), FOURCC_MJPG);
}

#[test]
fn granted_modes_are_checked() {
    let mode = accept_mode(PixelFormat::Yuyv, FOURCC_YUYV, 640, 480, 1280, Colorspace::Rec709, Quantization::FullRange)
        .unwrap();
    assert!(mode.rec709 && mode.full_range);
    let jpeg = accept_mode(PixelFormat::Mjpeg, FOURCC_MJPG, 640, 480, 0, Colorspace::Jpeg, Quantization::Default).unwrap();
    assert!(!jpeg.rec709 && jpeg.full_range);
    assert_eq!(
        accept_mode(PixelFormat::Yuyv, FOURCC_YUYV, 1921, 480, 3842, Colorspace::Srgb, Quantization::Default),
        Err(CameraError::SizeRefused)
    );
    assert_eq!(
        accept_mode(PixelFormat::Yuyv, FOURCC_YUYV, 0, 480, 0, Colorspace::Srgb, Quantization::Default),
        Err(CameraError::SizeRefused)
    );
    assert_eq!(
        accept_mode(PixelFormat::Mjpeg, FOURCC_YUYV, 640, 480, 1280, Colorspace::Srgb, Quantization::Default),
        Err(CameraError::FormatChanged)
    );
    assert_eq!(
        accept_mode(PixelFormat::Yuyv, FOURCC_YUYV, 640, 480, 1280, Colorspace::Other, Quantization::Default),
        Err(CameraError::UnsupportedColorspace)
    );
    assert!(accept_mode(PixelFormat::Mjpeg, FOURCC_MJPG, 640, 480, 0, Colorspace::Other, Quantization::LimitedRange).is_ok());
}

#[test]
fn yuyv_buffers_become_timestamped_frames() {
    let clock = HostClock::from_reading(10 * S, 100, 0).unwrap();
    let mode = yuyv_mode(2, 1, 4);
    let buffer = [16, 128, 235, 128, 7, 7];
    let frame = camera_frame(&mode, &clock, &buffer, 4, false, true, 99, 750_000, 10 * S)
        .unwrap()
        .unwrap();
    assert_eq!(frame.bgra, vec![0, 0, 0, 255, 255, 255, 255, 255]);
    assert_eq!(frame.captured_at, 10 * S - 250_000_000);
    assert_eq!((frame.width, frame.height), (2, 1));
}

#[test]
fn bad_buffers_are_refused_or_skipped() {
    let clock = HostClock::from_reading(10 * S, 100, 0).unwrap();
    let mode = yuyv_mode(2, 1, 4);
    let buffer = [16, 128, 235, 128];
    assert!(camera_frame(&mode, &clock, &buffer, 4, true, false, 0, 0, 0).unwrap().is_none());
    assert_eq!(camera_frame(&mode, &clock, &buffer, 4, false, false, 99, 0, 10 * S).err(), Some(CameraError::NotMonotonic));
    assert_eq!(
        camera_frame(&mode, &clock, &buffer, 4, false, true, i64::MAX, 0, 10 * S).err(),
        Some(CameraError::InvalidTimestamp)
    );
    assert_eq!(
        camera_frame(&mode, &clock, &buffer, 4, false, true, 0, 0, 10 * S).err(),
        Some(CameraError::Clock(ClockError::NoTimestamp))
    );
    assert_eq!(
        camera_frame(&mode, &clock, &buffer, 4, false, true, 101, 0, 10 * S).err(),
        Some(CameraError::Clock(ClockError::NotMonotonic))
    );
    assert_eq!(
        camera_frame(&mode, &clock, &buffer, 5, false, true, 99, 0, 10 * S).err(),
        Some(CameraError::TruncatedBuffer)
    );
    assert_eq!(
        camera_frame(&yuyv_mode(2, 2, 4), &clock, &buffer, 4, false, true, 99, 0, 10 * S).err(),
        Some(CameraError::Pixels(PixelError::Truncated))
    );
    assert_eq!(
        camera_frame(&yuyv_mode(3, 1, 6), &clock, &buffer, 4, false, true, 99, 0, 10 * S).err(),
        Some(CameraError::Pixels(PixelError::InvalidLayout))
    );
}

#[test]
fn jpeg_buffers_are_decoded_to_bgra() {
    let mut encoded = Vec::new();
    let pixels = [250u8, 10, 10].repeat(16 * 8);
    image::codecs::jpeg::JpegEncoder::new_with_quality(&mut encoded, 95)
        .encode(&pixels, 16, 8, image::ExtendedColorType::Rgb8)
        .unwrap();
    let clock = HostClock::from_reading(10 * S, 100, 0).unwrap();
    let mode = accept_mode(PixelFormat::Mjpeg, FOURCC_MJPG, 16, 8, 0, Colorspace::Jpeg, Quantization::Default).unwrap();
    let frame = camera_frame(&mode, &clock, &encoded, encoded.len() as u32, false, true, 99, 0, 10 * S)
        .unwrap()
        .unwrap();
    assert_eq!(frame.bgra.len(), 16 * 8 * 4);
    // Red dominates in the blue-green-red order.
    assert!(frame.bgra[2] > 200 && frame.bgra[0] < 60 && frame.bgra[3] == 255);
    let small = accept_mode(PixelFormat::Mjpeg, FOURCC_MJPG, 8, 8, 0, Colorspace::Jpeg, Quantization::Default).unwrap();
    assert_eq!(
        camera_frame(&small, &clock, &encoded, encoded.len() as u32, false, true, 99, 0, 10 * S).err(),
        Some(CameraError::JpegSizeChanged)
    );
    assert_eq!(
        camera_frame(&mode, &clock, &[1, 2, 3], 3, false, true, 99, 0, 10 * S).err(),
        Some(CameraError::UndecodableJpeg)
    );
}

#[test]
fn red_and_blue_swap_in_place() {
    let mut pixels = vec![1, 2, 3, 4, 5, 6, 7, 8, 9];
    swap_red_blue(&mut pixels);
    assert_eq!(pixels, vec![3, 2, 1, 4, 7, 6, 5, 8, 9]);
}

#[test]
fn portal_buffers_become_opaque_frames() {
    let plane = [9, 9, 1, 2, 3, 0, 0, 0, 4, 5, 6, 7, 0, 0];
    let frame = portal_frame(1, 2, &plane, 2, 6, 12, 77).unwrap().unwrap();
    assert_eq!(frame.bgra, vec![1, 2, 3, 255, 4, 5, 6, 255]);
    assert_eq!((frame.width, frame.height, frame.captured_at), (1, 2, 77));
    assert!(portal_frame(1, 2, &plane, 2, 6, 0, 77).unwrap().is_none());
    assert_eq!(portal_frame(0, 2, &plane, 2, 6, 12, 77).err(), Some(PortalError::InvalidDimensions));
    assert_eq!(portal_frame(1, 16385, &plane, 2, 6, 12, 77).err(), Some(PortalError::InvalidDimensions));
    assert_eq!(portal_frame(1, 2, &plane, 2, -6, 12, 77).err(), Some(PortalError::UnsupportedStride));
    assert_eq!(portal_frame(1, 2, &plane, 3, 6, 12, 77).err(), Some(PortalError::Truncated));
    assert_eq!(portal_frame(1, 2, &plane, 2, 6, 11, 77).err(), Some(PortalError::InvalidRows));
    assert_eq!(PortalError::Truncated.message(), "Truncated portal video buffer");
}

#[test]
fn jpeg_pixels_are_the_decoded_image_in_bgra_order() {
    let mut encoded = Vec::new();
    let mut pixels = Vec::new();
    for i in 0..(8 * 8) {
        pixels.extend_from_slice(&[(i * 3) as u8, 90, (255 - i * 2) as u8]);
    }
    image::codecs::jpeg::JpegEncoder::new_with_quality(&mut encoded, 90)
        .encode(&pixels, 8, 8, image::ExtendedColorType::Rgb8)
        .unwrap();
    let mut expected = image::load_from_memory_with_format(&encoded, image::ImageFormat::Jpeg)
        .unwrap()
        .to_rgba8()
        .into_raw();
    for p in expected.chunks_mut(4) {
        p.swap(0, 2);
    }
    let clock = HostClock::from_reading(10 * S, 100, 0).unwrap();
    let mode = accept_mode(PixelFormat::Mjpeg, FOURCC_MJPG, 8, 8, 0, Colorspace::Jpeg, Quantization::Default).unwrap();
    let frame = camera_frame(&mode, &clock, &encoded, encoded.len() as u32, false, true, 99, 0, 10 * S)
        .unwrap()
        .unwrap();
    assert_eq!(frame.bgra, expected);
}
