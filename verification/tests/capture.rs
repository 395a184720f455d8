use loomik::capture::clock::ClockError;
use loomik::capture::linux::{AudioClock, HostClock as MonotonicClock};
use loomik::capture::linux_pixels::{x11_bgra, yuyv, PixelError};
use loomik::capture::windows::HostClock;
use loomik::capture::{desktop_supported, linux, unavailable, CaptureError};

const MS: u64 = 1_000_000;
const S: u64 = 1_000_000_000;

#[test]
fn camera_yuyv_respects_padding_and_rejects_truncated_rows() {
    let bytes = [16, 128, 235, 128, 99, 99, 99, 99, 81, 90, 81, 240, 99, 99, 99, 99];
    let image = yuyv(&bytes, 2, 2, 8, false, false).unwrap();
    assert_eq!(&image[..8], &[0, 0, 0, 255, 255, 255, 255, 255]);
    assert_eq!(&image[8..], &[0, 0, 255, 255, 0, 0, 255, 255]);
    assert!(yuyv(&bytes[..12], 2, 2, 8, false, false).is_err());
    assert!(yuyv(&bytes, 3, 2, 8, false, false).is_err());
    assert!(yuyv(&bytes, 4, 2, 4, false, false).is_err());
    assert_eq!(
        yuyv(&[0, 128, 255, 128], 2, 1, 4, true, true).unwrap(),
        [0, 0, 0, 255, 255, 255, 255, 255]
    );
    let red709 = yuyv(&[63, 102, 63, 240], 2, 1, 4, true, false).unwrap();
    assert!(red709[0] <= 1 && red709[1] <= 1 && red709[2] >= 254);
}

#[test]
fn yuyv_errors_name_the_problem() {
    let bytes = [16, 128, 235, 128, 99, 99, 99, 99];
    assert_eq!(yuyv(&bytes, 2, 3, 4, false, false), Err(PixelError::Truncated));
    assert_eq!(yuyv(&bytes, 0, 1, 4, false, false), Err(PixelError::InvalidLayout));
    assert_eq!(yuyv(&bytes, 2, 0, 4, false, false), Err(PixelError::InvalidLayout));
    assert_eq!(yuyv(&bytes, 2, 1, 3, false, false), Err(PixelError::InvalidLayout));
    assert_eq!(PixelError::Truncated.message(), "Truncated YUYV camera frame");
    assert_eq!(PixelError::InvalidLayout.message(), "Invalid YUYV camera dimensions or stride");
}

#[test]
fn x11_images_drop_scanline_padding_and_become_opaque() {
    // 1x2 image, 32 bits per pixel, rows padded to 64 bits.
    let data = [1, 2, 3, 0, 9, 9, 9, 9, 4, 5, 6, 7, 9, 9, 9, 9];
    assert_eq!(x11_bgra(&data, 1, 2, 32, 64).unwrap(), vec![1, 2, 3, 255, 4, 5, 6, 255]);
    assert_eq!(x11_bgra(&data[..12], 1, 2, 32, 64), Err(PixelError::Truncated));
    assert_eq!(x11_bgra(&data, 1, 2, 32, 0), Err(PixelError::InvalidLayout));
    // 24 bits per pixel, rows padded to 32 bits.
    let packed = [1, 2, 3, 4, 5, 6, 0, 0];
    assert_eq!(x11_bgra(&packed, 2, 1, 24, 32).unwrap(), vec![1, 2, 3, 255, 4, 5, 6, 255]);
}

#[test]
fn qpc_mapping_keeps_acquisition_time_across_delayed_delivery() {
    let clock = HostClock::from_reading(5 * S, 3 * 10_000_000, 10_000_000).unwrap();
    assert_eq!(clock.instant(clock.units()).unwrap(), clock.host());
    assert_eq!(clock.instant(clock.units() - 1_000_000).unwrap() + 100 * MS, clock.host());
    assert_eq!(clock.instant(clock.units() + 10_000_000).unwrap() - clock.host(), S);
    assert!(clock.instant(-1).is_err());
}

#[test]
fn qpc_reading_converts_ticks_to_hundred_nanosecond_units() {
    let clock = HostClock::from_reading(0, 3_000, 1_000).unwrap();
    assert_eq!(clock.units(), 30_000_000);
    assert_eq!(clock.host(), 0);
    assert_eq!(HostClock::from_reading(0, 1, 0).unwrap_err(), ClockError::InvalidHostClock);
    assert_eq!(HostClock::from_reading(0, -1, 10).unwrap_err(), ClockError::InvalidHostClock);
    assert_eq!(clock.instant(-5), Err(ClockError::InvalidTimestamp));
    assert_eq!(clock.instant(29_999_999), Err(ClockError::OutsideHostClock));
    assert_eq!(clock.instant(i64::MAX), Err(ClockError::TimestampOverflow));
}

#[test]
fn monotonic_mapping_rejects_missing_and_future_timestamps() {
    let clock = MonotonicClock::from_reading(10 * S, 100, 500).unwrap();
    assert_eq!(clock.nanos(), 100 * 1_000_000_000 + 500);
    assert_eq!(clock.host(), 10 * S);
    let now = 10 * S;
    assert_eq!(clock.instant(clock.nanos(), now), Ok(10 * S));
    assert_eq!(clock.instant(clock.nanos() - 250_000_000, now), Ok(10 * S - 250 * MS));
    assert_eq!(clock.instant(clock.nanos() + 50_000_000, now), Ok(10 * S + 50 * MS));
    assert_eq!(clock.instant(clock.nanos() + 50_000_001, now), Err(ClockError::NotMonotonic));
    assert_eq!(clock.instant(0, now), Err(ClockError::NoTimestamp));
    assert_eq!(clock.instant(1, now), Err(ClockError::OutsideHostClock));
    assert_eq!(
        MonotonicClock::from_reading(0, i64::MAX, 0).unwrap_err(),
        ClockError::TimestampOverflow
    );
    assert_eq!(ClockError::NotMonotonic.message(), "Device clock is not CLOCK_MONOTONIC");
}

#[test]
fn audio_stream_times_map_relative_to_the_stream_reference() {
    let clock = AudioClock::new(4 * S, 1_000);
    assert_eq!(clock.instant(1_000), Ok(4 * S));
    assert_eq!(clock.instant(1_000 + 20 * MS as i128), Ok(4 * S + 20 * MS));
    assert_eq!(clock.instant(0), Ok(4 * S - 1_000));
    assert_eq!(clock.instant(-(5 * S as i128)), Err(ClockError::TimestampOverflow));
}

#[test]
fn platform_support_and_permissions() {
    assert!(desktop_supported("macos"));
    assert!(desktop_supported("windows"));
    assert!(desktop_supported("linux"));
    assert!(!desktop_supported("freebsd"));
    assert!(linux::screen_permission());
    assert!(!unavailable::screen_permission());
    assert!(!unavailable::request_screen_permission());
    assert!(unavailable::discover_cameras().unwrap().is_empty());
    assert!(unavailable::discover_microphones().unwrap().is_empty());
    let _ = CaptureError::Unsupported;
}
