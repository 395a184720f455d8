use loomik::frame::{
    make_opaque, rgba_to_opaque_bgra, CameraCompositor, CameraFrameRenderer, FrameHistory,
    ScaleError, Scaler, VideoFrame,
};
use loomik::timeline::Timeline;
use std::sync::Arc;

const MS: u64 = 1_000_000;

fn solid(w: u32, h: u32, pixel: [u8; 4], at: u64) -> VideoFrame {
    VideoFrame { width: w, height: h, bgra: pixel.repeat((w * h) as usize), captured_at: at }
}

#[test]
fn removes_native_stride_padding() {
    let timeline = Timeline::start();
    let f = VideoFrame::from_strided(
        1,
        2,
        8,
        &[1, 2, 3, 4, 0, 0, 0, 0, 5, 6, 7, 8, 0, 0, 0, 0],
        &timeline,
    )
    .unwrap();
    assert_eq!(f.bgra, [1, 2, 3, 4, 5, 6, 7, 8]);
    assert!(VideoFrame::from_strided(2, 2, 8, &[0; 8], &timeline).is_none());
}

#[test]
fn delayed_encoder_never_pulls_a_future_frame_into_a_past_slot() {
    let base: u64 = 1_000 * MS;
    let now = base + 2_000 * MS;
    let mut frames = FrameHistory::new();
    for i in 0..60u64 {
        let time = base + i * 16 * MS;
        let frame = VideoFrame::from_strided_at(1, 1, 4, &[i as u8, 0, 0, 255], time).unwrap();
        assert!(frames.push(Arc::new(frame), now));
    }
    assert!(frames.at_or_before(base + 100 * MS).is_none());
    let target = base + 850 * MS;
    let frame = frames.at_or_before(target).unwrap();
    assert_eq!(frame.bgra[0], 53);
    assert!(frame.captured_at <= target);
    assert!(frames.len() <= 20);
}

#[test]
fn strided_frames_keep_their_acquisition_time() {
    let f = VideoFrame::from_strided_at(2, 1, 12, &[9; 12], 42).unwrap();
    assert_eq!((f.width, f.height, f.captured_at), (2, 1, 42));
    assert_eq!(f.bgra, vec![9; 8]);
    assert!(VideoFrame::from_strided_at(0, 1, 4, &[0; 4], 1).is_none());
    assert!(VideoFrame::from_strided_at(2, 1, 4, &[0; 8], 1).is_none());
}

#[test]
fn history_refuses_future_and_out_of_order_frames() {
    let mut h = FrameHistory::new();
    assert!(h.latest().is_none());
    assert!(!h.push(Arc::new(solid(1, 1, [1, 1, 1, 255], 500)), 400));
    assert!(h.push(Arc::new(solid(1, 1, [2, 2, 2, 255], 300)), 400));
    assert!(!h.push(Arc::new(solid(1, 1, [3, 3, 3, 255], 300)), 400));
    assert!(!h.push(Arc::new(solid(1, 1, [4, 4, 4, 255], 200)), 400));
    assert_eq!(h.len(), 1);
    assert_eq!(h.latest().unwrap().bgra[0], 2);
    h.clear();
    assert_eq!(h.len(), 0);
}

#[test]
fn history_keeps_at_most_thirty_two_frames() {
    let mut h = FrameHistory::new();
    for i in 0..100u64 {
        assert!(h.push(Arc::new(solid(1, 1, [i as u8, 0, 0, 255], i)), 1_000));
    }
    assert_eq!(h.len(), 32);
    assert_eq!(h.latest().unwrap().captured_at, 99);
    assert!(h.at_or_before(67).is_none());
    assert_eq!(h.at_or_before(68).unwrap().captured_at, 68);
}

#[test]
fn history_keeps_two_frames_however_far_apart() {
    let mut h = FrameHistory::new();
    assert!(h.push(Arc::new(solid(1, 1, [1, 0, 0, 255], 0)), 10_000 * MS));
    assert!(h.push(Arc::new(solid(1, 1, [2, 0, 0, 255], 5_000 * MS)), 10_000 * MS));
    assert_eq!(h.len(), 2);
    assert!(h.push(Arc::new(solid(1, 1, [3, 0, 0, 255], 9_000 * MS)), 10_000 * MS));
    assert_eq!(h.len(), 2);
    assert_eq!(h.at_or_before(6_000 * MS).unwrap().bgra[0], 2);
}

#[test]
fn renderer_mirrors_rows_and_reuses_the_cached_frame() {
    let camera = VideoFrame {
        width: 2,
        height: 1,
        bgra: vec![1, 2, 3, 4, 5, 6, 7, 8],
        captured_at: 7,
    };
    let mut renderer = CameraFrameRenderer::default();
    let plain = renderer.render(&camera, 2, 1, false).bgra.clone();
    assert_eq!(plain, vec![1, 2, 3, 4, 5, 6, 7, 8]);
    let mirrored = renderer.render(&camera, 2, 1, true);
    assert_eq!(mirrored.bgra, vec![5, 6, 7, 8, 1, 2, 3, 4]);
    assert_eq!(mirrored.captured_at, 7);
}

#[test]
fn renderer_resamples_to_the_export_size() {
    let camera = solid(4, 2, [10, 20, 30, 255], 3);
    let mut renderer = CameraFrameRenderer::default();
    let out = renderer.render(&camera, 2, 1, false);
    assert_eq!((out.width, out.height), (2, 1));
    assert_eq!(out.bgra.len(), 8);
    assert_eq!(out.bgra, vec![10, 20, 30, 255, 10, 20, 30, 255]);
    let bigger = renderer.render(&camera, 8, 4, false);
    assert_eq!(bigger.bgra.len(), 8 * 4 * 4);
    assert!(bigger.bgra.chunks(4).all(|p| p == [10, 20, 30, 255]));
}

#[test]
fn compositor_blends_only_covered_pixels() {
    let mut screen = solid(2, 1, [0, 0, 0, 0], 1);
    let camera = solid(1, 1, [200, 100, 50, 9], 2);
    let mut compositor = CameraCompositor::default();
    let key = [1u64; 12];
    assert!(!compositor.is_current(&key));
    compositor.set_geometry(key, vec![(4, 0, 256)]);
    assert!(compositor.is_current(&key));
    assert!(!compositor.is_current(&[2u64; 12]));
    assert!(compositor.blend(&mut screen, &camera));
    assert_eq!(screen.bgra, vec![0, 0, 0, 0, 200, 100, 50, 255]);
    compositor.set_geometry(key, vec![(0, 0, 128)]);
    assert!(compositor.blend(&mut screen, &camera));
    assert_eq!(&screen.bgra[..4], &[100, 50, 25, 255]);
}

#[test]
fn compositor_refuses_geometry_outside_the_buffers() {
    let mut screen = solid(1, 1, [1, 2, 3, 4], 1);
    let camera = solid(1, 1, [9, 9, 9, 9], 2);
    let mut compositor = CameraCompositor::default();
    compositor.set_geometry([0; 12], vec![(0, 0, 256), (4, 0, 256)]);
    assert!(!compositor.blend(&mut screen, &camera));
    assert_eq!(screen.bgra, vec![1, 2, 3, 4]);
    compositor.set_geometry([0; 12], vec![(0, 0, 257)]);
    assert!(!compositor.blend(&mut screen, &camera));
    assert_eq!(screen.bgra, vec![1, 2, 3, 4]);
}

#[test]
fn pixel_fixups_set_alpha_and_swap_channels() {
    let mut bgrx = vec![1, 2, 3, 0, 4, 5, 6, 7];
    make_opaque(&mut bgrx);
    assert_eq!(bgrx, vec![1, 2, 3, 255, 4, 5, 6, 255]);
    let mut rgba = vec![10, 20, 30, 40, 50, 60, 70, 80, 90];
    rgba_to_opaque_bgra(&mut rgba);
    assert_eq!(rgba, vec![30, 20, 10, 255, 70, 60, 50, 255, 90]);
}

#[test]
fn scaler_keeps_matching_frames_and_resamples_others() {
    let mut scaler = Scaler::new();
    let same = scaler.resize(solid(2, 2, [1, 2, 3, 4], 9), 2, 2).unwrap();
    assert_eq!(same.bgra, [1, 2, 3, 4].repeat(4));
    let smaller = scaler.resize(solid(8, 4, [40, 80, 120, 255], 9), 4, 2).unwrap();
    assert_eq!((smaller.width, smaller.height, smaller.captured_at), (4, 2, 9));
    assert_eq!(smaller.bgra, [40, 80, 120, 255].repeat(8));
    let truncated = VideoFrame { width: 4, height: 4, bgra: vec![0; 10], captured_at: 1 };
    assert_eq!(scaler.resize(truncated, 2, 2).unwrap_err(), ScaleError::TruncatedFrame);
}

#[test]
fn cached_renders_equal_fresh_renders() {
    let first = solid(4, 2, [10, 20, 30, 255], 5);
    let mut warm = CameraFrameRenderer::default();
    let _ = warm.render(&solid(4, 2, [90, 90, 90, 255], 4), 2, 1, true).bgra.clone();
    let a = warm.render(&first, 2, 1, true).bgra.clone();
    let again = warm.render(&first, 2, 1, true).bgra.clone();
    let fresh = CameraFrameRenderer::default().render(&first, 2, 1, true).bgra.clone();
    assert_eq!(a, fresh);
    assert_eq!(again, fresh);
}

#[test]
fn history_keeps_strictly_increasing_times() {
    let mut h = FrameHistory::new();
    for t in [5u64, 3, 9, 9, 12] {
        h.push(Arc::new(solid(1, 1, [0, 0, 0, 255], t)), 100);
    }
    assert_eq!(h.len(), 3);
    assert_eq!(h.at_or_before(8).unwrap().captured_at, 5);
    assert_eq!(h.latest().unwrap().captured_at, 12);
}
