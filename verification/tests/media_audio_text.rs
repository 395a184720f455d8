use loomik::audio::{AudioTimeline, SlicePlan};
use loomik::media::{canvas_ok, decoder_filter, Aspect, CanvasAction, Fit, MediaKind};
use loomik::media::{video_input_arguments, video_probe_arguments};
use loomik::media::{first_video_stream, probe_image, upright_size, ProbeError};
use loomik::model::RecordingClock;
use loomik::session::{session_names, timestamp, LocalTime};
use loomik::media::{background_frame, image_size_ok, quarter_turned, video_size_ok, MediaError};
use loomik::model::supported_fps;
use loomik::model::Format;
use loomik::text::{contains_text, less_text, push_decimal, same_text, trim, trim_to, truncate};

const S: u64 = 1_000_000_000;

#[test]
fn aspect_canvases_and_labels() {
    assert_eq!(Aspect::Original.canvas(1000, 500), (1000, 500));
    assert_eq!(Aspect::Landscape.canvas(1, 1), (3840, 2160));
    assert_eq!(Aspect::Portrait.canvas(1, 1), (2160, 3840));
    assert_eq!(Aspect::Square.canvas(1, 1), (3840, 3840));
    assert_eq!(Aspect::Landscape.label(), "16:9");
    assert_eq!(Aspect::default(), Aspect::Original);
    assert_eq!(Aspect::ALL.len(), 4);
    assert_eq!(Fit::default(), Fit::Fit);
    assert_ne!(MediaKind::Image, MediaKind::Video);
    assert_ne!(CanvasAction::Start, CanvasAction::Stop);
}

#[test]
fn media_canvas_limits() {
    assert!(canvas_ok(2, 2, 15));
    assert!(canvas_ok(3840, 3840, 60));
    assert!(!canvas_ok(1, 2, 30));
    assert!(!canvas_ok(3841, 2, 30));
    assert!(!canvas_ok(64, 64, 25));
}

#[test]
fn decoder_filter_places_media_on_the_canvas() {
    assert_eq!(
        decoder_filter(Fit::Fit, 96, 64, 30, false),
        "scale=iw*sar:ih,setsar=1,scale=96:64:force_original_aspect_ratio=decrease:force_divisible_by=2,pad=96:64:(ow-iw)/2:(oh-ih)/2:color=0x18191c,setsar=1,fps=30:start_time=0:round=up,tpad=stop_mode=clone:stop=-1"
    );
    assert_eq!(
        decoder_filter(Fit::Fill, 1920, 1080, 60, true),
        "scale=iw*sar:ih,setsar=1,scale=1920:1080:force_original_aspect_ratio=increase:force_divisible_by=2,crop=1920:1080,setsar=1,fps=60:start_time=0:round=up"
    );
}

#[test]
fn delayed_audio_buffer_lands_only_on_active_time() {
    // Active 1 s - 2 s and 3 s - 4 s; a buffer spanning 0 s - 5 s arrives late.
    let mut clock = RecordingClock::default();
    clock.start(S);
    clock.pause(2 * S);
    clock.resume(3 * S);
    clock.pause(4 * S);
    let mut audio = AudioTimeline::new(1000);
    let slices = clock.active_slices(0, 5 * S);
    assert_eq!(slices.len(), 2);
    let first = audio.place(slices[0].output_start, slices[0].end - slices[0].start);
    assert_eq!(first, SlicePlan { silence: 0, start: 0, first: 0, end: 1000 });
    let second = audio.place(slices[1].output_start, slices[1].end - slices[1].start);
    assert_eq!(second, SlicePlan { silence: 0, start: 1000, first: 1000, end: 2000 });
    assert_eq!(audio.written, 2000);
    assert_eq!(audio.inserted_silence, 0);
    assert_eq!(audio.overlap_samples, 0);
    assert!(!audio.needs_padding());
}

#[test]
fn audio_gaps_are_filled_and_overlaps_counted() {
    let mut audio = AudioTimeline::new(48_000);
    assert!(audio.needs_padding());
    let plan = audio.place(S / 2, S / 2);
    assert_eq!(plan, SlicePlan { silence: 24_000, start: 24_000, first: 24_000, end: 48_000 });
    assert_eq!(audio.inserted_silence, 24_000);
    let again = audio.place(S / 4, S);
    assert_eq!(again, SlicePlan { silence: 0, start: 12_000, first: 48_000, end: 60_000 });
    assert_eq!(audio.overlap_samples, 36_000);
    assert_eq!(audio.written, 60_000);
    // Half a sample rounds up.
    let mut odd = AudioTimeline::new(1);
    assert_eq!(odd.place(S / 2, 0).start, 1);
}

#[test]
fn session_files_are_named_from_time_and_identifier() {
    let names = session_names("2024-05-06 07.08.09", "0123456789abcdef0123456789abcdef", Format::Mkv);
    assert_eq!(names.movie, "Loomik 2024-05-06 07.08.09-012345.mkv");
    assert_eq!(names.folder, ".loomik-0123456789abcdef0123456789abcdef");
}

#[test]
fn new_sessions_get_random_hexadecimal_identifiers() {
    let a = loomik::session::new_session_names(Format::Mp4);
    let b = loomik::session::new_session_names(Format::Mp4);
    assert!(a.movie.starts_with("Loomik "));
    assert!(a.movie.ends_with(".mp4"));
    assert_eq!(a.folder.len(), ".loomik-".len() + 32);
    assert!(a.folder[8..].chars().all(|c| c.is_ascii_hexdigit() && !c.is_ascii_uppercase()));
    assert_ne!(a.folder, b.folder);
}

#[test]
fn text_helpers() {
    let mut s = String::from("n=");
    push_decimal(&mut s, 0);
    push_decimal(&mut s, 1234567);
    assert_eq!(s, "n=01234567");
    assert!(same_text("abc", "abc"));
    assert!(!same_text("abc", "abd"));
    assert!(!same_text("abc", "ab"));
    assert_eq!(truncate("Built-in microphone", 10), "Built-in …");
    assert_eq!(truncate("short", 10), "short");
    assert_eq!(trim_to("\t  spaced out \u{3000}\n", 100), "spaced out");
    assert_eq!(trim_to("  abcdef", 3), "abc");
    assert_eq!(trim_to(" \n ", 3), "");
}

#[test]
fn p95_bucket_is_the_first_reaching_ninety_five_percent() {
    let mut buckets = [0u64; 501];
    buckets[3] = 90;
    buckets[7] = 5;
    buckets[40] = 5;
    assert_eq!(loomik::metrics::p95_bucket(&buckets, 100), 7);
    buckets[7] = 4;
    assert_eq!(loomik::metrics::p95_bucket(&buckets, 100), 40);
    assert_eq!(loomik::metrics::p95_bucket(&[0u64; 501], 0), 0);
    let mut outliers = [0u64; 501];
    outliers[500] = 3;
    assert_eq!(loomik::metrics::p95_bucket(&outliers, 3), 500);
    assert_eq!(loomik::metrics::p95_bucket(&[0u64; 501], 10), 500);
}

#[test]
fn audio_slices_start_where_video_slots_take_their_frames() {
    let mut clock = RecordingClock::default();
    clock.start(S);
    clock.pause(2 * S);
    clock.resume(3 * S);
    clock.pause(4 * S);
    clock.resume(6 * S);
    for (start, end) in [(0, 7 * S), (S / 2, 3 * S + S / 2), (3 * S + 1, 6 * S + 5)] {
        for slice in clock.active_slices(start, end) {
            assert_eq!(clock.instant_at(slice.output_start), Some(slice.start));
        }
    }
}

#[test]
fn timestamps_follow_the_file_name_layout() {
    let t = LocalTime { year: 2024, month: 5, day: 6, hour: 7, minute: 8, second: 9, nanosecond: 500 };
    assert_eq!(timestamp(t), "2024-05-06 07.08.09");
    let leap = LocalTime { second: 59, nanosecond: 1_200_000_000, ..t };
    assert_eq!(timestamp(leap), "2024-05-06 07.08.60");
    assert_eq!(timestamp(LocalTime { year: 5, ..t }), "0005-05-06 07.08.09");
    assert_eq!(timestamp(LocalTime { year: -5, ..t }), "-0005-05-06 07.08.09");
    assert_eq!(timestamp(LocalTime { year: 12345, ..t }), "+12345-05-06 07.08.09");
    let names = loomik::session::new_session_names(Format::Mov);
    let stamp = &names.movie["Loomik ".len()..names.movie.len() - "-012345.mov".len()];
    assert_eq!(stamp.len(), 19);
    let bytes = stamp.as_bytes();
    assert_eq!((bytes[4], bytes[7], bytes[10], bytes[13], bytes[16]), (b'-', b'-', b' ', b'.', b'.'));
}

#[test]
fn stored_settings_and_probe_limits() {
    assert_eq!(supported_fps(60), 60);
    assert_eq!(supported_fps(15), 15);
    assert_eq!(supported_fps(24), 30);
    assert!(image_size_ok(10_000, 6_000));
    assert!(!image_size_ok(10_000, 6_001));
    assert!(quarter_turned(90) && quarter_turned(-90) && quarter_turned(270));
    assert!(!quarter_turned(180) && !quarter_turned(0));
    assert!(video_size_ok(32768, 1) && !video_size_ok(0, 5) && !video_size_ok(32769, 5));
}

fn png(width: u32, height: u32, rgba: [u8; 4]) -> Vec<u8> {
    let mut out = Vec::new();
    let pixels = rgba.repeat((width * height) as usize);
    image::ImageEncoder::write_image(
        image::codecs::png::PngEncoder::new(&mut out),
        &pixels,
        width,
        height,
        image::ExtendedColorType::Rgba8,
    )
    .unwrap();
    out
}

#[test]
fn image_backgrounds_fit_fill_and_stay_opaque() {
    let wide = png(2, 1, [200, 10, 20, 255]);
    let fit = background_frame(&wide, Fit::Fit, 4, 4, 7).unwrap();
    assert_eq!((fit.width, fit.height, fit.captured_at), (4, 4, 7));
    let rows: Vec<&[u8]> = fit.bgra.chunks(16).collect();
    assert_eq!(rows[0], [28, 25, 24, 255].repeat(4).as_slice());
    assert_eq!(rows[1], [20, 10, 200, 255].repeat(4).as_slice());
    assert_eq!(rows[2], [20, 10, 200, 255].repeat(4).as_slice());
    assert_eq!(rows[3], [28, 25, 24, 255].repeat(4).as_slice());
    let fill = background_frame(&wide, Fit::Fill, 4, 4, 7).unwrap();
    assert_eq!(fill.bgra, [20, 10, 200, 255].repeat(16));
    let clear = png(1, 1, [255, 255, 255, 0]);
    let shown = background_frame(&clear, Fit::Fit, 2, 2, 0).unwrap();
    assert_eq!(shown.bgra, [28, 25, 24, 255].repeat(4));
    assert_eq!(background_frame(&[1, 2, 3], Fit::Fit, 2, 2, 0).unwrap_err(), MediaError::UnreadableImage);
}

#[test]
fn trimming_searching_and_ordering_text() {
    assert_eq!(trim("  \tTerminal \n"), "Terminal");
    assert_eq!(trim(" \u{3000}"), "");
    assert_eq!(trim("a b"), "a b");
    assert!(contains_text("org.loomik.studio", "loomik"));
    assert!(contains_text("loomik", "loomik"));
    assert!(contains_text("anything", ""));
    assert!(!contains_text("loomi", "loomik"));
    assert!(!contains_text("LOOMIK", "loomik"));
    assert!(less_text("Browser", "Editor"));
    assert!(less_text("Edit", "Editor"));
    assert!(less_text("Zebra", "apple"));
    assert!(!less_text("Editor", "Editor"));
    assert!(!less_text("Editor", "Edit"));
    assert!(!less_text("", ""));
    assert!(less_text("", "a"));
}

#[test]
fn video_inputs_restrict_protocols_and_demuxers() {
    let restricted = [
        "-protocol_whitelist",
        "file,pipe",
        "-format_whitelist",
        "mov,mp4,m4a,3gp,3g2,mj2,matroska,webm",
    ];
    let mut expected: Vec<&str> = vec!["-ss", "1.500000000"];
    expected.extend(restricted);
    expected.push("-i");
    assert_eq!(video_input_arguments(false, "1.500000000"), expected);
    let mut looping = vec!["-stream_loop", "-1"];
    looping.extend(expected.iter().copied());
    assert_eq!(video_input_arguments(true, "1.500000000"), looping);
    let probe = video_probe_arguments();
    assert_eq!(probe[..2], ["-v", "error"]);
    assert_eq!(probe[2..6], restricted);
    assert_eq!(probe[6..], ["-show_entries", "stream=codec_type,width,height,sample_aspect_ratio:stream_side_data=rotation:format=duration", "-of", "json"]);
}

fn png_with_orientation(width: u32, height: u32, orientation: u8) -> Vec<u8> {
    let mut out = Vec::new();
    let mut encoder = image::codecs::png::PngEncoder::new(&mut out);
    let exif = vec![
        b'M', b'M', 0, 42, 0, 0, 0, 8, 0, 1, 0x01, 0x12, 0, 3, 0, 0, 0, 1, 0, orientation, 0, 0, 0,
        0, 0, 0,
    ];
    image::ImageEncoder::set_exif_metadata(&mut encoder, exif).unwrap();
    let pixels = [1u8, 2, 3, 255].repeat((width * height) as usize);
    image::ImageEncoder::write_image(encoder, &pixels, width, height, image::ExtendedColorType::Rgba8)
        .unwrap();
    out
}

fn crc32(bytes: &[u8]) -> u32 {
    let mut crc = 0xffff_ffffu32;
    for &b in bytes {
        crc ^= b as u32;
        for _ in 0..8 {
            crc = if crc & 1 == 1 { (crc >> 1) ^ 0xedb8_8320 } else { crc >> 1 };
        }
    }
    !crc
}

/// A PNG whose header claims `width` x `height` (its pixel data is that of a
/// single pixel).
fn png_claiming(width: u32, height: u32) -> Vec<u8> {
    let mut file = png(1, 1, [0, 0, 0, 255]);
    // Signature (8 bytes), IHDR length (4), type (4), then width and height.
    file[16..20].copy_from_slice(&width.to_be_bytes());
    file[20..24].copy_from_slice(&height.to_be_bytes());
    let crc = crc32(&file[12..29]);
    file[29..33].copy_from_slice(&crc.to_be_bytes());
    file
}

#[test]
fn image_probes_read_the_upright_size_from_the_header() {
    assert_eq!(probe_image(&png(3, 2, [9, 9, 9, 255])), Ok((3, 2)));
    assert_eq!(probe_image(&png_with_orientation(3, 2, 1)), Ok((3, 2)));
    assert_eq!(probe_image(&png_with_orientation(3, 2, 3)), Ok((3, 2)));
    assert_eq!(probe_image(&png_with_orientation(3, 2, 6)), Ok((2, 3)));
    assert_eq!(probe_image(&png_with_orientation(3, 2, 8)), Ok((2, 3)));
    assert_eq!(probe_image(&png_with_orientation(3, 2, 5)), Ok((2, 3)));
    assert_eq!(probe_image(&png_claiming(10_000, 6_000)), Ok((10_000, 6_000)));
    assert_eq!(probe_image(&png_claiming(10_000, 6_001)), Err(ProbeError::TooLarge));
    assert_eq!(probe_image(&[1, 2, 3]), Err(ProbeError::Unreadable));
    assert_eq!(ProbeError::TooLarge.message(), "Image is too large (maximum 60 megapixels).");
    assert_eq!(ProbeError::Unreadable.message(), "Cannot read this image.");
    assert_eq!(
        background_frame(&png_claiming(10_000, 6_001), Fit::Fit, 2, 2, 0).unwrap_err(),
        MediaError::TooLarge
    );
    let turned = background_frame(&png_with_orientation(2, 1, 6), Fit::Fill, 1, 2, 0).unwrap();
    assert_eq!((turned.width, turned.height), (1, 2));
}

#[test]
fn video_probes_pick_the_first_video_stream_and_turn_its_size() {
    let types = |v: &[&str]| v.iter().map(|s| s.to_string()).collect::<Vec<String>>();
    assert_eq!(first_video_stream(&types(&["audio", "video", "video"])), Some(1));
    assert_eq!(first_video_stream(&types(&["audio", "data"])), None);
    assert_eq!(first_video_stream(&types(&[])), None);
    assert_eq!(upright_size(1920, 1080, 90), (1080, 1920));
    assert_eq!(upright_size(1920, 1080, -90), (1080, 1920));
    assert_eq!(upright_size(1920, 1080, 180), (1920, 1080));
    assert_eq!(upright_size(1920, 1080, 0), (1920, 1080));
}

#[test]
fn independent_device_clock_drift_does_not_accumulate() {
    // Device seconds are 100 ppm longer than host seconds. Timestamp mapping
    // must preserve a pulse after ten minutes within one output sample.
    let base = 700 * S;
    let mut clock = RecordingClock::default();
    clock.start(base);
    let mut audio = AudioTimeline::new(1000);
    let mut first_pulse = None;
    for i in 0..600u64 {
        let start = base + i * 1_000_100_000;
        let end = base + (i + 1) * 1_000_100_000;
        for slice in clock.active_slices(start, end) {
            let plan = audio.place(slice.output_start, slice.end - slice.start);
            // The pulse buffer's samples are all loud: its first written
            // output sample is the first loud one.
            if i == 599 && first_pulse.is_none() && plan.first < plan.end {
                first_pulse = Some(plan.first);
            }
        }
    }
    assert_eq!(audio.written, 600060);
    assert_eq!(first_pulse, Some(599060));
    assert_eq!(audio.inserted_silence, 0);
    assert_eq!(audio.overlap_samples, 0);
}
