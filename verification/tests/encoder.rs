use loomik::encoder::{
    bitrate, crf, encoder_arguments, hardware_backends, missing_tool_message, next_backend_step,
    probe_arguments, tool_locations, windows_encoder_options, Backend, BackendStep, EncoderError,
    ProbeOutcome, ToolLocation,
};
use loomik::encoder::{export_arguments, mix_tracks, next_tool_step, ToolProbe, ToolStep};
use loomik::model::Format;
use loomik::model::Quality;

fn args(v: &[&str]) -> Vec<String> {
    v.iter().map(|s| s.to_string()).collect()
}

#[test]
fn software_encoder_arguments_stream_fragmented_mp4() {
    let a = encoder_arguments(64, 48, 30, Quality::Balanced, Backend::Libx264).unwrap();
    assert_eq!(
        a,
        args(&[
            "-hide_banner", "-loglevel", "warning", "-nostdin", "-n", "-f", "rawvideo",
            "-pixel_format", "bgra", "-video_size", "64x48", "-framerate", "30", "-i", "pipe:0",
            "-an", "-c:v", "libx264", "-preset", "veryfast", "-tune", "zerolatency", "-crf", "22",
            "-bf", "0", "-pix_fmt", "yuv420p", "-g", "60", "-movflags",
            "+frag_keyframe+empty_moov+default_base_moof", "-f", "mp4",
        ])
    );
}

#[test]
fn hardware_encoder_arguments_carry_the_bitrate() {
    let a = encoder_arguments(1920, 1080, 60, Quality::Crisp, Backend::Nvenc).unwrap();
    let codec = a.iter().position(|s| s == "-c:v").unwrap();
    assert_eq!(a[codec + 1], "h264_nvenc");
    assert_eq!(&a[codec + 2..codec + 14], &args(windows_encoder_options("h264_nvenc"))[..]);
    assert_eq!(a[codec + 14], "-b:v");
    assert_eq!(a[codec + 15], "27371520");
    let vt = encoder_arguments(1280, 720, 15, Quality::Compact, Backend::VideoToolbox).unwrap();
    let codec = vt.iter().position(|s| s == "-c:v").unwrap();
    assert_eq!(
        &vt[codec + 1..codec + 10],
        &args(&["h264_videotoolbox", "-realtime", "1", "-allow_sw", "0", "-prio_speed", "1", "-b:v", "1244160"])[..]
    );
    assert_eq!(vt[vt.len() - 5], "30");
}

#[test]
fn encoder_refuses_odd_sizes_and_unknown_rates() {
    assert_eq!(
        encoder_arguments(63, 48, 30, Quality::Balanced, Backend::Libx264),
        Err(EncoderError::OddDimensions)
    );
    assert_eq!(
        encoder_arguments(0, 48, 30, Quality::Balanced, Backend::Libx264),
        Err(EncoderError::OddDimensions)
    );
    assert_eq!(
        encoder_arguments(64, 48, 24, Quality::Balanced, Backend::Libx264),
        Err(EncoderError::UnsupportedFrameRate)
    );
    assert_eq!(EncoderError::OddDimensions.message(), "Video dimensions must be positive and even");
    assert_eq!(EncoderError::UnsupportedFrameRate.message(), "Unsupported frame rate");
}

#[test]
fn bitrate_scales_with_pixels_and_has_a_floor() {
    assert_eq!(bitrate(1920, 1080, 30, Quality::Balanced), 1920 * 1080 * 30 * 14 / 100);
    assert_eq!(bitrate(64, 48, 15, Quality::Compact), 1_000_000);
    assert_eq!(bitrate(u32::MAX, u32::MAX, u32::MAX, Quality::Crisp), u64::MAX);
    assert_eq!(crf(Quality::Compact), "27");
    assert_eq!(crf(Quality::Balanced), "22");
    assert_eq!(crf(Quality::Crisp), "18");
}

#[test]
fn windows_options_are_low_latency() {
    assert_eq!(windows_encoder_options("h264_qsv"), &["-preset", "veryfast", "-async_depth", "1", "-look_ahead", "0"]);
    assert_eq!(windows_encoder_options("h264_amf"), &["-usage", "ultralowlatency", "-quality", "speed"]);
    assert!(windows_encoder_options("libx264").is_empty());
    assert_eq!(Backend::Qsv.name(), "h264_qsv");
}

#[test]
fn probes_run_a_real_session_at_the_requested_size() {
    assert_eq!(
        probe_arguments(Backend::VideoToolbox, 64, 48),
        args(&[
            "-hide_banner", "-loglevel", "error", "-nostdin", "-f", "lavfi", "-i",
            "color=size=64x48:rate=30", "-frames:v", "2", "-c:v", "h264_videotoolbox",
            "-allow_sw", "0", "-realtime", "1", "-bf", "0", "-pix_fmt", "yuv420p", "-f", "null",
            "-",
        ])
    );
    assert_eq!(
        probe_arguments(Backend::Amf, 1920, 1080),
        args(&[
            "-v", "error", "-nostdin", "-f", "lavfi", "-i", "color=size=1920x1080:rate=30",
            "-frames:v", "2", "-c:v", "h264_amf", "-usage", "ultralowlatency", "-quality",
            "speed", "-b:v", "4M", "-bf", "0", "-pix_fmt", "yuv420p", "-f", "null", "-",
        ])
    );
}

#[test]
fn windows_tries_each_hardware_encoder_in_order() {
    assert_eq!(hardware_backends("windows"), vec![Backend::Nvenc, Backend::Qsv, Backend::Amf]);
    assert_eq!(hardware_backends("macos"), vec![Backend::VideoToolbox]);
    assert!(hardware_backends("linux").is_empty());
    let mut outcomes = Vec::new();
    assert!(matches!(next_backend_step("windows", &outcomes), BackendStep::Probe(Backend::Nvenc)));
    outcomes.push(ProbeOutcome::Rejected("  no device \n".to_string()));
    assert!(matches!(next_backend_step("windows", &outcomes), BackendStep::Probe(Backend::Qsv)));
    outcomes.push(ProbeOutcome::Succeeded);
    match next_backend_step("windows", &outcomes) {
        BackendStep::Chosen(Backend::Qsv, None) => {}
        other => panic!("{other:?}"),
    }
}

#[test]
fn failed_probes_fall_back_to_software_with_a_report() {
    let outcomes = vec![
        ProbeOutcome::Rejected("\n  nvenc missing  \n".to_string()),
        ProbeOutcome::Unavailable("spawn failed".to_string()),
        ProbeOutcome::Rejected("x".repeat(600)),
    ];
    match next_backend_step("windows", &outcomes) {
        BackendStep::Chosen(Backend::Libx264, Some(report)) => {
            let lines: Vec<&str> = report.split('\n').collect();
            assert_eq!(lines.len(), 3);
            assert_eq!(lines[0], "h264_nvenc: nvenc missing");
            assert_eq!(lines[1], "h264_qsv: spawn failed");
            assert_eq!(lines[2], format!("h264_amf: {}", "x".repeat(500)));
        }
        other => panic!("{other:?}"),
    }
    let mac = vec![ProbeOutcome::Rejected(format!(" {} ", "é".repeat(2500)))];
    match next_backend_step("macos", &mac) {
        BackendStep::Chosen(Backend::Libx264, Some(report)) => {
            assert_eq!(report, "é".repeat(2000));
        }
        other => panic!("{other:?}"),
    }
    match next_backend_step("linux", &Vec::new()) {
        BackendStep::Chosen(Backend::Libx264, Some(report)) => {
            assert_eq!(report, "Native hardware backend not implemented on this OS");
        }
        other => panic!("{other:?}"),
    }
}

#[test]
fn tools_are_looked_for_in_a_fixed_order() {
    assert_eq!(
        tool_locations(false),
        vec![
            ToolLocation::Configured,
            ToolLocation::BesideExecutable,
            ToolLocation::Homebrew,
            ToolLocation::UsrLocal,
            ToolLocation::SearchPath,
        ]
    );
    assert_eq!(tool_locations(true)[1], ToolLocation::BesideFfmpeg);
    assert_eq!(tool_locations(true).len(), 6);
    assert_eq!(
        missing_tool_message("ffprobe", "LOOMIK_FFPROBE"),
        "ffprobe is missing. Install FFmpeg (including ffprobe), add its bin folder to PATH, or set LOOMIK_FFPROBE, then reopen Loomik."
    );
}

#[test]
fn the_first_working_tool_is_used() {
    assert_eq!(next_tool_step(false, &vec![]), ToolStep::Try(ToolLocation::Configured));
    assert_eq!(
        next_tool_step(false, &vec![ToolProbe::Unavailable, ToolProbe::Failed]),
        ToolStep::Try(ToolLocation::Homebrew)
    );
    assert_eq!(
        next_tool_step(true, &vec![ToolProbe::Unavailable, ToolProbe::Works]),
        ToolStep::Found(ToolLocation::BesideFfmpeg)
    );
    assert_eq!(
        next_tool_step(false, &vec![ToolProbe::Failed, ToolProbe::Works, ToolProbe::Works]),
        ToolStep::Found(ToolLocation::BesideExecutable)
    );
    let none = vec![ToolProbe::Failed; 5];
    assert_eq!(next_tool_step(false, &none), ToolStep::Missing);
    assert_eq!(next_tool_step(true, &none), ToolStep::Try(ToolLocation::SearchPath));
    let mut last = vec![ToolProbe::Unavailable; 5];
    last.push(ToolProbe::Works);
    assert_eq!(next_tool_step(true, &last), ToolStep::Found(ToolLocation::SearchPath));
}

#[test]
fn exports_copy_the_video_and_mix_the_audio_tracks() {
    assert_eq!(
        export_arguments(&vec![], "2.500000000", Format::Mp4),
        args(&["-map", "0:v:0", "-an", "-c:v", "copy", "-t", "2.500000000", "-movflags", "+faststart"])
    );
    assert_eq!(
        export_arguments(&vec![], "1.000000000", Format::Mkv),
        args(&["-map", "0:v:0", "-an", "-c:v", "copy", "-t", "1.000000000"])
    );
    let tracks = args(&["[1:a:0]volume=1,apad[a0]", "[2:a:0]aresample=48000:async=1:first_pts=0,volume=0.5,apad[a1]"]);
    let mix = "[1:a:0]volume=1,apad[a0];[2:a:0]aresample=48000:async=1:first_pts=0,volume=0.5,apad[a1];[a0][a1]amix=inputs=2:normalize=0:duration=longest,alimiter=limit=0.95:latency=1[mix]";
    assert_eq!(mix_tracks(&tracks), mix);
    assert_eq!(
        export_arguments(&tracks, "3.000000000", Format::Mov),
        args(&[
            "-map", "0:v:0", "-filter_complex", mix, "-map", "[mix]", "-c:a", "aac", "-b:a", "160k",
            "-c:v", "copy", "-t", "3.000000000", "-movflags", "+faststart",
        ])
    );
    assert_eq!(
        mix_tracks(&args(&["[1:a:0]volume=1,apad[a0]"])),
        "[1:a:0]volume=1,apad[a0];[a0]amix=inputs=1:normalize=0:duration=longest,alimiter=limit=0.95:latency=1[mix]"
    );
}
