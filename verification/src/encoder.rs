//! The streaming H.264 encoder's command line: input checks, backend options,
//! quality settings and the fragmented-MP4 output that survives abrupt exits.
use crate::model::Quality;
use crate::text::{decimal, prefix_chars, push_char, push_decimal, same_text, trim_to, trimmed};
use vstd::prelude::*;
use vstd::string::StringExecFns;

verus! {

/// Why an encoder could not be started.
#[derive(Debug, Clone, Copy, PartialEq, Eq, Structural)]
pub enum EncoderError {
    /// Width or height is zero or odd.
    OddDimensions,
    /// The frame rate is not 15, 30 or 60.
    UnsupportedFrameRate,
}

impl EncoderError {
    /// Message for the user.
    pub fn message(&self) -> (r: &'static str)
        ensures
            r@ == match self {
                EncoderError::OddDimensions => "Video dimensions must be positive and even"@,
                EncoderError::UnsupportedFrameRate => "Unsupported frame rate"@,
            },
    {
        match self {
            EncoderError::OddDimensions => "Video dimensions must be positive and even",
            EncoderError::UnsupportedFrameRate => "Unsupported frame rate",
        }
    }
}

/// H.264 encoder implementation used by FFmpeg.
#[derive(Debug, Clone, Copy, PartialEq, Eq, Structural)]
pub enum Backend {
    VideoToolbox,
    Nvenc,
    Qsv,
    Amf,
    Libx264,
}

impl Backend {
    pub open spec fn spec_name(self) -> Seq<char> {
        match self {
            Backend::VideoToolbox => "h264_videotoolbox"@,
            Backend::Nvenc => "h264_nvenc"@,
            Backend::Qsv => "h264_qsv"@,
            Backend::Amf => "h264_amf"@,
            Backend::Libx264 => "libx264"@,
        }
    }

    /// FFmpeg's codec name.
    pub fn name(self) -> (r: &'static str)
        ensures
            r@ == self.spec_name(),
    {
        match self {
            Backend::VideoToolbox => "h264_videotoolbox",
            Backend::Nvenc => "h264_nvenc",
            Backend::Qsv => "h264_qsv",
            Backend::Amf => "h264_amf",
            Backend::Libx264 => "libx264",
        }
    }
}

/// Low-latency options of the Windows hardware encoder named `backend`.
pub open spec fn windows_options(backend: Seq<char>) -> Seq<Seq<char>> {
    if backend == "h264_nvenc"@ {
        seq![
            "-preset"@,
            "p1"@,
            "-tune"@,
            "ull"@,
            "-rc"@,
            "cbr"@,
            "-rc-lookahead"@,
            "0"@,
            "-zerolatency"@,
            "1"@,
            "-delay"@,
            "0"@,
        ]
    } else if backend == "h264_qsv"@ {
        seq!["-preset"@, "veryfast"@, "-async_depth"@, "1"@, "-look_ahead"@, "0"@]
    } else if backend == "h264_amf"@ {
        seq!["-usage"@, "ultralowlatency"@, "-quality"@, "speed"@]
    } else {
        seq![]
    }
}

/// The texts of a list of string slices.
pub open spec fn texts(s: Seq<&str>) -> Seq<Seq<char>> {
    s.map_values(|t: &str| t@)
}

/// Probe a real hardware session at the requested dimensions; these are the
/// options that make each Windows hardware encoder low-latency.
pub fn windows_encoder_options(backend: &str) -> (r: &'static [&'static str])
    ensures
        texts(r@) == windows_options(backend@),
{
    if same_text(backend, "h264_nvenc") {
        let r: &'static [&'static str] = &[
            "-preset",
            "p1",
            "-tune",
            "ull",
            "-rc",
            "cbr",
            "-rc-lookahead",
            "0",
            "-zerolatency",
            "1",
            "-delay",
            "0",
        ];
        assert(texts(r@) =~= windows_options(backend@));
        r
    } else if same_text(backend, "h264_qsv") {
        let r: &'static [&'static str] = &[
            "-preset",
            "veryfast",
            "-async_depth",
            "1",
            "-look_ahead",
            "0",
        ];
        assert(texts(r@) =~= windows_options(backend@));
        r
    } else if same_text(backend, "h264_amf") {
        let r: &'static [&'static str] = &["-usage", "ultralowlatency", "-quality", "speed"];
        assert(texts(r@) =~= windows_options(backend@));
        r
    } else {
        let r: &'static [&'static str] = &[];
        assert(texts(r@) =~= windows_options(backend@));
        r
    }
}

} // verus!

verus! {

/// The texts of a list of strings.
pub open spec fn string_texts(s: Seq<String>) -> Seq<Seq<char>> {
    s.map_values(|t: String| t@)
}

/// Constant rate factor of the software encoder.
pub open spec fn spec_crf(quality: Quality) -> Seq<char> {
    match quality {
        Quality::Compact => "27"@,
        Quality::Balanced => "22"@,
        Quality::Crisp => "18"@,
    }
}

/// Hardware bit budget, in bits per 100 pixels.
pub open spec fn bits_per_100_pixels(quality: Quality) -> nat {
    match quality {
        Quality::Compact => 9,
        Quality::Balanced => 14,
        Quality::Crisp => 22,
    }
}

/// Hardware target bitrate: the quality's bit budget per pixel per second,
/// at least 1 Mbit/s.
pub open spec fn spec_bitrate(width: u32, height: u32, fps: u32, quality: Quality) -> nat {
    let b = width * height * fps * bits_per_100_pixels(quality) / 100;
    if b > u64::MAX {
        u64::MAX as nat
    } else if b >= 1_000_000 {
        b as nat
    } else {
        1_000_000
    }
}

/// Options that follow the codec name for `backend`.
pub open spec fn backend_args(backend: Backend, quality: Quality, bitrate: nat) -> Seq<Seq<char>> {
    match backend {
        Backend::VideoToolbox => seq![
            "-realtime"@,
            "1"@,
            "-allow_sw"@,
            "0"@,
            "-prio_speed"@,
            "1"@,
            "-b:v"@,
            decimal(bitrate),
        ],
        Backend::Libx264 => seq![
            "-preset"@,
            "veryfast"@,
            "-tune"@,
            "zerolatency"@,
            "-crf"@,
            spec_crf(quality),
        ],
        _ => windows_options(backend.spec_name()) + seq!["-b:v"@, decimal(bitrate)],
    }
}

/// Input and codec part of the encoder arguments.
pub open spec fn head_args(width: u32, height: u32, fps: u32, backend: Backend) -> Seq<Seq<char>> {
    seq![
        "-hide_banner"@,
        "-loglevel"@,
        "warning"@,
        "-nostdin"@,
        "-n"@,
        "-f"@,
        "rawvideo"@,
        "-pixel_format"@,
        "bgra"@,
        "-video_size"@,
        decimal(width as nat) + seq!['x'] + decimal(height as nat),
        "-framerate"@,
        decimal(fps as nat),
        "-i"@,
        "pipe:0"@,
        "-an"@,
        "-c:v"@,
        backend.spec_name(),
    ]
}

/// Output part of the encoder arguments: no B-frames, 4:2:0, a keyframe
/// every two seconds, fragmented MP4.
pub open spec fn tail_args(fps: u32) -> Seq<Seq<char>> {
    seq![
        "-bf"@,
        "0"@,
        "-pix_fmt"@,
        "yuv420p"@,
        "-g"@,
        decimal((fps * 2) as nat),
        "-movflags"@,
        "+frag_keyframe+empty_moov+default_base_moof"@,
        "-f"@,
        "mp4"@,
    ]
}

/// FFmpeg arguments, all but the output path, that read raw BGRA frames of
/// `width` x `height` at `fps` from standard input and write fragmented MP4.
pub open spec fn encoder_args(
    width: u32,
    height: u32,
    fps: u32,
    quality: Quality,
    backend: Backend,
) -> Seq<Seq<char>> {
    head_args(width, height, fps, backend) + backend_args(
        backend,
        quality,
        spec_bitrate(width, height, fps, quality),
    ) + tail_args(fps)
}

/// The encoder accepts these dimensions: positive and even.
pub open spec fn encodable_size(width: u32, height: u32) -> bool {
    width > 0 && height > 0 && width % 2 == 0 && height % 2 == 0
}

/// The encoder accepts this frame rate.
pub open spec fn encodable_rate(fps: u32) -> bool {
    fps == 15 || fps == 30 || fps == 60
}

pub(crate) fn push_arg(args: &mut Vec<String>, text: &str)
    ensures
        string_texts(final(args)@) == string_texts(old(args)@).push(text@),
{
    args.push(String::from_str(text));
    proof {
        assert(string_texts(final(args)@) =~= string_texts(old(args)@).push(text@));
    }
}

fn push_number_arg(args: &mut Vec<String>, n: u64)
    ensures
        string_texts(final(args)@) == string_texts(old(args)@).push(decimal(n as nat)),
{
    let mut s = String::new();
    push_decimal(&mut s, n);
    args.push(s);
    proof {
        assert(string_texts(final(args)@) =~= string_texts(old(args)@).push(decimal(n as nat)));
    }
}

pub(crate) fn push_args(args: &mut Vec<String>, more: &[&str])
    ensures
        string_texts(final(args)@) == string_texts(old(args)@) + texts(more@),
{
    let mut i: usize = 0;
    while i < more.len()
        invariant
            i <= more@.len(),
            string_texts(args@) == string_texts(old(args)@) + texts(more@.subrange(0, i as int)),
        decreases more@.len() - i,
    {
        push_arg(args, more[i]);
        proof {
            assert(texts(more@.subrange(0, i + 1)) =~= texts(more@.subrange(0, i as int)).push(
                more@[i as int]@,
            ));
            assert(string_texts(args@) =~= string_texts(old(args)@) + texts(
                more@.subrange(0, i + 1),
            ));
        }
        i = i + 1;
    }
    proof {
        assert(more@.subrange(0, more@.len() as int) =~= more@);
    }
}

/// Constant rate factor of the software encoder for `quality`.
pub fn crf(quality: Quality) -> (r: &'static str)
    ensures
        r@ == spec_crf(quality),
{
    match quality {
        Quality::Compact => "27",
        Quality::Balanced => "22",
        Quality::Crisp => "18",
    }
}

/// Hardware target bitrate in bits per second.
pub fn bitrate(width: u32, height: u32, fps: u32, quality: Quality) -> (r: u64)
    ensures
        r == spec_bitrate(width, height, fps, quality),
{
    let per: u64 = match quality {
        Quality::Compact => 9,
        Quality::Balanced => 14,
        Quality::Crisp => 22,
    };
    let (w, h, f) = (width as u128, height as u128, fps as u128);
    assert(w * h <= 0xffff_ffff_ffff_ffff) by (nonlinear_arith)
        requires
            w <= u32::MAX,
            h <= u32::MAX,
    ;
    assert(w * h * f <= 0xffff_ffff_ffff_ffff_ffff_ffff) by (nonlinear_arith)
        requires
            w * h <= 0xffff_ffff_ffff_ffff,
            f <= u32::MAX,
    ;
    assert(w * h * f * (per as u128) <= 22 * 0xffff_ffff_ffff_ffff_ffff_ffff) by (nonlinear_arith)
        requires
            w * h * f <= 0xffff_ffff_ffff_ffff_ffff_ffff,
            per <= 22,
    ;
    let b: u128 = w * h * f * per as u128 / 100;
    if b > u64::MAX as u128 {
        u64::MAX
    } else if b >= 1_000_000 {
        b as u64
    } else {
        1_000_000
    }
}

/// FFmpeg arguments for the streaming encoder, all but the output path
/// (`session/video.mp4`), which follows them. Refuses zero or odd
/// dimensions and frame rates other than 15, 30 and 60.
pub fn encoder_arguments(width: u32, height: u32, fps: u32, quality: Quality, backend: Backend) -> (r:
    Result<Vec<String>, EncoderError>)
    ensures
        !encodable_size(width, height) ==> r == Err::<Vec<String>, EncoderError>(
            EncoderError::OddDimensions,
        ),
        encodable_size(width, height) && !encodable_rate(fps) ==> r == Err::<
            Vec<String>,
            EncoderError,
        >(EncoderError::UnsupportedFrameRate),
        encodable_size(width, height) && encodable_rate(fps) ==> (r matches Ok(args)
            && string_texts(args@) == encoder_args(width, height, fps, quality, backend)),
{
    if !(width > 0 && height > 0 && width % 2 == 0 && height % 2 == 0) {
        return Err(EncoderError::OddDimensions);
    }
    if !(fps == 15 || fps == 30 || fps == 60) {
        return Err(EncoderError::UnsupportedFrameRate);
    }
    let mut args: Vec<String> = Vec::new();
    push_args(
        &mut args,
        &["-hide_banner", "-loglevel", "warning", "-nostdin", "-n", "-f", "rawvideo",
        "-pixel_format", "bgra", "-video_size"],
    );
    let ghost first = string_texts(args@);
    let mut size = String::new();
    push_decimal(&mut size, width as u64);
    push_char(&mut size, 'x');
    push_decimal(&mut size, height as u64);
    let ghost size_text = size@;
    args.push(size);
    proof {
        assert(string_texts(args@) =~= first.push(size_text));
        assert(size_text =~= decimal(width as nat) + seq!['x'] + decimal(height as nat));
    }
    push_arg(&mut args, "-framerate");
    push_number_arg(&mut args, fps as u64);
    push_args(&mut args, &["-i", "pipe:0", "-an", "-c:v"]);
    push_arg(&mut args, backend.name());
    proof {
        assert(string_texts(args@) =~= head_args(width, height, fps, backend));
    }
    let ghost head = string_texts(args@);
    let rate = bitrate(width, height, fps, quality);
    match backend {
        Backend::VideoToolbox => {
            push_args(&mut args, &["-realtime", "1", "-allow_sw", "0", "-prio_speed", "1", "-b:v"]);
            push_number_arg(&mut args, rate);
        },
        Backend::Libx264 => {
            push_args(&mut args, &["-preset", "veryfast", "-tune", "zerolatency", "-crf"]);
            push_arg(&mut args, crf(quality));
        },
        _ => {
            push_args(&mut args, windows_encoder_options(backend.name()));
            push_arg(&mut args, "-b:v");
            push_number_arg(&mut args, rate);
        },
    }
    proof {
        assert(string_texts(args@) =~= head + backend_args(backend, quality, rate as nat));
    }
    let ghost middle = string_texts(args@);
    push_args(&mut args, &["-bf", "0", "-pix_fmt", "yuv420p", "-g"]);
    push_number_arg(&mut args, fps as u64 * 2);
    push_args(
        &mut args,
        &["-movflags", "+frag_keyframe+empty_moov+default_base_moof", "-f", "mp4"],
    );
    proof {
        assert(string_texts(args@) =~= middle + tail_args(fps));
        assert(string_texts(args@) =~= encoder_args(width, height, fps, quality, backend));
    }
    Ok(args)
}

} // verus!

verus! {

/// Hardware encoders worth probing on the operating system `os` (named as
/// `std::env::consts::OS` names it), in the order they are tried.
pub open spec fn hardware_candidates(os: Seq<char>) -> Seq<Backend> {
    if os == "macos"@ {
        seq![Backend::VideoToolbox]
    } else if os == "windows"@ {
        seq![Backend::Nvenc, Backend::Qsv, Backend::Amf]
    } else {
        seq![]
    }
}

/// The hardware encoders to probe on `os`, in order.
pub fn hardware_backends(os: &str) -> (r: Vec<Backend>)
    ensures
        r@ == hardware_candidates(os@),
{
    if same_text(os, "macos") {
        let r = vec![Backend::VideoToolbox];
        assert(r@ =~= hardware_candidates(os@));
        r
    } else if same_text(os, "windows") {
        let r = vec![Backend::Nvenc, Backend::Qsv, Backend::Amf];
        assert(r@ =~= hardware_candidates(os@));
        r
    } else {
        let r: Vec<Backend> = Vec::new();
        assert(r@ =~= hardware_candidates(os@));
        r
    }
}

/// The synthetic test source of a probe: a colour field of the requested size.
pub open spec fn probe_source(width: u32, height: u32) -> Seq<char> {
    "color=size="@ + decimal(width as nat) + seq!['x'] + decimal(height as nat) + ":rate=30"@
}

/// FFmpeg arguments that encode two frames of `width` x `height` with
/// `backend` and discard them: a real hardware session, since merely listing
/// a codec does not prove that hardware encoding is available.
pub open spec fn probe_args(backend: Backend, width: u32, height: u32) -> Seq<Seq<char>> {
    match backend {
        Backend::VideoToolbox => seq![
            "-hide_banner"@,
            "-loglevel"@,
            "error"@,
            "-nostdin"@,
            "-f"@,
            "lavfi"@,
            "-i"@,
            probe_source(width, height),
            "-frames:v"@,
            "2"@,
            "-c:v"@,
            "h264_videotoolbox"@,
            "-allow_sw"@,
            "0"@,
            "-realtime"@,
            "1"@,
            "-bf"@,
            "0"@,
            "-pix_fmt"@,
            "yuv420p"@,
            "-f"@,
            "null"@,
            "-"@,
        ],
        _ => seq![
            "-v"@,
            "error"@,
            "-nostdin"@,
            "-f"@,
            "lavfi"@,
            "-i"@,
            probe_source(width, height),
            "-frames:v"@,
            "2"@,
            "-c:v"@,
            backend.spec_name(),
        ] + windows_options(backend.spec_name()) + seq![
            "-b:v"@,
            "4M"@,
            "-bf"@,
            "0"@,
            "-pix_fmt"@,
            "yuv420p"@,
            "-f"@,
            "null"@,
            "-"@,
        ],
    }
}

/// FFmpeg arguments of the hardware probe of `backend` at `width` x `height`.
pub fn probe_arguments(backend: Backend, width: u32, height: u32) -> (r: Vec<String>)
    ensures
        string_texts(r@) == probe_args(backend, width, height),
{
    let mut args: Vec<String> = Vec::new();
    match backend {
        Backend::VideoToolbox => {
            push_args(&mut args, &["-hide_banner", "-loglevel", "error", "-nostdin", "-f", "lavfi", "-i"]);
        },
        _ => {
            push_args(&mut args, &["-v", "error", "-nostdin", "-f", "lavfi", "-i"]);
        },
    }
    let ghost before = string_texts(args@);
    let mut source = String::from_str("color=size=");
    push_decimal(&mut source, width as u64);
    push_char(&mut source, 'x');
    push_decimal(&mut source, height as u64);
    source.append(":rate=30");
    let ghost source_text = source@;
    args.push(source);
    proof {
        assert(source_text =~= probe_source(width, height));
        assert(string_texts(args@) =~= before.push(source_text));
    }
    match backend {
        Backend::VideoToolbox => {
            push_args(
                &mut args,
                &["-frames:v", "2", "-c:v", "h264_videotoolbox", "-allow_sw", "0", "-realtime",
                "1", "-bf", "0", "-pix_fmt", "yuv420p", "-f", "null", "-"],
            );
        },
        _ => {
            push_args(&mut args, &["-frames:v", "2", "-c:v"]);
            push_arg(&mut args, backend.name());
            push_args(&mut args, windows_encoder_options(backend.name()));
            push_args(
                &mut args,
                &["-b:v", "4M", "-bf", "0", "-pix_fmt", "yuv420p", "-f", "null", "-"],
            );
        },
    }
    proof {
        assert(string_texts(args@) =~= probe_args(backend, width, height));
    }
    args
}

/// What one probe gave.
#[derive(Debug, Clone)]
pub enum ProbeOutcome {
    /// FFmpeg encoded the frames.
    Succeeded,
    /// FFmpeg ran and failed; its standard error output, decoded.
    Rejected(String),
    /// FFmpeg could not be run; the error's text.
    Unavailable(String),
}

/// The first probe among the first `n` outcomes, from index `i` on, that succeeded.
pub open spec fn first_success(outcomes: Seq<ProbeOutcome>, i: nat, n: nat) -> Option<nat>
    decreases n - i,
{
    if i >= n {
        None
    } else if outcomes[i as int] is Succeeded {
        Some(i)
    } else {
        first_success(outcomes, i + 1, n)
    }
}

/// What a failed probe contributes to the report: macOS keeps up to 2000
/// characters of FFmpeg's output, Windows names each encoder and keeps up
/// to 500.
pub open spec fn failure_text(windows: bool, backend: Backend, outcome: ProbeOutcome) -> Seq<char> {
    let detail = match outcome {
        ProbeOutcome::Rejected(t) => prefix_chars(
            trimmed(t@),
            if windows {
                500
            } else {
                2000
            },
        ),
        ProbeOutcome::Unavailable(e) => e@,
        ProbeOutcome::Succeeded => seq![],
    };
    if windows {
        backend.spec_name() + ": "@ + detail
    } else {
        detail
    }
}

/// Lines joined by line feeds.
pub open spec fn joined_lines(lines: Seq<Seq<char>>) -> Seq<char>
    decreases lines.len(),
{
    if lines.len() == 0 {
        seq![]
    } else if lines.len() == 1 {
        lines[0]
    } else {
        joined_lines(lines.drop_last()) + seq!['\n'] + lines.last()
    }
}

/// Why the software encoder was chosen after every candidate failed.
pub open spec fn fallback_report(os: Seq<char>, outcomes: Seq<ProbeOutcome>) -> Seq<char> {
    let candidates = hardware_candidates(os);
    if candidates.len() == 0 {
        "Native hardware backend not implemented on this OS"@
    } else {
        joined_lines(
            Seq::new(
                candidates.len(),
                |i: int| failure_text(os == "windows"@, candidates[i], outcomes[i]),
            ),
        )
    }
}

/// The next step of the encoder choice.
#[derive(Debug, Clone)]
pub enum BackendStep {
    /// Run the probe of this encoder and report its outcome.
    Probe(Backend),
    /// Use this encoder; the text says why hardware encoding was not used.
    Chosen(Backend, Option<String>),
}

/// The step the encoder choice takes on `os` after the probes that gave
/// `outcomes`, in the candidates' order: the first candidate whose probe
/// succeeded is chosen, the next candidate is probed while any is left,
/// and the software encoder is chosen with a report of every failure.
pub open spec fn backend_step(os: Seq<char>, outcomes: Seq<ProbeOutcome>) -> (Backend, Option<Seq<char>>, bool) {
    let candidates = hardware_candidates(os);
    let n = if outcomes.len() < candidates.len() {
        outcomes.len()
    } else {
        candidates.len()
    };
    match first_success(outcomes, 0, n) {
        Some(i) => (candidates[i as int], None, false),
        None => if outcomes.len() < candidates.len() {
            (candidates[outcomes.len() as int], None, true)
        } else {
            (Backend::Libx264, Some(fallback_report(os, outcomes)), false)
        },
    }
}

/// Whether a step matches `backend_step`: a probe when the third component
/// is set, otherwise the choice with its report.
pub open spec fn step_is(step: BackendStep, expected: (Backend, Option<Seq<char>>, bool)) -> bool {
    match step {
        BackendStep::Probe(b) => expected.2 && b == expected.0,
        BackendStep::Chosen(b, report) => !expected.2 && b == expected.0 && match report {
            Some(t) => expected.1 == Some(t@),
            None => expected.1 is None,
        },
    }
}

fn failure_line(windows: bool, backend: Backend, outcome: &ProbeOutcome) -> (r: String)
    ensures
        r@ == failure_text(windows, backend, *outcome),
{
    let detail = match outcome {
        ProbeOutcome::Rejected(t) => trim_to(t.as_str(), if windows {
            500
        } else {
            2000
        }),
        ProbeOutcome::Unavailable(e) => e.clone(),
        ProbeOutcome::Succeeded => String::new(),
    };
    if windows {
        let mut line = String::from_str(backend.name());
        line.append(": ");
        line.append(detail.as_str());
        line
    } else {
        detail
    }
}

proof fn lemma_first_success_is_first(outcomes: Seq<ProbeOutcome>, i: nat, n: nat)
    requires
        n <= outcomes.len(),
    ensures
        match first_success(outcomes, i, n) {
            Some(k) => i <= k < n && outcomes[k as int] is Succeeded && forall|j: int|
                i <= j < k ==> !(#[trigger] outcomes[j] is Succeeded),
            None => forall|j: int| i <= j < n ==> !(#[trigger] outcomes[j] is Succeeded),
        },
    decreases n - i,
{
    if i < n && !(outcomes[i as int] is Succeeded) {
        lemma_first_success_is_first(outcomes, i + 1, n);
    }
}

proof fn lemma_chosen_at(os: Seq<char>, outcomes: Seq<ProbeOutcome>, k: int)
    requires
        0 <= k < outcomes.len(),
        k < hardware_candidates(os).len(),
        outcomes[k] is Succeeded,
        forall|j: int| 0 <= j < k ==> !(#[trigger] outcomes[j] is Succeeded),
    ensures
        backend_step(os, outcomes) == (hardware_candidates(os)[k], None::<Seq<char>>, false),
{
    let candidates = hardware_candidates(os);
    let n: nat = if outcomes.len() < candidates.len() {
        outcomes.len()
    } else {
        candidates.len()
    };
    lemma_first_success_is_first(outcomes, 0, n);
    match first_success(outcomes, 0, n) {
        Some(f) => {
            if f < k {
                assert(!(outcomes[f as int] is Succeeded));
            } else if f > k {
                assert(!(outcomes[k] is Succeeded));
            }
        },
        None => {
            assert(!(outcomes[k] is Succeeded));
        },
    }
}

/// The encoder choice takes the first hardware encoder whose probe
/// succeeded, with no report; while none has succeeded it probes the next
/// candidate; once every candidate failed (or none exists) it chooses the
/// software encoder with a report.
pub proof fn lemma_first_working_hardware_is_chosen(os: Seq<char>, outcomes: Seq<ProbeOutcome>)
    ensures
        forall|k: int|
            0 <= k < outcomes.len() && k < hardware_candidates(os).len() && #[trigger] outcomes[k] is Succeeded
                && (forall|j: int| 0 <= j < k ==> !(#[trigger] outcomes[j] is Succeeded)) ==> backend_step(
                os,
                outcomes,
            ) == (hardware_candidates(os)[k], None::<Seq<char>>, false),
        (forall|j: int| 0 <= j < outcomes.len() ==> !(#[trigger] outcomes[j] is Succeeded))
            && outcomes.len() < hardware_candidates(os).len() ==> backend_step(os, outcomes) == (
            hardware_candidates(os)[outcomes.len() as int],
            None::<Seq<char>>,
            true,
        ),
        (forall|j: int| 0 <= j < outcomes.len() ==> !(#[trigger] outcomes[j] is Succeeded))
            && outcomes.len() >= hardware_candidates(os).len() ==> backend_step(os, outcomes).0
            == Backend::Libx264 && backend_step(os, outcomes).1 is Some && !backend_step(
            os,
            outcomes,
        ).2,
{
    let candidates = hardware_candidates(os);
    let n: nat = if outcomes.len() < candidates.len() {
        outcomes.len()
    } else {
        candidates.len()
    };
    lemma_first_success_is_first(outcomes, 0, n);
    assert forall|k: int|
        0 <= k < outcomes.len() && k < hardware_candidates(os).len() && #[trigger] outcomes[k] is Succeeded
            && (forall|j: int| 0 <= j < k ==> !(#[trigger] outcomes[j] is Succeeded)) implies backend_step(
        os,
        outcomes,
    ) == (hardware_candidates(os)[k], None::<Seq<char>>, false) by {
        lemma_chosen_at(os, outcomes, k);
    }
    if forall|j: int| 0 <= j < outcomes.len() ==> !(#[trigger] outcomes[j] is Succeeded) {
        if let Some(f) = first_success(outcomes, 0, n) {
            assert(!(outcomes[f as int] is Succeeded));
        }
    }
}

/// Decides the next step of choosing the H.264 encoder on `os`, given the
/// outcomes of the probes run so far in the order `hardware_backends` gives.
pub fn next_backend_step(os: &str, outcomes: &Vec<ProbeOutcome>) -> (r: BackendStep)
    ensures
        step_is(r, backend_step(os@, outcomes@)),
        forall|k: int|
            0 <= k < outcomes.len() && k < hardware_candidates(os@).len() && #[trigger] outcomes@[k] is Succeeded
                && (forall|j: int| 0 <= j < k ==> !(#[trigger] outcomes@[j] is Succeeded)) ==> (r matches BackendStep::Chosen(
                b,
                None,
            ) && b == hardware_candidates(os@)[k]),
        (forall|j: int| 0 <= j < outcomes.len() ==> !(#[trigger] outcomes@[j] is Succeeded))
            && outcomes.len() < hardware_candidates(os@).len() ==> (r matches BackendStep::Probe(b)
            && b == hardware_candidates(os@)[outcomes.len() as int]),
        (forall|j: int| 0 <= j < outcomes.len() ==> !(#[trigger] outcomes@[j] is Succeeded))
            && outcomes.len() >= hardware_candidates(os@).len() ==> (r matches BackendStep::Chosen(
            b,
            Some(_),
        ) && b == Backend::Libx264),
{
    proof {
        lemma_first_working_hardware_is_chosen(os@, outcomes@);
    }
    let candidates = hardware_backends(os);
    let n: usize = if outcomes.len() < candidates.len() {
        outcomes.len()
    } else {
        candidates.len()
    };
    let mut i: usize = 0;
    while i < n
        invariant
            n <= outcomes@.len(),
            n <= candidates@.len(),
            candidates@ == hardware_candidates(os@),
            n == (if outcomes@.len() < candidates@.len() {
                outcomes@.len()
            } else {
                candidates@.len()
            }),
            i <= n,
            first_success(outcomes@, 0, n as nat) == first_success(outcomes@, i as nat, n as nat),
        decreases n - i,
    {
        if let ProbeOutcome::Succeeded = &outcomes[i] {
            let r = BackendStep::Chosen(candidates[i], None);
            proof {
                assert forall|k: int|
                    0 <= k < outcomes.len() && k < hardware_candidates(os@).len() && #[trigger] outcomes@[k] is Succeeded
                        && (forall|j: int| 0 <= j < k ==> !(#[trigger] outcomes@[j] is Succeeded)) implies (r matches BackendStep::Chosen(
                        b,
                        None,
                    ) && b == hardware_candidates(os@)[k]) by {
                    lemma_chosen_at(os@, outcomes@, k);
                }
            }
            return r;
        }
        i = i + 1;
    }
    if outcomes.len() < candidates.len() {
        return BackendStep::Probe(candidates[outcomes.len()]);
    }
    if candidates.len() == 0 {
        return BackendStep::Chosen(
            Backend::Libx264,
            Some(String::from_str("Native hardware backend not implemented on this OS")),
        );
    }
    let windows = same_text(os, "windows");
    let ghost lines = Seq::new(
        candidates@.len(),
        |k: int| failure_text(os@ == "windows"@, candidates@[k], outcomes@[k]),
    );
    let mut report = failure_line(windows, candidates[0], &outcomes[0]);
    assert(lines.subrange(0, 1) =~= seq![lines[0]]);
    let mut k: usize = 1;
    while k < candidates.len()
        invariant
            1 <= k <= candidates@.len(),
            candidates@.len() <= outcomes@.len(),
            candidates@ == hardware_candidates(os@),
            windows == (os@ == "windows"@),
            lines == Seq::new(
                candidates@.len(),
                |j: int| failure_text(os@ == "windows"@, candidates@[j], outcomes@[j]),
            ),
            report@ == joined_lines(lines.subrange(0, k as int)),
        decreases candidates@.len() - k,
    {
        let line = failure_line(windows, candidates[k], &outcomes[k]);
        let ghost previous = report@;
        proof {
            reveal_strlit("\n");
            assert(line@ == lines[k as int]);
            assert(lines.subrange(0, k + 1).drop_last() =~= lines.subrange(0, k as int));
            assert(lines.subrange(0, k + 1).last() == lines[k as int]);
        }
        report.append("\n");
        report.append(line.as_str());
        assert(report@ =~= previous + seq!['\n'] + lines[k as int]);
        k = k + 1;
    }
    proof {
        assert(lines.subrange(0, candidates@.len() as int) =~= lines);
    }
    BackendStep::Chosen(Backend::Libx264, Some(report))
}

} // verus!

verus! {

/// Where an FFmpeg tool is looked for.
#[derive(Debug, Clone, Copy, PartialEq, Eq, Structural)]
pub enum ToolLocation {
    /// The path in the tool's environment variable.
    Configured,
    /// Next to the FFmpeg that was found (for ffprobe only).
    BesideFfmpeg,
    /// Next to Loomik's own executable.
    BesideExecutable,
    /// Homebrew's bin folder on Apple silicon.
    Homebrew,
    /// `/usr/local/bin`.
    UsrLocal,
    /// The bare name, resolved through `PATH`.
    SearchPath,
}

/// The order in which a tool is looked for; the first location whose tool
/// answers `-version` wins.
pub open spec fn tool_search(ffprobe: bool) -> Seq<ToolLocation> {
    if ffprobe {
        seq![
            ToolLocation::Configured,
            ToolLocation::BesideFfmpeg,
            ToolLocation::BesideExecutable,
            ToolLocation::Homebrew,
            ToolLocation::UsrLocal,
            ToolLocation::SearchPath,
        ]
    } else {
        seq![
            ToolLocation::Configured,
            ToolLocation::BesideExecutable,
            ToolLocation::Homebrew,
            ToolLocation::UsrLocal,
            ToolLocation::SearchPath,
        ]
    }
}

/// The locations to try for ffmpeg (`ffprobe == false`) or ffprobe, in order.
pub fn tool_locations(ffprobe: bool) -> (r: Vec<ToolLocation>)
    ensures
        r@ == tool_search(ffprobe),
{
    let r = if ffprobe {
        vec![
            ToolLocation::Configured,
            ToolLocation::BesideFfmpeg,
            ToolLocation::BesideExecutable,
            ToolLocation::Homebrew,
            ToolLocation::UsrLocal,
            ToolLocation::SearchPath,
        ]
    } else {
        vec![
            ToolLocation::Configured,
            ToolLocation::BesideExecutable,
            ToolLocation::Homebrew,
            ToolLocation::UsrLocal,
            ToolLocation::SearchPath,
        ]
    };
    assert(r@ =~= tool_search(ffprobe));
    r
}

/// What the user is told when no location holds a working tool.
pub open spec fn missing_tool_text(name: Seq<char>, variable: Seq<char>) -> Seq<char> {
    name + " is missing. Install FFmpeg (including ffprobe), add its bin folder to PATH, or set "@
        + variable + ", then reopen Loomik."@
}

/// The message for a tool `name` that was not found; `variable` names the
/// environment variable that can point at it.
pub fn missing_tool_message(name: &str, variable: &str) -> (r: String)
    ensures
        r@ == missing_tool_text(name@, variable@),
{
    let mut r = String::from_str(name);
    r.append(" is missing. Install FFmpeg (including ffprobe), add its bin folder to PATH, or set ");
    r.append(variable);
    r.append(", then reopen Loomik.");
    r
}

} // verus!

verus! {

/// What trying one location gave.
#[derive(Debug, Clone, Copy, PartialEq, Eq, Structural)]
pub enum ToolProbe {
    /// The location does not apply here (no variable set, no FFmpeg found,
    /// no executable folder).
    Unavailable,
    /// The tool there did not answer `-version`.
    Failed,
    /// The tool there answered `-version`.
    Works,
}

/// The next step of looking for a tool.
#[derive(Debug, Clone, Copy, PartialEq, Eq, Structural)]
pub enum ToolStep {
    /// Try this location and report the outcome.
    Try(ToolLocation),
    /// Use the tool at this location.
    Found(ToolLocation),
    /// No location holds a working tool.
    Missing,
}

/// The first location, among the first `n` tried, whose tool worked.
pub open spec fn first_working(probes: Seq<ToolProbe>, i: nat, n: nat) -> Option<nat>
    decreases n - i,
{
    if i >= n {
        None
    } else if probes[i as int] is Works {
        Some(i)
    } else {
        first_working(probes, i + 1, n)
    }
}

/// The step after trying, in `tool_search` order, the locations whose
/// outcomes are `probes`: the first working one is used, the next location
/// is tried while any is left, and the tool is missing otherwise.
pub open spec fn tool_step(ffprobe: bool, probes: Seq<ToolProbe>) -> ToolStep {
    let order = tool_search(ffprobe);
    let n = if probes.len() < order.len() {
        probes.len()
    } else {
        order.len()
    };
    match first_working(probes, 0, n) {
        Some(i) => ToolStep::Found(order[i as int]),
        None => if probes.len() < order.len() {
            ToolStep::Try(order[probes.len() as int])
        } else {
            ToolStep::Missing
        },
    }
}

/// Decides the next step of looking for ffmpeg (`ffprobe == false`) or
/// ffprobe, given the outcomes of the locations tried so far in order.
pub fn next_tool_step(ffprobe: bool, probes: &Vec<ToolProbe>) -> (r: ToolStep)
    ensures
        r == tool_step(ffprobe, probes@),
{
    let order = tool_locations(ffprobe);
    let n: usize = if probes.len() < order.len() {
        probes.len()
    } else {
        order.len()
    };
    let mut i: usize = 0;
    while i < n
        invariant
            order@ == tool_search(ffprobe),
            n == (if probes@.len() < order@.len() {
                probes@.len()
            } else {
                order@.len()
            }),
            i <= n,
            first_working(probes@, 0, n as nat) == first_working(probes@, i as nat, n as nat),
        decreases n - i,
    {
        if probes[i] == ToolProbe::Works {
            return ToolStep::Found(order[i]);
        }
        i = i + 1;
    }
    if probes.len() < order.len() {
        ToolStep::Try(order[probes.len()])
    } else {
        ToolStep::Missing
    }
}

/// The audio tracks joined with `;`, as filter-graph chains are.
pub open spec fn joined_chains(tracks: Seq<Seq<char>>) -> Seq<char>
    decreases tracks.len(),
{
    if tracks.len() == 0 {
        Seq::empty()
    } else if tracks.len() == 1 {
        tracks[0]
    } else {
        joined_chains(tracks.drop_last()) + ";"@ + tracks.last()
    }
}

/// The labels `[a0]` to `[a{n-1}]` of the tracks to mix.
pub open spec fn track_labels(n: nat) -> Seq<char>
    decreases n,
{
    if n == 0 {
        Seq::empty()
    } else {
        track_labels((n - 1) as nat) + "[a"@ + decimal((n - 1) as nat) + "]"@
    }
}

/// The filter graph mixing the audio tracks into `[mix]`: each track's own
/// chain, then all of them mixed without normalising, lasting as long as
/// the longest, and limited to 0.95 of full scale.
pub open spec fn mix_filter(tracks: Seq<Seq<char>>) -> Seq<char> {
    joined_chains(tracks) + ";"@ + track_labels(tracks.len()) + "amix=inputs="@ + decimal(
        tracks.len(),
    ) + ":normalize=0:duration=longest,alimiter=limit=0.95:latency=1[mix]"@
}

/// The export's output options after its inputs: the recorded video stream,
/// no audio or the mixed tracks as AAC at 160 kb/s, the video copied and cut
/// at `duration`, and (except for MKV) the index moved to the front.
pub open spec fn export_args(tracks: Seq<Seq<char>>, duration: Seq<char>, format: crate::model::Format) -> Seq<Seq<char>> {
    seq!["-map"@, "0:v:0"@] + (if tracks.len() == 0 {
        seq!["-an"@]
    } else {
        seq![
            "-filter_complex"@,
            mix_filter(tracks),
            "-map"@,
            "[mix]"@,
            "-c:a"@,
            "aac"@,
            "-b:a"@,
            "160k"@,
        ]
    }) + seq!["-c:v"@, "copy"@, "-t"@, duration] + (if format == crate::model::Format::Mkv {
        Seq::<Seq<char>>::empty()
    } else {
        seq!["-movflags"@, "+faststart"@]
    })
}

/// The filter graph that mixes `tracks` (each a filter chain ending in its
/// label `[a{i}]`).
pub fn mix_tracks(tracks: &Vec<String>) -> (r: String)
    requires
        tracks.len() <= u64::MAX,
    ensures
        r@ == mix_filter(string_texts(tracks@)),
{
    let ghost texts = string_texts(tracks@);
    let mut filter = String::new();
    let mut i: usize = 0;
    while i < tracks.len()
        invariant
            i <= tracks.len(),
            texts == string_texts(tracks@),
            filter@ == joined_chains(texts.subrange(0, i as int)),
        decreases tracks.len() - i,
    {
        if i > 0 {
            filter.append(";");
        }
        filter.append(tracks[i].as_str());
        proof {
            let prefix = texts.subrange(0, i + 1);
            assert(prefix.drop_last() =~= texts.subrange(0, i as int));
            assert(prefix.last() == tracks@[i as int]@);
            if i == 0 {
                assert(joined_chains(texts.subrange(0, 0)) =~= Seq::<char>::empty());
            }
        }
        i = i + 1;
    }
    assert(texts.subrange(0, tracks.len() as int) =~= texts);
    filter.append(";");
    let ghost head = filter@;
    let mut k: usize = 0;
    while k < tracks.len()
        invariant
            k <= tracks.len(),
            tracks.len() <= u64::MAX,
            filter@ == head + track_labels(k as nat),
        decreases tracks.len() - k,
    {
        filter.append("[a");
        push_decimal(&mut filter, k as u64);
        filter.append("]");
        proof {
            assert(filter@ =~= head + track_labels((k + 1) as nat));
        }
        k = k + 1;
    }
    filter.append("amix=inputs=");
    push_decimal(&mut filter, tracks.len() as u64);
    filter.append(":normalize=0:duration=longest,alimiter=limit=0.95:latency=1[mix]");
    proof {
        assert(filter@ =~= mix_filter(texts));
    }
    filter
}

/// The export's output options; the temporary output path follows them.
pub fn export_arguments(tracks: &Vec<String>, duration: &str, format: crate::model::Format) -> (r:
    Vec<String>)
    requires
        tracks.len() <= u64::MAX,
    ensures
        string_texts(r@) == export_args(string_texts(tracks@), duration@, format),
{
    let mut args: Vec<String> = Vec::new();
    push_args(&mut args, &["-map", "0:v:0"]);
    if tracks.len() == 0 {
        push_arg(&mut args, "-an");
    } else {
        push_arg(&mut args, "-filter_complex");
        let filter = mix_tracks(tracks);
        let ghost before = string_texts(args@);
        let ghost text = filter@;
        args.push(filter);
        proof {
            assert(string_texts(args@) =~= before.push(text));
        }
        push_args(&mut args, &["-map", "[mix]", "-c:a", "aac", "-b:a", "160k"]);
    }
    push_args(&mut args, &["-c:v", "copy", "-t"]);
    push_arg(&mut args, duration);
    match format {
        crate::model::Format::Mkv => {},
        _ => push_args(&mut args, &["-movflags", "+faststart"]),
    }
    proof {
        assert(string_texts(args@) =~= export_args(string_texts(tracks@), duration@, format));
    }
    args
}

} // verus!
