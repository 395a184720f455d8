//! Decisions of the V4L2 camera stream: which pixel format to ask for,
//! whether the mode the driver granted can be recorded, and how one captured
//! buffer becomes a timestamped BGRA frame.
use super::clock::ClockError;
use super::linux::{monotonic_host_time, HostClock};
use super::linux_pixels::{yuyv, yuyv_complete, yuyv_layout_ok, yuyv_rows, PixelError};
use crate::frame::VideoFrame;
use vstd::prelude::*;

verus! {

/// The FourCC `MJPG` as a little-endian number.
pub const FOURCC_MJPG: u32 = 0x4750_4a4d;

/// The FourCC `YUYV` as a little-endian number.
pub const FOURCC_YUYV: u32 = 0x5659_5559;

/// Camera pixel formats Loomik records.
#[derive(Debug, Clone, Copy, PartialEq, Eq, Structural)]
pub enum PixelFormat {
    Mjpeg,
    Yuyv,
}

impl PixelFormat {
    pub open spec fn spec_fourcc(self) -> u32 {
        match self {
            PixelFormat::Mjpeg => FOURCC_MJPG,
            PixelFormat::Yuyv => FOURCC_YUYV,
        }
    }

    /// The format's FourCC as a little-endian number.
    pub fn fourcc(self) -> (r: u32)
        ensures
            r == self.spec_fourcc(),
    {
        match self {
            PixelFormat::Mjpeg => FOURCC_MJPG,
            PixelFormat::Yuyv => FOURCC_YUYV,
        }
    }
}

/// Colour space reported by the driver.
#[derive(Debug, Clone, Copy, PartialEq, Eq, Structural)]
pub enum Colorspace {
    Default,
    Smpte170m,
    Rec709,
    Srgb,
    Jpeg,
    /// Any other colour space.
    Other,
}

/// Quantization range reported by the driver.
#[derive(Debug, Clone, Copy, PartialEq, Eq, Structural)]
pub enum Quantization {
    Default,
    FullRange,
    LimitedRange,
}

/// Why a camera stream or one of its buffers cannot be recorded.
#[derive(Debug, Clone, Copy, PartialEq, Eq, Structural)]
pub enum CameraError {
    /// The camera offers neither MJPEG nor YUYV.
    NoSupportedFormat,
    /// The granted size is empty or larger than 1920 x 1080.
    SizeRefused,
    /// The driver granted another pixel format than the one requested.
    FormatChanged,
    /// A YUYV stream in a colour space the conversion does not cover.
    UnsupportedColorspace,
    /// Buffers are not stamped with CLOCK_MONOTONIC.
    NotMonotonic,
    /// The buffer timestamp does not fit 64-bit nanoseconds.
    InvalidTimestamp,
    /// The buffer reports more used bytes than it holds.
    TruncatedBuffer,
    /// The JPEG could not be decoded.
    UndecodableJpeg,
    /// The JPEG's size differs from the granted mode.
    JpegSizeChanged,
    /// The YUYV buffer was refused.
    Pixels(PixelError),
    /// The timestamp does not map onto the host timeline.
    Clock(ClockError),
}

/// The format to request among the offered FourCCs: MJPEG when offered,
/// else YUYV.
pub open spec fn preferred_format(offered: Seq<u32>) -> Option<PixelFormat> {
    if offered.contains(FOURCC_MJPG) {
        Some(PixelFormat::Mjpeg)
    } else if offered.contains(FOURCC_YUYV) {
        Some(PixelFormat::Yuyv)
    } else {
        None
    }
}

fn offers(offered: &Vec<u32>, code: u32) -> (r: bool)
    ensures
        r == offered@.contains(code),
{
    let mut i: usize = 0;
    while i < offered.len()
        invariant
            i <= offered@.len(),
            forall|k: int| 0 <= k < i ==> offered@[k] != code,
        decreases offered@.len() - i,
    {
        if offered[i] == code {
            return true;
        }
        i = i + 1;
    }
    false
}

/// Chooses the pixel format to request from the FourCCs the camera offers.
pub fn choose_format(offered: &Vec<u32>) -> (r: Result<PixelFormat, CameraError>)
    ensures
        match preferred_format(offered@) {
            Some(f) => r == Ok::<PixelFormat, CameraError>(f),
            None => r == Err::<PixelFormat, CameraError>(CameraError::NoSupportedFormat),
        },
{
    if offers(offered, FOURCC_MJPG) {
        Ok(PixelFormat::Mjpeg)
    } else if offers(offered, FOURCC_YUYV) {
        Ok(PixelFormat::Yuyv)
    } else {
        Err(CameraError::NoSupportedFormat)
    }
}

/// A camera mode that can be recorded.
#[derive(Debug, Clone, Copy, PartialEq, Eq, Structural)]
pub struct CameraMode {
    pub format: PixelFormat,
    pub width: u32,
    pub height: u32,
    /// Bytes from one YUYV row to the next.
    pub stride: u32,
    /// BT.709 rather than BT.601 coefficients.
    pub rec709: bool,
    /// Full-range rather than limited-range values.
    pub full_range: bool,
}

/// The colour spaces the YUYV conversion covers.
pub open spec fn yuyv_colorspace(c: Colorspace) -> bool {
    c is Default || c is Smpte170m || c is Rec709 || c is Srgb || c is Jpeg
}

/// The driver's answer to a request for `requested`, or why it cannot be
/// recorded: the size must be 1 to 1920 x 1 to 1080, the format must be the
/// requested one, and YUYV needs a covered colour space. Values are full
/// range when the driver says so, or by default for the JPEG colour space.
pub open spec fn granted_mode(
    requested: PixelFormat,
    fourcc: u32,
    width: u32,
    height: u32,
    stride: u32,
    colorspace: Colorspace,
    quantization: Quantization,
) -> Result<CameraMode, CameraError> {
    if !(0 < width <= 1920 && 0 < height <= 1080) {
        Err(CameraError::SizeRefused)
    } else if fourcc != requested.spec_fourcc() {
        Err(CameraError::FormatChanged)
    } else if requested is Yuyv && !yuyv_colorspace(colorspace) {
        Err(CameraError::UnsupportedColorspace)
    } else {
        Ok(
            CameraMode {
                format: requested,
                width,
                height,
                stride,
                rec709: colorspace is Rec709,
                full_range: quantization is FullRange || (quantization is Default
                    && colorspace is Jpeg),
            },
        )
    }
}

/// Checks the mode the driver granted for a request for `requested`.
pub fn accept_mode(
    requested: PixelFormat,
    fourcc: u32,
    width: u32,
    height: u32,
    stride: u32,
    colorspace: Colorspace,
    quantization: Quantization,
) -> (r: Result<CameraMode, CameraError>)
    ensures
        r == granted_mode(requested, fourcc, width, height, stride, colorspace, quantization),
{
    if !(0 < width && width <= 1920 && 0 < height && height <= 1080) {
        return Err(CameraError::SizeRefused);
    }
    if fourcc != requested.fourcc() {
        return Err(CameraError::FormatChanged);
    }
    let covered = match colorspace {
        Colorspace::Other => false,
        _ => true,
    };
    if requested == PixelFormat::Yuyv && !covered {
        return Err(CameraError::UnsupportedColorspace);
    }
    let rec709 = match colorspace {
        Colorspace::Rec709 => true,
        _ => false,
    };
    let full_range = match quantization {
        Quantization::FullRange => true,
        Quantization::Default => match colorspace {
            Colorspace::Jpeg => true,
            _ => false,
        },
        Quantization::LimitedRange => false,
    };
    Ok(CameraMode { format: requested, width, height, stride, rec709, full_range })
}

/// A V4L2 buffer timestamp (`sec`, `usec`) in nanoseconds, if it fits 64 bits.
pub open spec fn timestamp_nanos(sec: i64, usec: i64) -> Option<i64> {
    let s = sec * 1_000_000_000;
    let u = usec * 1000;
    if i64::MIN <= s <= i64::MAX && i64::MIN <= u <= i64::MAX && i64::MIN <= s + u <= i64::MAX {
        Some((s + u) as i64)
    } else {
        None
    }
}

/// Packed RGBA pixels fill a `width` x `height` image.
pub open spec fn rgba_size_ok(pixels: Seq<u8>, width: u32, height: u32) -> bool {
    pixels.len() == width * height * 4
}

/// The image a JPEG file decodes to, as packed RGBA pixels with its width
/// and height; `None` where it does not decode.
pub uninterp spec fn decoded_jpeg(bytes: Seq<u8>) -> Option<(Seq<u8>, u32, u32)>;

/// `image::load_from_memory_with_format` for JPEG, converted with
/// `to_rgba8`: the decoded image as packed RGBA pixels with its width and
/// height, or `None` where the crate reports an error. Claims: the result is
/// determined by the bytes alone (the name `decoded_jpeg`; zune-jpeg's SIMD
/// and scalar paths compute the same integers), and the pixels fill the
/// reported size. The decoding arithmetic itself is not stated.
#[verifier::external_body]
fn decode_jpeg(bytes: &[u8]) -> (r: Option<(Vec<u8>, u32, u32)>)
    ensures
        match r {
            Some((pixels, w, h)) => decoded_jpeg(bytes@) == Some((pixels@, w, h)) && rgba_size_ok(
                pixels@,
                w,
                h,
            ),
            None => decoded_jpeg(bytes@) is None,
        },
{
    match image::load_from_memory_with_format(bytes, image::ImageFormat::Jpeg) {
        Ok(image) => {
            let rgba = image.to_rgba8();
            let (w, h) = rgba.dimensions();
            Some((rgba.into_raw(), w, h))
        },
        Err(_) => None,
    }
}

/// RGBA pixels reordered to BGRA, alpha kept; a trailing partial pixel is kept.
pub open spec fn rgba_as_bgra(s: Seq<u8>) -> Seq<u8> {
    Seq::new(
        s.len(),
        |i: int|
            if i < s.len() / 4 * 4 {
                if i % 4 == 0 {
                    s[i + 2]
                } else if i % 4 == 2 {
                    s[i - 2]
                } else {
                    s[i]
                }
            } else {
                s[i]
            },
    )
}

/// Swaps the red and blue bytes of every RGBA pixel.
pub fn swap_red_blue(pixels: &mut Vec<u8>)
    ensures
        final(pixels)@ == rgba_as_bgra(old(pixels)@),
{
    let n = pixels.len();
    let count = n / 4;
    let mut k: usize = 0;
    while k < count
        invariant
            n == old(pixels)@.len(),
            pixels@.len() == n,
            count == n / 4,
            k <= count,
            forall|j: int| 0 <= j < k * 4 ==> #[trigger] pixels@[j] == rgba_as_bgra(old(pixels)@)[j],
            forall|j: int| k * 4 <= j < n ==> #[trigger] pixels@[j] == old(pixels)@[j],
        decreases count - k,
    {
        let at = k * 4;
        let red = pixels[at];
        let blue = pixels[at + 2];
        pixels.set(at, blue);
        pixels.set(at + 2, red);
        k = k + 1;
    }
    proof {
        assert(pixels@ =~= rgba_as_bgra(old(pixels)@));
    }
}

/// A decoded image as plain values: pixels, width and height.
pub open spec fn decoded_view(decoded: Option<(Vec<u8>, u32, u32)>) -> Option<(Seq<u8>, u32, u32)> {
    match decoded {
        Some((pixels, w, h)) => Some((pixels@, w, h)),
        None => None,
    }
}

/// The frame a decoded JPEG gives for a mode of `width` x `height`, acquired
/// at `at`: refused when it did not decode or its size changed, otherwise its
/// pixels reordered to BGRA.
pub open spec fn jpeg_frame_result(
    r: Result<VideoFrame, CameraError>,
    decoded: Option<(Seq<u8>, u32, u32)>,
    width: u32,
    height: u32,
    at: u64,
) -> bool {
    match decoded {
        None => r == Err::<VideoFrame, CameraError>(CameraError::UndecodableJpeg),
        Some((pixels, w, h)) => if w != width || h != height {
            r == Err::<VideoFrame, CameraError>(CameraError::JpegSizeChanged)
        } else {
            r matches Ok(f) && f.width == width && f.height == height && f.captured_at == at
                && f.bgra@ == rgba_as_bgra(pixels)
        },
    }
}

/// Turns a decoded MJPEG buffer (RGBA pixels with their size, or `None`
/// where it did not decode) into a frame of the mode's `width` x `height`
/// acquired at `at`.
pub fn jpeg_frame(decoded: Option<(Vec<u8>, u32, u32)>, width: u32, height: u32, at: u64) -> (r:
    Result<VideoFrame, CameraError>)
    ensures
        jpeg_frame_result(r, decoded_view(decoded), width, height, at),
{
    let (mut pixels, w, h) = match decoded {
        Some(d) => d,
        None => return Err(CameraError::UndecodableJpeg),
    };
    if w != width || h != height {
        return Err(CameraError::JpegSizeChanged);
    }
    swap_red_blue(&mut pixels);
    Ok(VideoFrame { width: w, height: h, bgra: pixels, captured_at: at })
}

/// The used part of a buffer, if the buffer holds that many bytes.
pub open spec fn used_part(buffer: Seq<u8>, used: u32) -> Option<Seq<u8>> {
    if used <= buffer.len() {
        Some(buffer.subrange(0, used as int))
    } else {
        None
    }
}

/// The frame made from one dequeued buffer: a JPEG is decoded, must have
/// the mode's size, and is reordered to BGRA; YUYV is converted.
pub open spec fn frame_from_bytes(
    r: Result<Option<VideoFrame>, CameraError>,
    mode: CameraMode,
    at: u64,
    bytes: Seq<u8>,
) -> bool {
    match mode.format {
        PixelFormat::Mjpeg => match decoded_jpeg(bytes) {
            None => r == Err::<Option<VideoFrame>, CameraError>(CameraError::UndecodableJpeg),
            Some((pixels, w, h)) => if w != mode.width || h != mode.height {
                r == Err::<Option<VideoFrame>, CameraError>(CameraError::JpegSizeChanged)
            } else {
                r matches Ok(Some(f)) && f.width == mode.width && f.height == mode.height
                    && f.captured_at == at && f.bgra@ == rgba_as_bgra(pixels)
            },
        },
        PixelFormat::Yuyv => if !yuyv_layout_ok(mode.width, mode.height, mode.stride as usize) {
            r == Err::<Option<VideoFrame>, CameraError>(
                CameraError::Pixels(PixelError::InvalidLayout),
            )
        } else if !yuyv_complete(mode.height, mode.stride as usize, bytes.len()) {
            r == Err::<Option<VideoFrame>, CameraError>(CameraError::Pixels(PixelError::Truncated))
        } else {
            r matches Ok(Some(f)) && f.width == mode.width && f.height == mode.height
                && f.captured_at == at && f.bgra@ == yuyv_rows(
                bytes,
                mode.width as nat,
                mode.stride as nat,
                mode.height as nat,
                mode.rec709,
                mode.full_range,
            )
        },
    }
}

/// What one dequeued buffer gives, for a clock whose reference reading is
/// `reference` nanoseconds at host time `host`.
pub open spec fn buffer_result(
    r: Result<Option<VideoFrame>, CameraError>,
    mode: CameraMode,
    host: u64,
    reference: i64,
    buffer: Seq<u8>,
    used: u32,
    failed: bool,
    monotonic: bool,
    sec: i64,
    usec: i64,
    now: u64,
) -> bool {
    if failed {
        r == Ok::<Option<VideoFrame>, CameraError>(None)
    } else if !monotonic {
        r == Err::<Option<VideoFrame>, CameraError>(CameraError::NotMonotonic)
    } else {
        match timestamp_nanos(sec, usec) {
            None => r == Err::<Option<VideoFrame>, CameraError>(CameraError::InvalidTimestamp),
            Some(nanos) => match monotonic_host_time(host, reference, nanos, now) {
                Err(e) => r == Err::<Option<VideoFrame>, CameraError>(CameraError::Clock(e)),
                Ok(at) => match used_part(buffer, used) {
                    None => r == Err::<Option<VideoFrame>, CameraError>(
                        CameraError::TruncatedBuffer,
                    ),
                    Some(bytes) => frame_from_bytes(r, mode, at, bytes),
                },
            },
        }
    }
}

/// Turns one dequeued buffer into a frame. Buffers the driver marked as
/// failed are skipped (`Ok(None)`). Otherwise the stream must be stamped
/// with CLOCK_MONOTONIC, the timestamp must map onto the host timeline (at
/// host time `now`), the used bytes must lie inside the buffer, and they are
/// decoded as JPEG (of the mode's size) or converted from YUYV.
pub fn camera_frame(
    mode: &CameraMode,
    clock: &HostClock,
    buffer: &[u8],
    used: u32,
    failed: bool,
    monotonic: bool,
    sec: i64,
    usec: i64,
    now: u64,
) -> (r: Result<Option<VideoFrame>, CameraError>)
    ensures
        buffer_result(
            r,
            *mode,
            clock.spec_host(),
            clock.spec_nanos(),
            buffer@,
            used,
            failed,
            monotonic,
            sec,
            usec,
            now,
        ),
{
    if failed {
        return Ok(None);
    }
    if !monotonic {
        return Err(CameraError::NotMonotonic);
    }
    let nanos = match sec.checked_mul(1_000_000_000) {
        Some(s) => match usec.checked_mul(1000) {
            Some(u) => match s.checked_add(u) {
                Some(n) => n,
                None => return Err(CameraError::InvalidTimestamp),
            },
            None => return Err(CameraError::InvalidTimestamp),
        },
        None => return Err(CameraError::InvalidTimestamp),
    };
    let captured_at = match clock.instant(nanos, now) {
        Ok(t) => t,
        Err(e) => return Err(CameraError::Clock(e)),
    };
    if used as usize > buffer.len() {
        return Err(CameraError::TruncatedBuffer);
    }
    let bytes = vstd::slice::slice_subrange(buffer, 0, used as usize);
    match mode.format {
        PixelFormat::Mjpeg => match jpeg_frame(decode_jpeg(bytes), mode.width, mode.height, captured_at) {
            Ok(frame) => Ok(Some(frame)),
            Err(e) => Err(e),
        },
        PixelFormat::Yuyv => {
            match yuyv(bytes, mode.width, mode.height, mode.stride as usize, mode.rec709, mode.full_range) {
                Ok(bgra) => Ok(Some(VideoFrame { width: mode.width, height: mode.height, bgra, captured_at })),
                Err(e) => Err(CameraError::Pixels(e)),
            }
        },
    }
}

} // verus!
