//! File-backed canvases: media kinds, output aspect and fit choices.
use crate::frame::{rgba_as_opaque_bgra, rgba_to_opaque_bgra, VideoFrame};
use crate::encoder::{push_arg, push_args, string_texts};
use crate::text::{decimal, push_char, push_decimal, same_text};
use image::ImageDecoder;
use vstd::prelude::*;
use vstd::string::StringExecFns;

verus! {

/// Kind of background file.
#[derive(Debug, Clone, Copy, PartialEq, Eq, Structural)]
pub enum MediaKind {
    Image,
    Video,
}

/// Output canvas shape.
#[derive(Debug, Clone, Copy, PartialEq, Eq, Structural)]
pub enum Aspect {
    Original,
    Landscape,
    Portrait,
    Square,
}

impl Default for Aspect {
    fn default() -> (r: Self)
        ensures
            r == Aspect::Original,
    {
        Aspect::Original
    }
}

impl Aspect {
    pub const ALL: [Aspect; 4] = [Aspect::Original, Aspect::Landscape, Aspect::Portrait, Aspect::Square];

    pub open spec fn spec_label(self) -> Seq<char> {
        match self {
            Aspect::Original => "Original"@,
            Aspect::Landscape => "16:9"@,
            Aspect::Portrait => "9:16"@,
            Aspect::Square => "1:1"@,
        }
    }

    /// Name shown in the background studio.
    pub fn label(self) -> (r: &'static str)
        ensures
            r@ == self.spec_label(),
    {
        match self {
            Aspect::Original => "Original",
            Aspect::Landscape => "16:9",
            Aspect::Portrait => "9:16",
            Aspect::Square => "1:1",
        }
    }

    pub open spec fn spec_canvas(self, width: u32, height: u32) -> (u32, u32) {
        match self {
            Aspect::Original => (width, height),
            Aspect::Landscape => (3840, 2160),
            Aspect::Portrait => (2160, 3840),
            Aspect::Square => (3840, 3840),
        }
    }

    /// Canvas size before the quality limit: the media's own size, or the
    /// 4K frame of the chosen shape.
    pub fn canvas(self, width: u32, height: u32) -> (r: (u32, u32))
        ensures
            r == self.spec_canvas(width, height),
    {
        match self {
            Aspect::Original => (width, height),
            Aspect::Landscape => (3840, 2160),
            Aspect::Portrait => (2160, 3840),
            Aspect::Square => (3840, 3840),
        }
    }
}

/// How the media fills the canvas.
#[derive(Debug, Clone, Copy, PartialEq, Eq, Structural)]
pub enum Fit {
    Fit,
    Fill,
}

impl Default for Fit {
    fn default() -> (r: Self)
        ensures
            r == Fit::Fit,
    {
        Fit::Fit
    }
}

/// Actions requested from a studio canvas.
#[derive(Debug, Clone, Copy, PartialEq, Eq, Structural)]
pub enum CanvasAction {
    Start,
    Stop,
    Pause,
}

} // verus!

verus! {

/// A decoded media canvas must be 2 to 3840 pixels on each side at 15, 30
/// or 60 frames per second.
pub open spec fn spec_canvas_ok(width: u32, height: u32, fps: u32) -> bool {
    2 <= width <= 3840 && 2 <= height <= 3840 && (fps == 15 || fps == 30 || fps == 60)
}

/// Whether a media canvas of this size and rate can be decoded.
pub fn canvas_ok(width: u32, height: u32, fps: u32) -> (r: bool)
    ensures
        r == spec_canvas_ok(width, height, fps),
{
    width >= 2 && height >= 2 && width <= 3840 && height <= 3840 && (fps == 15 || fps == 30 || fps
        == 60)
}

/// `w:h` in decimal.
pub open spec fn size_text(width: u32, height: u32) -> Seq<char> {
    decimal(width as nat) + seq![':'] + decimal(height as nat)
}

/// FFmpeg filter placing the media on a `width` x `height` canvas: fitted
/// inside with dark bars, or filling it with the overflow cropped.
pub open spec fn geometry_filter(fit: Fit, width: u32, height: u32) -> Seq<char> {
    match fit {
        Fit::Fit => "scale="@ + size_text(width, height)
            + ":force_original_aspect_ratio=decrease:force_divisible_by=2,pad="@ + size_text(
            width,
            height,
        ) + ":(ow-iw)/2:(oh-ih)/2:color=0x18191c"@,
        Fit::Fill => "scale="@ + size_text(width, height)
            + ":force_original_aspect_ratio=increase:force_divisible_by=2,crop="@ + size_text(
            width,
            height,
        ),
    }
}

/// FFmpeg filter chain for the background decoder: square pixels, canvas
/// geometry, constant `fps` from presentation time, and (unless looping) the
/// final frame held after the end of the video.
pub open spec fn decoder_filter_text(fit: Fit, width: u32, height: u32, fps: u32, loop_video: bool) -> Seq<
    char,
> {
    "scale=iw*sar:ih,setsar=1,"@ + geometry_filter(fit, width, height) + ",setsar=1,fps="@ + decimal(
        fps as nat,
    ) + ":start_time=0:round=up"@ + if loop_video {
        Seq::<char>::empty()
    } else {
        ",tpad=stop_mode=clone:stop=-1"@
    }
}

fn push_size(s: &mut String, width: u32, height: u32)
    ensures
        final(s)@ == old(s)@ + size_text(width, height),
{
    push_decimal(s, width as u64);
    push_char(s, ':');
    push_decimal(s, height as u64);
    proof {
        assert(final(s)@ =~= old(s)@ + size_text(width, height));
    }
}

/// The background decoder's FFmpeg filter chain.
pub fn decoder_filter(fit: Fit, width: u32, height: u32, fps: u32, loop_video: bool) -> (r: String)
    ensures
        r@ == decoder_filter_text(fit, width, height, fps, loop_video),
{
    let mut s = String::from_str("scale=iw*sar:ih,setsar=1,");
    let ghost start = s@;
    match fit {
        Fit::Fit => {
            s.append("scale=");
            push_size(&mut s, width, height);
            s.append(":force_original_aspect_ratio=decrease:force_divisible_by=2,pad=");
            push_size(&mut s, width, height);
            s.append(":(ow-iw)/2:(oh-ih)/2:color=0x18191c");
        },
        Fit::Fill => {
            s.append("scale=");
            push_size(&mut s, width, height);
            s.append(":force_original_aspect_ratio=increase:force_divisible_by=2,crop=");
            push_size(&mut s, width, height);
        },
    }
    proof {
        assert(s@ =~= start + geometry_filter(fit, width, height));
    }
    let ghost middle = s@;
    s.append(",setsar=1,fps=");
    push_decimal(&mut s, fps as u64);
    s.append(":start_time=0:round=up");
    if !loop_video {
        s.append(",tpad=stop_mode=clone:stop=-1");
    }
    proof {
        assert(s@ =~= decoder_filter_text(fit, width, height, fps, loop_video));
    }
    s
}

/// FFmpeg input restrictions for a video background: only local files and
/// pipes as protocols, and only the MP4/MOV and Matroska/WebM demuxers, so
/// playlists and other containers that could read further files are refused.
pub open spec fn input_restriction_args() -> Seq<Seq<char>> {
    seq![
        "-protocol_whitelist"@,
        "file,pipe"@,
        "-format_whitelist"@,
        "mov,mp4,m4a,3gp,3g2,mj2,matroska,webm"@,
    ]
}

/// Input options for reading a video background from `start` (seconds, as
/// FFmpeg reads them), looping it if asked; the file's path follows them.
pub open spec fn video_input_args(loop_video: bool, start: Seq<char>) -> Seq<Seq<char>> {
    (if loop_video {
        seq!["-stream_loop"@, "-1"@]
    } else {
        Seq::<Seq<char>>::empty()
    }) + seq!["-ss"@, start] + input_restriction_args() + seq!["-i"@]
}

/// The input options shared by background decoding and source-audio export.
pub fn video_input_arguments(loop_video: bool, start: &str) -> (r: Vec<String>)
    ensures
        string_texts(r@) == video_input_args(loop_video, start@),
{
    let mut args: Vec<String> = Vec::new();
    if loop_video {
        push_args(&mut args, &["-stream_loop", "-1"]);
    }
    push_arg(&mut args, "-ss");
    push_arg(&mut args, start);
    push_args(
        &mut args,
        &["-protocol_whitelist", "file,pipe", "-format_whitelist", "mov,mp4,m4a,3gp,3g2,mj2,matroska,webm", "-i"],
    );
    proof {
        assert(string_texts(args@) =~= video_input_args(loop_video, start@));
    }
    args
}

/// ffprobe options for inspecting a video background; the path follows.
pub open spec fn video_probe_args() -> Seq<Seq<char>> {
    seq!["-v"@, "error"@] + input_restriction_args() + seq![
        "-show_entries"@,
        "stream=codec_type,width,height,sample_aspect_ratio:stream_side_data=rotation:format=duration"@,
        "-of"@,
        "json"@,
    ]
}

/// The options ffprobe inspects a video background with.
pub fn video_probe_arguments() -> (r: Vec<String>)
    ensures
        string_texts(r@) == video_probe_args(),
{
    let mut args: Vec<String> = Vec::new();
    push_args(
        &mut args,
        &["-v", "error", "-protocol_whitelist", "file,pipe", "-format_whitelist", "mov,mp4,m4a,3gp,3g2,mj2,matroska,webm", "-show_entries", "stream=codec_type,width,height,sample_aspect_ratio:stream_side_data=rotation:format=duration", "-of", "json"],
    );
    proof {
        assert(string_texts(args@) =~= video_probe_args());
    }
    args
}

} // verus!

verus! {

/// The image in a PNG or JPEG file, turned upright by its orientation tag
/// and scaled with the triangle filter to fit inside `width` x `height`
/// keeping its proportions, as packed RGBA pixels with the scaled size;
/// `None` where the file does not decode.
pub uninterp spec fn fitted_image(file: Seq<u8>, width: u32, height: u32) -> Option<
    (Seq<u8>, u32, u32),
>;

/// Like `fitted_image`, but scaled to cover `width` x `height` and cropped
/// to it around the centre.
pub uninterp spec fn filled_image(file: Seq<u8>, width: u32, height: u32) -> Option<
    (Seq<u8>, u32, u32),
>;

/// `image::imageops::overlay` of a packed RGBA image of `w` x `h` onto a
/// packed RGBA canvas of `canvas_width` x `canvas_height` with its top-left
/// corner at (`x`, `y`), blending by the image's alpha.
pub uninterp spec fn overlaid(
    canvas: Seq<u8>,
    canvas_width: u32,
    canvas_height: u32,
    image: Seq<u8>,
    w: u32,
    h: u32,
    x: i64,
    y: i64,
) -> Seq<u8>;

/// A decoded image fills its reported size and lies within the requested one.
pub open spec fn decoded_within(r: Option<(Vec<u8>, u32, u32)>, width: u32, height: u32) -> bool {
    r matches Some((pixels, w, h)) ==> pixels@.len() == w * h * 4 && 1 <= w <= width && 1 <= h
        <= height
}

/// `image::ImageReader` with a guessed format, the decoder's orientation
/// applied with `DynamicImage::apply_orientation`, then
/// `DynamicImage::resize` (triangle filter) to `width` x `height` and
/// `to_rgba8`. Claims: the result is determined by the file and the size
/// (the name `fitted_image`), and the scaled image fills its size, which is
/// at least one pixel and never exceeds the requested one (image rounds the
/// scaled sides of `resize_dimensions` to the nearest integer, at least 1,
/// from the smaller of the two ratios). `None` where decoding or reading the
/// orientation fails.
#[verifier::external_body]
fn decode_fit(file: &[u8], width: u32, height: u32) -> (r: Option<(Vec<u8>, u32, u32)>)
    requires
        1 <= width,
        1 <= height,
    ensures
        decoded_within(r, width, height),
        match r {
            Some((pixels, w, h)) => fitted_image(file@, width, height) == Some((pixels@, w, h)),
            None => fitted_image(file@, width, height) is None,
        },
{
    let reader = image::ImageReader::new(std::io::Cursor::new(file)).with_guessed_format().ok()?;
    let mut decoder = reader.into_decoder().ok()?;
    let orientation = decoder.orientation().ok()?;
    let mut image = image::DynamicImage::from_decoder(decoder).ok()?;
    image.apply_orientation(orientation);
    let rgba = image.resize(width, height, image::imageops::FilterType::Triangle).to_rgba8();
    let (w, h) = rgba.dimensions();
    Some((rgba.into_raw(), w, h))
}

/// Like `decode_fit`, with `DynamicImage::resize_to_fill`, which crops the
/// covering image to exactly `width` x `height` (the name `filled_image`).
#[verifier::external_body]
fn decode_fill(file: &[u8], width: u32, height: u32) -> (r: Option<(Vec<u8>, u32, u32)>)
    requires
        1 <= width,
        1 <= height,
    ensures
        decoded_within(r, width, height),
        match r {
            Some((pixels, w, h)) => filled_image(file@, width, height) == Some((pixels@, w, h)),
            None => filled_image(file@, width, height) is None,
        },
{
    let reader = image::ImageReader::new(std::io::Cursor::new(file)).with_guessed_format().ok()?;
    let mut decoder = reader.into_decoder().ok()?;
    let orientation = decoder.orientation().ok()?;
    let mut image = image::DynamicImage::from_decoder(decoder).ok()?;
    image.apply_orientation(orientation);
    let rgba = image.resize_to_fill(width, height, image::imageops::FilterType::Triangle)
        .to_rgba8();
    let (w, h) = rgba.dimensions();
    Some((rgba.into_raw(), w, h))
}

/// `image::imageops::overlay` on packed RGBA buffers (the name `overlaid`);
/// the canvas keeps its size.
#[verifier::external_body]
fn overlay_pixels(
    canvas: Vec<u8>,
    canvas_width: u32,
    canvas_height: u32,
    image: &[u8],
    w: u32,
    h: u32,
    x: i64,
    y: i64,
) -> (r: Vec<u8>)
    requires
        canvas@.len() == canvas_width * canvas_height * 4,
        image@.len() == w * h * 4,
    ensures
        r@ == overlaid(canvas@, canvas_width, canvas_height, image@, w, h, x, y),
        r@.len() == canvas@.len(),
{
    let mut bottom = image::RgbaImage::from_raw(canvas_width, canvas_height, canvas).unwrap();
    let top = image::ImageBuffer::<image::Rgba<u8>, &[u8]>::from_raw(w, h, image).unwrap();
    image::imageops::overlay(&mut bottom, &top, x, y);
    bottom.into_raw()
}

/// `n` pixels of one colour.
pub open spec fn solid(n: nat, pixel: Seq<u8>) -> Seq<u8> {
    Seq::new(n * 4, |i: int| pixel[i % 4])
}

/// The canvas colour behind images, RGBA.
pub open spec fn canvas_colour() -> Seq<u8> {
    seq![24u8, 25u8, 28u8, 255u8]
}

fn solid_canvas(pixels: usize) -> (r: Vec<u8>)
    requires
        pixels * 4 <= usize::MAX,
    ensures
        r@ == solid(pixels as nat, canvas_colour()),
{
    let mut v: Vec<u8> = Vec::new();
    let mut k: usize = 0;
    while k < pixels
        invariant
            k <= pixels,
            v@ == solid(k as nat, canvas_colour()),
        decreases pixels - k,
    {
        v.push(24);
        v.push(25);
        v.push(28);
        v.push(255);
        proof {
            assert(v@ =~= solid((k + 1) as nat, canvas_colour()));
        }
        k = k + 1;
    }
    v
}

/// Why an image background cannot be used.
#[derive(Debug, Clone, Copy, PartialEq, Eq, Structural)]
pub enum MediaError {
    /// The file is not a readable PNG or JPEG image.
    UnreadableImage,
    /// The file's header reports more than 60 megapixels.
    TooLarge,
}

/// The image of `file` fitted or filled to the canvas, if it decodes.
pub open spec fn placed_image(file: Seq<u8>, fit: Fit, width: u32, height: u32) -> Option<
    (Seq<u8>, u32, u32),
> {
    match fit {
        Fit::Fit => fitted_image(file, width, height),
        Fit::Fill => filled_image(file, width, height),
    }
}

/// The background frame: the placed image over the dark canvas, centred,
/// in opaque BGRA.
pub open spec fn background_pixels(
    pixels: Seq<u8>,
    w: u32,
    h: u32,
    width: u32,
    height: u32,
) -> Seq<u8> {
    rgba_as_opaque_bgra(
        overlaid(
            solid((width * height) as nat, canvas_colour()),
            width,
            height,
            pixels,
            w,
            h,
            ((width - w) / 2) as i64,
            ((height - h) / 2) as i64,
        ),
    )
}

/// Turns an image file into the `width` x `height` background frame: the
/// image upright, fitted inside or filling the canvas, centred on the dark
/// canvas colour (the image's top-left corner at `((width - w) / 2, (height -
/// h) / 2)` for a placed image of `w` x `h`), opaque and in BGRA order. The
/// size in the file's header is checked before decoding: an unreadable
/// header or more than 60 megapixels is refused, as is a file that does not
/// decode.
pub fn background_frame(file: &[u8], fit: Fit, width: u32, height: u32, captured_at: u64) -> (r:
    Result<VideoFrame, MediaError>)
    requires
        1 <= width,
        1 <= height,
        width * height * 4 <= usize::MAX,
    ensures
        image_header(file@) is None ==> r == Err::<VideoFrame, MediaError>(
            MediaError::UnreadableImage,
        ),
        image_header(file@) matches Some((w, h, _)) && w * h > 60_000_000 ==> r == Err::<
            VideoFrame,
            MediaError,
        >(MediaError::TooLarge),
        image_header(file@) matches Some((w, h, _)) && w * h <= 60_000_000 ==> {
            &&& (r is Err <==> placed_image(file@, fit, width, height) is None)
            &&& r is Err ==> r == Err::<VideoFrame, MediaError>(MediaError::UnreadableImage)
            &&& placed_image(file@, fit, width, height) matches Some((pixels, w, h)) ==> (r matches Ok(
                f,
            ) && f.width == width && f.height == height && f.captured_at == captured_at && f.bgra@
                == background_pixels(pixels, w, h, width, height))
        },
        image_header(file@) matches Some((hw, hh, _)) && hw * hh <= 60_000_000 ==> (placed_image(
            file@,
            fit,
            width,
            height,
        ) matches Some((pixels, w, h)) ==> (r matches Ok(f) && {
            let o = overlaid(
                Seq::new(
                    (width * height * 4) as nat,
                    |i: int| seq![24u8, 25u8, 28u8, 255u8][i % 4],
                ),
                width,
                height,
                pixels,
                w,
                h,
                ((width - w) / 2) as i64,
                ((height - h) / 2) as i64,
            );
            &&& f.bgra@.len() == width * height * 4
            &&& forall|i: int|
                0 <= i < f.bgra@.len() ==> #[trigger] f.bgra@[i] == if i % 4 == 0 {
                    o[i + 2]
                } else if i % 4 == 2 {
                    o[i - 2]
                } else if i % 4 == 3 {
                    255
                } else {
                    o[i]
                }
        })),
{
    match read_image_header(file) {
        None => return Err(MediaError::UnreadableImage),
        Some((w, h, _)) => if !image_size_ok(w, h) {
            return Err(MediaError::TooLarge);
        },
    }
    let decoded = match fit {
        Fit::Fit => decode_fit(file, width, height),
        Fit::Fill => decode_fill(file, width, height),
    };
    let (pixels, w, h) = match decoded {
        Some(d) => d,
        None => return Err(MediaError::UnreadableImage),
    };
    let canvas = solid_canvas(width as usize * height as usize);
    let x: i64 = ((width - w) / 2) as i64;
    let y: i64 = ((height - h) / 2) as i64;
    proof {
        assert(canvas@ =~= Seq::new(
            (width * height * 4) as nat,
            |i: int| seq![24u8, 25u8, 28u8, 255u8][i % 4],
        ));
    }
    let mut bgra = overlay_pixels(canvas, width, height, pixels.as_slice(), w, h, x, y);
    let ghost placed = bgra@;
    rgba_to_opaque_bgra(&mut bgra);
    proof {
        let n = width * height * 4;
        assert(placed.len() == n);
        assert(n / 4 * 4 == n);
    }
    Ok(VideoFrame { width, height, bgra, captured_at })
}

} // verus!

verus! {

/// An image background may hold at most 60 megapixels.
pub fn image_size_ok(width: u32, height: u32) -> (r: bool)
    ensures
        r == (width * height <= 60_000_000),
{
    let (w, h) = (width as u64, height as u64);
    assert(w * h <= 0xffff_ffff * 0xffff_ffff) by (nonlinear_arith)
        requires
            w <= 0xffff_ffff,
            h <= 0xffff_ffff,
    ;
    w * h <= 60_000_000
}

/// A video's rotation metadata (degrees) turns it a quarter: its width and
/// height trade places.
pub fn quarter_turned(rotation: i64) -> (r: bool)
    ensures
        r == (rotation % 180 == 90),
{
    let m = rotation % 180;
    let e = if m < 0 {
        m + 180
    } else {
        m
    };
    e == 90
}

/// A video's displayed size is usable: 1 to 32768 pixels on each side.
pub fn video_size_ok(width: u32, height: u32) -> (r: bool)
    ensures
        r == (1 <= width <= 32768 && 1 <= height <= 32768),
{
    width > 0 && height > 0 && width <= 32768 && height <= 32768
}

/// Why an image background cannot be used.
#[derive(Debug, Clone, Copy, PartialEq, Eq, Structural)]
pub enum ProbeError {
    /// The file's header does not decode, or its orientation cannot be read.
    Unreadable,
    /// The image holds more than 60 megapixels.
    TooLarge,
}

impl ProbeError {
    /// Message for the user.
    pub fn message(&self) -> (r: &'static str)
        ensures
            r@ == match self {
                ProbeError::Unreadable => "Cannot read this image."@,
                ProbeError::TooLarge => "Image is too large (maximum 60 megapixels)."@,
            },
    {
        match self {
            ProbeError::Unreadable => "Cannot read this image.",
            ProbeError::TooLarge => "Image is too large (maximum 60 megapixels).",
        }
    }
}

/// The size an image file's header reports, and whether its orientation
/// tag turns the picture a quarter (`None` where the tag cannot be read);
/// `None` where the header does not decode.
pub uninterp spec fn image_header(file: Seq<u8>) -> Option<(u32, u32, Option<bool>)>;

/// `image::ImageReader` with a guessed format, `into_decoder`, then the
/// decoder's `dimensions` and `orientation` (a quarter turn for `Rotate90`,
/// `Rotate270`, `Rotate90FlipH` and `Rotate270FlipH`). Claims only that the
/// result is determined by the bytes (the name `image_header`).
#[verifier::external_body]
fn read_image_header(file: &[u8]) -> (r: Option<(u32, u32, Option<bool>)>)
    ensures
        r == image_header(file@),
{
    let reader = image::ImageReader::new(std::io::Cursor::new(file)).with_guessed_format().ok()?;
    let mut decoder = reader.into_decoder().ok()?;
    let (width, height) = decoder.dimensions();
    let turned = match decoder.orientation() {
        Ok(image::metadata::Orientation::Rotate90) => Some(true),
        Ok(image::metadata::Orientation::Rotate270) => Some(true),
        Ok(image::metadata::Orientation::Rotate90FlipH) => Some(true),
        Ok(image::metadata::Orientation::Rotate270FlipH) => Some(true),
        Ok(_) => Some(false),
        Err(_) => None,
    };
    Some((width, height, turned))
}

/// The upright size of an image whose header reads `header`: refused when
/// the header does not decode, when it holds more than 60 megapixels (checked
/// before the orientation), or when the orientation cannot be read; width and
/// height trade places for a quarter turn.
pub open spec fn header_size(header: Option<(u32, u32, Option<bool>)>) -> Result<(u32, u32), ProbeError> {
    match header {
        None => Err(ProbeError::Unreadable),
        Some((w, h, turned)) => if w * h > 60_000_000 {
            Err(ProbeError::TooLarge)
        } else {
            match turned {
                None => Err(ProbeError::Unreadable),
                Some(true) => Ok((h, w)),
                Some(false) => Ok((w, h)),
            }
        },
    }
}

/// The upright size of an image from what its header reads.
pub fn size_from_header(header: Option<(u32, u32, Option<bool>)>) -> (r: Result<(u32, u32), ProbeError>)
    ensures
        r == header_size(header),
{
    match header {
        None => Err(ProbeError::Unreadable),
        Some((w, h, turned)) => if !image_size_ok(w, h) {
            Err(ProbeError::TooLarge)
        } else {
            match turned {
                None => Err(ProbeError::Unreadable),
                Some(true) => Ok((h, w)),
                Some(false) => Ok((w, h)),
            }
        },
    }
}

/// Inspects an image background: its upright size, read from the header of
/// the file's bytes.
pub fn probe_image(file: &[u8]) -> (r: Result<(u32, u32), ProbeError>)
    ensures
        r == header_size(image_header(file@)),
{
    size_from_header(read_image_header(file))
}

/// The video's upright size: width and height trade places when the
/// rotation metadata turns it a quarter.
pub fn upright_size(width: u32, height: u32, rotation: i64) -> (r: (u32, u32))
    ensures
        r == if rotation % 180 == 90 {
            (height, width)
        } else {
            (width, height)
        },
{
    if quarter_turned(rotation) {
        (height, width)
    } else {
        (width, height)
    }
}

/// The first stream whose codec type is `video`, if any.
pub fn first_video_stream(codec_types: &Vec<String>) -> (r: Option<usize>)
    ensures
        match r {
            Some(i) => i < codec_types.len() && codec_types@[i as int]@ == "video"@ && forall|k: int|
                0 <= k < i ==> codec_types@[k]@ != "video"@,
            None => forall|k: int| 0 <= k < codec_types.len() ==> codec_types@[k]@ != "video"@,
        },
{
    let mut i: usize = 0;
    while i < codec_types.len()
        invariant
            i <= codec_types.len(),
            forall|k: int| 0 <= k < i ==> codec_types@[k]@ != "video"@,
        decreases codec_types.len() - i,
    {
        if same_text(codec_types[i].as_str(), "video") {
            return Some(i);
        }
        i = i + 1;
    }
    None
}

} // verus!
