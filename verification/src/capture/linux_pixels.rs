//! Checked conversion of V4L2 YUYV camera frames (BT.601/709, full or
//! limited range) to packed BGRA.
use vstd::prelude::*;

verus! {

/// Why a YUYV buffer was refused.
#[derive(Debug, Clone, Copy, PartialEq, Eq, Structural)]
pub enum PixelError {
    /// Zero or odd width, zero height, or a stride shorter than a row.
    InvalidLayout,
    /// The buffer holds fewer than `height` strides.
    Truncated,
}

impl PixelError {
    /// Message for the user.
    pub fn message(&self) -> (r: &'static str)
        ensures
            r@ == match self {
                PixelError::InvalidLayout => "Invalid YUYV camera dimensions or stride"@,
                PixelError::Truncated => "Truncated YUYV camera frame"@,
            },
    {
        match self {
            PixelError::InvalidLayout => "Invalid YUYV camera dimensions or stride",
            PixelError::Truncated => "Truncated YUYV camera frame",
        }
    }
}

/// Fixed-point (x256) conversion factors `(r_v, g_u, g_v, b_u)`.
pub open spec fn yuv_factors(rec709: bool, full: bool) -> (int, int, int, int) {
    if !rec709 && !full {
        (409, 100, 208, 516)
    } else if rec709 && !full {
        (459, 55, 136, 541)
    } else if !rec709 && full {
        (359, 88, 183, 454)
    } else {
        (403, 48, 120, 475)
    }
}

/// Scaled luma: full range `y * 256`, limited range `(y - 16) * 298`.
pub open spec fn scaled_luma(y: u8, full: bool) -> int {
    if full {
        y * 256
    } else {
        (y - 16) * 298
    }
}

/// Rounds a x256 fixed-point value and clamps it to a byte.
pub open spec fn to_channel(value: int) -> u8 {
    let c = (value + 128) / 256;
    if c < 0 {
        0
    } else if c > 255 {
        255
    } else {
        c as u8
    }
}

/// One BGRA pixel from luma `y` and chroma `u`, `v` (bytes, 128-centred).
pub open spec fn yuv_pixel(y: u8, u: u8, v: u8, rec709: bool, full: bool) -> Seq<u8> {
    let (r_v, g_u, g_v, b_u) = yuv_factors(rec709, full);
    let l = scaled_luma(y, full);
    let cu = u - 128;
    let cv = v - 128;
    seq![to_channel(l + b_u * cu), to_channel(l - g_u * cu - g_v * cv), to_channel(l + r_v * cv), 255]
}

/// The two pixels of the YUYV group at byte `at`: `Y0 U Y1 V`.
pub open spec fn yuyv_group(bytes: Seq<u8>, at: int, rec709: bool, full: bool) -> Seq<u8> {
    yuv_pixel(bytes[at], bytes[at + 1], bytes[at + 3], rec709, full) + yuv_pixel(
        bytes[at + 2],
        bytes[at + 1],
        bytes[at + 3],
        rec709,
        full,
    )
}

/// The first `groups` pixel pairs of the row starting at byte `start`.
pub open spec fn yuyv_row(bytes: Seq<u8>, start: int, groups: nat, rec709: bool, full: bool) -> Seq<
    u8,
>
    decreases groups,
{
    if groups == 0 {
        seq![]
    } else {
        yuyv_row(bytes, start, (groups - 1) as nat, rec709, full) + yuyv_group(
            bytes,
            start + 4 * (groups - 1),
            rec709,
            full,
        )
    }
}

/// The first `rows` rows (`stride` bytes apart, `width` pixels each).
pub open spec fn yuyv_rows(
    bytes: Seq<u8>,
    width: nat,
    stride: nat,
    rows: nat,
    rec709: bool,
    full: bool,
) -> Seq<u8>
    decreases rows,
{
    if rows == 0 {
        seq![]
    } else {
        yuyv_rows(bytes, width, stride, (rows - 1) as nat, rec709, full) + yuyv_row(
            bytes,
            (rows - 1) * stride,
            width / 2,
            rec709,
            full,
        )
    }
}

/// The frame layout is acceptable: positive even width, positive height and
/// a stride that holds a row (two bytes per pixel).
pub open spec fn yuyv_layout_ok(width: u32, height: u32, stride: usize) -> bool {
    width > 0 && height > 0 && width % 2 == 0 && stride >= width * 2
}

/// The buffer holds every row.
pub open spec fn yuyv_complete(height: u32, stride: usize, len: nat) -> bool {
    stride * height <= usize::MAX && stride * height <= len
}

fn to_channel_exec(value: i32) -> (r: u8)
    requires
        -1_000_000 <= value <= 1_000_000,
    ensures
        r == to_channel(value as int),
{
    let shifted: i32 = (value + 128 + 1_048_576) / 256 - 4096;
    assert(shifted == (value + 128) / 256) by (nonlinear_arith)
        requires
            shifted == (value + 128 + 1_048_576) / 256 - 4096,
            -1_000_000 <= value <= 1_000_000,
    ;
    if shifted < 0 {
        0
    } else if shifted > 255 {
        255
    } else {
        shifted as u8
    }
}

fn push_pixel(out: &mut Vec<u8>, y: u8, u: u8, v: u8, rec709: bool, full: bool)
    ensures
        final(out)@ == old(out)@ + yuv_pixel(y, u, v, rec709, full),
{
    let (r_v, g_u, g_v, b_u): (i32, i32, i32, i32) = if !rec709 && !full {
        (409, 100, 208, 516)
    } else if rec709 && !full {
        (459, 55, 136, 541)
    } else if !rec709 && full {
        (359, 88, 183, 454)
    } else {
        (403, 48, 120, 475)
    };
    let l: i32 = if full {
        y as i32 * 256
    } else {
        (y as i32 - 16) * 298
    };
    let cu: i32 = u as i32 - 128;
    let cv: i32 = v as i32 - 128;
    out.push(to_channel_exec(l + b_u * cu));
    out.push(to_channel_exec(l - g_u * cu - g_v * cv));
    out.push(to_channel_exec(l + r_v * cv));
    out.push(255);
    proof {
        assert(final(out)@ =~= old(out)@ + yuv_pixel(y, u, v, rec709, full));
    }
}

fn push_group(out: &mut Vec<u8>, bytes: &[u8], at: usize, rec709: bool, full: bool)
    requires
        at + 3 < bytes@.len(),
    ensures
        final(out)@ == old(out)@ + yuyv_group(bytes@, at as int, rec709, full),
{
    let y0 = bytes[at];
    let u = bytes[at + 1];
    let y1 = bytes[at + 2];
    let v = bytes[at + 3];
    push_pixel(out, y0, u, v, rec709, full);
    push_pixel(out, y1, u, v, rec709, full);
    proof {
        assert(final(out)@ =~= old(out)@ + yuyv_group(bytes@, at as int, rec709, full));
    }
}

/// Converts `height` rows of `width` YUYV pixels, rows `stride` bytes apart,
/// to packed BGRA with opaque alpha.
pub fn yuyv(
    bytes: &[u8],
    width: u32,
    height: u32,
    stride: usize,
    rec709: bool,
    full: bool,
) -> (r: Result<Vec<u8>, PixelError>)
    ensures
        !yuyv_layout_ok(width, height, stride) ==> r == Err::<Vec<u8>, PixelError>(
            PixelError::InvalidLayout,
        ),
        yuyv_layout_ok(width, height, stride) && !yuyv_complete(height, stride, bytes@.len())
            ==> r == Err::<Vec<u8>, PixelError>(PixelError::Truncated),
        yuyv_layout_ok(width, height, stride) && yuyv_complete(height, stride, bytes@.len())
            ==> (r matches Ok(out) && out@ == yuyv_rows(
            bytes@,
            width as nat,
            stride as nat,
            height as nat,
            rec709,
            full,
        )),
{
    let row: u64 = width as u64 * 2;
    if !(width > 0 && height > 0 && width % 2 == 0 && stride as u64 >= row) {
        return Err(PixelError::InvalidLayout);
    }
    let total = match stride.checked_mul(height as usize) {
        Some(t) => t,
        None => return Err(PixelError::Truncated),
    };
    if total > bytes.len() {
        return Err(PixelError::Truncated);
    }
    let groups: usize = (width / 2) as usize;
    assert(4 * groups <= stride);
    let mut out: Vec<u8> = Vec::new();
    let mut r: usize = 0;
    let mut start: usize = 0;
    while r < height as usize
        invariant
            yuyv_layout_ok(width, height, stride),
            stride * height <= bytes@.len(),
            stride * height <= usize::MAX,
            groups == width / 2,
            r <= height,
            start == r * stride,
            out@ == yuyv_rows(bytes@, width as nat, stride as nat, r as nat, rec709, full),
        decreases height - r,
    {
        proof {
            let (rr, st, h) = (r as int, stride as int, height as int);
            assert((rr + 1) * st <= st * h) by (nonlinear_arith)
                requires
                    rr < h,
                    st >= 0,
            ;
            assert(rr * st + st == (rr + 1) * st) by (nonlinear_arith);
        }
        let mut g: usize = 0;
        while g < groups
            invariant
                yuyv_layout_ok(width, height, stride),
                groups == width / 2,
                g <= groups,
                4 * groups <= stride,
                start + stride <= bytes@.len(),
                start + stride <= usize::MAX,
                start == r * stride,
                r < height,
                out@ == yuyv_rows(bytes@, width as nat, stride as nat, r as nat, rec709, full)
                    + yuyv_row(bytes@, start as int, g as nat, rec709, full),
            decreases groups - g,
        {
            let at = start + 4 * g;
            push_group(&mut out, bytes, at, rec709, full);
            proof {
                assert(out@ =~= yuyv_rows(
                    bytes@,
                    width as nat,
                    stride as nat,
                    r as nat,
                    rec709,
                    full,
                ) + yuyv_row(bytes@, start as int, (g + 1) as nat, rec709, full));
            }
            g = g + 1;
        }
        proof {
            assert(out@ =~= yuyv_rows(
                bytes@,
                width as nat,
                stride as nat,
                (r + 1) as nat,
                rec709,
                full,
            ));
        }
        r = r + 1;
        start = start + stride;
    }
    Ok(out)
}

} // verus!

verus! {

/// Row stride in bytes of an X11 Z-pixmap image: each row of `width` pixels
/// at `bits_per_pixel` is padded to a multiple of `scanline_pad` bits.
pub open spec fn x11_stride(width: nat, bits_per_pixel: nat, scanline_pad: nat) -> nat {
    ((width * bits_per_pixel + scanline_pad - 1) / (scanline_pad as int)) as nat * scanline_pad / 8
}

/// One opaque BGRA pixel from the first three bytes of the pixel at `at`.
pub open spec fn opaque_pixel(data: Seq<u8>, at: int) -> Seq<u8> {
    seq![data[at], data[at + 1], data[at + 2], 255]
}

/// The first `k` pixels of the row starting at `start`, `bytes` apart.
pub open spec fn opaque_row(data: Seq<u8>, start: int, bytes: nat, k: nat) -> Seq<u8>
    decreases k,
{
    if k == 0 {
        seq![]
    } else {
        opaque_row(data, start, bytes, (k - 1) as nat) + opaque_pixel(data, start + (k - 1) * bytes)
    }
}

/// Rows `0..rows`, `stride` bytes apart, of `width` pixels each.
pub open spec fn opaque_rows(data: Seq<u8>, width: nat, bytes: nat, stride: nat, rows: nat) -> Seq<
    u8,
>
    decreases rows,
{
    if rows == 0 {
        seq![]
    } else {
        opaque_rows(data, width, bytes, stride, (rows - 1) as nat) + opaque_row(
            data,
            (rows - 1) * stride,
            bytes,
            width,
        )
    }
}

/// Converts an X11 Z-pixmap image (little-endian BGR with 24 or more bits
/// per pixel) of `width` x `height` to packed opaque BGRA. Refuses a zero
/// scanline padding and an image shorter than `height` padded rows.
pub fn x11_bgra(data: &[u8], width: u16, height: u16, bits_per_pixel: u8, scanline_pad: u8) -> (r:
    Result<Vec<u8>, PixelError>)
    requires
        width > 0,
        bits_per_pixel >= 24,
    ensures
        scanline_pad == 0 ==> r == Err::<Vec<u8>, PixelError>(PixelError::InvalidLayout),
        scanline_pad > 0 && x11_stride(width as nat, bits_per_pixel as nat, scanline_pad as nat)
            * height > data@.len() ==> r == Err::<Vec<u8>, PixelError>(PixelError::Truncated),
        scanline_pad > 0 && x11_stride(width as nat, bits_per_pixel as nat, scanline_pad as nat)
            * height <= data@.len() ==> (r matches Ok(out) && out@ == opaque_rows(
            data@,
            width as nat,
            (bits_per_pixel / 8) as nat,
            x11_stride(width as nat, bits_per_pixel as nat, scanline_pad as nat),
            height as nat,
        )),
{
    if scanline_pad == 0 {
        return Err(PixelError::InvalidLayout);
    }
    let bytes: usize = (bits_per_pixel / 8) as usize;
    let w: u64 = width as u64;
    let pad: u64 = scanline_pad as u64;
    assert(w * bits_per_pixel <= 65535 * 255) by (nonlinear_arith)
        requires
            w <= 65535,
            bits_per_pixel <= 255,
    ;
    assert((w * bits_per_pixel + pad - 1) / (pad as int) * pad <= w * bits_per_pixel + pad)
        by (nonlinear_arith)
        requires
            pad > 0,
            w * bits_per_pixel >= 0,
    ;
    let stride64: u64 = (w * bits_per_pixel as u64 + pad - 1) / pad * pad / 8;
    let ghost stride_spec = x11_stride(width as nat, bits_per_pixel as nat, scanline_pad as nat);
    assert(stride64 == stride_spec);
    // The padded row holds every pixel's bytes.
    assert(w * (bytes as int) <= stride64) by (nonlinear_arith)
        requires
            stride64 == (w * bits_per_pixel + pad - 1) / (pad as int) * pad / 8,
            bytes == bits_per_pixel / 8,
            pad > 0,
            w > 0,
    {
        let q = (w * bits_per_pixel + pad - 1) / (pad as int);
        assert(q * pad >= w * bits_per_pixel);
        assert(w * (bytes as int) * 8 <= w * bits_per_pixel);
    }
    assert(stride64 * height <= (65535 * 255 + 255) * 65535) by (nonlinear_arith)
        requires
            stride64 <= 65535 * 255 + 255,
            height <= 65535,
    ;
    let total: u64 = stride64 * height as u64;
    let n = data.len();
    if total > n as u64 {
        return Err(PixelError::Truncated);
    }
    assert(stride64 <= 0xffff_ffff);
    let stride: usize = stride64 as usize;
    let mut out: Vec<u8> = Vec::new();
    let mut row: usize = 0;
    let mut start: usize = 0;
    while row < height as usize
        invariant
            n == data@.len(),
            stride == stride_spec,
            bytes == bits_per_pixel / 8,
            bytes >= 3,
            (width as int) * (bytes as int) <= stride,
            stride * height <= data@.len(),
            row <= height,
            start == row * stride,
            out@ == opaque_rows(data@, width as nat, bytes as nat, stride as nat, row as nat),
        decreases height - row,
    {
        proof {
            let (rr, st, h) = (row as int, stride as int, height as int);
            assert((rr + 1) * st <= st * h) by (nonlinear_arith)
                requires
                    rr < h,
                    st >= 0,
            ;
            assert(rr * st + st == (rr + 1) * st) by (nonlinear_arith);
        }
        let mut k: usize = 0;
        let mut at: usize = start;
        while k < width as usize
            invariant
                bytes >= 3,
                (width as int) * (bytes as int) <= stride,
                start + stride <= data@.len(),
                start == row * stride,
                row < height,
                k <= width,
                at == start + k * bytes,
                out@ == opaque_rows(data@, width as nat, bytes as nat, stride as nat, row as nat)
                    + opaque_row(data@, start as int, bytes as nat, k as nat),
            decreases width - k,
        {
            proof {
                assert((k + 1) * (bytes as int) <= (width as int) * (bytes as int)) by (nonlinear_arith)
                    requires
                        k < width,
                        bytes >= 0,
                ;
                assert(k * (bytes as int) + (bytes as int) == (k + 1) * (bytes as int))
                    by (nonlinear_arith);
            }
            out.push(data[at]);
            out.push(data[at + 1]);
            out.push(data[at + 2]);
            out.push(255);
            proof {
                assert(out@ =~= opaque_rows(
                    data@,
                    width as nat,
                    bytes as nat,
                    stride as nat,
                    row as nat,
                ) + opaque_row(data@, start as int, bytes as nat, (k + 1) as nat));
            }
            at = at + bytes;
            k = k + 1;
        }
        proof {
            assert(out@ =~= opaque_rows(
                data@,
                width as nat,
                bytes as nat,
                stride as nat,
                (row + 1) as nat,
            ));
        }
        start = start + stride;
        row = row + 1;
    }
    Ok(out)
}

} // verus!

verus! {

proof fn lemma_yuv_pixel_len(y: u8, u: u8, v: u8, rec709: bool, full: bool)
    ensures
        yuv_pixel(y, u, v, rec709, full).len() == 4,
{
}

proof fn lemma_yuyv_row_len(bytes: Seq<u8>, start: int, groups: nat, rec709: bool, full: bool)
    ensures
        yuyv_row(bytes, start, groups, rec709, full).len() == 8 * groups,
    decreases groups,
{
    if groups > 0 {
        let at = start + 4 * (groups - 1);
        lemma_yuyv_row_len(bytes, start, (groups - 1) as nat, rec709, full);
        lemma_yuv_pixel_len(bytes[at], bytes[at + 1], bytes[at + 3], rec709, full);
        lemma_yuv_pixel_len(bytes[at + 2], bytes[at + 1], bytes[at + 3], rec709, full);
    }
}

proof fn lemma_yuyv_row_at(
    bytes: Seq<u8>,
    start: int,
    groups: nat,
    rec709: bool,
    full: bool,
    x: int,
    ch: int,
)
    requires
        0 <= x < 2 * groups,
        0 <= ch < 4,
    ensures
        yuyv_row(bytes, start, groups, rec709, full).len() == 8 * groups,
        yuyv_row(bytes, start, groups, rec709, full)[4 * x + ch] == yuv_pixel(
            bytes[start + 2 * x],
            bytes[start + 4 * (x / 2) + 1],
            bytes[start + 4 * (x / 2) + 3],
            rec709,
            full,
        )[ch],
    decreases groups,
{
    let g = (groups - 1) as nat;
    let prefix = yuyv_row(bytes, start, g, rec709, full);
    let at = start + 4 * g;
    let p0 = yuv_pixel(bytes[at], bytes[at + 1], bytes[at + 3], rec709, full);
    let p1 = yuv_pixel(bytes[at + 2], bytes[at + 1], bytes[at + 3], rec709, full);
    let row = yuyv_row(bytes, start, groups, rec709, full);
    lemma_yuyv_row_len(bytes, start, groups, rec709, full);
    lemma_yuyv_row_len(bytes, start, g, rec709, full);
    lemma_yuv_pixel_len(bytes[at], bytes[at + 1], bytes[at + 3], rec709, full);
    lemma_yuv_pixel_len(bytes[at + 2], bytes[at + 1], bytes[at + 3], rec709, full);
    assert(row == prefix + (p0 + p1));
    if x < 2 * g {
        lemma_yuyv_row_at(bytes, start, g, rec709, full, x, ch);
        assert(row[4 * x + ch] == prefix[4 * x + ch]);
    } else if x == 2 * g {
        assert(x / 2 == g);
        assert(row[4 * x + ch] == p0[ch]);
    } else {
        assert(x == 2 * g + 1);
        assert(x / 2 == g);
        assert(start + 2 * x == at + 2);
        assert(row[4 * x + ch] == p1[ch]);
    }
}

proof fn lemma_yuyv_rows_at(
    bytes: Seq<u8>,
    width: nat,
    stride: nat,
    rows: nat,
    rec709: bool,
    full: bool,
    r: int,
    x: int,
    ch: int,
)
    requires
        width % 2 == 0,
        0 <= r < rows,
        0 <= x < width,
        0 <= ch < 4,
    ensures
        yuyv_rows(bytes, width, stride, rows, rec709, full).len() == rows * width * 4,
        yuyv_rows(bytes, width, stride, rows, rec709, full)[(r * width + x) * 4 + ch] == yuyv_row(
            bytes,
            r * stride,
            width / 2,
            rec709,
            full,
        )[4 * x + ch],
    decreases rows,
{
    let p = (rows - 1) as nat;
    let prefix = yuyv_rows(bytes, width, stride, p, rec709, full);
    lemma_yuyv_row_at(bytes, (p * stride) as int, width / 2, rec709, full, x, ch);
    if p > 0 {
        lemma_yuyv_rows_at(bytes, width, stride, p, rec709, full, 0, x, ch);
        if r < p {
            lemma_yuyv_rows_at(bytes, width, stride, p, rec709, full, r, x, ch);
            assert((r * width + x) * 4 + ch < p * width * 4) by (nonlinear_arith)
                requires
                    r < p,
                    0 <= x < width,
                    0 <= ch < 4,
                    0 <= r,
            ;
        }
    }
    assert(prefix.len() == p * width * 4);
    assert(8 * (width / 2) == width * 4);
    assert(p * width * 4 + width * 4 == rows * width * 4) by (nonlinear_arith)
        requires
            p + 1 == rows,
    ;
    if r == p {
        assert((r * width + x) * 4 + ch == p * width * 4 + 4 * x + ch) by (nonlinear_arith)
            requires
                r == p,
        ;
    }
}

/// `value / 256` rounded to the nearest integer (halves up) and clamped to
/// 0..=255.
pub open spec fn rounded_byte(value: int) -> int {
    let q = (value + 128) / 256;
    if q < 0 {
        0
    } else if q > 255 {
        255
    } else {
        q
    }
}

/// Each output pixel is its YUYV samples converted by the standard matrices
/// in x256 fixed point, rounded and clamped to a byte (`rounded_byte`):
/// pixel `x` of row `r` takes its luma from byte `2x` of the row and shares
/// the chroma `U`, `V` of its pixel pair; with `Y' = 256 Y` (full range) or `298 (Y - 16)`
/// (limited range) and `U' = U - 128`, `V' = V - 128`:
/// - BT.601 full range: `R = Y' + 359 V'`, `G = Y' - 88 U' - 183 V'`,
///   `B = Y' + 454 U'` (1.402, 0.344, 0.714, 1.772);
/// - BT.601 limited range: 409, 100, 208, 516 (1.596, 0.391, 0.813, 2.018);
/// - BT.709 full range: 403, 48, 120, 475 (1.575, 0.187, 0.468, 1.856);
/// - BT.709 limited range: 459, 55, 136, 541 (1.793, 0.213, 0.533, 2.112);
/// the pixel is stored B, G, R and opaque.
pub proof fn lemma_yuyv_follows_the_standard_matrices(
    bytes: Seq<u8>,
    width: nat,
    stride: nat,
    height: nat,
    rec709: bool,
    full: bool,
    r: int,
    x: int,
)
    requires
        width % 2 == 0,
        0 <= r < height,
        0 <= x < width,
    ensures
        ({
            let out = yuyv_rows(bytes, width, stride, height, rec709, full);
            let at = (r * width + x) * 4;
            let y = bytes[r * stride + 2 * x];
            let u = bytes[r * stride + 4 * (x / 2) + 1] - 128;
            let v = bytes[r * stride + 4 * (x / 2) + 3] - 128;
            let l = if full {
                y * 256
            } else {
                (y - 16) * 298
            };
            &&& out.len() == height * width * 4
            &&& out[at + 3] == 255
            &&& !rec709 && full ==> out[at] == rounded_byte(l + 454 * u) && out[at + 1] == rounded_byte(
                l - 88 * u - 183 * v,
            ) && out[at + 2] == rounded_byte(l + 359 * v)
            &&& !rec709 && !full ==> out[at] == rounded_byte(l + 516 * u) && out[at + 1]
                == rounded_byte(l - 100 * u - 208 * v) && out[at + 2] == rounded_byte(l + 409 * v)
            &&& rec709 && full ==> out[at] == rounded_byte(l + 475 * u) && out[at + 1] == rounded_byte(
                l - 48 * u - 120 * v,
            ) && out[at + 2] == rounded_byte(l + 403 * v)
            &&& rec709 && !full ==> out[at] == rounded_byte(l + 541 * u) && out[at + 1] == rounded_byte(
                l - 55 * u - 136 * v,
            ) && out[at + 2] == rounded_byte(l + 459 * v)
        }),
{
    let start = r * stride;
    assert(start + 2 * x == r * stride + 2 * x);
    lemma_yuyv_rows_at(bytes, width, stride, height, rec709, full, r, x, 0);
    lemma_yuyv_rows_at(bytes, width, stride, height, rec709, full, r, x, 1);
    lemma_yuyv_rows_at(bytes, width, stride, height, rec709, full, r, x, 2);
    lemma_yuyv_rows_at(bytes, width, stride, height, rec709, full, r, x, 3);
    assert(2 * (width / 2) == width);
    lemma_yuyv_row_at(bytes, start, width / 2, rec709, full, x, 0);
    lemma_yuyv_row_at(bytes, start, width / 2, rec709, full, x, 1);
    lemma_yuyv_row_at(bytes, start, width / 2, rec709, full, x, 2);
    lemma_yuyv_row_at(bytes, start, width / 2, rec709, full, x, 3);
}

} // verus!
