//! Decisions on one buffer of a shared window's PipeWire stream: which
//! buffers are skipped, which are refused, and how the mapped plane becomes
//! an opaque BGRA frame.
use crate::frame::{make_opaque, opaque_bytes, packed_rows, strided_layout_ok, VideoFrame};
use vstd::prelude::*;

verus! {

/// Why a portal buffer cannot be recorded.
#[derive(Debug, Clone, Copy, PartialEq, Eq, Structural)]
pub enum PortalError {
    /// The negotiated size is empty or larger than 16384 on a side.
    InvalidDimensions,
    /// Rows are not laid out top to bottom.
    UnsupportedStride,
    /// The chunk reaches past the mapped plane.
    Truncated,
    /// The chunk does not hold the frame's rows.
    InvalidRows,
}

impl PortalError {
    /// Message for the user.
    pub fn message(&self) -> (r: &'static str)
        ensures
            r@ == match self {
                PortalError::InvalidDimensions => "Invalid portal video dimensions"@,
                PortalError::UnsupportedStride => "Portal returned an unsupported negative row stride"@,
                PortalError::Truncated => "Truncated portal video buffer"@,
                PortalError::InvalidRows => "Invalid portal video rows"@,
            },
    {
        match self {
            PortalError::InvalidDimensions => "Invalid portal video dimensions",
            PortalError::UnsupportedStride => "Portal returned an unsupported negative row stride",
            PortalError::Truncated => "Truncated portal video buffer",
            PortalError::InvalidRows => "Invalid portal video rows",
        }
    }
}

/// The frame in a chunk of `size` bytes at `offset` in the mapped plane,
/// rows `stride` bytes apart, acquired at host time `at`: nothing for an
/// empty chunk, otherwise the packed rows with opaque alpha (BGRx becomes
/// BGRA), or why the buffer is refused.
pub open spec fn portal_result(
    r: Result<Option<VideoFrame>, PortalError>,
    width: u32,
    height: u32,
    plane: Seq<u8>,
    offset: u32,
    stride: i32,
    size: u32,
    at: u64,
) -> bool {
    if !(0 < width <= 16384 && 0 < height <= 16384) {
        r == Err::<Option<VideoFrame>, PortalError>(PortalError::InvalidDimensions)
    } else if size == 0 {
        r == Ok::<Option<VideoFrame>, PortalError>(None)
    } else if stride <= 0 {
        r == Err::<Option<VideoFrame>, PortalError>(PortalError::UnsupportedStride)
    } else if offset + size > plane.len() {
        r == Err::<Option<VideoFrame>, PortalError>(PortalError::Truncated)
    } else if !strided_layout_ok(width, height, stride as usize, size as nat) {
        r == Err::<Option<VideoFrame>, PortalError>(PortalError::InvalidRows)
    } else {
        r matches Ok(Some(f)) && f.width == width && f.height == height && f.captured_at == at
            && f.bgra@ == opaque_bytes(
            packed_rows(
                plane.subrange(offset as int, offset + size),
                (width * 4) as nat,
                stride as nat,
                height as nat,
            ),
        )
    }
}

/// Turns one dequeued portal buffer into a frame.
pub fn portal_frame(
    width: u32,
    height: u32,
    plane: &[u8],
    offset: u32,
    stride: i32,
    size: u32,
    at: u64,
) -> (r: Result<Option<VideoFrame>, PortalError>)
    ensures
        portal_result(r, width, height, plane@, offset, stride, size, at),
{
    if !(0 < width && width <= 16384 && 0 < height && height <= 16384) {
        return Err(PortalError::InvalidDimensions);
    }
    if size == 0 {
        return Ok(None);
    }
    if stride <= 0 {
        return Err(PortalError::UnsupportedStride);
    }
    if offset as u64 + size as u64 > plane.len() as u64 {
        return Err(PortalError::Truncated);
    }
    let start = offset as usize;
    let end = start + size as usize;
    let chunk = vstd::slice::slice_subrange(plane, start, end);
    match VideoFrame::from_strided_at(width, height, stride as usize, chunk, at) {
        None => Err(PortalError::InvalidRows),
        Some(mut frame) => {
            make_opaque(&mut frame.bgra);
            Ok(Some(frame))
        },
    }
}

} // verus!
