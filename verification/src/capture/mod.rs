//! Capture-side logic shared by the native backends: platform support,
//! camera pixel conversion and the mapping of device timestamps onto the
//! host timeline.
pub mod camera;
pub mod clock;
pub mod linux;
pub mod linux_pixels;
pub mod portal;
pub mod unavailable;
pub mod windows;

use vstd::prelude::*;

verus! {

} // verus!

verus! {

/// Why a capture request cannot be served.
#[derive(Debug, Clone, Copy, PartialEq, Eq, Structural)]
pub enum CaptureError {
    /// This operating system has no native capture backend.
    Unsupported,
}

/// Native desktop capture exists for the named operating system (as in
/// `std::env::consts::OS`).
pub fn desktop_supported(os: &str) -> (r: bool)
    ensures
        r == (os@ == "macos"@ || os@ == "windows"@ || os@ == "linux"@),
{
    crate::text::same_text(os, "macos") || crate::text::same_text(os, "windows")
        || crate::text::same_text(os, "linux")
}

} // verus!
