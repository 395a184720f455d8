//! Capability boundary for systems without a native capture backend.
//! Portable media recording remains usable; unavailable devices are never
//! listed.
use super::CaptureError;
use crate::model::Device;
use vstd::prelude::*;

verus! {

/// No screen-recording permission exists here.
pub fn screen_permission() -> (r: bool)
    ensures
        !r,
{
    false
}

/// Asking cannot grant a permission that does not exist.
pub fn request_screen_permission() -> (r: bool)
    ensures
        !r,
{
    false
}

/// No camera is offered.
pub fn discover_cameras() -> (r: Result<Vec<Device>, CaptureError>)
    ensures
        r matches Ok(v) && v@.len() == 0,
{
    Ok(Vec::new())
}

/// No microphone is offered.
pub fn discover_microphones() -> (r: Result<Vec<Device>, CaptureError>)
    ensures
        r matches Ok(v) && v@.len() == 0,
{
    Ok(Vec::new())
}

} // verus!
