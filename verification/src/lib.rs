//! Loomik's recording core: the pause-aware recording timeline, countdown,
//! frame history, pixel conversion and composition, host-clock mapping and
//! the recorder's scheduling decisions, each with a machine-checked contract.
pub mod audio;
pub mod capture;
pub mod encoder;
pub mod frame;
pub mod media;
pub mod metrics;
pub mod model;
pub mod recording;
pub mod session;
pub mod text;
pub mod timeline;

use vstd::prelude::*;

verus! {

} // verus!
