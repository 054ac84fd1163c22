use vstd::prelude::*;
use crate::frame::FrameError;

verus! {

/// Why the camera could not deliver a frame.
#[derive(Debug)]
pub enum CameraError {
    OpenFailed(String),
    CaptureFailed(String),
    FrameError(FrameError),
    NoFrameAvailable,
}

impl From<FrameError> for CameraError {
    fn from(e: FrameError) -> (r: CameraError) {
        CameraError::FrameError(e)
    }
}

impl vstd::std_specs::convert::FromSpecImpl<FrameError> for CameraError {
    open spec fn obeys_from_spec() -> bool {
        true
    }

    open spec fn from_spec(e: FrameError) -> CameraError {
        CameraError::FrameError(e)
    }
}

} // verus!
