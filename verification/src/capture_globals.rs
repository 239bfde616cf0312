//! The state of the image capture source protocol, whose globals hold no
//! data of their own.
use vstd::prelude::*;

verus! {

/// The state of the image capture source protocol.
#[derive(Debug, Clone, Copy, PartialEq, Eq, Structural)]
pub struct ImageCaptureSourceState;

} // verus!
