//! The ways a run of the pipeline can fail.

use vstd::prelude::*;

verus! {

/// Why a step of the pipeline failed.
#[derive(Clone, Copy, Debug, PartialEq, Eq, Structural)]
pub enum SliderError {
    /// The request failed, timed out, or got a non-success status.
    Network,
    /// A JSON document was malformed, lacked its list, or the list was empty.
    Parse,
    /// An image payload was corrupt or not in the expected format.
    Decode,
    /// A local image file could not be read or written.
    Io,
}

} // verus!
