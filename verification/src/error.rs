//! Error type for the watermark engine.

use vstd::prelude::*;

verus! {

/// Errors that can occur while building the engine's opacity maps.
#[derive(Debug, Clone, PartialEq, Eq)]
pub enum Error {
    /// A reference capture could not be decoded as an image; holds the
    /// decoder's message.
    AlphaMapDecode(String),
    /// A decoded reference capture is not the expected square size.
    MaskDimensions {
        /// Width of the decoded capture in pixels.
        width: u32,
        /// Height of the decoded capture in pixels.
        height: u32,
        /// The expected edge length in pixels.
        expected: u32,
    },
}

} // verus!
