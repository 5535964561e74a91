//! Errors of the wire protocol.

use vstd::prelude::*;

verus! {

/// A frame whose length accounting is inconsistent, whose strings are not
/// valid UTF-8, or whose bytes are otherwise not a well-formed frame.
///
/// Decoding never aborts the process: every malformed input maps to this
/// value, and the affected connection alone is torn down.
#[derive(Clone, Copy, Debug, PartialEq, Eq, Structural)]
pub enum WireError {
    CorruptFrame,
    /// A message whose encoded frame would not fit the `u32` length
    /// prefix; it is refused rather than encoded with a wrong length.
    FrameTooLarge,
}

} // verus!
