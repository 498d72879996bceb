use vstd::prelude::*;

verus! {

/// Ways in which a multiplication can fail.
#[derive(Debug, Clone, Copy, PartialEq, Eq, Structural)]
pub enum MatrixError {
    /// The shapes do not fit: the left matrix's column count differs from
    /// the right matrix's row count, or two vectors have different lengths.
    DimensionMismatch,
    /// A task's result could not be delivered back to the collector.
    ChannelClosed,
}

} // verus!
