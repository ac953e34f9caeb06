//! What can be wrong with a descriptor, a layout or a buffer.

use vstd::prelude::*;

verus! {

/// How an entry of the coverage list breaks the pairing of each counter with
/// its inverted twin. Positions count from zero: a counter stands at an even
/// position and its twin at the odd position behind it.
#[derive(Clone, Copy, Debug, PartialEq, Eq, Structural)]
pub enum PairingFault {
    /// The entry at an odd position does not have the name of the entry
    /// before it.
    NameMismatch,
    /// The entry at an odd position has that name but is not marked inverted.
    MissingInverted,
    /// The entry at an even position is marked inverted.
    UnexpectedInverted,
    /// The list ends with the entry at an even position: its twin is missing.
    Unpaired,
}

/// The ways in which a descriptor, its layout or a buffer can be rejected.
#[derive(Clone, Copy, Debug, PartialEq, Eq, Structural)]
pub enum ConfigError {
    /// The counter at `position` is `counter_bits` wide; only one bit is
    /// supported.
    UnsupportedCounterWidth { position: usize, counter_bits: i32 },
    /// The coverage list is not a list of pairs: `position` is the first
    /// entry at fault.
    MalformedCoveragePairing { position: usize, fault: PairingFault },
    /// The input fields need more bits than the input bytes of the layout
    /// hold.
    InputLayoutTooSmall { needed_bits: u128, available_bits: u128 },
    /// The coverage counters need more bits than the coverage bytes of the
    /// layout hold.
    CoverageLayoutTooSmall { needed_bits: u128, available_bits: u128 },
    /// The layout of the descriptor needs more bytes than can be addressed.
    LayoutOverflow,
    /// An input buffer of `actual` bytes is not a whole number of cycles of
    /// `cycle_bytes` bytes each.
    InputBufferSizeMismatch { cycle_bytes: usize, actual: usize },
    /// A coverage buffer has `actual` bytes where the layout has `expected`.
    CoverageBufferSizeMismatch { expected: usize, actual: usize },
}

} // verus!
