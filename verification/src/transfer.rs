//! How a transfer ends.

use vstd::prelude::*;

verus! {

/// Why a transfer was given up.
#[derive(Clone, Copy, Debug, PartialEq, Eq, Structural)]
pub enum AbortReason {
    /// The channel, or the file behind the transfer, failed or timed out.
    Channel,
    /// A received file name leads outside the upload directory, or could not
    /// be resolved.
    Security,
    /// The peer asked for a transfer mode other than CRC; the byte is the one
    /// it sent.
    UnsupportedMode(u8),
}

/// The outcome of a transfer: every file went through, or the transfer was
/// given up as a whole.
#[derive(Clone, Copy, Debug, PartialEq, Eq, Structural)]
pub enum Outcome {
    Completed,
    Aborted(AbortReason),
}

} // verus!
