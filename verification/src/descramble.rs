//! Packet dispositions reported by transport-stream descramblers.

use vstd::prelude::*;

verus! {

/// Counts what a descrambler did with each transport packet in a successful
/// batch.
///
/// These fields are deliberately not collapsed into a success ratio:
/// [`Self::decrypted`] is workload, not health, and can be low on a healthy
/// clear-heavy multiplex. [`Self::broken`] is the silent-degradation signal,
/// [`Self::transport_error`] is a reception signal, and a batch-level `Err`
/// remains the abandonment signal for the caller to count separately.
#[derive(Clone, Copy, Debug, PartialEq, Eq)]
pub struct DescrambleDispositionCounts {
    /// Packets whose encrypted payload was decrypted.
    pub decrypted: usize,
    /// Packets already clear and passed through unchanged.
    pub unscrambled: usize,
    /// Scrambled packets with no decryptable payload.
    pub no_payload: usize,
    /// Packets explicitly passed through because their transport-error bit was set.
    pub transport_error: usize,
    /// Packets with broken geometry that the implementation left unchanged.
    pub broken: usize,
}

impl Default for DescrambleDispositionCounts {
    /// No packet counted yet.
    fn default() -> (counts: Self)
        ensures
            counts.decrypted == 0,
            counts.unscrambled == 0,
            counts.no_payload == 0,
            counts.transport_error == 0,
            counts.broken == 0,
    {
        DescrambleDispositionCounts {
            decrypted: 0,
            unscrambled: 0,
            no_payload: 0,
            transport_error: 0,
            broken: 0,
        }
    }
}

} // verus!
