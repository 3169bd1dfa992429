use vstd::prelude::*;

verus! {

/// Why an identifier could not be produced.
#[derive(Debug, Clone, Copy, PartialEq, Eq)]
pub enum TempoIdError {
    /// The alphabet holds fewer than two characters.
    InvalidAlphabet,
    /// The operating system's secure random source failed to supply bytes.
    EntropyUnavailable,
    /// Every byte of the allowed number of batches was rejected by the
    /// sampler, which a working random source does not bring about.
    EntropyExhausted,
}

} // verus!
