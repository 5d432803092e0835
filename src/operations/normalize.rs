use vstd::prelude::*;

verus! {

/// Which level measurement a normalization is based on.
#[derive(Clone, Copy, Debug, PartialEq, Eq, Structural)]
pub enum Mode {
    /// Maximum absolute value of the 4x oversampled signal.
    TruePeak,
    /// Gated integrated loudness.
    Lufs,
    /// Root mean square over the whole stream.
    Rms,
}

} // verus!
