//! Adaptive acoustic echo cancellation in fixed-point arithmetic.
//!
//! An NLMS (normalized least mean squares) filter learns the echo path from a
//! render signal to a capture signal and subtracts its estimate, a block-level
//! double-talk gate decides when the filter may adapt, and a small delay line
//! feeds the cancelled signal back out.
pub mod delay;
pub mod gate;
pub mod nlms;
pub mod proofs;
mod ring;
pub mod transfer;

pub use delay::process_delay;
pub use gate::{rms_level, GateConfig, LEVEL_ONE};
pub use nlms::{AecError, NlmsCanceller, DEFAULT_EPSILON, ENERGY_ONE, MU_ONE, TAP_ONE};
pub use ring::dec_idx;
pub use transfer::{transfer_next, transfer_start, TransferAction};
