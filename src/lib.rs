//! Antiderivative-antialiased waveshaping core: a circular convolution
//! buffer, polyphase half-band oversampling stages, the oversampling engine
//! that chains them, and the state records of the antiderivative processors.
//!
//! The numeric code is generic over the sample type (`f32` and `f64` in an
//! audio host): every arithmetic step goes through the sample type's `+` and
//! `*`. The contracts say, for any sample type, which samples each buffer
//! and branch holds, which outputs a call writes, and that everything starts
//! from the value `T::default()` returns (0 for numeric samples). Where a
//! type's `+` and `*` compute `add_spec` and `mul_spec` exactly
//! (`arith_exact`), they also give the exact expression of every output.
//!
//! The filtering functions require `arith_total`: `+` and `*` defined on
//! every pair of samples. The std integer types do not meet it (their
//! operations overflow), and vstd leaves the float operations unspecified,
//! so a verified caller needs a sample type with total, exact operations;
//! floating-point hosts call from unverified code. The nonlinearities
//! themselves are floating-point functions supplied by the caller; this
//! crate keeps the processors' history and the state machine that decides
//! when that history is discarded.

mod sample;
mod circular_buffer;
mod oversample_stage;
mod oversample;
mod adaa;
mod channel;

pub use sample::{arith_exact, arith_total, dot_fold, is_rest_value, lemma_dot_fold_single, mac, zero_laws, Sample};
pub use circular_buffer::{
    delay_outputs, lemma_delay_impulse, lemma_delay_line, lemma_pushed_history,
    lemma_single_tap_is_scaled_delay, CircularBuffer, RingState,
};
pub use oversample_stage::{
    delay_len, down_run, down_step, evens, odd_of, odds, pairs, up_run, up_step, HalfbandFilter, OversampleStage,
    SampleRole, StageState,
};
pub use oversample::{
    down_stage_input, halved, latency, lemma_halved_exact, stage_scale, two_pow, up_stage_input, EngineState, OSFactorScale, Oversample, OversampleFactor,
    MAX_OVER_SAMPLE_FACTOR,
};
pub use adaa::{
    ADAAFirst, ADAASecond, AntiderivativeOrder, NLProc, NonlinearProcessor, ProcessorState,
};
pub use channel::Channel;
