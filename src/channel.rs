use vstd::prelude::*;
use crate::adaa::{AntiderivativeOrder, NLProc, NonlinearProcessor, ProcessorState};
use crate::oversample::{latency, EngineState, Oversample, OversampleFactor};
use crate::oversample_stage::HalfbandFilter;
use crate::sample::Sample;

verus! {

/// One audio channel: an oversampling engine over samples `S` and the
/// nonlinear processors, whose history is kept in `H`.
pub struct Channel<S, H> {
    pub oversampler: Oversample<S>,
    pub processor: NonlinearProcessor<H>,
}

impl<S: Sample, H: Sample> Channel<S, H> {
    pub open spec fn wf(&self) -> bool {
        &&& self.oversampler.wf()
        &&& self.processor.wf()
    }

    /// A channel at rest: the engine for blocks of up to `block_size`
    /// samples at `factor`, the processors fresh for hard clipping at first
    /// order.
    pub fn new(factor: OversampleFactor, block_size: usize, filter: HalfbandFilter<S>) -> (r: Self)
        requires
            4 <= filter.taps@.len() <= 0x1000_0000,
            block_size * 16 <= usize::MAX,
        ensures
            r.wf(),
            r.oversampler@.factor == factor,
            r.oversampler@.taps == filter.taps@,
            r.oversampler@.block_size == block_size,
            r.oversampler.layout(),
            r.oversampler.at_rest(),
            r.processor.state == (ProcessorState { style: NLProc::HardClip, order: AntiderivativeOrder::FirstOrder }),
            r.processor.is_fresh(),
    {
        Channel { oversampler: Oversample::new(factor, block_size, filter), processor: NonlinearProcessor::new() }
    }

    /// Takes the parameters read for the next block: switches the engine to
    /// `factor` (the stages keep their history), rebuilds the processors
    /// when `state` differs from the current one, and returns the latency
    /// to report at the new factor.
    pub fn configure(&mut self, factor: OversampleFactor, state: ProcessorState) -> (r: u32)
        requires
            old(self).wf(),
        ensures
            final(self).wf(),
            final(self).oversampler@ == (EngineState { factor, ..old(self).oversampler@ }),
            final(self).processor.state == state,
            state != old(self).processor.state ==> final(self).processor.is_fresh(),
            state == old(self).processor.state ==> final(self).processor == old(self).processor,
            r == latency(factor.spec_stages(), old(self).oversampler@.taps.len()),
    {
        if factor != self.oversampler.get_oversample_factor() {
            self.oversampler.set_oversample_factor(factor);
        }
        self.processor.compare_and_change_state(state);
        self.oversampler.get_latency_samples()
    }

    /// Every stage at rest and both processors fresh; factor and state kept.
    pub fn reset(&mut self)
        requires
            old(self).wf(),
        ensures
            final(self).wf(),
            final(self).oversampler@.factor == old(self).oversampler@.factor,
            final(self).oversampler@.taps == old(self).oversampler@.taps,
            final(self).oversampler@.fold == old(self).oversampler@.fold,
            final(self).oversampler@.block_size == old(self).oversampler@.block_size,
            final(self).oversampler.at_rest(),
            final(self).processor.state == old(self).processor.state,
            final(self).processor.is_fresh(),
    {
        self.oversampler.reset();
        let style = self.processor.state.style;
        self.processor.first = self.processor.first.reset(style);
        self.processor.second = self.processor.second.reset(style);
    }
}

} // verus!
