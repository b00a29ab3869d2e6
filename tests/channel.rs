use nonlinear_adaa::{
    AntiderivativeOrder, Channel, HalfbandFilter, NLProc, OversampleFactor, ProcessorState,
};

fn filter() -> HalfbandFilter<i64> {
    HalfbandFilter::new(vec![1, 0, 0, 0], 1)
}

#[test]
fn configure_switches_factor_and_reports_latency() {
    let mut ch = Channel::<i64, i64>::new(OversampleFactor::TwoTimes, 4, filter());
    let state = ProcessorState::new(NLProc::HardClip, AntiderivativeOrder::FirstOrder);
    // four taps: delay branches of 1 (up) and 2 (down) per active stage pair
    assert_eq!(ch.configure(OversampleFactor::TwoTimes, state), 3);
    assert_eq!(ch.configure(OversampleFactor::EightTimes, state), 9);
    assert_eq!(ch.oversampler.get_oversample_factor(), OversampleFactor::EightTimes);
}

#[test]
fn configure_rebuilds_processors_only_on_change() {
    let mut ch = Channel::<f32, f64>::new(
        OversampleFactor::TwoTimes,
        4,
        HalfbandFilter::new(vec![0.5, 0.25, 0.25, 0.5], 0.5),
    );
    ch.processor.first.update_history(0.9, 0.405);
    let same = ProcessorState::new(NLProc::HardClip, AntiderivativeOrder::FirstOrder);
    ch.configure(OversampleFactor::TwoTimes, same);
    assert_eq!(ch.processor.first.x1, 0.9);

    let other = ProcessorState::new(NLProc::Tanh, AntiderivativeOrder::SecondOrder);
    ch.configure(OversampleFactor::TwoTimes, other);
    assert_eq!(ch.processor.state, other);
    assert_eq!(ch.processor.first.x1, 0.0);
    assert_eq!(ch.processor.first.proc, NLProc::Tanh);
    assert_eq!(ch.processor.second.proc, NLProc::Tanh);
}

#[test]
fn channel_reset_keeps_state_and_clears_history() {
    let mut ch = Channel::<i64, i64>::new(OversampleFactor::FourTimes, 4, filter());
    let state = ProcessorState::new(NLProc::Tanh, AntiderivativeOrder::SecondOrder);
    ch.configure(OversampleFactor::FourTimes, state);
    let mut up = vec![0i64; 16];
    ch.oversampler.process_up(&[3, 1, 4, 1], &mut up);
    ch.processor.second.shift_history(5, 2);
    ch.reset();
    assert_eq!(ch.processor.state, state);
    assert_eq!((ch.processor.second.x1, ch.processor.second.d2), (0, 0));
    for s in ch.oversampler.up_stages().iter() {
        assert!(s.output().iter().all(|x| *x == 0));
    }
}
