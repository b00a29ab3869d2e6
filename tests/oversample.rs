use nonlinear_adaa::{HalfbandFilter, Oversample, OversampleFactor};

/// The taps of the filtering branch of the 2x half-band filter.
fn filter_taps() -> Vec<f64> {
    vec![
        -0.0064715474097890545,
        0.006788724784527351,
        -0.007134125572070907,
        0.007511871271766723,
        -0.007926929217098087,
        0.00838534118242672,
        -0.00889453036904902,
        0.009463720022395613,
        -0.010104514094437885,
        0.010831718180021,
        -0.011664525313602769,
        0.012628270948224513,
        -0.013757103575462731,
        0.015098181413680897,
        -0.01671851963595936,
        0.01871667093508393,
        -0.021243750540180146,
        0.024543868940610197,
        -0.0290386730354654,
        0.035524608815134716,
        -0.045708348639099484,
        0.06402724397938601,
        -0.10675158913607562,
        0.32031404953367254,
        0.32031404953367254,
        -0.10675158913607562,
        0.06402724397938601,
        -0.045708348639099484,
        0.035524608815134716,
        -0.0290386730354654,
        0.024543868940610197,
        -0.021243750540180146,
        0.01871667093508393,
        -0.01671851963595936,
        0.015098181413680897,
        -0.013757103575462731,
        0.012628270948224513,
        -0.011664525313602769,
        0.010831718180021,
        -0.010104514094437885,
        0.009463720022395613,
        -0.00889453036904902,
        0.00838534118242672,
        -0.007926929217098087,
        0.007511871271766723,
        -0.007134125572070907,
        0.006788724784527351,
        -0.0064715474097890545,
    ]
}

/// Gain of the pure-delay branch: one minus the sum of the taps.
const FOLD_SCALE: f64 = 0.5031597730627207;

fn get_kern() -> HalfbandFilter<f64> {
    HalfbandFilter::new(filter_taps(), FOLD_SCALE)
}

fn filter_f32() -> HalfbandFilter<f32> {
    HalfbandFilter::new(
        filter_taps().into_iter().map(|x| x as f32).collect(),
        FOLD_SCALE as f32,
    )
}

#[test]
fn test_create_os_2x() {
    let os = Oversample::<f32>::new(OversampleFactor::TwoTimes, 4, filter_f32());
    assert_eq!(os.up_stages().len(), 4);
    assert_eq!(os.down_stages().len(), 4);
    assert_eq!(os.up_stages()[0].output().len(), 8);
    assert_eq!(os.down_stages()[3].output().len(), 4);
    let os_64 = Oversample::<f64>::new(OversampleFactor::TwoTimes, 4, get_kern());
    assert_eq!(os_64.up_stages().len(), 4);
    assert_eq!(os_64.down_stages().len(), 4);
    assert_eq!(os_64.up_stages()[0].output().len(), 8);
    assert_eq!(os_64.down_stages()[3].output().len(), 4);
}

#[test]
fn test_create_os_4x() {
    let os = Oversample::<f32>::new(OversampleFactor::FourTimes, 4, filter_f32());
    assert_eq!(os.up_stages().len(), 4);
    assert_eq!(os.down_stages().len(), 4);
    assert_eq!(os.up_stages()[0].output().len(), 8);
    assert_eq!(os.up_stages()[1].output().len(), 16);
    assert_eq!(os.down_stages()[2].output().len(), 8);
    assert_eq!(os.down_stages()[3].output().len(), 4);
    let os_64 = Oversample::<f64>::new(OversampleFactor::FourTimes, 4, get_kern());
    assert_eq!(os_64.up_stages().len(), 4);
    assert_eq!(os_64.down_stages().len(), 4);
    assert_eq!(os_64.up_stages()[0].output().len(), 8);
    assert_eq!(os_64.up_stages()[1].output().len(), 16);
    assert_eq!(os_64.down_stages()[2].output().len(), 8);
    assert_eq!(os_64.down_stages()[3].output().len(), 4);
}

#[test]
fn test_create_os_8x() {
    let os = Oversample::<f32>::new(OversampleFactor::EightTimes, 4, filter_f32());
    assert_eq!(os.up_stages().len(), 4);
    assert_eq!(os.down_stages().len(), 4);
    assert_eq!(os.up_stages()[0].output().len(), 8);
    assert_eq!(os.up_stages()[1].output().len(), 16);
    assert_eq!(os.up_stages()[2].output().len(), 32);
    assert_eq!(os.down_stages()[1].output().len(), 16);
    assert_eq!(os.down_stages()[2].output().len(), 8);
    assert_eq!(os.down_stages()[3].output().len(), 4);
    let os_64 = Oversample::<f64>::new(OversampleFactor::EightTimes, 4, get_kern());
    assert_eq!(os_64.up_stages().len(), 4);
    assert_eq!(os_64.down_stages().len(), 4);
    assert_eq!(os_64.up_stages()[0].output().len(), 8);
    assert_eq!(os_64.up_stages()[1].output().len(), 16);
    assert_eq!(os_64.up_stages()[2].output().len(), 32);
    assert_eq!(os_64.down_stages()[1].output().len(), 16);
    assert_eq!(os_64.down_stages()[2].output().len(), 8);
    assert_eq!(os_64.down_stages()[3].output().len(), 4);
}

#[test]
fn test_create_os_16x() {
    let os = Oversample::<f32>::new(OversampleFactor::SixteenTimes, 4, filter_f32());
    assert_eq!(os.up_stages().len(), 4);
    assert_eq!(os.down_stages().len(), 4);
    assert_eq!(os.up_stages()[0].output().len(), 8);
    assert_eq!(os.up_stages()[1].output().len(), 16);
    assert_eq!(os.up_stages()[2].output().len(), 32);
    assert_eq!(os.up_stages()[3].output().len(), 64);
    assert_eq!(os.down_stages()[0].output().len(), 32);
    assert_eq!(os.down_stages()[1].output().len(), 16);
    assert_eq!(os.down_stages()[2].output().len(), 8);
    assert_eq!(os.down_stages()[3].output().len(), 4);
    let os_64 = Oversample::<f64>::new(OversampleFactor::SixteenTimes, 4, get_kern());
    assert_eq!(os_64.up_stages().len(), 4);
    assert_eq!(os_64.down_stages().len(), 4);
    assert_eq!(os_64.up_stages()[0].output().len(), 8);
    assert_eq!(os_64.up_stages()[1].output().len(), 16);
    assert_eq!(os_64.up_stages()[2].output().len(), 32);
    assert_eq!(os_64.up_stages()[3].output().len(), 64);
    assert_eq!(os_64.down_stages()[0].output().len(), 32);
    assert_eq!(os_64.down_stages()[1].output().len(), 16);
    assert_eq!(os_64.down_stages()[2].output().len(), 8);
    assert_eq!(os_64.down_stages()[3].output().len(), 4);
}

#[test]
fn test_small_up_sample_2x() {
    let mut os = Oversample::<f64>::new(OversampleFactor::TwoTimes, 4, get_kern());
    let sig: &[f64] = &[1., 0., 0., 0.];

    let result: &mut [f64] = &mut [0.0; 8];
    os.process_up(sig, result);

    let expected_result: &[f64] = &[
        -0.012943094819578109,
        0.0,
        0.013577449569054703,
        0.0,
        -0.014268251144141814,
        0.0,
        0.015023742543533445,
        0.0,
    ];

    for (r, e) in result.iter().zip(expected_result.iter()) {
        assert!(
            (r - e).abs() < 1e-7,
            "Assertion failed: res: {}, expected: {}",
            r,
            e
        )
    }
}

#[test]
fn test_small_up_sample_4x() {
    let mut os = Oversample::<f64>::new(OversampleFactor::FourTimes, 4, get_kern());
    let sig: &[f64] = &[1., 0., 0., 0.];

    const E_RESULT: &[f64] = &[
        0.00016752370350858967,
        0.0,
        -0.00017573421718031495,
        0.0,
        8.941110287866394e-06,
        0.0,
        -1.0106587485659248e-05,
        0.0,
        0.00019614686008995804,
        0.0,
        -0.00020680688566223008,
        0.0,
        2.411980294562719e-05,
        0.0,
        -2.7654982156956038e-05,
        0.0,
    ];

    let result: &mut [f64] = &mut [0.0; E_RESULT.len()];
    os.process_up(sig, result);

    for (r, e) in result.iter().zip(E_RESULT.iter()) {
        assert!(
            (r - e).abs() < 1e-7,
            "Assertion failed: res: {}, expected: {}",
            r,
            e
        )
    }
}

#[test]
fn test_small_up_sample_8x() {
    let mut os = Oversample::<f64>::new(OversampleFactor::EightTimes, 4, get_kern());
    let sig: &[f64] = &[1., 0., 0., 0.];

    let result: &mut [f64] = &mut [0.0; 32];
    os.process_up(sig, result);

    let expected_result: &[f64] = &[
        -2.168275179038566e-06,
        0.0,
        2.2745446360091485e-06,
        0.0,
        -1.1572563824815977e-07,
        0.0,
        1.3081052012924913e-07,
        0.0,
        -2.6420277269769886e-07,
        0.0,
        2.9069865914485977e-07,
        0.0,
        -1.9078742252992996e-07,
        0.0,
        2.207193743894453e-07,
        0.0,
        -2.7956397603268105e-06,
        0.0,
        2.9642240835066686e-06,
        0.0,
        -4.775282888187613e-07,
        0.0,
        5.627502326401241e-07,
        0.0,
        -9.8157074847025e-07,
        0.0,
        1.1325599486140385e-06,
        0.0,
        -9.674399702727956e-07,
        0.0,
        1.2024669215155766e-06,
        0.0,
    ];
    for (r, e) in result.iter().zip(expected_result.iter()) {
        assert!(
            (r - e).abs() < 1e-7,
            "Assertion failed: res: {}, expected: {}",
            r,
            e
        )
    }
}

#[test]
fn test_small_up_sample_16x() {
    let mut os = Oversample::<f64>::new(OversampleFactor::SixteenTimes, 4, get_kern());
    let sig: &[f64] = &[1., 0., 0., 0.];

    let result: &mut [f64] = &mut [0.0; 64];
    os.process_up(sig, result);

    let expected_result: &[f64] = &[
        2.806419123723386e-08,
        0.0,
        -2.943964689522919e-08,
        0.0,
        1.497847908902133e-09,
        0.0,
        -1.6930929654312083e-09,
        0.0,
        3.419601538621766e-09,
        0.0,
        -3.7625403092361434e-09,
        0.0,
        2.4693797001877947e-09,
        0.0,
        -2.85679179124055e-09,
        0.0,
        6.744583604063339e-09,
        0.0,
        -7.483718291325725e-09,
        0.0,
        4.609434904051034e-09,
        0.0,
        -5.507656380644065e-09,
        0.0,
        9.117363447267262e-09,
        0.0,
        -1.071188441943685e-08,
        0.0,
        9.931260659680578e-09,
        0.0,
        -1.25668372078963e-08,
        0.0,
        5.24306626266722e-08,
        0.0,
        -5.954520923990405e-08,
        0.0,
        3.126451985754981e-08,
        0.0,
        -4.4823188113968115e-08,
        0.0,
        7.528493772783126e-08,
        0.0,
        -1.2626282742369094e-07,
        0.0,
        2.592588706683015e-07,
        0.0,
        -1.1034782145228508e-06,
        -2.1819776940451505e-06,
        -1.854080815038716e-06,
        0.0,
        1.8949327956055762e-06,
        2.288918725750784e-06,
        1.19976396648328e-06,
        0.0,
        -3.551339101598394e-07,
        -1.1645697175696547e-07,
        6.247181640164059e-08,
        0.0,
        -9.603776483706852e-09,
        1.31637183244899e-07,
        1.651197305146256e-07,
        0.0,
        -2.0487917826826312e-07,
        -2.6587241430623127e-07,
    ];
    assert_eq!(result.len(), expected_result.len());

    for (r, e) in result.iter().zip(expected_result.iter()) {
        assert!(
            (r - e).abs() < 1e-7,
            "Assertion failed: res: {}, expected: {}",
            r,
            e
        )
    }
}

#[test]
fn down_sample_2x() {
    let mut os = Oversample::<f64>::new(OversampleFactor::TwoTimes, 4, get_kern());
    let sig_vec = &vec![vec![1.], vec![0.; 7]]
        .into_iter()
        .flatten()
        .collect::<Vec<_>>();

    let sig: &[f64] = sig_vec.as_slice();

    let result: &mut [f64] = &mut [0.0; 4];
    os.process_down(sig, result);

    let expected_result: &[f64] = &[
        -0.0064715474097890545,
        0.006788724784527351,
        -0.007134125572070907,
        0.007511871271766723,
    ];
    for (r, e) in result.iter().zip(expected_result.iter()) {
        assert!(
            (r - e).abs() < 1e-7,
            "Assertion failed: res: {}, expected: {}",
            r,
            e
        )
    }
}

#[test]
fn down_sample_4x() {
    let mut os = Oversample::<f64>::new(OversampleFactor::FourTimes, 4, get_kern());
    let sig_vec = &vec![vec![1.], vec![0.; 15]]
        .into_iter()
        .flatten()
        .collect::<Vec<_>>();

    let sig: &[f64] = sig_vec.as_slice();

    let result: &mut [f64] = &mut [0.0; 4];
    os.process_down(sig, result);
    let expected_result: &[f64] = &[
        4.188092587714742e-05,
        2.2352775719665985e-06,
        4.903671502248951e-05,
        6.029950736406798e-06,
    ];

    for (r, e) in result.iter().zip(expected_result.iter()) {
        assert!(
            (r - e).abs() < 1e-7,
            "Assertion failed: res: {}, expected: {}",
            r,
            e
        )
    }
}

#[test]
fn down_sample_8x() {
    let mut os = Oversample::<f64>::new(OversampleFactor::EightTimes, 4, get_kern());
    let sig_vec = &vec![vec![1.], vec![0.; 31]]
        .into_iter()
        .flatten()
        .collect::<Vec<_>>();

    let sig: &[f64] = sig_vec.as_slice();

    let result: &mut [f64] = &mut [0.0; 4];
    os.process_down(sig, result);

    let expected_result: &[f64] = &[
        -2.7103439737982077e-07,
        -3.302534658721244e-08,
        -3.494549700408512e-07,
        -1.2269634355878129e-07,
    ];
    for (r, e) in result.iter().zip(expected_result.iter()) {
        assert!(
            (r - e).abs() < 1e-7,
            "Assertion failed: res: {}, expected: {}",
            r,
            e
        )
    }
}

#[test]
fn down_sample_16x() {
    let mut os = Oversample::<f64>::new(OversampleFactor::SixteenTimes, 4, get_kern());
    let sig_vec = &vec![vec![1.], vec![0.; 63]]
        .into_iter()
        .flatten()
        .collect::<Vec<_>>();

    let sig: &[f64] = sig_vec.as_slice();

    let result: &mut [f64] = &mut [0.0; 4];
    os.process_down(sig, result);

    let expected_result: &[f64] = &[
        1.7540119523271163e-09,
        4.2153647525395777e-10,
        3.276916414167012e-09,
        -1.1588005093991977e-07,
    ];
    for (r, e) in result.iter().zip(expected_result.iter()) {
        assert!(
            (r - e).abs() < 1e-7,
            "Assertion failed: res: {}, expected: {}",
            r,
            e
        )
    }
}

#[test]
fn up_returns_count_and_writes_prefix() {
    for (factor, times) in [
        (OversampleFactor::TwoTimes, 2usize),
        (OversampleFactor::FourTimes, 4),
        (OversampleFactor::EightTimes, 8),
        (OversampleFactor::SixteenTimes, 16),
    ] {
        let mut os = Oversample::<f64>::new(factor, 4, get_kern());
        let mut out = vec![7.0_f64; 80];
        let n = os.process_up(&[0.5, 0.25, 0.0], &mut out);
        assert_eq!(n, 3 * times);
        assert!(out[n..].iter().all(|x| *x == 7.0));
        let last = &os.up_stages()[factor.num_stages() - 1];
        assert_eq!(&out[..n], &last.output()[..n]);
    }
}

#[test]
fn latency_sums_active_delay_branches() {
    let mut os = Oversample::<f64>::new(OversampleFactor::TwoTimes, 32, get_kern());
    assert_eq!(os.get_latency_samples(), 47);
    os.set_oversample_factor(OversampleFactor::FourTimes);
    assert_eq!(os.get_oversample_factor(), OversampleFactor::FourTimes);
    assert_eq!(os.get_latency_samples(), 94);
    os.set_oversample_factor(OversampleFactor::EightTimes);
    assert_eq!(os.get_latency_samples(), 141);
    os.set_oversample_factor(OversampleFactor::SixteenTimes);
    assert_eq!(os.get_latency_samples(), 188);
}

#[test]
fn round_trip_is_a_delay_by_the_latency() {
    let block = 32;
    let mut os = Oversample::<f64>::new(OversampleFactor::TwoTimes, block, get_kern());
    let latency = os.get_latency_samples() as usize;
    let signal: Vec<f64> = (0..3200)
        .map(|i| (2.0 * std::f64::consts::PI * i as f64 / 1000.0).sin())
        .collect();
    let mut result = Vec::new();
    let mut up = vec![0.0; block * 2];
    let mut down = vec![0.0; block];
    for chunk in signal.chunks(block) {
        let n = os.process_up(chunk, &mut up);
        os.process_down(&up[..n], &mut down);
        result.extend_from_slice(&down[..chunk.len()]);
    }
    for i in 200..signal.len() {
        assert!(
            (result[i] - signal[i - latency]).abs() < 1e-3,
            "sample {}: {} vs {}",
            i,
            result[i],
            signal[i - latency]
        );
    }
}

#[test]
fn reset_clears_every_stage() {
    let mut os = Oversample::<f64>::new(OversampleFactor::SixteenTimes, 4, get_kern());
    let mut out = vec![0.0; 64];
    os.process_up(&[1.0, -1.0, 1.0, -1.0], &mut out);
    os.process_down(&out.clone(), &mut [0.0; 4]);
    os.reset();
    assert_eq!(os.get_oversample_factor(), OversampleFactor::SixteenTimes);
    for s in os.up_stages().iter().chain(os.down_stages().iter()) {
        assert!(s.output().iter().all(|x| *x == 0.0));
    }
    let n = os.process_up(&[1.0, 0.0, 0.0, 0.0], &mut out);
    let mut fresh = Oversample::<f64>::new(OversampleFactor::SixteenTimes, 4, get_kern());
    let mut expected = vec![0.0; 64];
    fresh.process_up(&[1.0, 0.0, 0.0, 0.0], &mut expected);
    assert_eq!(&out[..n], &expected[..n]);
}

#[test]
fn down_chain_feeds_each_stage_the_previous_output() {
    let mut os = Oversample::<i64>::new(
        OversampleFactor::FourTimes,
        4,
        HalfbandFilter::new(vec![1, 0, 0, 0], 1),
    );
    let mut out = vec![-1i64; 4];
    os.process_down(&[1, 2, 3, 4, 5, 6, 7, 8, 9, 10, 11, 12, 13, 14, 15, 16], &mut out);
    assert_eq!(out, vec![1, 7, 18, 34]);
}

#[test]
fn initialize_rebuilds_stages_for_new_block_size() {
    let mut os = Oversample::<f64>::new(OversampleFactor::FourTimes, 4, get_kern());
    let mut out = vec![0.0; 16];
    os.process_up(&[1.0, 2.0, 3.0, 4.0], &mut out);
    os.initialize(8);
    assert_eq!(os.block_size(), 8);
    assert_eq!(os.get_oversample_factor(), OversampleFactor::FourTimes);
    let up: Vec<usize> = os.up_stages().iter().map(|s| s.output().len()).collect();
    let down: Vec<usize> = os.down_stages().iter().map(|s| s.output().len()).collect();
    assert_eq!(up, vec![16, 32, 64, 128]);
    assert_eq!(down, vec![64, 32, 16, 8]);
    for s in os.up_stages().iter().chain(os.down_stages().iter()) {
        assert!(s.output().iter().all(|x| *x == 0.0));
    }
}
