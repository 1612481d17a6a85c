use rfmon::sdr_tools::channel_power;
use rfmon::sdr_tools::channel_powers;
use rfmon::sdr_tools::downconvert_and_filter;
use rfmon::sdr_tools::fft_block_ready;
use rfmon::sdr_tools::spectrum_powers;
use rfmon::sdr_tools::Channel;
use rfmon::sdr_tools::Iq;
use rfmon::sdr_tools::FILTER_SIZE;
use rfmon::math_tools::Detector;
use rfmon::sql_tools::TSData;
use rustfft::num_complex::Complex;
use rustfft::FftPlanner;

/// A fixed-point complex tone at `cycles_per_sample`, scaled to `amp`.
fn tone(n: usize, cycles_per_sample: f64, amp: f64) -> Vec<Iq> {
    (0..n)
        .map(|i| {
            let phase = 2.0 * std::f64::consts::PI * cycles_per_sample * i as f64;
            Iq { re: (amp * phase.cos()).round() as i64, im: (amp * phase.sin()).round() as i64 }
        })
        .collect()
}

/// The fixed-point mixer for a target at `offset_hz` from the center: a
/// complex sinusoid at minus the offset, scaled to 32768.
fn mixer(n: usize, offset_hz: f64, sample_rate: f64) -> Vec<Iq> {
    let cycles = offset_hz / sample_rate;
    tone(n, -cycles, 32_768.0)
}

#[test]
fn downconversion_tone_is_loudest_at_its_own_frequency() {
    // A pure tone at one monitored frequency and near-silence elsewhere:
    // that frequency's power must be the maximum reported.
    let n = 256;
    let sample_rate = 1_000_000.0;
    let center: i64 = 100_000_000;
    let tone_offset = 50_000.0;
    let samples = tone(n, tone_offset / sample_rate, 10_000.0);

    let offsets = [-200_000.0, -50_000.0, 50_000.0, 150_000.0];
    let channels: Vec<Channel> = offsets
        .iter()
        .map(|off| Channel {
            frequency: center + *off as i64,
            mixer: mixer(n, *off, sample_rate),
        })
        .collect();

    let out = channel_powers(&samples, &channels);
    assert_eq!(out.len(), 4);
    let best = out.iter().max_by_key(|(_, p)| *p).unwrap();
    assert_eq!(best.0, center + 50_000);
}

#[test]
fn spectrum_tone_is_loudest_at_its_own_bin() {
    // The same property for the full-spectrum strategy: run a real
    // transform on a pure tone sitting exactly on a bin and check that
    // the loudest reported frequency is that bin's.
    let n = 64;
    let sample_rate: u64 = 640_000;
    let center: i64 = 100_000_000;
    let k0 = 5; // unshifted bin index of the tone
    let mut buffer: Vec<Complex<f64>> = (0..n)
        .map(|i| {
            let phase = 2.0 * std::f64::consts::PI * k0 as f64 * i as f64 / n as f64;
            Complex::new(phase.cos(), phase.sin())
        })
        .collect();
    let mut planner = FftPlanner::new();
    let fft = planner.plan_fft_forward(n);
    fft.process(&mut buffer);

    let bins: Vec<u128> = buffer.iter().map(|c| (c.norm_sqr() * 1_000.0).round() as u128).collect();
    let out = spectrum_powers(&bins, center, sample_rate);
    assert_eq!(out.len(), n);

    let best = out.iter().max_by_key(|(_, p)| *p).unwrap();
    // Unshifted bin 5 appears at shifted index 5 + n/2, at frequency
    // center + 5 * sample_rate / n = center + 50 kHz.
    assert_eq!(best.0, center + 50_000);
    // Frequencies ascend from the most negative offset.
    assert_eq!(out[0].0, center - (sample_rate as i64) / 2);
    assert_eq!(out[n / 2].0, center);
}

#[test]
fn short_block_produces_no_readings_for_either_strategy() {
    let samples = tone(FILTER_SIZE - 1, 0.01, 1_000.0);
    let channels = vec![Channel { frequency: 5, mixer: mixer(FILTER_SIZE - 1, 100.0, 10_000.0) }];
    assert!(channel_powers(&samples, &channels).is_empty());
    assert!(channel_power(&samples, &channels[0].mixer).is_none());
    assert!(downconvert_and_filter(&samples, &channels[0].mixer).is_empty());
    assert!(!fft_block_ready(63, 64));
    assert!(fft_block_ready(64, 64));
}

#[test]
fn empty_block_produces_nothing() {
    let samples: Vec<Iq> = Vec::new();
    let mix: Vec<Iq> = Vec::new();
    assert!(channel_power(&samples, &mix).is_none());
    assert!(downconvert_and_filter(&samples, &mix).is_empty());
}

#[test]
fn short_block_leaves_detector_state_untouched() {
    let mut det = Detector::new(3, 2_000);
    det.ingest(TSData::new(0, 1, 10_000, 42));
    let before_len = det.windows[0].1.queue.len();
    let before_sum = det.windows[0].1.rolling_sum;
    // A short block yields zero readings, so there is nothing to ingest.
    let samples = tone(4, 0.01, 1_000.0);
    let channels = vec![Channel { frequency: 42, mixer: mixer(4, 100.0, 10_000.0) }];
    for (f, _p) in channel_powers(&samples, &channels) {
        det.ingest(TSData::new(1, 1, 0, f));
    }
    assert_eq!(det.windows.len(), 1);
    assert_eq!(det.windows[0].1.queue.len(), before_len);
    assert_eq!(det.windows[0].1.rolling_sum, before_sum);
}

#[test]
fn filter_output_is_exact_window_sum() {
    // Constant signal mixed with a constant mixer: every kept output is
    // the sum of one full window, and the power is the summed squared
    // magnitude divided by the block length.
    let n = FILTER_SIZE + 1;
    let samples: Vec<Iq> = (0..n).map(|_| Iq { re: 2, im: 0 }).collect();
    let mix: Vec<Iq> = (0..n).map(|_| Iq { re: 3, im: 0 }).collect();
    let out = downconvert_and_filter(&samples, &mix);
    assert_eq!(out.len(), 2);
    assert_eq!(out[0], Iq { re: 120, im: 0 });
    assert_eq!(out[1], Iq { re: 120, im: 0 });
    // 2 * 120^2 = 28800, divided by 21 samples -> 1371.
    assert_eq!(channel_power(&samples, &mix), Some(28_800 / n as u128));
}

#[test]
fn spectrum_mapping_is_exact() {
    // Four bins, center 1000 Hz, sample rate 400 Hz: shifted order is
    // bins 2, 3, 0, 1 at frequencies 800, 900, 1000, 1100.
    let bins: Vec<u128> = vec![10, 20, 30, 40];
    let out = spectrum_powers(&bins, 1_000, 400);
    assert_eq!(out, vec![(800, 30), (900, 40), (1_000, 10), (1_100, 20)]);
}
