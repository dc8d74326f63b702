use std::f32::consts::PI;

use num_complex::Complex;
use radioband::arithmetic::Arithmetic;
use radioband::colour::db_to_rgba;
use radioband::config::{DemodMode, DspConfig};
use radioband::demodulate::{am_demod, DeEmphasis, FmDemod};
use radioband::filter::{decimate, FirLowPass, FirLowPassReal};
use radioband::mock::MockIqSource;
use radioband::pipeline::DspPipeline;
use radioband::spectrum::{compute_spectrum, u8_iq_to_complex};
use radioband::waterfall::WaterfallBuffer;
use radioband::worker::Worker;
use rustfft::FftPlanner;

/// Single-precision numbers.
struct Single;

impl Arithmetic for Single {
    type Real = f32;
    type Iq = Complex<f32>;
    type Bins = Vec<Complex<f32>>;

    fn zero() -> f32 {
        0.0
    }
    fn integer(x: i64) -> f32 {
        x as f32
    }
    fn count(n: usize) -> f32 {
        n as f32
    }
    fn fraction(numerator: i64, denominator: i64) -> f32 {
        numerator as f32 / denominator as f32
    }
    fn pi() -> f32 {
        PI
    }
    fn plus(a: f32, b: f32) -> f32 {
        a + b
    }
    fn minus(a: f32, b: f32) -> f32 {
        a - b
    }
    fn times(a: f32, b: f32) -> f32 {
        a * b
    }
    fn ratio(a: f32, b: f32) -> f32 {
        a / b
    }
    fn sin(x: f32) -> f32 {
        x.sin()
    }
    fn cos(x: f32) -> f32 {
        x.cos()
    }
    fn atan2(y: f32, x: f32) -> f32 {
        y.atan2(x)
    }
    fn log10(x: f32) -> f32 {
        x.log10()
    }
    fn larger(a: f32, b: f32) -> f32 {
        a.max(b)
    }
    fn clamp(x: f32, low: f32, high: f32) -> f32 {
        x.clamp(low, high)
    }
    fn less(a: f32, b: f32) -> bool {
        a < b
    }
    fn to_byte(x: f32) -> u8 {
        x as u8
    }
    fn iq_zero() -> Complex<f32> {
        Complex::new(0.0, 0.0)
    }
    fn iq(re: f32, im: f32) -> Complex<f32> {
        Complex::new(re, im)
    }
    fn re(z: Complex<f32>) -> f32 {
        z.re
    }
    fn im(z: Complex<f32>) -> f32 {
        z.im
    }
    fn iq_plus(a: Complex<f32>, b: Complex<f32>) -> Complex<f32> {
        a + b
    }
    fn iq_times(a: Complex<f32>, b: Complex<f32>) -> Complex<f32> {
        a * b
    }
    fn iq_scaled(z: Complex<f32>, factor: f32) -> Complex<f32> {
        z * factor
    }
    fn conj(z: Complex<f32>) -> Complex<f32> {
        z.conj()
    }
    fn norm(z: Complex<f32>) -> f32 {
        z.norm()
    }
    fn transform(frame: Vec<Complex<f32>>) -> Vec<Complex<f32>> {
        let mut frame = frame;
        let mut planner = FftPlanner::<f32>::new();
        planner.plan_fft_forward(frame.len()).process(&mut frame);
        frame
    }
    fn bin(bins: &Vec<Complex<f32>>, index: usize) -> Complex<f32> {
        bins[index]
    }
}

/// The coefficients of a low-pass filter, by their formula.
fn taps(cutoff: f32, rate: f32, m: isize) -> Vec<f32> {
    let fc = cutoff / rate;
    let raw: Vec<f32> = (0..m)
        .map(|i| {
            let n = i - m / 2;
            let h = if n == 0 {
                2.0 * PI * fc
            } else {
                (2.0 * PI * fc * n as f32).sin() / (n as f32)
            };
            h * (0.5 * (1.0 - (2.0 * PI * i as f32 / (m - 1) as f32).cos()))
        })
        .collect();
    let mut sum = 0.0f32;
    for t in &raw {
        sum += t;
    }
    raw.iter().map(|t| t / sum).collect()
}

fn mock_bytes(n: usize) -> Vec<u8> {
    MockIqSource::<Single>::new(2_400_000.0).generate(n)
}

#[test]
fn test_u8_iq_to_complex() {
    let raw = [127, 128, 0, 255];
    let c = u8_iq_to_complex::<Single>(&raw);
    assert_eq!(c.len(), 2);
    assert!((c[0].re - (-0.5 / 127.5)).abs() < 0.01);
}

#[test]
fn test_mock_iq_source() {
    let mut mock = MockIqSource::<Single>::new(2_400_000.0);
    let data = mock.generate(16384);
    assert_eq!(data.len(), 16384);
    // All values should be in 0..255
    #[allow(unused_comparisons)]
    let in_range = data.iter().all(|&v| v <= 255);
    assert!(in_range);
}

#[test]
fn test_spectrum() {
    let mut mock = MockIqSource::<Single>::new(2_400_000.0);
    let raw = mock.generate(8192);
    let iq = u8_iq_to_complex::<Single>(&raw);
    let spectrum = compute_spectrum::<Single>(&iq, 2048);
    assert_eq!(spectrum.len(), 2048);
}

#[test]
fn test_pipeline() {
    let config = DspConfig {
        sample_rate: 2_400_000,
        fft_size: 2048,
        mode: DemodMode::WFM,
        audio_rate: 48_000,
    };
    let mut pipeline = DspPipeline::<Single>::new(config);
    let mut mock = MockIqSource::<Single>::new(2_400_000.0);
    let raw = mock.generate(16384);
    let result = pipeline.process(&raw);
    assert_eq!(result.spectrum.len(), 2048);
    assert!(!result.audio.is_empty());
}

#[test]
fn samples_are_centred_and_scaled() {
    let c = u8_iq_to_complex::<Single>(&[0, 255, 127, 128, 200]);
    assert_eq!(c, vec![Complex::new(-1.0, 1.0), Complex::new(-0.5 / 127.5, 0.5 / 127.5)]);
    assert!(u8_iq_to_complex::<Single>(&[]).is_empty());
}

#[test]
fn impulse_response_is_the_coefficients() {
    let expected = taps(120_000.0, 2_400_000.0, 31);
    let mut filter = FirLowPass::<Single>::new(120_000.0, 2_400_000.0, 31);
    let mut response = vec![filter.process_one(Complex::new(1.0, -1.0))];
    for _ in 0..35 {
        response.push(filter.process_one(Complex::new(0.0, 0.0)));
    }
    for (i, y) in response.iter().enumerate() {
        let tap = if i < 31 { expected[i] } else { 0.0 };
        assert_eq!(*y, Complex::new(tap, -tap), "coefficient {}", i);
    }
    assert!((expected.iter().sum::<f32>() - 1.0).abs() < 1e-5);
}

#[test]
fn real_filter_has_the_same_response() {
    let expected = taps(15_000.0, 240_000.0, 31);
    let mut filter = FirLowPassReal::<Single>::new(15_000.0, 240_000.0, 31);
    let mut impulse = vec![0.0f32; 31];
    impulse[0] = 1.0;
    assert_eq!(filter.filter_decimate(&impulse, 1), expected);
}

#[test]
fn a_filter_without_coefficients_takes_an_empty_block() {
    let mut filter = FirLowPass::<Single>::new(120_000.0, 2_400_000.0, 0);
    assert!(filter.filter_decimate(&[], 3).is_empty());
}

#[test]
fn decimation_keeps_the_first_of_each_period() {
    let iq = u8_iq_to_complex::<Single>(&mock_bytes(200));
    let mut one_by_one = FirLowPass::<Single>::new(8_000.0, 2_400_000.0, 31);
    let all: Vec<Complex<f32>> = iq.iter().map(|&s| one_by_one.process_one(s)).collect();
    let mut filter = FirLowPass::<Single>::new(8_000.0, 2_400_000.0, 31);
    let kept = filter.filter_decimate(&iq, 7);
    assert_eq!(kept.len(), 15);
    for (j, y) in kept.iter().enumerate() {
        assert_eq!(*y, all[7 * j]);
    }
    assert_eq!(decimate(&[0, 1, 2, 3, 4, 5, 6], 3), vec![0, 3, 6]);
    assert_eq!(decimate(&[1.5f32, 2.5], 5), vec![1.5]);
    assert!(decimate::<f32>(&[], 2).is_empty());
}

#[test]
fn filters_do_not_notice_block_boundaries() {
    let iq = u8_iq_to_complex::<Single>(&mock_bytes(400));
    let mut whole = FirLowPass::<Single>::new(120_000.0, 2_400_000.0, 31);
    let mut parts = FirLowPass::<Single>::new(120_000.0, 2_400_000.0, 31);
    let mut joined = parts.filter_decimate(&iq[..70], 10);
    joined.extend(parts.filter_decimate(&iq[70..], 10));
    assert_eq!(whole.filter_decimate(&iq, 10), joined);

    let levels: Vec<f32> = iq.iter().map(|z| z.re).collect();
    let mut whole = FirLowPassReal::<Single>::new(15_000.0, 240_000.0, 31);
    let mut parts = FirLowPassReal::<Single>::new(15_000.0, 240_000.0, 31);
    let mut joined = parts.filter_decimate(&levels[..35], 5);
    joined.extend(parts.filter_decimate(&levels[35..], 5));
    assert_eq!(whole.filter_decimate(&levels, 5), joined);
}

#[test]
fn fm_follows_the_phase_from_sample_to_sample() {
    let angle = |i: i32| 0.3 * i as f32;
    let samples: Vec<Complex<f32>> =
        (0..50).map(|i| Complex::new(angle(i).cos(), angle(i).sin())).collect();
    let mut demod = FmDemod::<Single>::new(75_000.0, 240_000.0);
    let gain = 240_000.0 / (2.0 * PI * 75_000.0);
    let out = demod.demodulate(&samples);
    assert_eq!(out[0], 0.0);
    for y in &out[1..] {
        assert!((y - 0.3 * gain).abs() < 1e-5);
    }

    let mut parts = FmDemod::<Single>::new(75_000.0, 240_000.0);
    let mut joined = parts.demodulate(&samples[..17]);
    joined.extend(parts.demodulate(&samples[17..]));
    assert_eq!(out, joined);
}

#[test]
fn am_is_the_envelope_without_its_mean() {
    let samples = [Complex::new(3.0, 4.0), Complex::new(0.0, 1.0), Complex::new(-3.0, 0.0)];
    assert_eq!(am_demod::<Single>(&samples), vec![2.0, -2.0, 0.0]);
    assert!(am_demod::<Single>(&[]).is_empty());
}

#[test]
fn de_emphasis_is_a_single_pole() {
    let dt = 1.0f32 / 48_000.0;
    let tau = 50.0f32 * 1e-6;
    let alpha = dt / (tau + dt);
    let samples = [1.0f32, 1.0, -0.5, 0.25];
    let mut expected = Vec::new();
    let mut prev = 0.0f32;
    for s in samples {
        prev = alpha * s + (1.0 - alpha) * prev;
        expected.push(prev);
    }
    let mut out = samples.to_vec();
    DeEmphasis::<Single>::new(50.0, 48_000.0).process(&mut out);
    assert_eq!(out, expected);

    let mut parts = DeEmphasis::<Single>::new(50.0, 48_000.0);
    let mut first = samples[..1].to_vec();
    let mut second = samples[1..].to_vec();
    parts.process(&mut first);
    parts.process(&mut second);
    first.extend(second);
    assert_eq!(first, expected);
}

#[test]
fn centre_frequency_is_shown_in_the_middle() {
    for n in [8usize, 9, 64, 75] {
        let steady = vec![Complex::new(1.0f32, 0.0); n];
        let spectrum = compute_spectrum::<Single>(&steady, n);
        assert_eq!(spectrum.len(), n);
        let peak = (0..n).max_by(|&a, &b| spectrum[a].total_cmp(&spectrum[b])).unwrap();
        assert_eq!(peak, n / 2, "size {}", n);
        // Half of the window's weight is its mean.
        assert!((spectrum[peak] - 20.0 * 0.5f32.log10()).abs() < 0.01);
    }
}

#[test]
fn a_tone_above_the_centre_is_shown_to_the_right() {
    let n = 64;
    let tone = |k: f32| -> Vec<Complex<f32>> {
        (0..n)
            .map(|i| {
                let angle = 2.0 * PI * k * i as f32 / n as f32;
                Complex::new(angle.cos(), angle.sin())
            })
            .collect()
    };
    let peak = |samples: &[Complex<f32>]| {
        let spectrum = compute_spectrum::<Single>(samples, n);
        (0..n).max_by(|&a, &b| spectrum[a].total_cmp(&spectrum[b])).unwrap()
    };
    assert_eq!(peak(&tone(10.0)), 42);
    assert_eq!(peak(&tone(-10.0)), 22);
}

#[test]
fn short_frames_are_filled_up_and_silence_has_a_floor() {
    let spectrum = compute_spectrum::<Single>(&[], 16);
    assert_eq!(spectrum, vec![20.0 * 1e-10f32.log10(); 16]);
    let samples = vec![Complex::new(1.0f32, 0.0); 4];
    let mut filled = samples.clone();
    filled.resize(16, Complex::new(0.0, 0.0));
    assert_eq!(
        compute_spectrum::<Single>(&samples, 16),
        compute_spectrum::<Single>(&filled, 16)
    );
    let mut long = filled.clone();
    long.extend(vec![Complex::new(5.0f32, 5.0); 9]);
    assert_eq!(compute_spectrum::<Single>(&long, 16), compute_spectrum::<Single>(&filled, 16));
    assert!(compute_spectrum::<Single>(&samples, 0).is_empty());
}

#[test]
fn colours_run_from_blue_to_red() {
    let colour = |db: f32| db_to_rgba::<Single>(db, -60.0, 0.0);
    assert_eq!(colour(-60.0), [0, 0, 255, 255]);
    assert_eq!(colour(-100.0), [0, 0, 255, 255]);
    assert_eq!(colour(-52.5), [0, 0, 255, 255]);
    assert_eq!(colour(-45.0), [0, 0, 255, 255]);
    assert_eq!(colour(-37.5), [0, 127, 255, 255]);
    assert_eq!(colour(-30.0), [0, 255, 255, 255]);
    assert_eq!(colour(-26.25), [0, 255, 127, 255]);
    assert_eq!(colour(-22.5), [0, 255, 0, 255]);
    assert_eq!(colour(-18.75), [127, 255, 0, 255]);
    assert_eq!(colour(-15.0), [255, 255, 0, 255]);
    assert_eq!(colour(-7.5), [255, 127, 0, 255]);
    assert_eq!(colour(0.0), [255, 0, 0, 255]);
    assert_eq!(colour(12.0), [255, 0, 0, 255]);
    for tenths in -900..300 {
        let db = tenths as f32 / 10.0;
        assert_eq!(colour(db), colour(db.clamp(-60.0, 0.0)));
        assert_eq!(colour(db)[3], 255);
    }
}

#[test]
fn waterfall_drops_the_oldest_line() {
    let mut buffer = WaterfallBuffer::<Single>::new(2, 3);
    assert_eq!(buffer.get_ordered_rows(), vec![0u8; 24]);
    assert_eq!((buffer.min_db, buffer.max_db), (-60.0, 0.0));
    let blue = [0u8, 0, 255, 255];
    let cyan = [0u8, 255, 255, 255];
    let red = [255u8, 0, 0, 255];
    let row = |a: [u8; 4], b: [u8; 4]| [a, b].concat();
    buffer.push_line(&[-60.0, -30.0]);
    // The newest row is the one at the write position.
    assert_eq!(buffer.write_pos, 1);
    assert_eq!(buffer.data[8..16], row(blue, cyan));
    assert_eq!(buffer.get_ordered_rows(), [vec![0u8; 16], row(blue, cyan)].concat());
    buffer.push_line(&[0.0, 0.0, -60.0]);
    buffer.push_line(&[-30.0, -30.0]);
    assert_eq!(buffer.write_pos, 0);
    assert_eq!(buffer.data[..8], row(cyan, cyan));
    assert_eq!(
        buffer.get_ordered_rows(),
        [row(blue, cyan), row(red, red), row(cyan, cyan)].concat()
    );
    // A short line keeps the rest of the row that it replaces.
    buffer.push_line(&[0.0]);
    assert_eq!(
        buffer.get_ordered_rows(),
        [row(red, red), row(cyan, cyan), row(red, cyan)].concat()
    );
    let mut single = WaterfallBuffer::<Single>::new(1, 1);
    single.push_line(&[0.0]);
    assert_eq!((single.write_pos, single.get_ordered_rows()), (0, red.to_vec()));
    assert!(WaterfallBuffer::<Single>::new(5, 0).get_ordered_rows().is_empty());
}

/// The audio of one block, stage by stage.
fn audio_of(mode: DemodMode, rate: u32, raw: &[u8]) -> Vec<f32> {
    let (cutoff, own, deviation) = match mode {
        DemodMode::WFM => (120_000.0, 240_000, 75_000.0),
        DemodMode::NFM => (8_000.0, 48_000, 5_000.0),
        DemodMode::AM => (5_000.0, 48_000, 5_000.0),
    };
    let decim = (rate / own).max(1) as usize;
    let intermediate = rate as f32 / decim as f32;
    let iq = u8_iq_to_complex::<Single>(raw);
    let narrowed =
        FirLowPass::<Single>::new(cutoff, rate as f32, 31).filter_decimate(&iq, decim);
    let demodulated = if mode == DemodMode::AM {
        am_demod::<Single>(&narrowed)
    } else {
        FmDemod::<Single>::new(deviation, intermediate).demodulate(&narrowed)
    };
    let mut audio = if mode == DemodMode::WFM {
        FirLowPassReal::<Single>::new(15_000.0, intermediate, 31).filter_decimate(&demodulated, 5)
    } else {
        demodulated
    };
    if mode == DemodMode::WFM {
        DeEmphasis::<Single>::new(50.0, 48_000.0).process(&mut audio);
    }
    audio.iter().map(|s| s.clamp(-1.0, 1.0)).collect()
}

#[test]
fn pipeline_passes_each_mode_through_its_stages() {
    let raw = mock_bytes(16384);
    for mode in [DemodMode::WFM, DemodMode::NFM, DemodMode::AM] {
        let config = DspConfig { sample_rate: 2_400_000, fft_size: 256, mode, audio_rate: 48_000 };
        let mut pipeline = DspPipeline::<Single>::new(config);
        let result = pipeline.process(&raw);
        assert_eq!(result.audio, audio_of(mode, 2_400_000, &raw));
        assert!(result.audio.iter().all(|s| (-1.0..=1.0).contains(s)));
        let iq = u8_iq_to_complex::<Single>(&raw);
        assert_eq!(result.spectrum, compute_spectrum::<Single>(&iq, 256));
        let decims = (pipeline.iq_decim, pipeline.audio_decim);
        assert_eq!(decims, if mode == DemodMode::WFM { (10, 5) } else { (50, 1) });
        assert_eq!(result.audio.len(), 164);
    }
}

#[test]
fn pipeline_shows_a_short_block_as_the_lowest_level() {
    let config =
        DspConfig { sample_rate: 2_400_000, fft_size: 64, mode: DemodMode::NFM, audio_rate: 48_000 };
    let mut pipeline = DspPipeline::<Single>::new(config);
    let result = pipeline.process(&[1, 2, 3]);
    assert_eq!(result.spectrum, vec![-60.0; 64]);
    assert_eq!(result.audio.len(), 1);
    assert_eq!(pipeline.waterfall.write_pos, 1);
    let rows = pipeline.waterfall.get_ordered_rows();
    assert_eq!(rows.len(), 64 * 200 * 4);
    assert_eq!(rows[64 * 199 * 4..64 * 199 * 4 + 4], [0, 0, 255, 255]);
}

#[test]
fn pipeline_does_not_notice_block_boundaries_in_fm() {
    let raw = mock_bytes(8000);
    for mode in [DemodMode::WFM, DemodMode::NFM] {
        let config = DspConfig { sample_rate: 2_400_000, fft_size: 64, mode, audio_rate: 48_000 };
        let mut whole = DspPipeline::<Single>::new(config);
        let mut parts = DspPipeline::<Single>::new(config);
        let mut joined = parts.process(&raw[..3000]).audio;
        joined.extend(parts.process(&raw[3000..]).audio);
        assert_eq!(whole.process(&raw).audio, joined);
    }
}

#[test]
fn low_sample_rates_are_not_decimated() {
    for mode in [DemodMode::WFM, DemodMode::NFM, DemodMode::AM] {
        let config = DspConfig { sample_rate: 32_000, fft_size: 16, mode, audio_rate: 300_000 };
        let plan = config.plan();
        assert_eq!((plan.iq_decim, plan.audio_decim), (1, 1));
        assert_eq!(mode.passband(), 2 * plan.iq_cutoff);
    }
}

#[test]
fn mock_source_makes_a_modulated_carrier_with_noise() {
    let (mut phase, mut audio_phase, mut seed) = (0.0f32, 0.0f32, 42u32);
    let dt = 1.0f32 / 2_400_000.0;
    let mut noise = || {
        seed ^= seed << 13;
        seed ^= seed >> 17;
        seed ^= seed << 5;
        (seed as f32 / u32::MAX as f32) * 2.0 - 1.0
    };
    let mut expected = Vec::new();
    for _ in 0..5000 {
        let audio = (2.0 * PI * 1000.0 * audio_phase).sin();
        audio_phase += dt;
        if audio_phase > 1.0 {
            audio_phase -= 1.0;
        }
        phase += 2.0 * PI * (50_000.0 + 75_000.0 * audio) * dt;
        if phase > PI {
            phase -= 2.0 * PI;
        }
        let noise_i = noise() * 0.05;
        let noise_q = noise() * 0.05;
        expected.push(((phase.cos() + noise_i) * 80.0 + 127.5).clamp(0.0, 255.0) as u8);
        expected.push(((phase.sin() + noise_q) * 80.0 + 127.5).clamp(0.0, 255.0) as u8);
    }
    let mut source = MockIqSource::<Single>::new(2_400_000.0);
    assert_eq!(source.generate(10_001), expected);
    assert_eq!(source.noise_seed, seed);

    let mut parts = MockIqSource::<Single>::new(2_400_000.0);
    let mut joined = parts.generate(1234);
    joined.extend(parts.generate(8766));
    assert_eq!(joined, expected);
    assert!(source.generate(1).is_empty());
}

#[test]
fn noise_never_repeats_at_once() {
    let mut source = MockIqSource::<Single>::new(1.0);
    let mut last = source.noise_seed;
    for _ in 0..1000 {
        let value = source.cheap_noise();
        assert!((-1.0..=1.0).contains(&value));
        assert!(source.noise_seed != 0 && source.noise_seed != last);
        last = source.noise_seed;
    }
}

#[test]
fn worker_does_nothing_before_it_is_configured() {
    let mut worker = Worker::<Single>::init_worker();
    assert!(worker.process_iq(&[1, 2, 3, 4]).is_none());
    assert!(worker.generate_mock_iq(100).is_empty());
    worker.set_mode("am");
    assert!(worker.pipeline.is_none() && worker.mock.is_none());
}

#[test]
fn worker_processes_what_it_generates() {
    let mut worker = Worker::<Single>::init_worker();
    worker.configure(2_400_000, 128, "wfm");
    let raw = worker.generate_mock_iq(4096);
    assert_eq!(raw, mock_bytes(4096));
    let out = worker.process_iq(&raw).unwrap();
    assert_eq!((out.wf_width, out.wf_height), (128, 200));
    assert_eq!(out.waterfall.len(), 128 * 200 * 4);
    assert_eq!(out.result.audio, audio_of(DemodMode::WFM, 2_400_000, &raw));
    let last = db_to_rgba::<Single>(out.result.spectrum[127], -60.0, 0.0);
    assert_eq!(out.waterfall[128 * 200 * 4 - 4..], last);
}

#[test]
fn worker_keeps_waterfall_and_mock_source_in_a_new_mode() {
    let mut worker = Worker::<Single>::init_worker();
    worker.configure(1_200_000, 64, "anything");
    assert_eq!(worker.pipeline.as_ref().unwrap().config.mode, DemodMode::WFM);
    let mut generated = worker.generate_mock_iq(500);
    let shown = worker.process_iq(&generated).unwrap().waterfall;
    worker.set_mode("nfm");
    let pipeline = worker.pipeline.as_ref().unwrap();
    assert_eq!(pipeline.config.mode, DemodMode::NFM);
    assert_eq!(pipeline.config.sample_rate, 1_200_000);
    assert_eq!((pipeline.config.fft_size, pipeline.config.audio_rate), (64, 48_000));
    assert_eq!((pipeline.iq_decim, pipeline.audio_decim), (25, 1));
    assert_eq!(pipeline.waterfall.write_pos, 1);
    assert_eq!(pipeline.waterfall.get_ordered_rows(), shown);
    // The mock source goes on where it was.
    let more = worker.generate_mock_iq(500);
    generated.extend(&more);
    assert_eq!(generated, MockIqSource::<Single>::new(1_200_000.0).generate(1000));
    // The filters start afresh.
    let out = worker.process_iq(&more).unwrap();
    assert_eq!(out.result.audio, audio_of(DemodMode::NFM, 1_200_000, &more));
    assert_eq!((out.wf_width, out.wf_height), (64, 200));
    worker.set_mode("am");
    assert_eq!(worker.pipeline.as_ref().unwrap().config.mode, DemodMode::AM);
}

#[test]
fn pipeline_changes_its_mode_in_place() {
    let raw = mock_bytes(4000);
    let config =
        DspConfig { sample_rate: 2_400_000, fft_size: 64, mode: DemodMode::AM, audio_rate: 48_000 };
    let mut pipeline = DspPipeline::<Single>::new(config);
    pipeline.process(&raw);
    pipeline.set_mode(DemodMode::WFM);
    assert_eq!((pipeline.iq_decim, pipeline.audio_decim), (10, 5));
    assert_eq!(pipeline.waterfall.write_pos, 1);
    assert_eq!(pipeline.process(&raw).audio, audio_of(DemodMode::WFM, 2_400_000, &raw));
}

#[test]
fn every_mode_delivers_48_kilohertz() {
    for mode in [DemodMode::WFM, DemodMode::NFM, DemodMode::AM] {
        let config = DspConfig { sample_rate: 2_400_000, fft_size: 16, mode, audio_rate: 48_000 };
        for n in [0usize, 50, 100, 1250] {
            let mut pipeline = DspPipeline::<Single>::new(config);
            assert_eq!(pipeline.process(&vec![200u8; 2 * n]).audio.len(), n / 50);
        }
    }
}

#[test]
fn the_real_filter_is_the_complex_one_on_real_samples() {
    let levels: Vec<f32> = (0..90).map(|i| (i as f32 * 0.37).sin()).collect();
    let samples: Vec<Complex<f32>> = levels.iter().map(|&x| Complex::new(x, 0.0)).collect();
    let mut real_filter = FirLowPassReal::<Single>::new(15_000.0, 240_000.0, 31);
    let mut complex_filter = FirLowPass::<Single>::new(15_000.0, 240_000.0, 31);
    let expected: Vec<f32> =
        complex_filter.filter_decimate(&samples, 4).iter().map(|z| z.re).collect();
    assert_eq!(real_filter.filter_decimate(&levels, 4), expected);
    assert_eq!(expected.len(), 23);
}

#[test]
fn audio_and_spectrum_stay_within_their_bounds() {
    let loud: Vec<u8> = (0..20_000u32).map(|i| if (i / 700) % 2 == 0 { 255 } else { 0 }).collect();
    for mode in [DemodMode::WFM, DemodMode::NFM, DemodMode::AM] {
        let config = DspConfig { sample_rate: 2_400_000, fft_size: 64, mode, audio_rate: 48_000 };
        let mut pipeline = DspPipeline::<Single>::new(config);
        for raw in [&loud, &mock_bytes(20_000)] {
            let result = pipeline.process(raw);
            assert_eq!(result.audio.len(), 200);
            assert!(result.audio.iter().all(|&x| (-1.0..=1.0).contains(&x)));
            assert_eq!(result.spectrum.len(), 64);
            assert!(result.spectrum.iter().all(|&db| db >= 20.0 * 1e-10f32.log10()));
        }
    }
}

#[test]
fn a_steady_input_comes_out_as_itself() {
    for (cutoff, rate, num_taps) in [(120_000.0, 2_400_000.0, 51), (15_000.0, 240_000.0, 31)] {
        let c = Complex::new(0.75f32, -0.5);
        let mut filter = FirLowPass::<Single>::new(cutoff, rate, num_taps);
        let mut out = Complex::new(0.0, 0.0);
        for _ in 0..num_taps {
            out = filter.process_one(c);
        }
        assert!((out - c).norm() < 1e-5);
        let block = vec![c; 2 * num_taps];
        let last = *filter.filter_decimate(&block, 1).last().unwrap();
        assert!((last - c).norm() < 1e-5);
    }
}

#[test]
fn colours_move_along_the_gradient_as_the_level_rises() {
    let progress = |c: [u8; 4]| {
        if c[1] < 255 && c[2] == 255 {
            c[1] as i32
        } else if c[1] == 255 && c[0] == 0 {
            510 - c[2] as i32
        } else if c[1] == 255 {
            510 + c[0] as i32
        } else {
            1020 - c[1] as i32
        }
    };
    let mut before = 0;
    for hundredths in -7000..500 {
        let place = progress(db_to_rgba::<Single>(hundredths as f32 / 100.0, -60.0, 0.0));
        assert!(place >= before);
        before = place;
    }
    assert_eq!(progress(db_to_rgba::<Single>(-60.0, -60.0, 0.0)), 0);
    assert_eq!(progress(db_to_rgba::<Single>(0.0, -60.0, 0.0)), 1020);
}

#[test]
fn de_emphasis_takes_part_of_a_block() {
    let mut samples = [1.0f32, 1.0, 1.0, 1.0];
    let mut filter = DeEmphasis::<Single>::new(50.0, 48_000.0);
    filter.process(&mut samples[1..3]);
    assert_eq!((samples[0], samples[3]), (1.0, 1.0));
    assert_eq!(samples[1], filter.alpha);
    assert_eq!(samples[2], filter.prev);
}
