use radioband::arithmetic::Arithmetic;
use radioband::display::{
    format_freq, format_level, nice_freq_step, WaterfallPart, WaterfallRenderer,
};

/// Double-precision numbers; the display needs no complex ones.
struct Double;

impl Arithmetic for Double {
    type Real = f64;
    type Iq = (f64, f64);
    type Bins = Vec<(f64, f64)>;

    fn zero() -> f64 {
        0.0
    }
    fn integer(x: i64) -> f64 {
        x as f64
    }
    fn count(n: usize) -> f64 {
        n as f64
    }
    fn fraction(numerator: i64, denominator: i64) -> f64 {
        numerator as f64 / denominator as f64
    }
    fn pi() -> f64 {
        std::f64::consts::PI
    }
    fn plus(a: f64, b: f64) -> f64 {
        a + b
    }
    fn minus(a: f64, b: f64) -> f64 {
        a - b
    }
    fn times(a: f64, b: f64) -> f64 {
        a * b
    }
    fn ratio(a: f64, b: f64) -> f64 {
        a / b
    }
    fn sin(x: f64) -> f64 {
        x.sin()
    }
    fn cos(x: f64) -> f64 {
        x.cos()
    }
    fn atan2(y: f64, x: f64) -> f64 {
        y.atan2(x)
    }
    fn log10(x: f64) -> f64 {
        x.log10()
    }
    fn larger(a: f64, b: f64) -> f64 {
        a.max(b)
    }
    fn clamp(x: f64, low: f64, high: f64) -> f64 {
        x.clamp(low, high)
    }
    fn less(a: f64, b: f64) -> bool {
        a < b
    }
    fn to_byte(x: f64) -> u8 {
        x as u8
    }
    fn iq_zero() -> (f64, f64) {
        (0.0, 0.0)
    }
    fn iq(re: f64, im: f64) -> (f64, f64) {
        (re, im)
    }
    fn re(z: (f64, f64)) -> f64 {
        z.0
    }
    fn im(z: (f64, f64)) -> f64 {
        z.1
    }
    fn iq_plus(a: (f64, f64), b: (f64, f64)) -> (f64, f64) {
        (a.0 + b.0, a.1 + b.1)
    }
    fn iq_times(a: (f64, f64), b: (f64, f64)) -> (f64, f64) {
        (a.0 * b.0 - a.1 * b.1, a.0 * b.1 + a.1 * b.0)
    }
    fn iq_scaled(z: (f64, f64), factor: f64) -> (f64, f64) {
        (z.0 * factor, z.1 * factor)
    }
    fn conj(z: (f64, f64)) -> (f64, f64) {
        (z.0, -z.1)
    }
    fn norm(z: (f64, f64)) -> f64 {
        z.0.hypot(z.1)
    }
    fn transform(frame: Vec<(f64, f64)>) -> Vec<(f64, f64)> {
        frame
    }
    fn bin(bins: &Vec<(f64, f64)>, index: usize) -> (f64, f64) {
        bins[index]
    }
}

/// The grid step by logarithms.
fn step_by_logarithm(bandwidth: f64) -> f64 {
    let rough_step = bandwidth / 8.0;
    let magnitude = 10.0_f64.powf(rough_step.log10().floor());
    let normalized = rough_step / magnitude;
    let nice = if normalized < 1.5 {
        1.0
    } else if normalized < 3.5 {
        2.0
    } else if normalized < 7.5 {
        5.0
    } else {
        10.0
    };
    nice * magnitude
}

#[test]
fn grid_steps_are_round_numbers() {
    // In tenths of a hertz.
    assert_eq!(nice_freq_step(2_400_000), 2_000_000);
    assert_eq!(nice_freq_step(8), 10);
    assert_eq!(nice_freq_step(12), 20);
    assert_eq!(nice_freq_step(60), 100);
    assert_eq!(nice_freq_step(250_000), 200_000);
    assert_eq!(nice_freq_step(1_024_000), 1_000_000);
    assert_eq!(nice_freq_step(3_200_000), 5_000_000);
    let narrow: Vec<u64> = (0..8).map(nice_freq_step).collect();
    assert_eq!(narrow, vec![0, 1, 2, 5, 5, 5, 10, 10]);
    let mut bandwidth: u64 = 1;
    while bandwidth <= u32::MAX as u64 {
        let step = nice_freq_step(bandwidth as u32);
        let expected = step_by_logarithm(bandwidth as f64);
        assert!((step as f64 / 10.0 - expected).abs() < 1e-9 * expected, "width {}", bandwidth);
        assert!(5 * step < 10 * bandwidth && 10 * bandwidth < 14 * step);
        bandwidth += bandwidth / 213 + 1;
    }
}

#[test]
fn grid_lines_are_multiples_of_the_step() {
    let mut display = WaterfallRenderer::new(1024, 600);
    display.set_frequency_info(100_000_000, 2_400_000);
    let expected: Vec<i64> = (0..=12).map(|i| 988_000_000 + 2_000_000 * i).collect();
    assert_eq!(display.grid_frequencies(), expected);
    display.set_frequency_info(100_050_000, 2_400_000);
    let expected: Vec<i64> = (0..12).map(|i| 990_000_000 + 2_000_000 * i).collect();
    assert_eq!(display.grid_frequencies(), expected);
    // Negative frequencies are shown too.
    display.set_frequency_info(0, 9);
    assert_eq!(display.grid_frequencies(), vec![-40, -30, -20, -10, 0, 10, 20, 30, 40]);
    display.set_frequency_info(u32::MAX, u32::MAX);
    let expected: Vec<i64> = (5..=12).map(|i| 5_000_000_000 * i).collect();
    assert_eq!(display.grid_frequencies(), expected);
    // A narrow spectrum has its lines at fractions of a hertz, one without width
    // has none.
    display.set_frequency_info(2, 3);
    assert_eq!(display.grid_frequencies(), vec![5, 10, 15, 20, 25, 30, 35]);
    display.set_frequency_info(100, 0);
    assert!(display.grid_frequencies().is_empty());
}

#[test]
fn frequencies_are_spread_over_the_width() {
    let display = WaterfallRenderer::new(1200, 600);
    let lines = display.frequency_grid::<Double>();
    assert_eq!(lines.len(), 13);
    for (i, line) in lines.iter().enumerate() {
        assert_eq!(line.tenths, 988_000_000 + 2_000_000 * i as i64);
        let hertz = line.tenths as f64 / 10.0;
        assert_eq!(line.x, ((hertz - 98_800_000.0) / 2_400_000.0) * 1200.0);
        assert!((line.x - 100.0 * i as f64).abs() < 1e-9);
    }
}

#[test]
fn the_passband_label_is_rounded_to_kilohertz() {
    let mut display = WaterfallRenderer::new(1200, 600);
    assert_eq!(display.passband_label(), "WFM ±120k");
    display.set_mode_bandwidth(16_000, "NFM");
    assert_eq!(display.passband_label(), "NFM ±8k");
    display.set_mode_bandwidth(900, "CW");
    assert_eq!(display.passband_label(), "CW ±0.5k");
    let wide = [2_399_999u32, 1_234_567, 10_000_000, u32::MAX];
    for hz in (0..30_000u32).chain(wide) {
        display.set_mode_bandwidth(hz, "X");
        let half_khz = hz as f64 / 2.0 / 1000.0;
        let expected = if half_khz >= 1.0 {
            format!("X \u{00B1}{:.0}k", half_khz)
        } else {
            format!("X \u{00B1}{:.1}k", half_khz)
        };
        assert_eq!(display.passband_label(), expected, "width {}", hz);
    }
}

#[test]
fn passband_is_centred_and_as_wide_as_the_mode() {
    let mut display = WaterfallRenderer::new(1200, 600);
    assert_eq!((display.passband_hz, display.mode_label.as_str()), (240_000, "WFM"));
    let band = display.passband::<Double>();
    assert!((band.left - 540.0).abs() < 1e-9);
    assert!((band.center - 600.0).abs() < 1e-9);
    assert!((band.right - 660.0).abs() < 1e-9);
    display.set_mode_bandwidth(16_000, "NFM");
    assert_eq!(display.mode_label, "NFM");
    let band = display.passband::<Double>();
    assert!((band.right - band.left - 8.0).abs() < 1e-9);
}

#[test]
fn levels_are_drawn_from_top_to_bottom() {
    let display = WaterfallRenderer::new(1000, 400);
    assert_eq!(display.spectrum_height, 100);
    let points = display.spectrum_line::<Double>(&[0.0, -60.0, -30.0, 5.0, -90.0]);
    let places: Vec<(f64, f64)> = points.iter().map(|p| (p.x, p.y)).collect();
    assert_eq!(
        places,
        vec![(0.0, 0.0), (200.0, 100.0), (400.0, 50.0), (600.0, 0.0), (800.0, 100.0)]
    );
    assert!(display.spectrum_line::<Double>(&[]).is_empty());
    let lines = display.level_grid::<Double>();
    let levels: Vec<i64> = lines.iter().map(|l| l.level).collect();
    assert_eq!(levels, vec![-50, -40, -30, -20, -10]);
    assert_eq!(lines[2].y, 50.0);
    assert_eq!(lines[0].y, 100.0 * (1.0 - 10.0 / 60.0));
}

#[test]
fn pictures_are_drawn_where_their_size_fits() {
    let mut display = WaterfallRenderer::new(1024, 601);
    assert!(display.can_draw(24, 2, 3));
    assert!(!display.can_draw(20, 2, 3));
    assert!(!display.can_draw(0, 2, 3));
    assert!(!display.can_draw(24, 0, 3));
    assert!(!display.can_draw(24, 2, 0));
    assert!(display.ensure_offscreen(2, 3));
    assert!(!display.ensure_offscreen(2, 3));
    assert!(display.ensure_offscreen(2, 4));
    assert_eq!((display.off_w, display.off_h), (2, 4));
    display.resize(50, 41);
    assert_eq!((display.width, display.height, display.spectrum_height), (50, 41, 10));
    assert_eq!((display.off_w, display.off_h), (2, 4));
}

#[test]
fn a_picture_holds_what_can_be_drawn() {
    let mut display = WaterfallRenderer::new(1024, 602);
    let picture = display.render::<Double>(&[-30.0, -20.0], 24, 2, 3);
    assert_eq!(picture.waterfall, Some(WaterfallPart { resize: true, top: 150, rows: 452 }));
    let spectrum = picture.spectrum.unwrap();
    assert_eq!(spectrum.line.len(), 2);
    assert_eq!((spectrum.line[1].x, spectrum.line[1].y), (512.0, 150.0 * (1.0 - 40.0 / 60.0)));
    assert_eq!(spectrum.levels.len(), 5);
    assert_eq!(spectrum.frequencies.len(), 13);
    assert_eq!(spectrum.passband.center, 512.0);

    let picture = display.render::<Double>(&[], 24, 2, 3);
    assert_eq!(picture.waterfall, Some(WaterfallPart { resize: false, top: 150, rows: 452 }));
    assert!(picture.spectrum.is_none());

    display.set_frequency_info(100_000_000, 0);
    let picture = display.render::<Double>(&[0.0], 23, 2, 3);
    assert!(picture.waterfall.is_none());
    assert!(picture.spectrum.unwrap().frequencies.is_empty());
    assert_eq!((display.off_w, display.off_h), (2, 3));
}

fn label_by_floating_point(hz: f64) -> String {
    let mhz = hz / 1_000_000.0;
    if mhz.fract().abs() < 0.0005 {
        format!("{:.0} MHz", mhz)
    } else if (mhz * 10.0).fract().abs() < 0.005 {
        format!("{:.1}", mhz)
    } else {
        format!("{:.2}", mhz)
    }
}

#[test]
fn frequencies_are_labelled_in_megahertz() {
    for (hertz, expected) in [
        (100_000_000i64, "100 MHz"),
        (100_000_499, "100 MHz"),
        (100_000_500, "100.00"),
        (98_800_000, "98.8"),
        (98_800_499, "98.8"),
        (98_850_000, "98.85"),
        (99_999_999, "100.00"),
        (100_005_000, "100.00"),
        (100_015_000, "100.02"),
        (99_125_000, "99.12"),
        (99_375_000, "99.38"),
        (0, "0 MHz"),
        (-300, "-0 MHz"),
        (-1_200_000, "-1.2"),
        (-125_000, "-0.12"),
    ] {
        assert_eq!(format_freq(10 * hertz), expected, "{} Hz", hertz);
    }
    // Half a hertz short of 500 Hz beyond a whole megahertz, and at it.
    assert_eq!(format_freq(1_000_004_995), "100 MHz");
    assert_eq!(format_freq(1_000_005_000), "100.00");
    assert_eq!(format_freq(i64::MIN), "-922337203685.48");
    for step in [1_000i64, 5_000, 20_000, 50_000, 200_000, 500_000] {
        for i in -2_000..40_000 {
            let hertz = i * step;
            if hertz <= 6_500_000_000 {
                assert_eq!(
                    format_freq(10 * hertz),
                    label_by_floating_point(hertz as f64),
                    "{} Hz",
                    hertz
                );
            }
        }
    }
}

#[test]
fn lines_carry_their_labels() {
    let mut display = WaterfallRenderer::new(1200, 600);
    let spectrum = display.render::<Double>(&[-30.0], 0, 0, 0).spectrum.unwrap();
    let labels: Vec<&str> = spectrum.frequencies.iter().map(|l| l.label.as_str()).collect();
    assert_eq!(labels[0], "98.8");
    assert_eq!(labels[1], "99 MHz");
    assert_eq!(labels[6], "100 MHz");
    let labels: Vec<&str> = spectrum.levels.iter().map(|l| l.label.as_str()).collect();
    assert_eq!(labels, vec!["-50 dB", "-40 dB", "-30 dB", "-20 dB", "-10 dB"]);
    assert_eq!(spectrum.passband.label, "WFM ±120k");
    assert_eq!(format_level(0), "0 dB");
    assert_eq!(format_level(12), "12 dB");
}
