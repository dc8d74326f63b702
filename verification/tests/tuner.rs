use radioband::demod::{if_registers, resampler_ratio};
use radioband::tuner::{manual_gain, pll_settings, PllSettings, GAIN_MAX};

#[test]
fn intermediate_frequency_is_a_negated_ratio() {
    // -floor(3570000 * 2^22 / 28800000) = -519918, in 22 bits 0x381112.
    assert_eq!(if_registers(3_570_000), (0x38, 0x11, 0x12));
    assert_eq!(if_registers(0), (0, 0, 0));
    assert_eq!(if_registers(28_800_000), (0, 0, 0));
    assert_eq!(if_registers(14_400_000), (0x20, 0, 0));
    for freq in [1u32, 7, 100, 99_999, 3_570_001, 28_799_999, 123_456_789, u32::MAX] {
        let multiplier = -((freq as i64 * (1i64 << 22)) / 28_800_000);
        let (high, middle, low) = if_registers(freq);
        assert_eq!(high as i64, (multiplier >> 16) & 0x3F);
        assert_eq!(middle as i64, (multiplier >> 8) & 0xFF);
        assert_eq!(low as i64, multiplier & 0xFF);
    }
}

#[test]
fn resampler_ratio_is_the_rounded_quotient() {
    assert_eq!(resampler_ratio(2_400_000), (50_331_648, 2_400_000));
    assert_eq!(resampler_ratio(2_048_000), (58_982_400, 2_048_000));
    assert_eq!(resampler_ratio(0), (0x0FFF_FFFC, 450_000));
    // The ratio of this rate needs one bit more than there are.
    assert_eq!(resampler_ratio(450_000), (0, u32::MAX));
}

#[test]
fn resampler_ratio_agrees_with_double_precision() {
    let scaled = 28_800_000f64 * (1u64 << 22) as f64;
    let mut rates: Vec<u32> = vec![0, 1, 2, 3, 449_999, 450_000, 450_001, u32::MAX];
    let mut rate: u64 = 5;
    while rate <= u32::MAX as u64 {
        rates.push(rate as u32);
        rate += rate / 997 + 1;
    }
    for rate in rates {
        let ratio = ((scaled / rate as f64) + 0.5) as u32 & 0x0FFF_FFFC;
        let real_rate = (scaled / ratio as f64) as u32;
        assert_eq!(resampler_ratio(rate), (ratio, real_rate), "rate {}", rate);
    }
}

#[test]
fn resampled_rates_stay_close() {
    for rate in [450_001u32, 1_000_000, 1_024_001, 2_399_999, 3_200_000] {
        let (_, real_rate) = resampler_ratio(rate);
        assert!((real_rate as i64 - rate as i64).abs() <= 1);
    }
}

#[test]
fn pll_is_set_for_broadcast_frequencies() {
    // 103.57 MHz * 32 = 3314.24 MHz = 57 steps of 57.6 MHz and 31.04 MHz.
    assert_eq!(
        pll_settings(100_000_000),
        Some(PllSettings { div_num: 4, steps: 44, fractional: true, sdm: 35316 })
    );
    // 111.63 MHz * 16 = 1786.08 MHz = 31 steps and 0.48 MHz.
    assert_eq!(
        pll_settings(108_060_000),
        Some(PllSettings { div_num: 3, steps: 18, fractional: true, sdm: 546 })
    );
    // 115.2 MHz * 16 is a whole number of steps.
    assert_eq!(
        pll_settings(111_630_000),
        Some(PllSettings { div_num: 3, steps: 19, fractional: false, sdm: 0 })
    );
}

#[test]
fn pll_cannot_be_told_low_frequencies() {
    assert_eq!(pll_settings(0), None);
    assert_eq!(pll_settings(2_279_999), None);
    assert_eq!(
        pll_settings(2_280_000),
        Some(PllSettings { div_num: 6, steps: 0, fractional: false, sdm: 0 })
    );
}

#[test]
fn pll_settings_follow_their_formula() {
    let mut freq: u64 = 2_280_000;
    while freq <= u32::MAX as u64 {
        let lo = freq + 3_570_000;
        let v = (1_770_000_000u64 / lo) as u32;
        let bits = if v == 0 { 0 } else { 31 - v.leading_zeros() };
        let div_num = (bits as u8).min(6);
        let vco = lo * (1u64 << (div_num as u64 + 1));
        let nint = vco / 57_600_000;
        let fraction = vco % 57_600_000;
        let pll = pll_settings(freq as u32).unwrap();
        assert_eq!(pll.div_num, div_num);
        assert_eq!(pll.steps as u64 + 13, nint);
        assert_eq!(pll.fractional, fraction != 0);
        assert_eq!(pll.sdm as u64, ((32768 * fraction) / 28_800_000).min(65535));
        if freq >= 24_000_000 && lo <= 1_770_000_000 {
            assert!(1_770_000_000 < vco && vco <= 3_540_000_000);
        }
        freq += freq / 311 + 12_345;
    }
}

#[test]
fn manual_gain_agrees_with_single_precision() {
    for gain in -100..=GAIN_MAX {
        let gain_db = gain as f32 / 10.0;
        let fullsteps = (gain_db / 3.5).floor() as u8;
        let halfsteps = if gain_db - 3.5 * fullsteps as f32 >= 2.3 { 1u8 } else { 0u8 };
        let expected = ((fullsteps + halfsteps).min(15), fullsteps.min(15));
        assert_eq!(manual_gain(gain), expected, "gain {}", gain);
    }
}

#[test]
fn manual_gain_splits_into_steps() {
    assert_eq!(manual_gain(-5), (0, 0));
    assert_eq!(manual_gain(22), (0, 0));
    assert_eq!(manual_gain(23), (1, 0));
    assert_eq!(manual_gain(35), (1, 1));
    assert_eq!(manual_gain(163), (4, 4));
    assert_eq!(manual_gain(164), (5, 4));
    assert_eq!(manual_gain(500), (14, 14));
    assert_eq!(manual_gain(8948), (15, 15));
}
