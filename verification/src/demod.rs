//! What the RTL2832U demodulator is told: intermediate frequency, sample-rate
//! ratio and low-pass coefficients.

use vstd::prelude::*;

use crate::tuner::XTAL_FREQ;

verus! {

/// Low-pass filter coefficients, for the registers from `LPF_FIRST_REG` up.
pub const LPF_COEFS: [u8; 20] = [
    0xCA, 0xDC, 0xD7, 0xD8, 0xE0, 0xF2, 0x0E, 0x35, 0x06, 0x50, 0x9C, 0x0D, 0x71, 0x11, 0x14, 0x71,
    0x74, 0x19, 0x41, 0xA5,
];

/// The register that holds the first low-pass filter coefficient.
pub const LPF_FIRST_REG: u16 = 0x1C;

/// Two to the power of 22: the demodulator's unit of frequency ratios.
pub const RATIO_UNIT: u64 = 0x40_0000;

/// The crystal frequency in the demodulator's unit of frequency ratios.
pub const XTAL_SCALED: u64 = 120_795_955_200_000;

// ── Intermediate frequency ─────────────────────────────────────────────────

/// The frequency multiplier for an intermediate frequency: the negated ratio
/// of `freq` to the crystal frequency, in units of 2^-22.
pub open spec fn if_multiplier(freq: u32) -> int {
    -((freq * RATIO_UNIT) / XTAL_FREQ as int)
}

/// The multiplier as its 22-bit register holds it, in two's complement.
pub open spec fn if_word(freq: u32) -> int {
    if_multiplier(freq) % (RATIO_UNIT as int)
}

/// The three bytes of the multiplier register for `freq`, most significant
/// first.
pub fn if_registers(freq: u32) -> (res: (u8, u8, u8))
    ensures
        res.0 == if_word(freq) / 0x1_0000,
        res.1 == (if_word(freq) / 0x100) % 0x100,
        res.2 == if_word(freq) % 0x100,
        res.0 < 0x40,
{
    let magnitude: u64 = (freq as u64) * RATIO_UNIT / (XTAL_FREQ as u64);
    let word: u64 = (RATIO_UNIT - magnitude % RATIO_UNIT) % RATIO_UNIT;
    proof {
        assert(freq as u64 * RATIO_UNIT == freq * RATIO_UNIT);
        assert(word == (-(magnitude as int)) % 0x40_0000);
    }
    ((word / 0x1_0000) as u8, ((word / 0x100) % 0x100) as u8, (word % 0x100) as u8)
}

/// The three register bytes put together are the multiplier, up to multiples
/// of 2^22.
pub proof fn if_registers_hold_multiplier(freq: u32, high: u8, middle: u8, low: u8)
    requires
        high == if_word(freq) / 0x1_0000,
        middle == (if_word(freq) / 0x100) % 0x100,
        low == if_word(freq) % 0x100,
    ensures
        (0x1_0000 * high + 0x100 * middle + low - if_multiplier(freq)) % (RATIO_UNIT as int) == 0,
{
    let m = if_multiplier(freq);
    assert((m % 0x40_0000 - m) % 0x40_0000 == 0);
}

// ── Sample rate ────────────────────────────────────────────────────────────

/// `x`, or the largest `u32` where `x` exceeds it.
pub open spec fn saturated(x: int) -> int {
    if x <= u32::MAX {
        x
    } else {
        u32::MAX as int
    }
}

/// The ratio of the crystal frequency to `rate`, in units of 2^-22, rounded to
/// the nearest whole number, halves up. It stops at the largest `u32`, which
/// also stands for the ratio to a rate of zero.
pub open spec fn rounded_ratio(rate: u32) -> int {
    if rate == 0 {
        u32::MAX as int
    } else {
        saturated((2 * XTAL_SCALED + rate) / (2 * rate as int))
    }
}

/// The ratio as the resampler takes it: a multiple of four below 2^28.
pub open spec fn rate_ratio(rate: u32) -> int {
    (rounded_ratio(rate) % 0x1000_0000) / 4 * 4
}

/// The sample rate that a ratio gives, rounded down. It stops at the largest
/// `u32`, which also stands for the rate that a ratio of zero gives.
pub open spec fn rate_of_ratio(ratio: int) -> int {
    if ratio == 0 {
        u32::MAX as int
    } else {
        saturated(XTAL_SCALED as int / ratio)
    }
}

/// The resampler ratio for `rate` and the sample rate that it gives, in this
/// order.
pub fn resampler_ratio(rate: u32) -> (res: (u32, u32))
    ensures
        res.0 == rate_ratio(rate),
        res.1 == rate_of_ratio(rate_ratio(rate)),
{
    let rounded: u64 = if rate == 0 {
        u32::MAX as u64
    } else {
        let exact: u64 = (2 * XTAL_SCALED + rate as u64) / (2 * rate as u64);
        if exact <= u32::MAX as u64 {
            exact
        } else {
            u32::MAX as u64
        }
    };
    let ratio: u64 = (rounded % 0x1000_0000) / 4 * 4;
    let real_rate: u64 = if ratio == 0 {
        u32::MAX as u64
    } else {
        let exact: u64 = XTAL_SCALED / ratio;
        if exact <= u32::MAX as u64 {
            exact
        } else {
            u32::MAX as u64
        }
    };
    (ratio as u32, real_rate as u32)
}

/// Above 450 kHz the resampler ratio is within four units of the exact ratio,
/// so the product of ratio and rate is the crystal frequency up to four times
/// the rate, and the ratio is never zero.
pub proof fn resampler_ratio_is_close(rate: u32)
    requires
        rate > 450_000,
    ensures
        rate_ratio(rate) > 0,
        2 * rate_ratio(rate) * rate <= 2 * XTAL_SCALED + rate,
        2 * XTAL_SCALED + rate < 2 * (rate_ratio(rate) + 4) * rate,
{
    let r = rate as int;
    let n = 2 * XTAL_SCALED as int + r;
    let q = n / (2 * r);
    vstd::arithmetic::div_mod::lemma_fundamental_div_mod(n, 2 * r);
    assert(q * (2 * r) <= n < (q + 1) * (2 * r)) by (nonlinear_arith)
        requires
            n == (2 * r) * q + n % (2 * r),
            0 <= n % (2 * r) < 2 * r,
    ;
    assert(q < 0x1000_0000) by (nonlinear_arith)
        requires
            q * (2 * r) <= n,
            n == 241_591_910_400_000 + r,
            r > 450_000,
    ;
    assert(q >= 28_000) by (nonlinear_arith)
        requires
            n < (q + 1) * (2 * r),
            n == 241_591_910_400_000 + r,
            0 < r <= u32::MAX,
    ;
    let ratio = rate_ratio(rate);
    assert(ratio <= q < ratio + 4);
    assert(2 * ratio * r <= q * (2 * r)) by (nonlinear_arith)
        requires
            ratio <= q,
            r > 0,
    ;
    assert((q + 1) * (2 * r) <= 2 * (ratio + 4) * r) by (nonlinear_arith)
        requires
            q < ratio + 4,
            r > 0,
    ;
}

/// The multiplier register holds, modulo 2^22, the negated ratio of the
/// intermediate frequency to the crystal's 28.8 MHz in units of 2^-22, which is
/// rounded down.
pub proof fn if_word_is_the_negated_ratio(freq: u32) -> (ratio: int)
    ensures
        0 <= if_word(freq) < 4_194_304,
        (if_word(freq) + ratio) % 4_194_304 == 0,
        0 <= 4_194_304 * freq - 28_800_000 * ratio < 28_800_000,
{
    let ratio = (freq * RATIO_UNIT) / XTAL_FREQ as int;
    let word = if_word(freq);
    assert(word == (-ratio) % 4_194_304);
    assert((word + ratio) % 4_194_304 == 0);
    ratio
}

/// The sample rate that is reported is the one that the ratio gives, rounded down,
/// where that fits: the ratio times the rate is the crystal frequency.
pub proof fn real_rate_matches_the_ratio(rate: u32)
    requires
        rate > 450_000,
        rate_of_ratio(rate_ratio(rate)) < u32::MAX,
    ensures
        ({
            let ratio = rate_ratio(rate);
            let given = rate_of_ratio(ratio);
            ratio * given <= 120_795_955_200_000 < ratio * (given + 1)
        }),
{
    resampler_ratio_is_close(rate);
    let ratio = rate_ratio(rate);
    let given = XTAL_SCALED as int / ratio;
    vstd::arithmetic::div_mod::lemma_fundamental_div_mod(XTAL_SCALED as int, ratio);
    assert(ratio * given <= 120_795_955_200_000 < ratio * (given + 1)) by (nonlinear_arith)
        requires
            120_795_955_200_000 == ratio * given + 120_795_955_200_000int % ratio,
            0 <= 120_795_955_200_000int % ratio < ratio,
    ;
}

} // verus!
