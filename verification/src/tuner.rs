//! What the R820T tuner is told: PLL settings, gain indices and initial
//! register contents.

use vstd::prelude::*;

verus! {

/// R820T intermediate frequency (Hz).
pub const R820T_IF_FREQ: u32 = 3_570_000;

/// Crystal frequency (Hz), shared by the demodulator and the tuner's PLL.
pub const XTAL_FREQ: u32 = 28_800_000;

/// Half of the highest frequency that the PLL's oscillator runs at (Hz).
pub const VCO_HALF_MAX: u64 = 1_770_000_000;

/// The first register that tuner initialisation writes.
pub const R820T_FIRST_REG: u8 = 0x05;

/// Initial values of the tuner registers from `R820T_FIRST_REG` up.
pub const R820T_INIT_REGS: [u8; 27] = [
    0x83, 0x32, 0x75, 0xC0, 0x40, 0xD6, 0x6C, 0xF5, 0x63, 0x75, 0x68, 0x6C, 0x83, 0x80, 0x00, 0x0F,
    0x00, 0xC0, 0x30, 0x48, 0xCC, 0x60, 0x00, 0x54, 0xAE, 0x4A, 0xC0,
];

// ── PLL ────────────────────────────────────────────────────────────────────

/// The integer part of the binary logarithm of `v`; 0 where `v` is below 2.
pub open spec fn floor_log2(v: nat) -> nat
    decreases v,
{
    if v < 2 {
        0
    } else {
        1 + floor_log2(v / 2)
    }
}

/// Local-oscillator frequency that brings `freq` to the intermediate
/// frequency.
pub open spec fn lo_freq(freq: u32) -> nat {
    (freq + R820T_IF_FREQ) as nat
}

/// Exponent of the mixer divider: the PLL runs at the local-oscillator
/// frequency times two to the power of this plus one.
pub open spec fn div_num(freq: u32) -> nat {
    let bits = floor_log2(VCO_HALF_MAX as nat / lo_freq(freq));
    if bits < 6 {
        bits
    } else {
        6
    }
}

/// The mixer divider.
pub open spec fn mix_div(freq: u32) -> nat {
    vstd::arithmetic::power2::pow2(div_num(freq) + 1)
}

/// Frequency of the PLL's oscillator (Hz).
pub open spec fn vco_freq(freq: u32) -> nat {
    lo_freq(freq) * mix_div(freq)
}

/// How many whole steps of twice the crystal frequency the oscillator
/// frequency holds.
pub open spec fn pll_nint(freq: u32) -> nat {
    vco_freq(freq) / (2 * XTAL_FREQ as nat)
}

/// What is left of the oscillator frequency beyond the whole steps (Hz).
pub open spec fn pll_fraction(freq: u32) -> nat {
    vco_freq(freq) % (2 * XTAL_FREQ as nat)
}

/// The fraction as the sigma-delta modulator takes it: in 1/65536 of a step,
/// rounded down.
pub open spec fn pll_sdm(freq: u32) -> nat {
    65536 * pll_fraction(freq) / (2 * XTAL_FREQ as nat)
}

/// The smallest multiple of the PLL step that its registers can hold.
pub const PLL_NINT_MIN: u32 = 13;

/// Settings of the tuner's PLL for one frequency.
#[derive(Clone, Copy, Debug, PartialEq, Eq, Structural)]
pub struct PllSettings {
    /// Exponent of the mixer divider.
    pub div_num: u8,
    /// Whole steps, less the smallest possible number of them.
    pub steps: u8,
    /// Whether the modulator has a fraction to add.
    pub fractional: bool,
    /// The fraction, in 1/65536 of a step.
    pub sdm: u16,
}

impl PllSettings {
    /// Whether these are the settings for `freq`.
    pub open spec fn tunes_to(self, freq: u32) -> bool {
        &&& self.div_num == div_num(freq)
        &&& self.steps + PLL_NINT_MIN == pll_nint(freq)
        &&& self.fractional == (pll_fraction(freq) != 0)
        &&& self.sdm == pll_sdm(freq)
    }
}

/// The exponent `d` of the mixer divider and the divider, case by case.
proof fn lemma_div_num_cases(freq: u32)
    ensures
        ({
            let v = VCO_HALF_MAX as nat / lo_freq(freq);
            let d = div_num(freq);
            &&& v < 2 ==> d == 0 && mix_div(freq) == 2
            &&& 2 <= v < 4 ==> d == 1 && mix_div(freq) == 4
            &&& 4 <= v < 8 ==> d == 2 && mix_div(freq) == 8
            &&& 8 <= v < 16 ==> d == 3 && mix_div(freq) == 16
            &&& 16 <= v < 32 ==> d == 4 && mix_div(freq) == 32
            &&& 32 <= v < 64 ==> d == 5 && mix_div(freq) == 64
            &&& 64 <= v ==> d == 6 && mix_div(freq) == 128
        }),
{
    let v = VCO_HALF_MAX as nat / lo_freq(freq);
    reveal_with_fuel(floor_log2, 8);
    vstd::arithmetic::power2::lemma2_to64();
}

/// Settings of the PLL for `freq`, or `None` where the multiple that the
/// frequency asks for is below the smallest that the tuner can be told.
pub fn pll_settings(freq: u32) -> (res: Option<PllSettings>)
    ensures
        res is None <==> pll_nint(freq) < PLL_NINT_MIN,
        res matches Some(s) ==> s.tunes_to(freq),
{
    let lo: u64 = freq as u64 + R820T_IF_FREQ as u64;
    let v: u64 = VCO_HALF_MAX / lo;
    proof {
        lemma_div_num_cases(freq);
    }
    let (div_num, mix_div): (u8, u64) = if v >= 64 {
        (6, 128)
    } else if v >= 32 {
        (5, 64)
    } else if v >= 16 {
        (4, 32)
    } else if v >= 8 {
        (3, 16)
    } else if v >= 4 {
        (2, 8)
    } else if v >= 2 {
        (1, 4)
    } else {
        (0, 2)
    };
    proof {
        lemma_vco_bound(freq);
    }
    let vco: u64 = lo * mix_div;
    let step: u64 = 2 * (XTAL_FREQ as u64);
    let nint: u64 = vco / step;
    let fraction: u64 = vco % step;
    if nint < PLL_NINT_MIN as u64 {
        return None;
    }
    let sdm: u64 = 65536 * fraction / step;
    Some(
        PllSettings {
            div_num,
            steps: (nint - PLL_NINT_MIN as u64) as u8,
            fractional: fraction != 0,
            sdm: sdm as u16,
        },
    )
}

proof fn lemma_vco_bound(freq: u32)
    ensures
        vco_freq(freq) <= 8_597_074_590,
        pll_nint(freq) <= 149,
{
    lemma_div_num_cases(freq);
    lemma_divider_brackets(freq);
}

/// The PLL settings fit their registers: three bits for the divider, eight for
/// the steps and sixteen for the fraction.
pub proof fn pll_settings_bounds(freq: u32)
    ensures
        div_num(freq) <= 6,
        pll_nint(freq) - PLL_NINT_MIN < 256,
        (pll_nint(freq) - PLL_NINT_MIN) / 4 < 64,
        pll_sdm(freq) < 65536,
{
    lemma_vco_bound(freq);
    pll_error_is_below_one_part(freq);
}

/// The PLL can be told every frequency from 2.28 MHz up and none below.
pub proof fn tunable_from_lowest_frequency(freq: u32)
    ensures
        pll_nint(freq) >= PLL_NINT_MIN <==> freq >= 2_280_000,
{
    lemma_div_num_cases(freq);
    lemma_divider_brackets(freq);
    let vco = vco_freq(freq);
    assert(pll_nint(freq) == vco / 57_600_000);
    assert(vco / 57_600_000 >= 13 <==> vco >= 748_800_000);
    let lo = lo_freq(freq);
    if VCO_HALF_MAX as nat / lo >= 64 {
        assert(vco == lo * 128);
    } else {
        assert(lo * 64 > VCO_HALF_MAX);
    }
}

proof fn lemma_divider_brackets(freq: u32)
    ensures
        ({
            let lo = lo_freq(freq) as int;
            let v = VCO_HALF_MAX as int / lo;
            &&& v * lo <= VCO_HALF_MAX < (v + 1) * lo
            &&& v < 2 ==> VCO_HALF_MAX < 2 * lo
            &&& v < 4 ==> VCO_HALF_MAX < 4 * lo
            &&& v < 8 ==> VCO_HALF_MAX < 8 * lo
            &&& v < 16 ==> VCO_HALF_MAX < 16 * lo
            &&& v < 32 ==> VCO_HALF_MAX < 32 * lo
            &&& v < 64 ==> VCO_HALF_MAX < 64 * lo
            &&& v < 128 <==> VCO_HALF_MAX < 128 * lo
            &&& v >= 1 <==> lo <= VCO_HALF_MAX
            &&& v >= 2 ==> 2 * lo <= VCO_HALF_MAX
            &&& v >= 4 ==> 4 * lo <= VCO_HALF_MAX
            &&& v >= 8 ==> 8 * lo <= VCO_HALF_MAX
            &&& v >= 16 ==> 16 * lo <= VCO_HALF_MAX
            &&& v >= 32 ==> 32 * lo <= VCO_HALF_MAX
            &&& v >= 64 ==> 64 * lo <= VCO_HALF_MAX
        }),
{
    let lo = lo_freq(freq) as int;
    let v = VCO_HALF_MAX as int / lo;
    vstd::arithmetic::div_mod::lemma_fundamental_div_mod(VCO_HALF_MAX as int, lo);
    vstd::arithmetic::mul::lemma_mul_is_commutative(v, lo);
    vstd::arithmetic::mul::lemma_mul_is_distributive_add_other_way(lo, v, 1);
    lemma_scale(v, 1, lo);
    lemma_scale(v, 2, lo);
    lemma_scale(v, 4, lo);
    lemma_scale(v, 8, lo);
    lemma_scale(v, 16, lo);
    lemma_scale(v, 32, lo);
    lemma_scale(v, 64, lo);
    lemma_scale(v, 128, lo);
}

proof fn lemma_scale(v: int, k: int, lo: int)
    requires
        lo >= 0,
    ensures
        v >= k ==> k * lo <= v * lo,
        v < k ==> (v + 1) * lo <= k * lo,
{
    if v >= k {
        vstd::arithmetic::mul::lemma_mul_inequality(k, v, lo);
    } else {
        vstd::arithmetic::mul::lemma_mul_inequality(v + 1, k, lo);
    }
}

/// While the local oscillator runs between 1/128 of 1.77 GHz and 1.77 GHz, the
/// divider keeps the PLL's oscillator in its octave: above 1.77 GHz and at
/// most at 3.54 GHz.
pub proof fn vco_stays_in_its_octave(freq: u32)
    requires
        VCO_HALF_MAX < 128 * lo_freq(freq),
        lo_freq(freq) <= VCO_HALF_MAX,
    ensures
        VCO_HALF_MAX < vco_freq(freq) <= 2 * VCO_HALF_MAX,
{
    lemma_div_num_cases(freq);
    lemma_divider_brackets(freq);
}

/// What the PLL is told falls short of the wanted oscillator frequency by less
/// than 1/65536 of a step and never exceeds it. Both sides of the bound are
/// scaled by 65536.
pub proof fn pll_error_is_below_one_part(freq: u32)
    ensures
        pll_sdm(freq) < 65536,
        ({
            let step = 2 * XTAL_FREQ as int;
            let told = step * (65536 * pll_nint(freq) + pll_sdm(freq));
            0 <= 65536 * vco_freq(freq) - told < step
        }),
{
    let vco = vco_freq(freq);
    let fraction = vco % 57_600_000;
    assert(pll_fraction(freq) == fraction);
    assert(pll_nint(freq) == vco / 57_600_000);
    assert(pll_sdm(freq) == 65536 * fraction / 57_600_000);
    assert(vco == 57_600_000 * (vco / 57_600_000) + fraction);
    let told = 57_600_000 * (65536 * (vco / 57_600_000) + 65536 * fraction / 57_600_000);
    assert(0 <= 65536 * vco - told < 57_600_000);
}

// ── Gain ───────────────────────────────────────────────────────────────────

/// How many whole gain steps of 3.5 dB a gain in tenths of a decibel holds; a
/// negative gain holds none, and the count stops at 255.
pub open spec fn full_steps(gain_tenth_db: i32) -> nat {
    if gain_tenth_db < 0 {
        0
    } else if gain_tenth_db / 35 < 255 {
        (gain_tenth_db / 35) as nat
    } else {
        255
    }
}

/// Whether what is left beyond the whole steps earns one more step of the
/// first amplifier. The threshold is 2.3 dB, compared in single precision: from
/// the fifth step on, a remainder of exactly 2.3 dB falls short of it.
pub open spec fn half_step(gain_tenth_db: i32) -> bool {
    gain_tenth_db - 35 * full_steps(gain_tenth_db) >= (if full_steps(gain_tenth_db) < 4 {
        23int
    } else {
        24
    })
}

/// Gain index of the low-noise amplifier for a manual gain.
pub open spec fn lna_index(gain_tenth_db: i32) -> nat {
    let steps = full_steps(gain_tenth_db) + (if half_step(gain_tenth_db) {
        1nat
    } else {
        0
    });
    if steps < 15 {
        steps
    } else {
        15
    }
}

/// Gain index of the mixer for a manual gain.
pub open spec fn mixer_index(gain_tenth_db: i32) -> nat {
    if full_steps(gain_tenth_db) < 15 {
        full_steps(gain_tenth_db)
    } else {
        15
    }
}

/// The largest manual gain, in tenths of a decibel, whose steps can be counted
/// in one byte.
pub const GAIN_MAX: i32 = 8948;

/// Gain indices of the low-noise amplifier and of the mixer, in this order,
/// for a manual gain.
pub fn manual_gain(gain_tenth_db: i32) -> (res: (u8, u8))
    requires
        gain_tenth_db <= GAIN_MAX,
    ensures
        res.0 == lna_index(gain_tenth_db),
        res.1 == mixer_index(gain_tenth_db),
{
    let full: i32 = if gain_tenth_db < 0 {
        0
    } else if gain_tenth_db / 35 < 255 {
        gain_tenth_db / 35
    } else {
        255
    };
    let threshold: i64 = if full < 4 {
        23
    } else {
        24
    };
    let left: i64 = gain_tenth_db as i64 - 35 * full as i64;
    let lna: i32 = if left >= threshold {
        full + 1
    } else {
        full
    };
    let lna_index: u8 = if lna < 15 {
        lna as u8
    } else {
        15
    };
    let mixer_index: u8 = if full < 15 {
        full as u8
    } else {
        15
    };
    (lna_index, mixer_index)
}

/// More gain never lowers an index, the two indices are at most one step
/// apart, and both fit in the four bits that the tuner has for them.
pub proof fn manual_gain_is_monotone(lower: i32, higher: i32)
    requires
        lower <= higher,
    ensures
        lna_index(lower) <= lna_index(higher),
        mixer_index(lower) <= mixer_index(higher),
        mixer_index(lower) <= lna_index(lower) <= mixer_index(lower) + 1,
        lna_index(lower) <= 15,
{
}

/// A gain is made of steps of 3.5 dB in the mixer, as many as fit and fifteen at
/// most, and as many in the amplifier, where a rest of 2.3 dB or more earns one
/// step more. In single precision that rest falls short at exactly 2.3 dB once
/// the steps before it make 14 dB. A gain below zero has no steps.
pub proof fn manual_gain_is_made_of_steps(gain_tenth_db: i32)
    ensures
        gain_tenth_db < 0 ==> lna_index(gain_tenth_db) == 0 && mixer_index(gain_tenth_db) == 0,
        gain_tenth_db >= 525 ==> lna_index(gain_tenth_db) == 15 && mixer_index(gain_tenth_db) == 15,
        0 <= gain_tenth_db < 525 ==> {
            let rest = gain_tenth_db - 35 * mixer_index(gain_tenth_db);
            &&& 0 <= rest < 35
            &&& rest < 23 ==> lna_index(gain_tenth_db) == mixer_index(gain_tenth_db)
            &&& rest > 23 ==> lna_index(gain_tenth_db) == mixer_index(gain_tenth_db) + 1
            &&& rest == 23 ==> (lna_index(gain_tenth_db) == mixer_index(gain_tenth_db) + 1
                <==> gain_tenth_db < 140)
            &&& rest == 23 ==> (lna_index(gain_tenth_db) == mixer_index(gain_tenth_db)
                <==> gain_tenth_db >= 140)
        },
{
}

} // verus!
