//! What the signal processing computes where arithmetic is exact.
//!
//! A `Meaning` reads the numbers of an arithmetic as real numbers. The laws here
//! say what comes out of each stage in terms of what goes in, for every
//! arithmetic that has such a reading. They state results; how a stage gets
//! there, step by step, is said with the stage.

use vstd::prelude::*;

use crate::arithmetic::{hann_steps, is_hann, is_turn, Arithmetic};
use crate::colour::{
    gradient, is_below, is_brightness, is_colour, is_colour_at, is_darkness, is_in_segment,
    is_position, is_share, segment_start, segment_width,
};
use crate::config::{DemodMode, DspConfig};
use crate::demodulate::{
    divisor, is_am_demodulated, is_blend, is_centred, is_fm_demodulated, is_fm_gain, is_mean_norm,
    is_norm_sum, is_phase_step, is_smoothed, is_smoothing, predecessor, DeEmphasis, FmDemod,
};
use crate::display::{
    FrequencyLine, LevelLine, Passband, Point, WaterfallRenderer,
};
use crate::filter::{
    decimated_len, history_after, is_accumulation, is_filtered, is_iq_accumulation, is_iq_filtered,
    is_iq_mac, is_iq_sum, is_low_pass, is_low_pass_design, is_mac, is_sinc, is_sinc_tap,
    is_sine_over, is_sum,
};
use crate::mock::{
    audio_steps, byte_steps, carrier_steps, is_advanced, is_audio, is_next_audio_phase,
    is_next_phase, is_noise, is_noisy_byte, is_raw_sample, is_wrapped, noise_steps, MockIqSource,
    Phase, Tone,
};
use crate::pipeline::{
    are_parts_of, is_clamped, is_in_unit_range, DspPipeline, DspResult, Parameters, Stages,
};
use crate::spectrum::{
    is_component, is_converted, is_frame, is_level, is_sample, is_shifted, is_spectrum,
    is_weighted, level_steps, padded,
};

verus! {

// ── Readings ───────────────────────────────────────────────────────────────

/// A reading of an arithmetic: which real number a number stands for, the two
/// parts of a complex number, and the functions that are no arithmetic.
pub struct Meaning<A: Arithmetic> {
    pub value: spec_fn(A::Real) -> real,
    pub re: spec_fn(A::Iq) -> real,
    pub im: spec_fn(A::Iq) -> real,
    pub pi: real,
    pub sin: spec_fn(real) -> real,
    pub cos: spec_fn(real) -> real,
    /// The angle of a point, given its second coordinate and its first.
    pub angle: spec_fn(real, real) -> real,
    pub log10: spec_fn(real) -> real,
    /// The distance of a point from zero.
    pub length: spec_fn(real, real) -> real,
}

impl<A: Arithmetic> Meaning<A> {
    /// What a number stands for.
    pub open spec fn of(self, x: A::Real) -> real {
        (self.value)(x)
    }

    /// The magnitude of a complex number.
    pub open spec fn norm(self, z: A::Iq) -> real {
        (self.length)((self.re)(z), (self.im)(z))
    }

    /// The arithmetic computes exactly what its operations are named for.
    pub open spec fn holds(self) -> bool {
        &&& self.reads_constants()
        &&& self.reads_sums()
        &&& self.reads_functions()
        &&& self.reads_choices()
        &&& self.reads_complex()
        &&& self.is_geometry()
        &&& self.is_logarithm()
    }

    pub open spec fn reads_constants(self) -> bool {
        &&& forall|r: A::Real| #[trigger] call_ensures(A::zero, (), r) ==> self.of(r) == 0real
        &&& forall|i: i64, r: A::Real| #[trigger]
            call_ensures(A::integer, (i,), r) ==> self.of(r) == i as int as real
        &&& forall|n: usize, r: A::Real| #[trigger]
            call_ensures(A::count, (n,), r) ==> self.of(r) == n as int as real
        &&& forall|n: i64, d: i64, r: A::Real| #[trigger]
            call_ensures(A::fraction, (n, d), r) && d != 0 ==> self.of(r) == quotient(
                n as int as real,
                d as int as real,
            )
        &&& forall|r: A::Real| #[trigger] call_ensures(A::pi, (), r) ==> self.of(r) == self.pi
    }

    pub open spec fn reads_sums(self) -> bool {
        &&& forall|a: A::Real, b: A::Real, r: A::Real| #[trigger]
            call_ensures(A::plus, (a, b), r) ==> self.of(r) == self.of(a) + self.of(b)
        &&& forall|a: A::Real, b: A::Real, r: A::Real| #[trigger]
            call_ensures(A::minus, (a, b), r) ==> self.of(r) == self.of(a) - self.of(b)
        &&& forall|a: A::Real, b: A::Real, r: A::Real| #[trigger]
            call_ensures(A::times, (a, b), r) ==> self.of(r) == product(self.of(a), self.of(b))
        &&& forall|a: A::Real, b: A::Real, r: A::Real| #[trigger]
            call_ensures(A::ratio, (a, b), r) && self.of(b) != 0real ==> self.of(r) == quotient(
                self.of(a),
                self.of(b),
            )
    }

    pub open spec fn reads_functions(self) -> bool {
        &&& forall|x: A::Real, r: A::Real| #[trigger]
            call_ensures(A::sin, (x,), r) ==> self.of(r) == (self.sin)(self.of(x))
        &&& forall|x: A::Real, r: A::Real| #[trigger]
            call_ensures(A::cos, (x,), r) ==> self.of(r) == (self.cos)(self.of(x))
        &&& forall|y: A::Real, x: A::Real, r: A::Real| #[trigger]
            call_ensures(A::atan2, (y, x), r) ==> self.of(r) == (self.angle)(self.of(y), self.of(x))
        &&& forall|x: A::Real, r: A::Real| #[trigger]
            call_ensures(A::log10, (x,), r) && self.of(x) > 0real ==> self.of(r) == (self.log10)(
                self.of(x),
            )
    }

    pub open spec fn reads_choices(self) -> bool {
        &&& forall|a: A::Real, b: A::Real, r: A::Real| #[trigger]
            call_ensures(A::larger, (a, b), r) ==> self.of(r) == larger(self.of(a), self.of(b))
        &&& forall|x: A::Real, low: A::Real, high: A::Real, r: A::Real| #[trigger]
            call_ensures(A::clamp, (x, low, high), r) && self.of(low) <= self.of(high) ==> self.of(
                r,
            ) == bounded(self.of(x), self.of(low), self.of(high))
        &&& forall|a: A::Real, b: A::Real, r: bool| #[trigger]
            call_ensures(A::less, (a, b), r) ==> r == (self.of(a) < self.of(b))
        &&& forall|x: A::Real, r: u8| #[trigger]
            call_ensures(A::to_byte, (x,), r) ==> is_byte_of(self.of(x), r)
    }

    pub open spec fn reads_complex(self) -> bool {
        &&& forall|z: A::Iq| #[trigger]
            call_ensures(A::iq_zero, (), z) ==> (self.re)(z) == 0real && (self.im)(z) == 0real
        &&& forall|x: A::Real, y: A::Real, z: A::Iq| #[trigger]
            call_ensures(A::iq, (x, y), z) ==> (self.re)(z) == self.of(x) && (self.im)(z)
                == self.of(y)
        &&& forall|z: A::Iq, r: A::Real| #[trigger]
            call_ensures(A::re, (z,), r) ==> self.of(r) == (self.re)(z)
        &&& forall|z: A::Iq, r: A::Real| #[trigger]
            call_ensures(A::im, (z,), r) ==> self.of(r) == (self.im)(z)
        &&& forall|a: A::Iq, b: A::Iq, z: A::Iq| #[trigger]
            call_ensures(A::iq_plus, (a, b), z) ==> (self.re)(z) == (self.re)(a) + (self.re)(b) && (
            self.im)(z) == (self.im)(a) + (self.im)(b)
        &&& forall|a: A::Iq, b: A::Iq, z: A::Iq| #[trigger]
            call_ensures(A::iq_times, (a, b), z) ==> {
                &&& (self.re)(z) == product((self.re)(a), (self.re)(b)) - product(
                    (self.im)(a),
                    (self.im)(b),
                )
                &&& (self.im)(z) == product((self.re)(a), (self.im)(b)) + product(
                    (self.im)(a),
                    (self.re)(b),
                )
            }
        &&& forall|a: A::Iq, f: A::Real, z: A::Iq| #[trigger]
            call_ensures(A::iq_scaled, (a, f), z) ==> {
                &&& (self.re)(z) == product((self.re)(a), self.of(f))
                &&& (self.im)(z) == product((self.im)(a), self.of(f))
            }
        &&& forall|a: A::Iq, z: A::Iq| #[trigger]
            call_ensures(A::conj, (a,), z) ==> (self.re)(z) == (self.re)(a) && (self.im)(z) == -(
            self.im)(a)
        &&& forall|z: A::Iq, r: A::Real| #[trigger]
            call_ensures(A::norm, (z,), r) ==> self.of(r) == self.norm(z)
    }

    /// Sine, cosine, angle and distance are those of plane geometry.
    pub open spec fn is_geometry(self) -> bool {
        &&& 3real < self.pi < 4real
        &&& (self.sin)(0real) == 0real
        &&& (self.cos)(0real) == 1real
        &&& forall|a: real, b: real|
            (self.sin)(#[trigger] difference(a, b)) == product((self.sin)(a), (self.cos)(b))
                - product((self.cos)(a), (self.sin)(b))
        &&& forall|a: real, b: real|
            (self.cos)(#[trigger] difference(a, b)) == product((self.cos)(a), (self.cos)(b))
                + product((self.sin)(a), (self.sin)(b))
        &&& forall|a: real|
            product(#[trigger] (self.sin)(a), (self.sin)(a)) + product(
                (self.cos)(a),
                (self.cos)(a),
            ) == 1real
        &&& (self.cos)(self.pi) == -1real
        &&& (self.angle)(0real, 0real) == 0real
        &&& forall|r: real, a: real, y: real, x: real|
            {
                &&& r > 0real
                &&& -self.pi < a <= self.pi
                &&& #[trigger] is_polar(r, (self.sin)(a), y)
                &&& #[trigger] is_polar(r, (self.cos)(a), x)
            } ==> (self.angle)(y, x) == a
        &&& forall|y: real, x: real| #![trigger (self.angle)(y, x)]
            (y > 0real ==> 0real < (self.angle)(y, x) < self.pi) && (y < 0real ==> -self.pi < (
            self.angle)(y, x) < 0real)
        &&& forall|y: real, x: real|
            y != 0real || x >= 0real ==> (self.angle)(#[trigger] difference(0real, y), x) == -(
            #[trigger] (self.angle)(y, x))
        &&& forall|x: real, y: real| #![trigger (self.length)(x, y)]
            (self.length)(x, y) >= 0real && product((self.length)(x, y), (self.length)(x, y))
                == product(x, x) + product(y, y)
    }

    /// The logarithm rises by one where its argument rises tenfold.
    pub open spec fn is_logarithm(self) -> bool {
        &&& (self.log10)(1real) == 0real
        &&& forall|x: real|
            x > 0real ==> (self.log10)(#[trigger] tenfold(x)) == (self.log10)(x) + 1real
        &&& forall|x: real, y: real| #![trigger (self.log10)(x), (self.log10)(y)]
            0real < x < y ==> (self.log10)(x) < (self.log10)(y)
    }
}

/// `a - b`.
pub open spec fn difference(a: real, b: real) -> real {
    a - b
}

/// `a * b`.
#[verifier::opaque]
pub open spec fn product(a: real, b: real) -> real {
    a * b
}

/// `a / b`.
#[verifier::opaque]
pub open spec fn quotient(a: real, b: real) -> real {
    a / b
}

/// `10 * x`.
pub open spec fn tenfold(x: real) -> real {
    10real * x
}

/// Whether `y` is `r` times the sine or cosine `s`.
pub open spec fn is_polar(r: real, s: real, y: real) -> bool {
    y == product(r, s)
}

/// The larger of two numbers.
pub open spec fn larger(a: real, b: real) -> real {
    if a < b {
        b
    } else {
        a
    }
}

/// `x`, brought into the range from `low` to `high`.
pub open spec fn bounded(x: real, low: real, high: real) -> real {
    if x < low {
        low
    } else if x > high {
        high
    } else {
        x
    }
}

/// Whether `byte` is the whole part of `x`, brought into the range of a byte.
pub open spec fn is_byte_of(x: real, byte: u8) -> bool {
    if x < 0real {
        byte == 0
    } else if x >= 255real {
        byte == 255
    } else {
        byte as int as real <= x < byte as int as real + 1real
    }
}

/// The sum of numbers.
pub open spec fn sum(xs: Seq<real>) -> real
    decreases xs.len(),
{
    if xs.len() == 0 {
        0real
    } else {
        sum(xs.drop_last()) + xs.last()
    }
}

// ── Products ───────────────────────────────────────────────────────────────

proof fn lemma_commute(a: real, b: real)
    ensures
        product(a, b) == product(b, a),
{
    reveal(product);
    assert(a * b == b * a) by (nonlinear_arith);
}

proof fn lemma_associate(a: real, b: real, c: real)
    ensures
        product(product(a, b), c) == product(a, product(b, c)),
{
    reveal(product);
    assert((a * b) * c == a * (b * c)) by (nonlinear_arith);
}

proof fn lemma_distribute(a: real, b: real, c: real)
    ensures
        product(a, b + c) == product(a, b) + product(a, c),
        product(a, b - c) == product(a, b) - product(a, c),
        product(b + c, a) == product(b, a) + product(c, a),
        product(b - c, a) == product(b, a) - product(c, a),
{
    reveal(product);
    assert(a * (b + c) == a * b + a * c) by (nonlinear_arith);
    assert(a * (b - c) == a * b - a * c) by (nonlinear_arith);
    assert((b + c) * a == b * a + c * a) by (nonlinear_arith);
    assert((b - c) * a == b * a - c * a) by (nonlinear_arith);
}

proof fn lemma_units(a: real)
    ensures
        product(0real, a) == 0real,
        product(a, 0real) == 0real,
        product(1real, a) == a,
        product(a, 1real) == a,
        product(2real, a) == a + a,
        product(a, 2real) == a + a,
{
    reveal(product);
    assert(0real * a == 0real && a * 0real == 0real) by (nonlinear_arith);
    assert(1real * a == a && a * 1real == a) by (nonlinear_arith);
    assert(2real * a == a + a && a * 2real == a + a) by (nonlinear_arith);
}

proof fn lemma_negate(a: real, b: real)
    ensures
        product(a, -b) == -product(a, b),
        product(-a, b) == -product(a, b),
{
    reveal(product);
    assert(a * (-b) == -(a * b)) by (nonlinear_arith);
    assert((-a) * b == -(a * b)) by (nonlinear_arith);
}

proof fn lemma_signs(a: real, b: real)
    ensures
        a > 0real && b > 0real ==> product(a, b) > 0real,
        a < 0real && b > 0real ==> product(a, b) < 0real,
        a >= 0real && b >= 0real ==> product(a, b) >= 0real,
        b > 0real && product(a, b) > 0real ==> a > 0real,
        b > 0real && product(a, b) >= 0real ==> a >= 0real,
{
    reveal(product);
    if a > 0real && b > 0real {
        assert(a * b > 0real) by (nonlinear_arith)
            requires
                a > 0real,
                b > 0real,
        ;
    }
    if a < 0real && b > 0real {
        assert(a * b < 0real) by (nonlinear_arith)
            requires
                a < 0real,
                b > 0real,
        ;
    }
    if a == 0real || b == 0real {
        lemma_units(a);
        lemma_units(b);
    }
}

proof fn lemma_cancel(a: real, b: real, c: real)
    requires
        c != 0real,
        product(c, a) == product(c, b),
    ensures
        a == b,
{
    reveal(product);
    assert(a == b) by (nonlinear_arith)
        requires
            c != 0real,
            c * a == c * b,
    ;
}

proof fn lemma_quotient(a: real, b: real)
    requires
        b != 0real,
    ensures
        product(quotient(a, b), b) == a,
{
    reveal(product);
    reveal(quotient);
    assert((a / b) * b == a) by (nonlinear_arith)
        requires
            b != 0real,
    ;
}

// ── FM ─────────────────────────────────────────────────────────────────────

/// Whether `z` is the point at distance `r` from zero in the direction `a`.
pub open spec fn is_point<A: Arithmetic>(m: Meaning<A>, z: A::Iq, r: real, a: real) -> bool {
    (m.re)(z) == product(r, (m.cos)(a)) && (m.im)(z) == product(r, (m.sin)(a))
}

/// How far `z` has turned from `prev`: positive where it has turned on, negative
/// where it has turned back.
pub open spec fn turned<A: Arithmetic>(m: Meaning<A>, z: A::Iq, prev: A::Iq) -> real {
    product((m.im)(z), (m.re)(prev)) - product((m.re)(z), (m.im)(prev))
}

/// How far `z` points in the direction of `prev`.
pub open spec fn along<A: Arithmetic>(m: Meaning<A>, z: A::Iq, prev: A::Iq) -> real {
    product((m.re)(z), (m.re)(prev)) + product((m.im)(z), (m.im)(prev))
}

proof fn lemma_turn<A: Arithmetic>(m: Meaning<A>, turn: A::Real)
    requires
        m.holds(),
        is_turn::<A>(turn),
    ensures
        m.of(turn) == m.pi + m.pi,
{
    let (two, pi) = choose|two: A::Real, pi: A::Real|
        {
            &&& #[trigger] call_ensures(A::integer, (2i64,), two)
            &&& #[trigger] call_ensures(A::pi, (), pi)
            &&& call_ensures(A::times, (two, pi), turn)
        };
    lemma_units(m.of(pi));
}

proof fn lemma_phase_step<A: Arithmetic>(
    m: Meaning<A>,
    sample: A::Iq,
    prev: A::Iq,
    gain: A::Real,
    out: A::Real,
)
    requires
        m.holds(),
        is_phase_step::<A>(sample, prev, gain, out),
    ensures
        m.of(out) == product(
            (m.angle)(turned(m, sample, prev), along(m, sample, prev)),
            m.of(gain),
        ),
{
    lemma_negate((m.re)(sample), (m.im)(prev));
    lemma_negate((m.im)(sample), (m.im)(prev));
}

proof fn lemma_relative(r1: real, c1: real, s1: real, r0: real, c0: real, s0: real)
    ensures
        product(product(r1, s1), product(r0, c0)) == product(product(r1, r0), product(s1, c0)),
{
    reveal(product);
    assert((r1 * s1) * (r0 * c0) == (r1 * r0) * (s1 * c0)) by (nonlinear_arith);
}

/// The gain maps the phase step at the largest deviation to one.
proof fn lemma_gain<A: Arithmetic>(
    m: Meaning<A>,
    deviation: A::Real,
    rate: A::Real,
    gain: A::Real,
)
    requires
        m.holds(),
        m.of(deviation) > 0real,
        is_fm_gain::<A>(deviation, rate, gain),
    ensures
        product(m.of(gain), product(m.pi + m.pi, m.of(deviation))) == m.of(rate),
{
    let (turn, steepest) = choose|turn: A::Real, steepest: A::Real|
        {
            &&& #[trigger] is_turn::<A>(turn)
            &&& #[trigger] call_ensures(A::times, (turn, deviation), steepest)
            &&& call_ensures(A::ratio, (rate, steepest), gain)
        };
    lemma_turn(m, turn);
    lemma_signs(m.pi + m.pi, m.of(deviation));
    lemma_quotient(m.of(rate), m.of(steepest));
}

proof fn lemma_step_in_range(a: real, rate: real, pi: real, f: real)
    requires
        rate > 0real,
        pi > 0real,
        product(a, rate) == product(pi + pi, f),
        -rate < f + f <= rate,
    ensures
        -pi < a <= pi,
{
    lemma_distribute(f, pi, pi);
    lemma_distribute(pi, f + f, rate);
    lemma_distribute(pi, f, f);
    lemma_distribute(pi, rate, f + f);
    lemma_distribute(rate, a, pi);
    lemma_distribute(rate, pi, a);
    lemma_commute(pi, f + f + rate);
    lemma_signs(f + f + rate, pi);
    lemma_signs(a + pi, rate);
    lemma_commute(pi, rate - (f + f));
    lemma_signs(rate - (f + f), pi);
    lemma_signs(pi - a, rate);
    lemma_commute(pi, f);
}

proof fn lemma_scaled_step(a: real, gain: real, rate: real, pi: real, deviation: real, f: real)
    requires
        product(gain, product(pi + pi, deviation)) == rate,
        product(a, rate) == product(pi + pi, f),
        pi > 0real,
    ensures
        product(product(a, gain), deviation) == f,
{
    let turn = pi + pi;
    // turn * ((a * gain) * deviation) == a * (gain * (turn * deviation))
    lemma_associate(product(a, gain), turn, deviation);
    lemma_associate(a, gain, product(turn, deviation));
    lemma_commute(product(a, gain), turn);
    lemma_associate(turn, product(a, gain), deviation);
    lemma_cancel(product(product(a, gain), deviation), f, turn);
}

/// FM gives each sample's frequency in units of the largest deviation, with its
/// sign, whatever the amplitude: the frequency is the one at which the phase
/// moves from the sample before to this one.
pub proof fn fm_gives_the_frequency<A: Arithmetic>(
    m: Meaning<A>,
    deviation: A::Real,
    rate: A::Real,
    demod: FmDemod<A>,
    samples: Seq<A::Iq>,
    out: Seq<A::Real>,
    amplitudes: Seq<real>,
    phases: Seq<real>,
    frequencies: Seq<real>,
)
    requires
        m.holds(),
        m.of(deviation) > 0real,
        m.of(rate) > 0real,
        is_fm_gain::<A>(deviation, rate, demod.gain),
        is_fm_demodulated::<A>(demod.prev, demod.gain, samples, out),
        amplitudes.len() == phases.len() == samples.len() + 1,
        frequencies.len() == samples.len(),
        forall|i: int|
            0 <= i <= samples.len() ==> amplitudes[i] > 0real && is_point(
                m,
                #[trigger] (seq![demod.prev] + samples)[i],
                amplitudes[i],
                phases[i],
            ),
        forall|i: int| #![trigger frequencies[i]]
            0 <= i < samples.len() ==> {
                let f = frequencies[i];
                &&& product(phases[i + 1] - phases[i], m.of(rate)) == product(m.pi + m.pi, f)
                &&& -m.of(rate) < f + f <= m.of(rate)
            },
    ensures
        out.len() == samples.len(),
        forall|i: int| #![trigger out[i]]
            0 <= i < out.len() ==> product(m.of(out[i]), m.of(deviation)) == frequencies[i],
{
    let line = seq![demod.prev] + samples;
    assert forall|i: int| #![trigger out[i]] 0 <= i < out.len() implies product(
        m.of(out[i]),
        m.of(deviation),
    ) == frequencies[i] by {
        assert(line[i + 1] == samples[i]);
        assert(line[i] == predecessor(demod.prev, samples, i));
        assert(is_point(m, line[i + 1], amplitudes[i + 1], phases[i + 1]));
        assert(is_point(m, line[i], amplitudes[i], phases[i]));
        lemma_one_frequency(
            m,
            deviation,
            rate,
            demod.gain,
            line[i + 1],
            line[i],
            out[i],
            amplitudes[i + 1],
            phases[i + 1],
            amplitudes[i],
            phases[i],
            frequencies[i],
        );
    }
}

proof fn lemma_one_frequency<A: Arithmetic>(
    m: Meaning<A>,
    deviation: A::Real,
    rate: A::Real,
    gain: A::Real,
    sample: A::Iq,
    prev: A::Iq,
    out: A::Real,
    r1: real,
    a1: real,
    r0: real,
    a0: real,
    f: real,
)
    requires
        m.holds(),
        m.of(deviation) > 0real,
        m.of(rate) > 0real,
        is_fm_gain::<A>(deviation, rate, gain),
        is_phase_step::<A>(sample, prev, gain, out),
        r1 > 0real,
        r0 > 0real,
        is_point(m, sample, r1, a1),
        is_point(m, prev, r0, a0),
        product(a1 - a0, m.of(rate)) == product(m.pi + m.pi, f),
        -m.of(rate) < f + f <= m.of(rate),
    ensures
        product(m.of(out), m.of(deviation)) == f,
{
    let a = difference(a1, a0);
    let r = product(r1, r0);
    let (c1, s1, c0, s0) = ((m.cos)(a1), (m.sin)(a1), (m.cos)(a0), (m.sin)(a0));
    lemma_phase_step(m, sample, prev, gain, out);
    lemma_relative(r1, c1, s1, r0, c0, s0);
    lemma_relative(r1, s1, c1, r0, s0, c0);
    lemma_relative(r1, s1, c1, r0, c0, s0);
    lemma_relative(r1, c1, s1, r0, s0, c0);
    lemma_distribute(r, product(s1, c0), product(c1, s0));
    lemma_distribute(r, product(c1, c0), product(s1, s0));
    lemma_step_in_range(a, m.of(rate), m.pi, f);
    lemma_signs(r1, r0);
    assert(is_polar(r, (m.sin)(a), turned(m, sample, prev)));
    assert(is_polar(r, (m.cos)(a), along(m, sample, prev)));
    lemma_gain(m, deviation, rate, gain);
    lemma_scaled_step(a, m.of(gain), m.of(rate), m.pi, m.of(deviation), f);
}

/// The first sample after silence gives silence.
pub proof fn fm_starts_with_silence<A: Arithmetic>(
    m: Meaning<A>,
    demod: FmDemod<A>,
    samples: Seq<A::Iq>,
    out: Seq<A::Real>,
)
    requires
        m.holds(),
        (m.re)(demod.prev) == 0real,
        (m.im)(demod.prev) == 0real,
        is_fm_demodulated::<A>(demod.prev, demod.gain, samples, out),
        samples.len() > 0,
    ensures
        m.of(out[0]) == 0real,
{
    assert(is_phase_step::<A>(samples[0], demod.prev, demod.gain, out[0]));
    lemma_phase_step(m, samples[0], demod.prev, demod.gain, out[0]);
    lemma_units((m.re)(samples[0]));
    lemma_units((m.im)(samples[0]));
    lemma_units(m.of(demod.gain));
}

/// A sample that turns back from its predecessor gives audio below zero, one that
/// turns on gives audio above zero.
pub proof fn fm_keeps_the_sense_of_rotation<A: Arithmetic>(
    m: Meaning<A>,
    demod: FmDemod<A>,
    samples: Seq<A::Iq>,
    out: Seq<A::Real>,
    i: int,
)
    requires
        m.holds(),
        m.of(demod.gain) > 0real,
        is_fm_demodulated::<A>(demod.prev, demod.gain, samples, out),
        0 <= i < samples.len(),
    ensures
        ({
            let prev = (seq![demod.prev] + samples)[i];
            &&& turned(m, samples[i], prev) < 0real ==> m.of(out[i]) < 0real
            &&& turned(m, samples[i], prev) > 0real ==> m.of(out[i]) > 0real
        }),
{
    let prev = (seq![demod.prev] + samples)[i];
    assert(prev == predecessor(demod.prev, samples, i));
    lemma_phase_step(m, samples[i], prev, demod.gain, out[i]);
    let angle = (m.angle)(turned(m, samples[i], prev), along(m, samples[i], prev));
    lemma_signs(angle, m.of(demod.gain));
}

/// Samples mirrored at the real axis give the negated audio, except where a
/// sample is opposite to its predecessor.
pub proof fn fm_of_mirrored_samples<A: Arithmetic>(
    m: Meaning<A>,
    one: FmDemod<A>,
    other: FmDemod<A>,
    samples: Seq<A::Iq>,
    mirrored: Seq<A::Iq>,
    out: Seq<A::Real>,
    back: Seq<A::Real>,
    i: int,
)
    requires
        m.holds(),
        m.of(one.gain) == m.of(other.gain),
        mirrored.len() == samples.len(),
        forall|k: int| #![trigger (seq![other.prev] + mirrored)[k]]
            0 <= k <= samples.len() ==> {
                let z = (seq![one.prev] + samples)[k];
                let w = (seq![other.prev] + mirrored)[k];
                (m.re)(w) == (m.re)(z) && (m.im)(w) == -(m.im)(z)
            },
        is_fm_demodulated::<A>(one.prev, one.gain, samples, out),
        is_fm_demodulated::<A>(other.prev, other.gain, mirrored, back),
        0 <= i < samples.len(),
        turned(m, samples[i], (seq![one.prev] + samples)[i]) != 0real || along(
            m,
            samples[i],
            (seq![one.prev] + samples)[i],
        ) >= 0real,
    ensures
        m.of(back[i]) == -m.of(out[i]),
{
    let line = seq![one.prev] + samples;
    let other_line = seq![other.prev] + mirrored;
    assert(line[i] == predecessor(one.prev, samples, i) && line[i + 1] == samples[i]);
    assert(other_line[i] == predecessor(other.prev, mirrored, i));
    assert(other_line[i + 1] == mirrored[i]);
    lemma_phase_step(m, samples[i], line[i], one.gain, out[i]);
    lemma_phase_step(m, mirrored[i], other_line[i], other.gain, back[i]);
    let (a, b) = ((m.re)(samples[i]), (m.im)(samples[i]));
    let (c, d) = ((m.re)(line[i]), (m.im)(line[i]));
    lemma_negate(b, c);
    lemma_negate(a, d);
    lemma_negate(b, d);
    lemma_negate(b, -d);
    let y = turned(m, samples[i], line[i]);
    let x = along(m, samples[i], line[i]);
    assert(turned(m, mirrored[i], other_line[i]) == difference(0real, y));
    assert(along(m, mirrored[i], other_line[i]) == x);
    lemma_negate((m.angle)(y, x), m.of(one.gain));
}

// ── AM ─────────────────────────────────────────────────────────────────────

/// AM gives the envelope of the samples less one and the same number, and that
/// number is such that the audio adds up to zero.
pub proof fn am_gives_the_envelope_without_its_mean<A: Arithmetic>(
    m: Meaning<A>,
    samples: Seq<A::Iq>,
    out: Seq<A::Real>,
)
    requires
        m.holds(),
        samples.len() <= usize::MAX,
        is_am_demodulated::<A>(samples, out),
    ensures
        out.len() == samples.len(),
        sum(Seq::new(out.len(), |i: int| m.of(out[i]))) == 0real,
        forall|i: int, j: int| #![trigger out[i], out[j]]
            0 <= i < out.len() && 0 <= j < out.len() ==> m.of(out[i]) - m.of(out[j]) == m.norm(
                samples[i],
            ) - m.norm(samples[j]),
{
    let mean = choose|mean: A::Real| #[trigger]
        is_mean_norm::<A>(samples, mean) && forall|i: int| #![trigger out[i]]
            0 <= i < out.len() ==> is_centred::<A>(samples[i], mean, out[i]);
    let n = samples.len() as int;
    assert forall|i: int| #![trigger out[i]] 0 <= i < n implies m.of(out[i]) == m.norm(samples[i])
        - m.of(mean) by {
        assert(is_centred::<A>(samples[i], mean, out[i]));
    }
    let levels = Seq::new(out.len(), |i: int| m.of(out[i]));
    if n > 0 {
        let (norms, sums, count) = choose|
            norms: Seq<A::Real>,
            sums: Seq<A::Real>,
            count: A::Real,
        |
            {
                &&& #[trigger] is_norm_sum::<A>(samples, norms, sums, samples.len() as int)
                &&& #[trigger] call_ensures(A::count, (divisor(samples.len()),), count)
                &&& call_ensures(A::ratio, (sums[samples.len() as int], count), mean)
            };
        lemma_levels_and_norms(m, samples, out, norms, sums, m.of(mean), n);
        assert(levels.take(n) =~= levels);
        lemma_quotient(m.of(sums[n]), m.of(count));
    }
}

proof fn lemma_levels_and_norms<A: Arithmetic>(
    m: Meaning<A>,
    samples: Seq<A::Iq>,
    out: Seq<A::Real>,
    norms: Seq<A::Real>,
    sums: Seq<A::Real>,
    mean: real,
    k: int,
)
    requires
        m.holds(),
        is_norm_sum::<A>(samples, norms, sums, samples.len() as int),
        out.len() == samples.len(),
        0 <= k <= samples.len(),
        forall|i: int| #![trigger out[i]]
            0 <= i < samples.len() ==> m.of(out[i]) == m.norm(samples[i]) - mean,
    ensures
        sum(Seq::new(out.len(), |i: int| m.of(out[i])).take(k)) == m.of(sums[k]) - product(
            mean,
            k as real,
        ),
    decreases k,
{
    let levels = Seq::new(out.len(), |i: int| m.of(out[i]));
    lemma_units(mean);
    if k > 0 {
        let i = k - 1;
        lemma_levels_and_norms(m, samples, out, norms, sums, mean, i);
        assert(levels.take(k).drop_last() =~= levels.take(i));
        assert(levels.take(k).last() == m.of(out[i]));
        assert(call_ensures(A::norm, (samples[i],), norms[i]));
        assert(call_ensures(A::plus, (sums[i], norms[i]), sums[i + 1]));
        lemma_distribute(mean, i as real, 1real);
        assert(k as real == i as real + 1real);
    } else {
        assert(levels.take(0) =~= Seq::<real>::empty());
    }
}

// ── De-emphasis ────────────────────────────────────────────────────────────

/// The share of a new sample belongs to the time constant: one sample's share in
/// the time constant and that sample, with both in samples. It lies between zero
/// and one.
pub proof fn smoothing_has_its_time_constant<A: Arithmetic>(
    m: Meaning<A>,
    tau_us: A::Real,
    sample_rate: A::Real,
    alpha: A::Real,
)
    requires
        m.holds(),
        m.of(sample_rate) > 0real,
        m.of(tau_us) > 0real,
        is_smoothing::<A>(tau_us, sample_rate, alpha),
    ensures
        product(m.of(alpha), product(m.of(tau_us), m.of(sample_rate)) + 1_000_000real)
            == 1_000_000real,
        0real < m.of(alpha) < 1real,
{
    let (one, dt, micro, tau, total) = choose|
        one: A::Real,
        dt: A::Real,
        micro: A::Real,
        tau: A::Real,
        total: A::Real,
    |
        {
            &&& #[trigger] call_ensures(A::integer, (1i64,), one)
            &&& #[trigger] call_ensures(A::ratio, (one, sample_rate), dt)
            &&& #[trigger] call_ensures(A::fraction, (1i64, 1_000_000i64), micro)
            &&& #[trigger] call_ensures(A::times, (tau_us, micro), tau)
            &&& #[trigger] call_ensures(A::plus, (tau, dt), total)
            &&& call_ensures(A::ratio, (dt, total), alpha)
        };
    let rate = m.of(sample_rate);
    let t = m.of(tau_us);
    let (d, u, a) = (m.of(dt), m.of(micro), m.of(alpha));
    lemma_quotient(1real, rate);
    lemma_quotient(1real, 1_000_000real);
    lemma_signs(d, rate);
    lemma_signs(u, 1_000_000real);
    lemma_commute(t, u);
    lemma_signs(u, t);
    lemma_quotient(d, product(t, u) + d);
    lemma_time_constant(a, t, u, d, rate);
    lemma_signs(a, product(t, u) + d);
    lemma_distribute(product(t, u) + d, 1real, a);
    lemma_units(product(t, u) + d);
    lemma_signs(1real - a, product(t, u) + d);
}

proof fn lemma_time_constant(a: real, t: real, u: real, d: real, rate: real)
    requires
        product(a, product(t, u) + d) == d,
        product(d, rate) == 1real,
        product(u, 1_000_000real) == 1real,
    ensures
        product(a, product(t, rate) + 1_000_000real) == 1_000_000real,
{
    let million = 1_000_000real;
    let scale = product(rate, million);
    // Both sides of the first equation, times the rate and a million.
    lemma_associate(a, product(t, u) + d, scale);
    lemma_distribute(scale, product(t, u), d);
    // d * scale == million
    lemma_associate(d, rate, million);
    lemma_units(million);
    // (t * u) * scale == t * rate
    lemma_associate(t, u, scale);
    lemma_commute(rate, million);
    lemma_associate(u, million, rate);
    lemma_units(rate);
}

/// De-emphasis moves from each result towards the next sample, by the share of a
/// new sample in the distance between the two.
pub proof fn smoothing_approaches_the_samples<A: Arithmetic>(
    m: Meaning<A>,
    filter: DeEmphasis<A>,
    samples: Seq<A::Real>,
    out: Seq<A::Real>,
)
    requires
        m.holds(),
        is_smoothed::<A>(filter.alpha, filter.prev, samples, out),
    ensures
        out.len() == samples.len(),
        forall|i: int| #![trigger out[i]]
            0 <= i < out.len() ==> {
                let before = m.of((seq![filter.prev] + out)[i]);
                m.of(out[i]) - before == product(m.of(filter.alpha), m.of(samples[i]) - before)
            },
{
    assert forall|i: int| #![trigger out[i]] 0 <= i < out.len() implies ({
        let before = m.of((seq![filter.prev] + out)[i]);
        m.of(out[i]) - before == product(m.of(filter.alpha), m.of(samples[i]) - before)
    }) by {
        let prev = predecessor(filter.prev, out, i);
        assert((seq![filter.prev] + out)[i] == prev);
        assert(is_blend::<A>(filter.alpha, samples[i], prev, out[i]));
        let a = m.of(filter.alpha);
        lemma_distribute(a, m.of(samples[i]), m.of(prev));
        lemma_distribute(m.of(prev), 1real, a);
        lemma_units(m.of(prev));
    }
}

// ── Raw samples ────────────────────────────────────────────────────────────

/// The bytes of raw samples stand for numbers spread evenly from -1 to 1, those
/// at even places for the real and those at odd places for the imaginary part.
pub proof fn bytes_are_spread_from_minus_one_to_one<A: Arithmetic>(
    m: Meaning<A>,
    raw: Seq<u8>,
    out: Seq<A::Iq>,
    i: int,
)
    requires
        m.holds(),
        is_converted::<A>(raw, out),
        0 <= i < raw.len() / 2,
    ensures
        out.len() == raw.len() / 2,
        product((m.re)(out[i]) + 1real, 255real) == (2 * raw[2 * i]) as real,
        product((m.im)(out[i]) + 1real, 255real) == (2 * raw[2 * i + 1]) as real,
{
    assert(is_sample::<A>(raw[2 * i], raw[2 * i + 1], out[i]));
    let (re, im) = choose|re: A::Real, im: A::Real|
        {
            &&& #[trigger] is_component::<A>(raw[2 * i], re)
            &&& #[trigger] is_component::<A>(raw[2 * i + 1], im)
            &&& call_ensures(A::iq, (re, im), out[i])
        };
    lemma_component(m, raw[2 * i], re);
    lemma_component(m, raw[2 * i + 1], im);
}

proof fn lemma_component<A: Arithmetic>(m: Meaning<A>, byte: u8, out: A::Real)
    requires
        m.holds(),
        is_component::<A>(byte, out),
    ensures
        product(m.of(out) + 1real, 255real) == (2 * byte) as real,
{
    let (value, middle, distance) = choose|value: A::Real, middle: A::Real, distance: A::Real|
        {
            &&& #[trigger] call_ensures(A::integer, (byte as i64,), value)
            &&& #[trigger] call_ensures(A::fraction, (255i64, 2i64), middle)
            &&& #[trigger] call_ensures(A::minus, (value, middle), distance)
            &&& call_ensures(A::ratio, (distance, middle), out)
        };
    let h = m.of(middle);
    let x = m.of(out);
    lemma_quotient(255real, 2real);
    lemma_units(h);
    assert(h + h == 255real);
    lemma_quotient(m.of(distance), h);
    lemma_distribute(h, x, 1real);
    lemma_units(h);
    lemma_distribute(x + 1real, h, h);
    assert((2 * byte) as real == (byte as int as real) + (byte as int as real));
}

// ── Spectrum ───────────────────────────────────────────────────────────────

/// The Hann window is half of what a cosine with one period over the span falls
/// short of one.
pub proof fn hann_is_a_raised_cosine<A: Arithmetic>(
    m: Meaning<A>,
    place: A::Real,
    span: A::Real,
    out: A::Real,
)
    requires
        m.holds(),
        m.of(span) != 0real,
        is_hann::<A>(place, span, out),
    ensures
        m.of(out) + m.of(out) == 1real - (m.cos)(
            quotient(product(m.pi + m.pi, m.of(place)), m.of(span)),
        ),
{
    let (turn, product_, angle, cosine, one, bump, half) = choose|
        turn: A::Real,
        product_: A::Real,
        angle: A::Real,
        cosine: A::Real,
        one: A::Real,
        bump: A::Real,
        half: A::Real,
    | #[trigger]
        hann_steps::<A>(place, span, turn, product_, angle, cosine, one, bump, half, out);
    lemma_turn(m, turn);
    let h = m.of(half);
    lemma_quotient(1real, 2real);
    lemma_units(h);
    assert(h + h == 1real);
    lemma_distribute(m.of(bump), h, h);
    lemma_units(m.of(bump));
}

/// The level in decibels of a bin of magnitude `magnitude` in a transform of `n`
/// bins: twenty times the logarithm of their quotient, and never less than that
/// of a ten-thousand-millionth.
pub open spec fn level_of<A: Arithmetic>(m: Meaning<A>, magnitude: real, n: int) -> real {
    product(
        20real,
        (m.log10)(larger(quotient(magnitude, n as real), quotient(1real, 10_000_000_000real))),
    )
}

proof fn lemma_level<A: Arithmetic>(
    m: Meaning<A>,
    bins: A::Bins,
    index: usize,
    n: usize,
    bin: A::Iq,
    out: A::Real,
)
    requires
        m.holds(),
        n > 0,
        forall|z: A::Iq| #[trigger] call_ensures(A::bin, (&bins, index), z) ==> z == bin,
        is_level::<A>(bins, index, n, out),
    ensures
        m.of(out) == level_of(m, m.norm(bin), n as int),
{
    let (z, norm, count, magnitude, floor, bound, log, twenty) = choose|
        z: A::Iq,
        norm: A::Real,
        count: A::Real,
        magnitude: A::Real,
        floor: A::Real,
        bound: A::Real,
        log: A::Real,
        twenty: A::Real,
    | #[trigger]
        level_steps::<A>(
            bins,
            index,
            n,
            z,
            norm,
            count,
            magnitude,
            floor,
            bound,
            log,
            twenty,
            out,
        );
    lemma_quotient(1real, 10_000_000_000real);
    lemma_signs(quotient(1real, 10_000_000_000real), 10_000_000_000real);
}

/// A spectrum shows the levels of the bins of the transform of the weighted
/// samples: the bin of the centre frequency in the middle, those above it to its
/// right and those below it, which are the last ones, to its left.
pub proof fn spectrum_shows_the_levels_of_the_bins<A: Arithmetic>(
    m: Meaning<A>,
    samples: Seq<A::Iq>,
    n: usize,
    out: Seq<A::Real>,
    bin_of: spec_fn(A::Bins, int) -> A::Iq,
)
    requires
        m.holds(),
        n > 0,
        forall|bins: A::Bins, k: usize, z: A::Iq| #[trigger]
            call_ensures(A::bin, (&bins, k), z) ==> z == bin_of(bins, k as int),
        is_spectrum::<A>(samples, n, out),
    ensures
        out.len() == n,
        exists|frame: Vec<A::Iq>, bins: A::Bins|
            {
                &&& #[trigger] call_ensures(A::transform, (frame,), bins)
                &&& frame@.len() == n
                &&& forall|i: int| #![trigger frame@[i]]
                    0 <= i < n ==> {
                        let weight = 1real - (m.cos)(
                            quotient(product(m.pi + m.pi, i as real), n as int as real),
                        );
                        &&& (m.re)(frame@[i]) + (m.re)(frame@[i]) == product(
                            if i < samples.len() {
                                (m.re)(samples[i])
                            } else {
                                0real
                            },
                            weight,
                        )
                        &&& (m.im)(frame@[i]) + (m.im)(frame@[i]) == product(
                            if i < samples.len() {
                                (m.im)(samples[i])
                            } else {
                                0real
                            },
                            weight,
                        )
                    }
                &&& forall|k: int|
                    0 <= k < n - n / 2 ==> m.of(#[trigger] out[n / 2 + k]) == level_of(
                        m,
                        m.norm(bin_of(bins, k)),
                        n as int,
                    )
                &&& forall|k: int|
                    1 <= k <= n / 2 ==> m.of(#[trigger] out[n / 2 - k]) == level_of(
                        m,
                        m.norm(bin_of(bins, n - k)),
                        n as int,
                    )
            },
{
    let (silence, frame, bins) = choose|silence: A::Iq, frame: Vec<A::Iq>, bins: A::Bins|
        {
            &&& #[trigger] is_frame::<A>(samples, n, silence, frame@)
            &&& #[trigger] call_ensures(A::transform, (frame,), bins)
            &&& is_shifted::<A>(bins, n, out)
        };
    assert forall|i: int| #![trigger frame@[i]] 0 <= i < n implies ({
        let weight = 1real - (m.cos)(
            quotient(product(m.pi + m.pi, i as real), n as int as real),
        );
        let z = padded(samples, silence, i);
        &&& (m.re)(frame@[i]) + (m.re)(frame@[i]) == product((m.re)(z), weight)
        &&& (m.im)(frame@[i]) + (m.im)(frame@[i]) == product((m.im)(z), weight)
    }) by {
        lemma_weighted(m, padded(samples, silence, i), i as usize, n, frame@[i]);
    }
    assert forall|k: int| 0 <= k < n - n / 2 implies m.of(#[trigger] out[n / 2 + k]) == level_of(
        m,
        m.norm(bin_of(bins, k)),
        n as int,
    ) by {
        crate::spectrum::centre_frequency_is_in_the_middle(n as int, n / 2 + k);
        assert(is_level::<A>(bins, k as usize, n, out[n / 2 + k]));
        lemma_level(m, bins, k as usize, n, bin_of(bins, k), out[n / 2 + k]);
    }
    assert forall|k: int| 1 <= k <= n / 2 implies m.of(#[trigger] out[n / 2 - k]) == level_of(
        m,
        m.norm(bin_of(bins, n - k)),
        n as int,
    ) by {
        crate::spectrum::centre_frequency_is_in_the_middle(n as int, n / 2 - k);
        assert(is_level::<A>(bins, (n - k) as usize, n, out[n / 2 - k]));
        lemma_level(m, bins, (n - k) as usize, n, bin_of(bins, n - k), out[n / 2 - k]);
    }
}

proof fn lemma_weighted<A: Arithmetic>(
    m: Meaning<A>,
    sample: A::Iq,
    i: usize,
    n: usize,
    out: A::Iq,
)
    requires
        m.holds(),
        n > 0,
        is_weighted::<A>(sample, i, n, out),
    ensures
        ({
            let weight = 1real - (m.cos)(
                quotient(product(m.pi + m.pi, i as int as real), n as int as real),
            );
            &&& (m.re)(out) + (m.re)(out) == product((m.re)(sample), weight)
            &&& (m.im)(out) + (m.im)(out) == product((m.im)(sample), weight)
        }),
{
    let (place, span, weight) = choose|place: A::Real, span: A::Real, weight: A::Real|
        {
            &&& #[trigger] call_ensures(A::count, (i,), place)
            &&& #[trigger] call_ensures(A::count, (n,), span)
            &&& #[trigger] is_hann::<A>(place, span, weight)
            &&& call_ensures(A::iq_scaled, (sample, weight), out)
        };
    hann_is_a_raised_cosine(m, place, span, weight);
    lemma_distribute((m.re)(sample), m.of(weight), m.of(weight));
    lemma_distribute((m.im)(sample), m.of(weight), m.of(weight));
}

/// A bin of larger magnitude never has a lower level, a bin of tenfold magnitude
/// lies twenty decibels higher as long as the smaller one counts, and bins of
/// equal magnitude have equal levels, whatever their phase.
pub proof fn levels_follow_magnitudes<A: Arithmetic>(
    m: Meaning<A>,
    one: A::Bins,
    other: A::Bins,
    i: usize,
    j: usize,
    n: usize,
    z: A::Iq,
    w: A::Iq,
    level: A::Real,
    other_level: A::Real,
)
    requires
        m.holds(),
        n > 0,
        forall|x: A::Iq| #[trigger] call_ensures(A::bin, (&one, i), x) ==> x == z,
        forall|x: A::Iq| #[trigger] call_ensures(A::bin, (&other, j), x) ==> x == w,
        is_level::<A>(one, i, n, level),
        is_level::<A>(other, j, n, other_level),
    ensures
        m.norm(z) == m.norm(w) ==> m.of(level) == m.of(other_level),
        m.norm(z) <= m.norm(w) ==> m.of(level) <= m.of(other_level),
        m.norm(w) == tenfold(m.norm(z)) && quotient(m.norm(z), n as int as real) >= quotient(
            1real,
            10_000_000_000real,
        ) ==> m.of(other_level) == m.of(level) + 20real,
{
    lemma_level(m, one, i, n, z, level);
    lemma_level(m, other, j, n, w, other_level);
    let c = n as int as real;
    let floor = quotient(1real, 10_000_000_000real);
    let (p, q) = (quotient(m.norm(z), c), quotient(m.norm(w), c));
    lemma_quotient(m.norm(z), c);
    lemma_quotient(m.norm(w), c);
    lemma_quotient(1real, 10_000_000_000real);
    lemma_signs(floor, 10_000_000_000real);
    lemma_distribute(c, q, p);
    lemma_signs(q - p, c);
    let (a, b) = ((m.log10)(larger(p, floor)), (m.log10)(larger(q, floor)));
    lemma_distribute(20real, b, a);
    lemma_commute(20real, b - a);
    lemma_signs(b - a, 20real);
    if m.norm(w) == tenfold(m.norm(z)) {
        lemma_ten(q, p, c);
        assert(q == tenfold(p));
        reveal(product);
    }
}

proof fn lemma_ten(q: real, p: real, c: real)
    requires
        c != 0real,
        product(q, c) == tenfold(product(p, c)),
    ensures
        q == tenfold(p),
{
    lemma_commute(q, c);
    lemma_commute(p, c);
    assert(product(c, tenfold(p)) == tenfold(product(c, p))) by {
        reveal(product);
        assert(c * (10real * p) == 10real * (c * p)) by (nonlinear_arith);
    }
    lemma_cancel(q, tenfold(p), c);
}

// ── Colours ────────────────────────────────────────────────────────────────

/// The place of a level is its share in the range, and the end of the range
/// where it lies outside.
pub proof fn position_is_the_share_in_the_range<A: Arithmetic>(
    m: Meaning<A>,
    db: A::Real,
    min_db: A::Real,
    max_db: A::Real,
    t: A::Real,
)
    requires
        m.holds(),
        m.of(min_db) < m.of(max_db),
        is_position::<A>(db, min_db, max_db, t),
    ensures
        0real <= m.of(t) <= 1real,
        m.of(db) <= m.of(min_db) ==> m.of(t) == 0real,
        m.of(db) >= m.of(max_db) ==> m.of(t) == 1real,
        m.of(min_db) <= m.of(db) <= m.of(max_db) ==> product(
            m.of(t),
            m.of(max_db) - m.of(min_db),
        ) == m.of(db) - m.of(min_db),
{
    let r = m.of(max_db) - m.of(min_db);
    let h = m.of(db) - m.of(min_db);
    let s = quotient(h, r);
    lemma_quotient(h, r);
    lemma_units(r);
    lemma_distribute(r, s, 1real);
    lemma_signs(s, r);
    lemma_signs(-s, r);
    lemma_negate(s, r);
    lemma_signs(s - 1real, r);
    lemma_distribute(r, 1real, s);
    lemma_signs(1real - s, r);
}

/// The colour of a level at `p` of the range, from 0 to 1: blue in the first
/// quarter; then green rises over a quarter, blue falls over an eighth, red rises
/// over an eighth, and green falls over the last quarter. What rises or falls does
/// so evenly between 0 and 255.
pub open spec fn is_shade(p: real, rgba: Seq<u8>) -> bool {
    let e = 8real * p;
    if e < 2real {
        rgba == seq![0u8, 0, 255, 255]
    } else if e < 4real {
        exists|green: u8|
            rgba == seq![0u8, green, 255, 255] && #[trigger] is_double_byte(
                255real * (e - 2real),
                green,
            )
    } else if e < 5real {
        exists|blue: u8|
            rgba == seq![0u8, 255, blue, 255] && #[trigger] is_double_byte(
                510real * (5real - e),
                blue,
            )
    } else if e < 6real {
        exists|red: u8|
            rgba == seq![red, 255u8, 0, 255] && #[trigger] is_double_byte(
                510real * (e - 5real),
                red,
            )
    } else {
        exists|green: u8|
            rgba == seq![255u8, green, 0, 255] && #[trigger] is_double_byte(
                255real * (8real - e),
                green,
            )
    }
}

/// Whether `byte` is the whole part of half of `x`, brought into the range of a
/// byte.
pub open spec fn is_double_byte(x: real, byte: u8) -> bool {
    if x < 0real {
        byte == 0
    } else if x >= 510real {
        byte == 255
    } else {
        (2 * byte) as real <= x < (2 * byte) as real + 2real
    }
}

/// A level has the colour of its position in the range.
pub proof fn colours_follow_the_position<A: Arithmetic>(
    m: Meaning<A>,
    db: A::Real,
    min_db: A::Real,
    max_db: A::Real,
    rgba: Seq<u8>,
) -> (t: A::Real)
    requires
        m.holds(),
        is_colour::<A>(db, min_db, max_db, rgba),
    ensures
        is_position::<A>(db, min_db, max_db, t),
        is_shade(m.of(t), rgba),
{
    let t = choose|t: A::Real| #[trigger]
        is_position::<A>(db, min_db, max_db, t) && is_colour_at::<A>(t, rgba);
    let (segment, u, rise, fall) = choose|segment: u8, u: A::Real, rise: u8, fall: u8|
        {
            &&& is_in_segment::<A>(t, segment)
            &&& #[trigger] is_share::<A>(t, segment, u)
            &&& #[trigger] is_brightness::<A>(u, rise)
            &&& #[trigger] is_darkness::<A>(u, fall)
            &&& rgba == gradient(segment, rise, fall)
        };
    lemma_segment(m, t, segment);
    let (start, distance, width) = choose|start: A::Real, distance: A::Real, width: A::Real|
        {
            &&& #[trigger] call_ensures(A::fraction, (segment_start(segment), 8i64), start)
            &&& #[trigger] call_ensures(A::minus, (t, start), distance)
            &&& #[trigger] call_ensures(A::fraction, (segment_width(segment), 8i64), width)
            &&& call_ensures(A::ratio, (distance, width), u)
        };
    lemma_eighths(segment_start(segment) as int as real);
    lemma_eighths(segment_width(segment) as int as real);
    lemma_quotient(m.of(distance), m.of(width));
    lemma_share(m.of(u), m.of(width), m.of(distance), segment_width(segment) as int as real);
    lemma_brightness(m, u, rise);
    let (one, rest) = choose|one: A::Real, rest: A::Real|
        {
            &&& #[trigger] call_ensures(A::integer, (1i64,), one)
            &&& #[trigger] call_ensures(A::minus, (one, u), rest)
            &&& is_brightness::<A>(rest, fall)
        };
    lemma_brightness(m, rest, fall);
    let e = 8real * m.of(t);
    if segment == 1 {
        assert(is_double_byte(255real * (e - 2real), rise));
    } else if segment == 2 {
        assert(is_double_byte(510real * (5real - e), fall));
    } else if segment == 3 {
        assert(is_double_byte(510real * (e - 5real), rise));
    } else if segment == 4 {
        assert(is_double_byte(255real * (8real - e), fall));
    }
    t
}

proof fn lemma_segment<A: Arithmetic>(m: Meaning<A>, t: A::Real, segment: u8)
    requires
        m.holds(),
        is_in_segment::<A>(t, segment),
    ensures
        segment <= 4,
        segment == 0 <==> 8real * m.of(t) < 2real,
        segment == 1 <==> 2real <= 8real * m.of(t) < 4real,
        segment == 2 <==> 4real <= 8real * m.of(t) < 5real,
        segment == 3 <==> 5real <= 8real * m.of(t) < 6real,
        segment == 4 <==> 6real <= 8real * m.of(t),
{
    if segment < 4 {
        lemma_below(m, t, segment_start((segment + 1) as u8), true);
    }
    if segment > 0 {
        assert(is_below::<A>(t, segment_start(segment), false));
        lemma_below(m, t, segment_start(segment), false);
    }
}

proof fn lemma_below<A: Arithmetic>(m: Meaning<A>, t: A::Real, eighths: i64, below: bool)
    requires
        m.holds(),
        is_below::<A>(t, eighths, below),
    ensures
        below == (8real * m.of(t) < eighths as int as real),
{
    lemma_eighths(eighths as int as real);
}

proof fn lemma_eighths(k: real)
    ensures
        8real * quotient(k, 8real) == k,
{
    reveal(quotient);
}

proof fn lemma_share(u: real, width: real, distance: real, eighths: real)
    requires
        product(u, width) == distance,
        8real * width == eighths,
        eighths == 1real || eighths == 2real,
    ensures
        eighths == 1real ==> 8real * distance == u,
        eighths == 2real ==> 8real * distance == u + u,
{
    reveal(product);
    assert(8real * (u * width) == u * (8real * width)) by (nonlinear_arith);
    lemma_units(u);
}

proof fn lemma_brightness<A: Arithmetic>(m: Meaning<A>, x: A::Real, byte: u8)
    requires
        m.holds(),
        is_brightness::<A>(x, byte),
    ensures
        is_byte_of(255real * m.of(x), byte),
        is_double_byte(510real * m.of(x), byte),
{
    lemma_scaled_to_bytes(m.of(x));
    assert((2 * byte) as real == (byte as int as real) + (byte as int as real));
}

proof fn lemma_scaled_to_bytes(x: real)
    ensures
        product(x, 255real) == 255real * x,
{
    reveal(product);
}

// ── Display ────────────────────────────────────────────────────────────────

/// The place of a frequency: twice its distance from the left edge, which is half
/// of the sample rate below the centre, is to twice the sample rate as the place
/// is to the width of the canvas.
proof fn lemma_place<A: Arithmetic>(
    m: Meaning<A>,
    display: WaterfallRenderer,
    f: A::Real,
    x: A::Real,
)
    requires
        m.holds(),
        display.sample_rate > 0,
        display.is_place::<A>(f, x),
    ensures
        product(m.of(x), (2 * display.sample_rate) as real) == product(
            m.of(f) + m.of(f) - (2 * display.center_freq) as real + display.sample_rate as int
                as real,
            display.width as int as real,
        ),
{
    let (left, distance, rate, share, width) = choose|
        left: A::Real,
        distance: A::Real,
        rate: A::Real,
        share: A::Real,
        width: A::Real,
    |
        {
            &&& #[trigger] display.is_left_edge::<A>(left)
            &&& #[trigger] call_ensures(A::minus, (f, left), distance)
            &&& #[trigger] call_ensures(A::integer, (display.sample_rate as i64,), rate)
            &&& #[trigger] call_ensures(A::ratio, (distance, rate), share)
            &&& #[trigger] call_ensures(A::integer, (display.width as i64,), width)
            &&& call_ensures(A::times, (share, width), x)
        };
    let (r, w, d, s) = (m.of(rate), m.of(width), m.of(distance), m.of(share));
    lemma_left_edge(m, display, left);
    lemma_quotient(d, r);
    // x * r == d * w
    lemma_commute(s, w);
    lemma_associate(w, s, r);
    lemma_commute(w, d);
    assert(product(m.of(x), r) == product(d, w));
    lemma_distribute(m.of(x), r, r);
    lemma_distribute(w, d, d);
    assert((2 * display.sample_rate) as real == r + r);
    assert((2 * display.center_freq) as real == display.center_freq as int as real
        + display.center_freq as int as real);
}

proof fn lemma_left_edge<A: Arithmetic>(m: Meaning<A>, display: WaterfallRenderer, left: A::Real)
    requires
        m.holds(),
        display.is_left_edge::<A>(left),
    ensures
        m.of(left) + m.of(left) == (2 * display.center_freq) as real - display.sample_rate as int
            as real,
{
    let (rate, two, half, center) = choose|
        rate: A::Real,
        two: A::Real,
        half: A::Real,
        center: A::Real,
    |
        {
            &&& #[trigger] call_ensures(A::integer, (display.sample_rate as i64,), rate)
            &&& #[trigger] call_ensures(A::integer, (2i64,), two)
            &&& #[trigger] call_ensures(A::ratio, (rate, two), half)
            &&& #[trigger] call_ensures(A::integer, (display.center_freq as i64,), center)
            &&& call_ensures(A::minus, (center, half), left)
        };
    lemma_quotient(m.of(rate), 2real);
    lemma_units(m.of(half));
    assert((2 * display.center_freq) as real == display.center_freq as int as real
        + display.center_freq as int as real);
}

/// A grid line lies on the canvas, as far from its left edge as its frequency is
/// from that half of the sample rate below the centre, with the sample rate as
/// wide as the canvas. So the line of the centre frequency is in the middle.
pub proof fn grid_lines_are_drawn_to_scale<A: Arithmetic>(
    m: Meaning<A>,
    display: WaterfallRenderer,
    lines: Seq<FrequencyLine<A>>,
    i: int,
)
    requires
        m.holds(),
        display.sample_rate > 0,
        display.is_frequency_grid::<A>(lines),
        0 <= i < lines.len(),
    ensures
        product(m.of(lines[i].x), (10 * display.sample_rate) as real) == ((lines[i].tenths - 10
            * display.center_freq + 5 * display.sample_rate) * display.width) as real,
        0real <= m.of(lines[i].x) <= display.width as int as real,
{
    let line = lines[i];
    let tenths = Seq::new(lines.len(), |k: int| lines[k].tenths);
    assert(tenths[i] == line.tenths);
    assert(display.left_tenths() <= line.tenths <= display.right_tenths());
    let f = choose|f: A::Real| #[trigger]
        call_ensures(A::fraction, (line.tenths, 10i64), f) && display.is_place::<A>(f, line.x);
    lemma_place(m, display, f, line.x);
    lemma_quotient(line.tenths as int as real, 10real);
    let (x, r, w, c, t) = (
        m.of(line.x),
        display.sample_rate as int as real,
        display.width as int as real,
        display.center_freq as int as real,
        line.tenths as int as real,
    );
    let v = m.of(f);
    lemma_fives(v);
    assert(v + v + v + v + v + v + v + v + v + v == t);
    let d = v + v - (2 * display.center_freq) as real + r;
    lemma_fives_of(x, (2 * display.sample_rate) as real, d, w);
    let span = line.tenths - 10 * display.center_freq + 5 * display.sample_rate;
    assert((10 * display.sample_rate) as real == 10real * r);
    assert((2 * display.sample_rate) as real == 2real * r);
    assert((2 * display.center_freq) as real == 2real * c);
    assert(span as real == t - 10real * c + 5real * r);
    lemma_whole_product(span, display.width as int);
    // The line lies on the canvas.
    let rate10 = (10 * display.sample_rate) as real;
    assert(0 <= span <= 10 * display.sample_rate);
    lemma_signs(span as real, w);
    lemma_signs(x, rate10);
    lemma_distribute(w, rate10, span as real);
    lemma_signs(rate10 - span as real, w);
    lemma_commute(rate10, w);
    lemma_distribute(rate10, w, x);
    lemma_signs(w - x, rate10);
}

proof fn lemma_fives(v: real)
    ensures
        product(v, 10real) == v + v + v + v + v + v + v + v + v + v,
{
    reveal(product);
    assert(v * 10real == v + v + v + v + v + v + v + v + v + v) by (nonlinear_arith);
}

/// Five times each side.
proof fn lemma_fives_of(x: real, a: real, d: real, w: real)
    requires
        product(x, a) == product(d, w),
    ensures
        product(x, a + a + a + a + a) == product(d + d + d + d + d, w),
{
    lemma_distribute(x, a + a + a + a, a);
    lemma_distribute(x, a + a + a, a);
    lemma_distribute(x, a + a, a);
    lemma_distribute(x, a, a);
    lemma_distribute(w, d + d + d + d, d);
    lemma_distribute(w, d + d + d, d);
    lemma_distribute(w, d + d, d);
    lemma_distribute(w, d, d);
}

proof fn lemma_whole_product(a: int, b: int)
    requires
        b >= 0,
    ensures
        product(a as real, b as real) == (a * b) as real,
    decreases b,
{
    lemma_units(a as real);
    if b > 0 {
        lemma_whole_product(a, b - 1);
        lemma_distribute(a as real, (b - 1) as real, 1real);
        assert(b as real == (b - 1) as real + 1real);
        assert(a * b == a * (b - 1) + a) by (nonlinear_arith);
        assert((a * (b - 1) + a) as real == (a * (b - 1)) as real + a as real);
    } else {
        assert(a * b == 0) by (nonlinear_arith)
            requires
                b == 0,
        ;
    }
}

/// The passband is drawn around the middle of the canvas, and its width is to the
/// canvas as the passband is to the sample rate.
pub proof fn passband_is_drawn_to_scale<A: Arithmetic>(
    m: Meaning<A>,
    display: WaterfallRenderer,
    band: Passband<A>,
)
    requires
        m.holds(),
        display.sample_rate > 0,
        display.is_passband::<A>(band),
    ensures
        m.of(band.center) + m.of(band.center) == display.width as int as real,
        m.of(band.left) + m.of(band.right) == display.width as int as real,
        product(m.of(band.right) - m.of(band.left), display.sample_rate as int as real) == product(
            display.passband_hz as int as real,
            display.width as int as real,
        ),
{
    let (width, two, half, center, low, high) = choose|
        width: A::Real,
        two: A::Real,
        half: A::Real,
        center: A::Real,
        low: A::Real,
        high: A::Real,
    |
        {
            &&& #[trigger] display.passband_steps::<A>(width, two, half, center, low, high)
            &&& display.is_place::<A>(low, band.left)
            &&& display.is_place::<A>(center, band.center)
            &&& display.is_place::<A>(high, band.right)
        };
    lemma_place(m, display, low, band.left);
    lemma_place(m, display, center, band.center);
    lemma_place(m, display, high, band.right);
    let (r, w, c, p) = (
        display.sample_rate as int as real,
        display.width as int as real,
        display.center_freq as int as real,
        display.passband_hz as int as real,
    );
    lemma_quotient(p, 2real);
    lemma_units(m.of(half));
    let h = m.of(half);
    assert(h + h == p);
    assert((2 * display.sample_rate) as real == r + r);
    assert((2 * display.center_freq) as real == c + c);
    let (x0, x1, x2) = (m.of(band.left), m.of(band.center), m.of(band.right));
    // x1 * 2r == r * w
    lemma_distribute(x1, r, r);
    lemma_distribute(r, x1, x1);
    lemma_commute(r, w);
    lemma_commute(r, x1 + x1);
    lemma_cancel(x1 + x1, w, r);
    // The edges: x0 * 2r == (r - p) * w and x2 * 2r == (r + p) * w.
    lemma_distribute(w, r, p);
    lemma_distribute(r + r, x0, x2);
    lemma_distribute(r + r, x2, x0);
    lemma_commute(r + r, x0 + x2);
    lemma_distribute(w, r, r);
    lemma_commute(r + r, w);
    lemma_cancel(x0 + x2, w, r + r);
    lemma_distribute(x2 - x0, r, r);
    assert(m.of(low) + m.of(low) - (c + c) + r == r - p);
    assert(m.of(high) + m.of(high) - (c + c) + r == r + p);
}

/// The highest level is drawn at the top of the spectrum and the lowest at its
/// bottom, levels beyond them are drawn there too, and those between in
/// proportion.
pub proof fn levels_are_drawn_to_scale<A: Arithmetic>(
    m: Meaning<A>,
    display: WaterfallRenderer,
    db: A::Real,
    y: A::Real,
)
    requires
        m.holds(),
        display.is_height::<A>(db, y),
    ensures
        m.of(db) >= 0real ==> m.of(y) == 0real,
        m.of(db) <= -60real ==> m.of(y) == display.spectrum_height as int as real,
        -60real <= m.of(db) <= 0real ==> product(m.of(y), 60real) == product(
            display.spectrum_height as int as real,
            -m.of(db),
        ),
{
    let (min_db, max_db, norm, one, rest, height) = choose|
        min_db: A::Real,
        max_db: A::Real,
        norm: A::Real,
        one: A::Real,
        rest: A::Real,
        height: A::Real,
    | #[trigger]
        display.height_steps::<A>(db, min_db, max_db, norm, one, rest, height, y);
    assert(m.of(min_db) == -60real && m.of(max_db) == 0real);
    position_is_the_share_in_the_range(m, db, min_db, max_db, norm);
    let (h, t) = (m.of(height), m.of(norm));
    lemma_units(h);
    if -60real <= m.of(db) <= 0real {
        assert(product(t, 60real) == m.of(db) + 60real);
        lemma_associate(h, 1real - t, 60real);
        lemma_distribute(60real, 1real, t);
        lemma_units(60real);
    }
}

/// The horizontal grid lines are those of -50, -40, -30, -20 and -10 decibels,
/// each at its height.
pub proof fn level_lines_are_drawn_to_scale<A: Arithmetic>(
    m: Meaning<A>,
    display: WaterfallRenderer,
    lines: Seq<LevelLine<A>>,
    i: int,
)
    requires
        m.holds(),
        display.is_level_grid::<A>(lines),
        0 <= i < 5,
    ensures
        lines.len() == 5,
        lines[i].level == 10 * i - 50,
        product(m.of(lines[i].y), 60real) == product(
            display.spectrum_height as int as real,
            (50 - 10 * i) as real,
        ),
{
    let line = lines[i];
    assert(display.is_level_line::<A>(line));
    let db = choose|db: A::Real| #[trigger]
        call_ensures(A::integer, (line.level,), db) && display.is_height::<A>(db, line.y);
    levels_are_drawn_to_scale(m, display, db, line.y);
    assert(m.of(db) == (10 * i - 50) as real);
    assert((50 - 10 * i) as real == -((10 * i - 50) as real));
}

/// The points of the spectrum are spread evenly over the width of the canvas,
/// each at the height of its level.
pub proof fn spectrum_is_drawn_to_scale<A: Arithmetic>(
    m: Meaning<A>,
    display: WaterfallRenderer,
    spectrum: Seq<A::Real>,
    line: Seq<Point<A>>,
    i: int,
)
    requires
        m.holds(),
        display.is_spectrum_line::<A>(spectrum, line),
        spectrum.len() <= usize::MAX,
        0 <= i < spectrum.len(),
    ensures
        line.len() == spectrum.len(),
        product(m.of(line[i].x), spectrum.len() as int as real) == (i * display.width) as real,
        m.of(spectrum[i]) >= 0real ==> m.of(line[i].y) == 0real,
        m.of(spectrum[i]) <= -60real ==> m.of(line[i].y) == display.spectrum_height as int as real,
        -60real <= m.of(spectrum[i]) <= 0real ==> product(m.of(line[i].y), 60real) == product(
            display.spectrum_height as int as real,
            -m.of(spectrum[i]),
        ),
{
    let n = spectrum.len() as usize;
    assert(display.is_level_point::<A>(i as usize, n, spectrum[i], line[i]));
    levels_are_drawn_to_scale(m, display, spectrum[i], line[i].y);
    let (width, count, scale, index) = choose|
        width: A::Real,
        count: A::Real,
        scale: A::Real,
        index: A::Real,
    |
        {
            &&& #[trigger] call_ensures(A::integer, (display.width as i64,), width)
            &&& #[trigger] call_ensures(A::count, (n,), count)
            &&& #[trigger] call_ensures(A::ratio, (width, count), scale)
            &&& #[trigger] call_ensures(A::count, (i as usize,), index)
            &&& call_ensures(A::times, (index, scale), line[i].x)
            &&& display.is_height::<A>(spectrum[i], line[i].y)
        };
    lemma_quotient(m.of(width), m.of(count));
    lemma_associate(m.of(index), m.of(scale), m.of(count));
    lemma_whole_product(i, display.width as int);
}

// ── Filters ────────────────────────────────────────────────────────────────

/// The sample at time `t` of `samples` that follow `history`, where times below
/// zero are those of the history.
pub open spec fn sample_at<T>(history: Seq<T>, samples: Seq<T>, t: int) -> T {
    if t >= 0 {
        samples[t]
    } else {
        history[-1 - t]
    }
}

/// The sum over `k` of coefficient `k` times the real part of the sample `k` before
/// time `t`.
pub open spec fn re_at<A: Arithmetic>(
    m: Meaning<A>,
    taps: Seq<A::Real>,
    history: Seq<A::Iq>,
    samples: Seq<A::Iq>,
    t: int,
) -> real {
    sum(
        Seq::new(
            taps.len(),
            |k: int| product((m.re)(sample_at(history, samples, t - k)), m.of(taps[k])),
        ),
    )
}

/// The sum over `k` of coefficient `k` times the imaginary part of the sample `k`
/// before time `t`.
pub open spec fn im_at<A: Arithmetic>(
    m: Meaning<A>,
    taps: Seq<A::Real>,
    history: Seq<A::Iq>,
    samples: Seq<A::Iq>,
    t: int,
) -> real {
    sum(
        Seq::new(
            taps.len(),
            |k: int| product((m.im)(sample_at(history, samples, t - k)), m.of(taps[k])),
        ),
    )
}

/// The sum over `k` of coefficient `k` times the sample `k` before time `t`.
pub open spec fn value_at<A: Arithmetic>(
    m: Meaning<A>,
    taps: Seq<A::Real>,
    history: Seq<A::Real>,
    samples: Seq<A::Real>,
    t: int,
) -> real {
    sum(
        Seq::new(
            taps.len(),
            |k: int| product(m.of(sample_at(history, samples, t - k)), m.of(taps[k])),
        ),
    )
}

/// A filter on complex samples is a convolution: each part of the result for time
/// `t` is the sum over `k` of coefficient `k` times that part of the sample at
/// time `t - k`. Results are kept for the times that are multiples of the
/// decimation factor.
pub proof fn iq_filter_is_a_convolution<A: Arithmetic>(
    m: Meaning<A>,
    taps: Seq<A::Real>,
    history: Seq<A::Iq>,
    samples: Seq<A::Iq>,
    decim: int,
    out: Seq<A::Iq>,
    j: int,
)
    requires
        m.holds(),
        decim > 0,
        history.len() == taps.len(),
        is_iq_filtered::<A>(taps, history, samples, decim, out),
        0 <= j < out.len(),
    ensures
        (out.len() - 1) * decim < samples.len() <= out.len() * decim,
        (m.re)(out[j]) == re_at(m, taps, history, samples, j * decim),
        (m.im)(out[j]) == im_at(m, taps, history, samples, j * decim),
{
    lemma_kept(samples.len() as int, decim);
    assert(0 <= j * decim) by (nonlinear_arith)
        requires
            0 <= j,
            decim > 0,
    ;
    let window = history_after(history, samples, j * decim + 1);
    let n = taps.len() as int;
    assert(is_iq_sum::<A>(window, taps, out[j]));
    let acc = choose|acc: Seq<A::Iq>| #[trigger]
        is_iq_accumulation::<A>(window, taps, acc, taps.len() as int) && out[j] == acc.last();
    lemma_iq_partial_sum(m, window, taps, acc, n);
    let re = Seq::new(taps.len(), |k: int| product((m.re)(window[k]), m.of(taps[k])));
    let im = Seq::new(taps.len(), |k: int| product((m.im)(window[k]), m.of(taps[k])));
    assert(re.take(n) =~= re);
    assert(im.take(n) =~= im);
    assert(re =~= Seq::new(
        taps.len(),
        |k: int| product((m.re)(sample_at(history, samples, j * decim - k)), m.of(taps[k])),
    ));
    assert(im =~= Seq::new(
        taps.len(),
        |k: int| product((m.im)(sample_at(history, samples, j * decim - k)), m.of(taps[k])),
    ));
}

/// Results are kept for the times within the block that are whole decimation
/// periods, and for no others.
proof fn lemma_kept(len: int, decim: int)
    requires
        decim > 0,
    ensures
        (decimated_len(len, decim) - 1) * decim < len <= decimated_len(len, decim) * decim,
        forall|j: int| 0 <= j < decimated_len(len, decim) ==> #[trigger] (j * decim) < len,
{
    let q = decimated_len(len, decim);
    vstd::arithmetic::div_mod::lemma_fundamental_div_mod(len + decim - 1, decim);
    assert((q - 1) * decim < len && len <= q * decim) by (nonlinear_arith)
        requires
            len + decim - 1 == decim * q + (len + decim - 1) % decim,
            0 <= (len + decim - 1) % decim < decim,
    ;
    assert forall|j: int| 0 <= j < q implies #[trigger] (j * decim) < len by {
        assert(j * decim < len) by (nonlinear_arith)
            requires
                j <= q - 1,
                (q - 1) * decim < len,
                decim > 0,
        ;
    }
}

proof fn lemma_iq_partial_sum<A: Arithmetic>(
    m: Meaning<A>,
    window: Seq<A::Iq>,
    taps: Seq<A::Real>,
    acc: Seq<A::Iq>,
    k: int,
)
    requires
        m.holds(),
        window.len() == taps.len(),
        is_iq_accumulation::<A>(window, taps, acc, taps.len() as int),
        0 <= k <= taps.len(),
    ensures
        (m.re)(acc[k]) == sum(
            Seq::new(taps.len(), |i: int| product((m.re)(window[i]), m.of(taps[i]))).take(k),
        ),
        (m.im)(acc[k]) == sum(
            Seq::new(taps.len(), |i: int| product((m.im)(window[i]), m.of(taps[i]))).take(k),
        ),
    decreases k,
{
    let re = Seq::new(taps.len(), |i: int| product((m.re)(window[i]), m.of(taps[i])));
    let im = Seq::new(taps.len(), |i: int| product((m.im)(window[i]), m.of(taps[i])));
    if k > 0 {
        let i = k - 1;
        lemma_iq_partial_sum(m, window, taps, acc, i);
        assert(re.take(k).drop_last() =~= re.take(i));
        assert(im.take(k).drop_last() =~= im.take(i));
        assert(is_iq_mac::<A>(acc[i], window[i], taps[i], acc[i + 1]));
    } else {
        assert(re.take(0) =~= Seq::<real>::empty());
        assert(im.take(0) =~= Seq::<real>::empty());
    }
}

/// A filter on real samples is a convolution in the same way.
pub proof fn filter_is_a_convolution<A: Arithmetic>(
    m: Meaning<A>,
    taps: Seq<A::Real>,
    history: Seq<A::Real>,
    samples: Seq<A::Real>,
    decim: int,
    out: Seq<A::Real>,
    j: int,
)
    requires
        m.holds(),
        decim > 0,
        history.len() == taps.len(),
        is_filtered::<A>(taps, history, samples, decim, out),
        0 <= j < out.len(),
    ensures
        (out.len() - 1) * decim < samples.len() <= out.len() * decim,
        m.of(out[j]) == value_at(m, taps, history, samples, j * decim),
{
    lemma_kept(samples.len() as int, decim);
    assert(0 <= j * decim) by (nonlinear_arith)
        requires
            0 <= j,
            decim > 0,
    ;
    let window = history_after(history, samples, j * decim + 1);
    let n = taps.len() as int;
    assert(is_sum::<A>(window, taps, out[j]));
    let acc = choose|acc: Seq<A::Real>| #[trigger]
        is_accumulation::<A>(window, taps, acc, taps.len() as int) && out[j] == acc.last();
    lemma_partial_sum(m, window, taps, acc, n);
    let terms = Seq::new(taps.len(), |k: int| product(m.of(window[k]), m.of(taps[k])));
    assert(terms.take(n) =~= terms);
    assert(terms =~= Seq::new(
        taps.len(),
        |k: int| product(m.of(sample_at(history, samples, j * decim - k)), m.of(taps[k])),
    ));
}

proof fn lemma_partial_sum<A: Arithmetic>(
    m: Meaning<A>,
    window: Seq<A::Real>,
    taps: Seq<A::Real>,
    acc: Seq<A::Real>,
    k: int,
)
    requires
        m.holds(),
        window.len() == taps.len(),
        is_accumulation::<A>(window, taps, acc, taps.len() as int),
        0 <= k <= taps.len(),
    ensures
        m.of(acc[k]) == sum(
            Seq::new(taps.len(), |i: int| product(m.of(window[i]), m.of(taps[i]))).take(k),
        ),
    decreases k,
{
    let terms = Seq::new(taps.len(), |i: int| product(m.of(window[i]), m.of(taps[i])));
    if k > 0 {
        let i = k - 1;
        lemma_partial_sum(m, window, taps, acc, i);
        assert(terms.take(k).drop_last() =~= terms.take(i));
        assert(is_mac::<A>(acc[i], window[i], taps[i], acc[i + 1]));
    } else {
        assert(terms.take(0) =~= Seq::<real>::empty());
    }
}

/// Coefficient `i` of `n` of an ideal low-pass filter with the cutoff `fc`
/// relative to the sample rate, up to a common factor: the sinc function around
/// the middle, under a raised cosine that is zero at both ends.
pub open spec fn ideal_tap<A: Arithmetic>(m: Meaning<A>, fc: real, i: int, n: int) -> real {
    let speed = product(m.pi + m.pi, fc);
    let away = i - n / 2;
    let sinc = if away == 0 {
        speed
    } else {
        quotient((m.sin)(product(speed, away as real)), away as real)
    };
    product(
        sinc,
        1real - (m.cos)(quotient(product(m.pi + m.pi, i as real), (n - 1) as real)),
    )
}

/// The coefficients of a low-pass filter are those of the ideal one, scaled so
/// that they add up to one.
pub proof fn low_pass_is_a_windowed_sinc<A: Arithmetic>(
    m: Meaning<A>,
    cutoff: A::Real,
    rate: A::Real,
    n: int,
    taps: Seq<A::Real>,
    i: int,
)
    requires
        m.holds(),
        m.of(rate) != 0real,
        2 <= n <= i64::MAX,
        is_low_pass::<A>(cutoff, rate, n, taps),
        0 <= i < n,
        ({
            let fc = quotient(m.of(cutoff), m.of(rate));
            sum(Seq::new(n as nat, |k: int| ideal_tap(m, fc, k, n))) != 0real
        }),
    ensures
        taps.len() == n,
        ({
            let fc = quotient(m.of(cutoff), m.of(rate));
            product(m.of(taps[i]), sum(Seq::new(n as nat, |k: int| ideal_tap(m, fc, k, n))))
                == ideal_tap(m, fc, i, n)
        }),
{
    let (fc, raw, sums) = choose|fc: A::Real, raw: Seq<A::Real>, sums: Seq<A::Real>| #[trigger]
        is_low_pass_design::<A>(cutoff, rate, n, fc, raw, sums, n) && taps.len() == n && forall|
            i: int,
        | #![trigger taps[i]] 0 <= i < n ==> call_ensures(A::ratio, (raw[i], sums[n]), taps[i]);
    let f = quotient(m.of(cutoff), m.of(rate));
    assert(m.of(fc) == f);
    let ideal = Seq::new(n as nat, |k: int| ideal_tap(m, f, k, n));
    lemma_design_sum(m, cutoff, rate, n, fc, raw, sums, n);
    assert(ideal.take(n) =~= ideal);
    assert(is_sinc_tap::<A>(fc, i, n, raw[i]));
    lemma_sinc_tap(m, fc, i, n, raw[i]);
    assert(call_ensures(A::ratio, (raw[i], sums[n]), taps[i]));
    lemma_quotient(m.of(raw[i]), m.of(sums[n]));
    lemma_distribute(m.of(taps[i]), m.of(sums[n]), m.of(sums[n]));
}

proof fn lemma_design_sum<A: Arithmetic>(
    m: Meaning<A>,
    cutoff: A::Real,
    rate: A::Real,
    n: int,
    fc: A::Real,
    raw: Seq<A::Real>,
    sums: Seq<A::Real>,
    k: int,
)
    requires
        m.holds(),
        2 <= n <= i64::MAX,
        is_low_pass_design::<A>(cutoff, rate, n, fc, raw, sums, n),
        0 <= k <= n,
    ensures
        m.of(sums[k]) + m.of(sums[k]) == sum(
            Seq::new(n as nat, |i: int| ideal_tap(m, m.of(fc), i, n)).take(k),
        ),
    decreases k,
{
    let ideal = Seq::new(n as nat, |i: int| ideal_tap(m, m.of(fc), i, n));
    if k > 0 {
        let i = k - 1;
        lemma_design_sum(m, cutoff, rate, n, fc, raw, sums, i);
        assert(ideal.take(k).drop_last() =~= ideal.take(i));
        assert(call_ensures(A::plus, (sums[i], raw[i]), sums[i + 1]));
        assert(is_sinc_tap::<A>(fc, i, n, raw[i]));
        lemma_sinc_tap(m, fc, i, n, raw[i]);
    } else {
        assert(ideal.take(0) =~= Seq::<real>::empty());
    }
}

proof fn lemma_sinc_tap<A: Arithmetic>(m: Meaning<A>, fc: A::Real, i: int, n: int, out: A::Real)
    requires
        m.holds(),
        2 <= n <= i64::MAX,
        0 <= i < n,
        is_sinc_tap::<A>(fc, i, n, out),
    ensures
        m.of(out) + m.of(out) == ideal_tap(m, m.of(fc), i, n),
{
    let (sinc, place, span, weight) = choose|
        sinc: A::Real,
        place: A::Real,
        span: A::Real,
        weight: A::Real,
    |
        {
            &&& #[trigger] is_sinc::<A>(fc, i - n / 2, sinc)
            &&& call_ensures(A::integer, (i as i64,), place)
            &&& call_ensures(A::integer, ((n - 1) as i64,), span)
            &&& #[trigger] is_hann::<A>(place, span, weight)
            &&& call_ensures(A::times, (sinc, weight), out)
        };
    assert(m.of(place) == i as real);
    assert(m.of(span) == (n - 1) as real);
    hann_is_a_raised_cosine(m, place, span, weight);
    lemma_distribute(m.of(sinc), m.of(weight), m.of(weight));
    let away = i - n / 2;
    let (turn, width) = choose|turn: A::Real, width: A::Real|
        {
            &&& #[trigger] is_turn::<A>(turn)
            &&& #[trigger] call_ensures(A::times, (turn, fc), width)
            &&& if away == 0 {
                sinc == width
            } else {
                is_sine_over::<A>(width, away, sinc)
            }
        };
    lemma_turn(m, turn);
    if away != 0 {
        let (far, angle, sine) = choose|far: A::Real, angle: A::Real, sine: A::Real|
            {
                &&& #[trigger] call_ensures(A::integer, (away as i64,), far)
                &&& #[trigger] call_ensures(A::times, (width, far), angle)
                &&& #[trigger] call_ensures(A::sin, (angle,), sine)
                &&& call_ensures(A::ratio, (sine, far), sinc)
            };
        assert(m.of(far) == away as real);
        assert(away as real != 0real);
    }
}

// ── The made-up signal ─────────────────────────────────────────────────────

/// A new source has a carrier 50 kHz above the centre, a tone of 1 kHz, and a
/// deviation of 75 kHz; it starts at the beginning of both.
pub proof fn source_starts_at_the_beginning<A: Arithmetic>(
    m: Meaning<A>,
    sample_rate: A::Real,
    source: MockIqSource<A>,
)
    requires
        m.holds(),
        source.is_new(sample_rate),
    ensures
        m.of(source.tone().carrier_offset) == 50_000real,
        m.of(source.tone().mod_freq) == 1_000real,
        m.of(source.tone().fm_deviation) == 75_000real,
        source.tone().sample_rate == sample_rate,
        m.of(source.place().phase) == 0real,
        m.of(source.place().audio_phase) == 0real,
        source.noise_seed == 42,
{
}

/// From one sample to the next the carrier turns at its own frequency plus the
/// deviation times the tone, and the time within the tone moves on by one sample.
/// The phase stays below half a turn and the time below a second.
pub proof fn source_turns_at_the_modulated_frequency<A: Arithmetic>(
    m: Meaning<A>,
    tone: Tone<A>,
    before: Phase<A>,
    next: Phase<A>,
) -> (steps: (real, real))
    requires
        m.holds(),
        m.of(tone.sample_rate) > 0real,
        is_advanced::<A>(tone, before, next),
    ensures
        ({
            let tone_angle = product(
                product(m.pi + m.pi, m.of(tone.mod_freq)),
                m.of(before.audio_phase),
            );
            let frequency = m.of(tone.carrier_offset) + product(
                m.of(tone.fm_deviation),
                (m.sin)(tone_angle),
            );
            product(steps.0, m.of(tone.sample_rate)) == product(m.pi + m.pi, frequency)
        }),
        product(steps.1, m.of(tone.sample_rate)) == 1real,
        ({
            let phase = m.of(before.phase) + steps.0;
            m.of(next.phase) == if phase > m.pi {
                phase - m.pi - m.pi
            } else {
                phase
            }
        }),
        ({
            let time = m.of(before.audio_phase) + steps.1;
            m.of(next.audio_phase) == if time > 1real {
                time - 1real
            } else {
                time
            }
        }),
{
    let (one, dt, audio) = choose|one: A::Real, dt: A::Real, audio: A::Real|
        {
            &&& #[trigger] call_ensures(A::integer, (1i64,), one)
            &&& #[trigger] call_ensures(A::ratio, (one, tone.sample_rate), dt)
            &&& #[trigger] is_audio::<A>(tone.mod_freq, before.audio_phase, audio)
            &&& is_next_audio_phase::<A>(before.audio_phase, dt, next.audio_phase)
            &&& is_next_phase::<A>(tone, before.phase, audio, dt, next.phase)
        };
    let (swing, frequency, turn, speed, step, later, pi) = choose|
        swing: A::Real,
        frequency: A::Real,
        turn: A::Real,
        speed: A::Real,
        step: A::Real,
        later: A::Real,
        pi: A::Real,
    |
        {
            &&& #[trigger] carrier_steps::<A>(
                tone,
                before.phase,
                audio,
                dt,
                swing,
                frequency,
                turn,
                speed,
                step,
                later,
                pi,
            )
            &&& is_wrapped::<A>(later, pi, turn, next.phase)
        };
    let (audio_turn, audio_speed, angle) = choose|
        audio_turn: A::Real,
        audio_speed: A::Real,
        angle: A::Real,
    | #[trigger]
        audio_steps::<A>(tone.mod_freq, before.audio_phase, audio_turn, audio_speed, angle, audio);
    lemma_turn(m, turn);
    lemma_turn(m, audio_turn);
    lemma_quotient(1real, m.of(tone.sample_rate));
    lemma_associate(m.of(speed), m.of(dt), m.of(tone.sample_rate));
    lemma_units(m.of(speed));
    (m.of(step), m.of(dt))
}

/// The numbers of the noise are spread evenly from -1 to 1.
pub proof fn noise_is_spread_from_minus_one_to_one<A: Arithmetic>(
    m: Meaning<A>,
    number: u32,
    out: A::Real,
)
    requires
        m.holds(),
        is_noise::<A>(number, out),
    ensures
        product(m.of(out) + 1real, 4_294_967_295real) == (2 * number) as real,
{
    let (value, largest, share, two, doubled, one) = choose|
        value: A::Real,
        largest: A::Real,
        share: A::Real,
        two: A::Real,
        doubled: A::Real,
        one: A::Real,
    | #[trigger]
        noise_steps::<A>(number, value, largest, share, two, doubled, one, out);
    let s = m.of(share);
    lemma_quotient(m.of(value), 4_294_967_295real);
    lemma_units(s);
    lemma_distribute(4_294_967_295real, s, s);
    assert((2 * number) as real == (number as int as real) + (number as int as real));
}

/// The bytes of a sample are the cosine and the sine of the phase at 80 steps,
/// each with noise of at most 4 steps, around the middle of the range.
pub proof fn source_samples_the_carrier<A: Arithmetic>(
    m: Meaning<A>,
    phase: A::Real,
    number_i: u32,
    number_q: u32,
    i: u8,
    q: u8,
) -> (levels: (real, real, real, real))
    requires
        m.holds(),
        is_raw_sample::<A>(phase, number_i, number_q, i, q),
    ensures
        product(levels.2 + 1real, 4_294_967_295real) == (2 * number_i) as real,
        product(levels.3 + 1real, 4_294_967_295real) == (2 * number_q) as real,
        levels.0 + levels.0 == product(160real, (m.cos)(m.of(phase))) + product(8real, levels.2)
            + 255real,
        levels.1 + levels.1 == product(160real, (m.sin)(m.of(phase))) + product(8real, levels.3)
            + 255real,
        is_byte_of(levels.0, i),
        is_byte_of(levels.1, q),
{
    let (cosine, sine, noise_i, noise_q) = choose|
        cosine: A::Real,
        sine: A::Real,
        noise_i: A::Real,
        noise_q: A::Real,
    |
        {
            &&& #[trigger] call_ensures(A::cos, (phase,), cosine)
            &&& #[trigger] call_ensures(A::sin, (phase,), sine)
            &&& #[trigger] is_noise::<A>(number_i, noise_i)
            &&& #[trigger] is_noise::<A>(number_q, noise_q)
            &&& is_noisy_byte::<A>(cosine, noise_i, i)
            &&& is_noisy_byte::<A>(sine, noise_q, q)
        };
    noise_is_spread_from_minus_one_to_one(m, number_i, noise_i);
    noise_is_spread_from_minus_one_to_one(m, number_q, noise_q);
    let x = lemma_noisy_byte(m, cosine, noise_i, i);
    let y = lemma_noisy_byte(m, sine, noise_q, q);
    (x, y, m.of(noise_i), m.of(noise_q))
}

proof fn lemma_noisy_byte<A: Arithmetic>(
    m: Meaning<A>,
    signal: A::Real,
    noise: A::Real,
    out: u8,
) -> (level: real)
    requires
        m.holds(),
        is_noisy_byte::<A>(signal, noise, out),
    ensures
        level + level == product(160real, m.of(signal)) + product(8real, m.of(noise)) + 255real,
        is_byte_of(level, out),
{
    let (share, faint, noisy, scale, scaled, middle, shifted, zero, top, bounded) = choose|
        share: A::Real,
        faint: A::Real,
        noisy: A::Real,
        scale: A::Real,
        scaled: A::Real,
        middle: A::Real,
        shifted: A::Real,
        zero: A::Real,
        top: A::Real,
        bounded: A::Real,
    | #[trigger]
        byte_steps::<A>(
            signal,
            noise,
            share,
            faint,
            noisy,
            scale,
            scaled,
            middle,
            shifted,
            zero,
            top,
            bounded,
            out,
        );
    lemma_quotient(1real, 20real);
    lemma_quotient(255real, 2real);
    lemma_units(m.of(middle));
    lemma_amplitude(m.of(signal), m.of(noise), m.of(share));
    m.of(shifted)
}

/// Eighty times a signal with a twentieth of the noise in it, twice.
proof fn lemma_amplitude(signal: real, noise: real, share: real)
    requires
        product(share, 20real) == 1real,
    ensures
        ({
            let scaled = product(signal + product(noise, share), 80real);
            scaled + scaled == product(160real, signal) + product(8real, noise)
        }),
{
    let faint = product(noise, share);
    lemma_distribute(80real, signal, faint);
    lemma_associate(noise, share, 20real);
    lemma_units(noise);
    // faint * 20 == noise
    reveal(product);
}

// ── The chain ──────────────────────────────────────────────────────────────

/// Whether the 31 coefficients are those of the ideal low-pass filter with this
/// cutoff at this rate, scaled so that they add up to one.
pub open spec fn is_ideal_low_pass<A: Arithmetic>(
    m: Meaning<A>,
    cutoff: real,
    rate: real,
    taps: Seq<A::Real>,
) -> bool {
    let fc = quotient(cutoff, rate);
    let total = sum(Seq::new(31, |k: int| ideal_tap(m, fc, k, 31)));
    &&& taps.len() == 31
    &&& total != 0real ==> forall|i: int| #![trigger taps[i]]
        0 <= i < 31 ==> product(m.of(taps[i]), total) == ideal_tap(m, fc, i, 31)
}

proof fn lemma_ideal_low_pass<A: Arithmetic>(
    m: Meaning<A>,
    cutoff: A::Real,
    rate: A::Real,
    taps: Seq<A::Real>,
)
    requires
        m.holds(),
        m.of(rate) != 0real,
        is_low_pass::<A>(cutoff, rate, 31, taps),
    ensures
        is_ideal_low_pass(m, m.of(cutoff), m.of(rate), taps),
{
    let fc = quotient(m.of(cutoff), m.of(rate));
    let total = sum(Seq::new(31, |k: int| ideal_tap(m, fc, k, 31)));
    if total != 0real {
        assert forall|i: int| #![trigger taps[i]] 0 <= i < 31 implies product(
            m.of(taps[i]),
            total,
        ) == ideal_tap(m, fc, i, 31) by {
            low_pass_is_a_windowed_sinc(m, cutoff, rate, 31, taps, i);
        }
    }
}

/// A fresh chain is built for its mode. Wideband FM keeps 120 kHz on either side
/// and takes 75 kHz for full deviation; narrow FM keeps 8 kHz and takes 5 kHz; AM
/// keeps 5 kHz. The audio filter keeps 15 kHz at the rate in between, `middle`.
/// The de-emphasis has a time constant of 50 microseconds at the audio rate.
/// Nothing has been heard yet.
pub proof fn a_fresh_chain_suits_its_mode<A: Arithmetic>(
    m: Meaning<A>,
    config: DspConfig,
    chain: DspPipeline<A>,
) -> (middle: real)
    requires
        m.holds(),
        config.sample_rate > 0,
        config.audio_rate > 0,
        chain.valid(),
        chain.is_fresh(config),
    ensures
        product(middle, chain.iq_decim as real) == config.sample_rate as real,
        ({
            let (kept, deviation) = match config.mode {
                DemodMode::WFM => (120_000real, 75_000real),
                DemodMode::NFM => (8_000real, 5_000real),
                DemodMode::AM => (5_000real, 5_000real),
            };
            &&& is_ideal_low_pass(m, kept, config.sample_rate as real, chain.iq_filter.taps())
            &&& product(m.of(chain.fm_demod.gain), product(m.pi + m.pi, deviation)) == middle
        }),
        is_ideal_low_pass(m, 15_000real, middle, chain.audio_filter.taps()),
        product(
            m.of(chain.de_emphasis.alpha),
            product(50real, config.audio_rate as real) + 1_000_000real,
        ) == 1_000_000real,
        chain.iq_filter.history().len() == chain.audio_filter.history().len() == 31,
        forall|i: int| #![trigger chain.iq_filter.history()[i]]
            0 <= i < 31 ==> (m.re)(chain.iq_filter.history()[i]) == 0real && (m.im)(
                chain.iq_filter.history()[i],
            ) == 0real,
        forall|i: int| #![trigger chain.audio_filter.history()[i]]
            0 <= i < 31 ==> m.of(chain.audio_filter.history()[i]) == 0real,
        (m.re)(chain.fm_demod.prev) == 0real,
        (m.im)(chain.fm_demod.prev) == 0real,
        m.of(chain.de_emphasis.prev) == 0real,
{
    let p = choose|p: Parameters<A>| #[trigger] p.are_of(config) && chain.is_built_from(p);
    assert(are_parts_of::<A>(
        p,
        chain.iq_filter,
        chain.audio_filter,
        chain.fm_demod,
        chain.de_emphasis,
    ));
    assert(m.of(p.sample_rate) == config.sample_rate as int as real);
    assert(m.of(p.audio_rate) == config.audio_rate as int as real);
    assert(m.of(p.iq_decim) == chain.iq_decim as int as real);
    assert(m.of(p.tau) == 50real);
    let middle = m.of(p.intermediate_rate);
    lemma_quotient(m.of(p.sample_rate), m.of(p.iq_decim));
    lemma_units(m.of(p.iq_decim));
    assert(middle != 0real);
    lemma_ideal_low_pass(m, p.iq_cutoff, p.sample_rate, chain.iq_filter.taps());
    lemma_ideal_low_pass(m, p.audio_cutoff, p.intermediate_rate, chain.audio_filter.taps());
    lemma_gain(m, p.fm_deviation, p.intermediate_rate, chain.fm_demod.gain);
    smoothing_has_its_time_constant(m, p.tau, p.audio_rate, chain.de_emphasis.alpha);
    middle
}

/// A fresh chain decimates so that the rate in between comes down to the mode's
/// own but not below it: 240 kHz in wideband FM, 48 kHz in the other modes. From
/// there wideband FM comes down to the audio rate, but not below it.
pub proof fn a_fresh_chain_decimates_for_its_mode<A: Arithmetic>(
    config: DspConfig,
    chain: DspPipeline<A>,
)
    requires
        config.audio_rate > 0,
        chain.is_fresh(config),
    ensures
        ({
            let own: int = if config.mode == DemodMode::WFM {
                240_000
            } else {
                48_000
            };
            let decim = chain.iq_decim as int;
            if config.sample_rate < own {
                decim == 1
            } else {
                decim * own <= config.sample_rate < (decim + 1) * own
            }
        }),
        ({
            let decim = chain.audio_decim as int;
            if config.mode == DemodMode::WFM && config.audio_rate <= 240_000 {
                decim * config.audio_rate <= 240_000 < (decim + 1) * config.audio_rate
            } else {
                decim == 1
            }
        }),
{
    if config.mode == DemodMode::WFM {
        let rate = config.audio_rate as int;
        let ratio = 240_000int / rate;
        vstd::arithmetic::div_mod::lemma_fundamental_div_mod(240_000, rate);
        assert(ratio * rate <= 240_000 < (ratio + 1) * rate) by (nonlinear_arith)
            requires
                240_000 == rate * ratio + 240_000int % rate,
                0 <= 240_000int % rate < rate,
        ;
        assert(rate <= 240_000 ==> ratio >= 1) by (nonlinear_arith)
            requires
                240_000 < (ratio + 1) * rate,
                rate > 0,
        ;
        assert(rate > 240_000 ==> ratio <= 0) by (nonlinear_arith)
            requires
                ratio * rate <= 240_000,
                rate > 0,
        ;
        assert(0 <= ratio <= 240_000) by (nonlinear_arith)
            requires
                ratio * rate <= 240_000 < (ratio + 1) * rate,
                rate > 0,
        ;
        assert((crate::config::WFM_RATE / config.audio_rate) as int == ratio);
    }
}

/// The waterfall of a new chain is as wide as the spectrum, has 200 rows, and
/// spans the levels from -60 dB to 0 dB.
pub proof fn a_new_chain_shows_sixty_decibels<A: Arithmetic>(
    m: Meaning<A>,
    config: DspConfig,
    chain: DspPipeline<A>,
)
    requires
        m.holds(),
        chain.is_new(config),
    ensures
        m.of(chain.waterfall.min_db) == -60real,
        m.of(chain.waterfall.max_db) == 0real,
        chain.waterfall.width == config.fft_size,
        chain.waterfall.height == 200,
        chain.waterfall.data@.len() == 800 * config.fft_size,
        chain.waterfall.write_pos == 0,
{
    assert(m.of(chain.waterfall.min_db) == (-60i64) as int as real);
}

/// A chain remembers the samples of a block, in every mode: what its first filter
/// holds are the block's last samples, newest first, and behind them those that
/// it held before. The filters, gains and decimations stay.
pub proof fn chain_remembers_the_last_samples<A: Arithmetic>(
    m: Meaning<A>,
    before: DspPipeline<A>,
    raw: Seq<u8>,
    after: DspPipeline<A>,
    result: DspResult<A>,
)
    requires
        m.holds(),
        before.valid(),
        before.is_processed(raw, after, result),
    ensures
        ({
            let n = (raw.len() / 2) as int;
            let held = before.iq_filter.history();
            let holds = after.iq_filter.history();
            &&& holds.len() == held.len()
            &&& forall|k: int| #![trigger holds[k]]
                0 <= k < holds.len() ==> if k < n {
                    let at = 2 * (n - 1 - k);
                    &&& product((m.re)(holds[k]) + 1real, 255real) == (2 * raw[at]) as real
                    &&& product((m.im)(holds[k]) + 1real, 255real) == (2 * raw[at + 1]) as real
                } else {
                    holds[k] == held[k - n]
                }
        }),
        after.iq_filter.taps() == before.iq_filter.taps(),
        after.audio_filter.taps() == before.audio_filter.taps(),
        after.fm_demod.gain == before.fm_demod.gain,
        after.de_emphasis.alpha == before.de_emphasis.alpha,
        after.iq_decim == before.iq_decim,
        after.audio_decim == before.audio_decim,
        after.config == before.config,
{
    let stages = lemma_stages(before, raw, after, result);
    let n = (raw.len() / 2) as int;
    let holds = after.iq_filter.history();
    assert(stages.iq.len() == n);
    assert forall|k: int| #![trigger holds[k]] 0 <= k < holds.len() && k < n implies {
        &&& product((m.re)(holds[k]) + 1real, 255real) == (2 * raw[2 * (n - 1 - k)]) as real
        &&& product((m.im)(holds[k]) + 1real, 255real) == (2 * raw[2 * (n - 1 - k) + 1]) as real
    } by {
        bytes_are_spread_from_minus_one_to_one(m, raw, stages.iq, n - 1 - k);
        assert(holds[k] == stages.iq[n - 1 - k]);
    }
}

proof fn lemma_stages<A: Arithmetic>(
    before: DspPipeline<A>,
    raw: Seq<u8>,
    after: DspPipeline<A>,
    result: DspResult<A>,
) -> (stages: Stages<A>)
    requires
        before.is_processed(raw, after, result),
    ensures
        before.are_stages(raw, stages),
        before.is_advanced(stages, after),
        is_clamped::<A>(stages.shaped, result.audio@),
{
    choose|stages: Stages<A>|
        {
            &&& #[trigger] before.are_stages(raw, stages)
            &&& before.is_advanced(stages, after)
            &&& before.is_shown(stages.iq, result.spectrum@)
            &&& before.waterfall.is_pushed(result.spectrum@, after.waterfall)
            &&& is_clamped::<A>(stages.shaped, result.audio@)
        }
}

proof fn lemma_clamped<A: Arithmetic>(
    m: Meaning<A>,
    shaped: Seq<A::Real>,
    audio: Seq<A::Real>,
    i: int,
)
    requires
        m.holds(),
        is_clamped::<A>(shaped, audio),
        0 <= i < audio.len(),
    ensures
        m.of(audio[i]) == bounded(m.of(shaped[i]), -1real, 1real),
{
    assert(is_in_unit_range::<A>(shaped[i], audio[i]));
    let (low, high) = choose|low: A::Real, high: A::Real|
        {
            &&& #[trigger] call_ensures(A::integer, (-1i64,), low)
            &&& #[trigger] call_ensures(A::integer, (1i64,), high)
            &&& call_ensures(A::clamp, (shaped[i], low, high), audio[i])
        };
    assert(m.of(low) == (-1i64) as int as real);
}

/// In AM the audio is the envelope of the filtered samples, `narrowed`, less its
/// mean over the block, brought into the range from -1 to 1. The mean is the number
/// around which the envelope's deviations add up to zero.
pub proof fn am_audio_is_the_envelope<A: Arithmetic>(
    m: Meaning<A>,
    before: DspPipeline<A>,
    raw: Seq<u8>,
    after: DspPipeline<A>,
    result: DspResult<A>,
) -> (course: (Seq<A::Iq>, real))
    requires
        m.holds(),
        before.valid(),
        before.config.mode == DemodMode::AM,
        before.audio_decim == 1,
        raw.len() <= usize::MAX,
        before.is_processed(raw, after, result),
    ensures
        ({
            let (narrowed, mean) = course;
            let audio = result.audio@;
            &&& are_filtered_samples(m, before, raw, narrowed)
            &&& narrowed.len() == audio.len()
            &&& sum(Seq::new(narrowed.len(), |i: int| m.norm(narrowed[i]) - mean)) == 0real
            &&& forall|i: int| #![trigger audio[i]]
                0 <= i < audio.len() ==> m.of(audio[i]) == bounded(
                    m.norm(narrowed[i]) - mean,
                    -1real,
                    1real,
                )
        }),
{
    let stages = lemma_stages(before, raw, after, result);
    let (narrowed, shaped, audio) = (stages.narrowed, stages.shaped, result.audio@);
    lemma_filtered_samples(m, before, raw, stages);
    assert(narrowed.len() <= usize::MAX) by {
        lemma_fewer_kept(stages.iq.len() as int, before.iq_decim as int);
    }
    am_gives_the_envelope_without_its_mean(m, narrowed, shaped);
    let mean = m.norm(narrowed[0]) - m.of(shaped[0]);
    assert forall|i: int| #![trigger shaped[i]] 0 <= i < shaped.len() implies m.of(shaped[i])
        == m.norm(narrowed[i]) - mean by {
        assert(m.of(shaped[i]) - m.of(shaped[0]) == m.norm(narrowed[i]) - m.norm(narrowed[0]));
    }
    assert forall|i: int| #![trigger audio[i]] 0 <= i < audio.len() implies m.of(audio[i])
        == bounded(m.norm(narrowed[i]) - mean, -1real, 1real) by {
        lemma_clamped(m, shaped, audio, i);
        assert(m.of(shaped[i]) == m.norm(narrowed[i]) - mean);
    }
    assert(Seq::new(narrowed.len(), |i: int| m.norm(narrowed[i]) - mean) =~= Seq::new(
        shaped.len(),
        |i: int| m.of(shaped[i]),
    ));
    (narrowed, mean)
}

proof fn lemma_fewer_kept(len: int, decim: int)
    requires
        len >= 0,
        decim > 0,
    ensures
        decimated_len(len, decim) <= len,
{
    let q = decimated_len(len, decim);
    vstd::arithmetic::div_mod::lemma_fundamental_div_mod(len + decim - 1, decim);
    assert(q <= len) by (nonlinear_arith)
        requires
            len + decim - 1 == decim * q + (len + decim - 1) % decim,
            0 <= (len + decim - 1) % decim < decim,
            len >= 0,
            decim > 0,
    ;
}

/// Whether `narrowed` are the samples of `raw` after the chain's first filter:
/// one for each decimation period, each the convolution of the samples up to its
/// time with the filter's coefficients.
pub open spec fn are_filtered_samples<A: Arithmetic>(
    m: Meaning<A>,
    chain: DspPipeline<A>,
    raw: Seq<u8>,
    narrowed: Seq<A::Iq>,
) -> bool {
    let taps = chain.iq_filter.taps();
    let history = chain.iq_filter.history();
    let decim = chain.iq_decim as int;
    exists|iq: Seq<A::Iq>|
        {
            &&& #[trigger] is_converted::<A>(raw, iq)
            &&& (narrowed.len() - 1) * decim < iq.len() <= narrowed.len() * decim
            &&& forall|j: int| #![trigger narrowed[j]]
                0 <= j < narrowed.len() ==> {
                    &&& (m.re)(narrowed[j]) == re_at(m, taps, history, iq, j * decim)
                    &&& (m.im)(narrowed[j]) == im_at(m, taps, history, iq, j * decim)
                }
        }
}

proof fn lemma_filtered_samples<A: Arithmetic>(
    m: Meaning<A>,
    chain: DspPipeline<A>,
    raw: Seq<u8>,
    stages: Stages<A>,
)
    requires
        m.holds(),
        chain.valid(),
        chain.are_stages(raw, stages),
    ensures
        are_filtered_samples(m, chain, raw, stages.narrowed),
{
    let taps = chain.iq_filter.taps();
    let history = chain.iq_filter.history();
    let decim = chain.iq_decim as int;
    let (iq, narrowed) = (stages.iq, stages.narrowed);
    chain.iq_filter.remembers_a_sample_for_each_coefficient();
    assert forall|j: int| #![trigger narrowed[j]] 0 <= j < narrowed.len() implies {
        &&& (m.re)(narrowed[j]) == re_at(m, taps, history, iq, j * decim)
        &&& (m.im)(narrowed[j]) == im_at(m, taps, history, iq, j * decim)
    } by {
        iq_filter_is_a_convolution(m, taps, history, iq, decim, narrowed, j);
    }
    lemma_kept(iq.len() as int, decim);
    assert(is_converted::<A>(raw, iq));
}

/// The turn from the sample before sample `j` to it, in units of the gain.
pub open spec fn step_at<A: Arithmetic>(
    m: Meaning<A>,
    demod: FmDemod<A>,
    samples: Seq<A::Iq>,
    j: int,
) -> real {
    let before = (seq![demod.prev] + samples)[j];
    product(
        (m.angle)(turned(m, samples[j], before), along(m, samples[j], before)),
        m.of(demod.gain),
    )
}

proof fn lemma_steps<A: Arithmetic>(
    m: Meaning<A>,
    demod: FmDemod<A>,
    samples: Seq<A::Iq>,
    out: Seq<A::Real>,
)
    requires
        m.holds(),
        is_fm_demodulated::<A>(demod.prev, demod.gain, samples, out),
    ensures
        out.len() == samples.len(),
        forall|j: int| #![trigger out[j]]
            0 <= j < out.len() ==> m.of(out[j]) == step_at(m, demod, samples, j),
{
    assert forall|j: int| #![trigger out[j]] 0 <= j < out.len() implies m.of(out[j]) == step_at(
        m,
        demod,
        samples,
        j,
    ) by {
        let prev = predecessor(demod.prev, samples, j);
        assert((seq![demod.prev] + samples)[j] == prev);
        assert(is_phase_step::<A>(samples[j], prev, demod.gain, out[j]));
        lemma_phase_step(m, samples[j], prev, demod.gain, out[j]);
    }
}

/// In narrow FM the audio is the turn from filtered sample to filtered sample,
/// brought into the range from -1 to 1, and nothing else.
pub proof fn narrow_fm_audio_is_the_turning<A: Arithmetic>(
    m: Meaning<A>,
    before: DspPipeline<A>,
    raw: Seq<u8>,
    after: DspPipeline<A>,
    result: DspResult<A>,
) -> (narrowed: Seq<A::Iq>)
    requires
        m.holds(),
        before.valid(),
        before.config.mode == DemodMode::NFM,
        before.audio_decim == 1,
        before.is_processed(raw, after, result),
    ensures
        are_filtered_samples(m, before, raw, narrowed),
        narrowed.len() == result.audio@.len(),
        forall|j: int| #![trigger result.audio@[j]]
            0 <= j < narrowed.len() ==> m.of(result.audio@[j]) == bounded(
                step_at(m, before.fm_demod, narrowed, j),
                -1real,
                1real,
            ),
        after.fm_demod.prev == (seq![before.fm_demod.prev] + narrowed).last(),
{
    let stages = lemma_stages(before, raw, after, result);
    let audio = result.audio@;
    lemma_filtered_samples(m, before, raw, stages);
    lemma_steps(m, before.fm_demod, stages.narrowed, stages.shaped);
    assert forall|j: int| #![trigger audio[j]] 0 <= j < audio.len() implies m.of(audio[j])
        == bounded(step_at(m, before.fm_demod, stages.narrowed, j), -1real, 1real) by {
        lemma_clamped(m, stages.shaped, audio, j);
        assert(m.of(stages.shaped[j]) == step_at(m, before.fm_demod, stages.narrowed, j));
    }
    stages.narrowed
}

/// In wideband FM the turn from filtered sample to filtered sample, `turning`, is
/// filtered once more and brought to the audio rate, where it is not at that rate
/// already, then smoothed, and only then brought into the range from -1 to 1. The
/// smoothed signal, `shaped`, goes on
/// where the block before has left it.
pub proof fn wide_fm_audio_is_filtered_and_smoothed<A: Arithmetic>(
    m: Meaning<A>,
    before: DspPipeline<A>,
    raw: Seq<u8>,
    after: DspPipeline<A>,
    result: DspResult<A>,
) -> (course: (Seq<A::Iq>, Seq<A::Real>, Seq<A::Real>))
    requires
        m.holds(),
        before.valid(),
        before.config.mode == DemodMode::WFM,
        before.is_processed(raw, after, result),
    ensures
        ({
            let (narrowed, turning, shaped) = course;
            let audio = result.audio@;
            let taps = before.audio_filter.taps();
            let history = before.audio_filter.history();
            let decim = before.audio_decim as int;
            &&& are_filtered_samples(m, before, raw, narrowed)
            &&& turning.len() == narrowed.len()
            &&& forall|j: int| #![trigger turning[j]]
                0 <= j < turning.len() ==> m.of(turning[j]) == step_at(
                    m,
                    before.fm_demod,
                    narrowed,
                    j,
                )
            &&& shaped.len() == audio.len()
            &&& (shaped.len() - 1) * decim < turning.len() <= shaped.len() * decim
            &&& forall|j: int| #![trigger shaped[j]]
                0 <= j < shaped.len() ==> {
                    let heard = if decim > 1 {
                        value_at(m, taps, history, turning, j * decim)
                    } else {
                        m.of(turning[j])
                    };
                    let last = m.of((seq![before.de_emphasis.prev] + shaped)[j]);
                    m.of(shaped[j]) - last == product(
                        m.of(before.de_emphasis.alpha),
                        heard - last,
                    )
                }
            &&& forall|j: int| #![trigger audio[j]]
                0 <= j < audio.len() ==> m.of(audio[j]) == bounded(
                    m.of(shaped[j]),
                    -1real,
                    1real,
                )
            &&& after.fm_demod.prev == (seq![before.fm_demod.prev] + narrowed).last()
            &&& after.de_emphasis.prev == (seq![before.de_emphasis.prev] + shaped).last()
        }),
{
    let stages = lemma_stages(before, raw, after, result);
    let audio = result.audio@;
    let taps = before.audio_filter.taps();
    let history = before.audio_filter.history();
    let decim = before.audio_decim as int;
    let (turning, shaped) = (stages.demodulated, stages.shaped);
    lemma_filtered_samples(m, before, raw, stages);
    lemma_steps(m, before.fm_demod, stages.narrowed, turning);
    before.audio_filter.remembers_a_sample_for_each_coefficient();
    smoothing_approaches_the_samples(m, before.de_emphasis, stages.decimated, shaped);
    lemma_kept(turning.len() as int, decim);
    if decim == 1 {
        let n = shaped.len() as int;
        assert((n - 1) * decim == n - 1 && n * decim == n) by (nonlinear_arith)
            requires
                decim == 1,
        ;
    }
    assert forall|j: int| #![trigger shaped[j]] 0 <= j < shaped.len() implies {
        let heard = if decim > 1 {
            value_at(m, taps, history, turning, j * decim)
        } else {
            m.of(turning[j])
        };
        let last = m.of((seq![before.de_emphasis.prev] + shaped)[j]);
        m.of(shaped[j]) - last == product(m.of(before.de_emphasis.alpha), heard - last)
    } by {
        if decim > 1 {
            filter_is_a_convolution(m, taps, history, turning, decim, stages.decimated, j);
        }
    }
    assert forall|j: int| #![trigger audio[j]] 0 <= j < audio.len() implies m.of(audio[j])
        == bounded(m.of(shaped[j]), -1real, 1real) by {
        lemma_clamped(m, shaped, audio, j);
    }
    (stages.narrowed, turning, shaped)
}

/// A chain shows the spectrum of a block's samples, and the lowest level all over
/// where the block has fewer samples than the spectrum has bins. What it shows
/// comes last in the waterfall, in the colours of the levels.
pub proof fn chain_shows_the_spectrum<A: Arithmetic>(
    before: DspPipeline<A>,
    raw: Seq<u8>,
    after: DspPipeline<A>,
    result: DspResult<A>,
) -> (iq: Seq<A::Iq>)
    requires
        before.valid(),
        before.is_processed(raw, after, result),
    ensures
        is_converted::<A>(raw, iq),
        result.spectrum@.len() == before.config.fft_size,
        raw.len() / 2 >= before.config.fft_size ==> is_spectrum::<A>(
            iq,
            before.config.fft_size,
            result.spectrum@,
        ),
        raw.len() / 2 < before.config.fft_size ==> forall|i: int| #![trigger result.spectrum@[i]]
            0 <= i < result.spectrum@.len() ==> result.spectrum@[i] == before.waterfall.min_db,
        ({
            let row = after.waterfall.newest_row();
            forall|i: int| #![trigger result.spectrum@[i]]
                0 <= i < result.spectrum@.len() && i < before.waterfall.width ==> is_colour::<A>(
                    result.spectrum@[i],
                    before.waterfall.min_db,
                    before.waterfall.max_db,
                    row.subrange(4 * i, 4 * i + 4),
                )
        }),
{
    crate::pipeline::result_lengths(before, raw, after, result);
    let stages = choose|stages: Stages<A>|
        {
            &&& #[trigger] before.are_stages(raw, stages)
            &&& before.is_advanced(stages, after)
            &&& before.is_shown(stages.iq, result.spectrum@)
            &&& before.waterfall.is_pushed(result.spectrum@, after.waterfall)
            &&& is_clamped::<A>(stages.shaped, result.audio@)
        };
    let shown = result.spectrum@;
    crate::waterfall::new_line_comes_last(before.waterfall, shown, after.waterfall);
    let row = after.waterfall.newest_row();
    assert forall|i: int| #![trigger shown[i]]
        0 <= i < shown.len() && i < before.waterfall.width implies is_colour::<A>(
        shown[i],
        before.waterfall.min_db,
        before.waterfall.max_db,
        row.subrange(4 * i, 4 * i + 4),
    ) by {
        assert(crate::waterfall::is_pixel::<A>(
            row,
            4 * i,
            shown[i],
            before.waterfall.min_db,
            before.waterfall.max_db,
        ));
    }
    stages.iq
}

} // verus!
