//! A source of made-up samples, for use without a dongle.

use vstd::prelude::*;

use crate::arithmetic::{is_turn, turn, Arithmetic};

verus! {

/// Distance of the carrier from the centre frequency (Hz).
pub const CARRIER_OFFSET: i64 = 50_000;

/// Frequency of the audio tone (Hz).
pub const TONE_FREQ: i64 = 1_000;

/// Deviation of the frequency modulation (Hz).
pub const TONE_DEVIATION: i64 = 75_000;

/// The seed of the noise.
pub const NOISE_SEED: u32 = 42;

// ── Noise ──────────────────────────────────────────────────────────────────

/// The number that follows `seed` in the noise.
pub open spec fn next_noise(seed: u32) -> u32 {
    let a = seed ^ (seed << 13);
    let b = a ^ (a >> 17);
    b ^ (b << 5)
}

/// The number that comes `n` places after `seed` in the noise.
pub open spec fn noise_after(seed: u32, n: nat) -> u32
    decreases n,
{
    if n == 0 {
        seed
    } else {
        next_noise(noise_after(seed, (n - 1) as nat))
    }
}

/// Whether these are the steps from a number of the noise to
/// `number / largest * 2 - 1`.
pub open spec fn noise_steps<A: Arithmetic>(
    number: u32,
    value: A::Real,
    largest: A::Real,
    share: A::Real,
    two: A::Real,
    doubled: A::Real,
    one: A::Real,
    out: A::Real,
) -> bool {
    &&& call_ensures(A::integer, (number as i64,), value)
    &&& call_ensures(A::integer, (u32::MAX as i64,), largest)
    &&& call_ensures(A::ratio, (value, largest), share)
    &&& call_ensures(A::integer, (2i64,), two)
    &&& call_ensures(A::times, (share, two), doubled)
    &&& call_ensures(A::integer, (1i64,), one)
    &&& call_ensures(A::minus, (doubled, one), out)
}

/// Whether `out` is a number of the noise, spread over the range from -1 to 1.
pub open spec fn is_noise<A: Arithmetic>(number: u32, out: A::Real) -> bool {
    exists|
        value: A::Real,
        largest: A::Real,
        share: A::Real,
        two: A::Real,
        doubled: A::Real,
        one: A::Real,
    | #[trigger]
        noise_steps::<A>(number, value, largest, share, two, doubled, one, out)
}

// ── Signal ─────────────────────────────────────────────────────────────────

/// The rates and frequencies of a signal.
pub struct Tone<A: Arithmetic> {
    pub sample_rate: A::Real,
    pub carrier_offset: A::Real,
    pub mod_freq: A::Real,
    pub fm_deviation: A::Real,
}

/// Where a signal is in its course.
pub struct Phase<A: Arithmetic> {
    /// The phase of the modulated carrier.
    pub phase: A::Real,
    /// The time within the course of the audio tone.
    pub audio_phase: A::Real,
}

/// Whether `out` is `x`, less `period` where `x` has passed `bound`.
pub open spec fn is_wrapped<A: Arithmetic>(
    x: A::Real,
    bound: A::Real,
    period: A::Real,
    out: A::Real,
) -> bool {
    exists|passed: bool|
        {
            &&& #[trigger] call_ensures(A::less, (bound, x), passed)
            &&& if passed {
                call_ensures(A::minus, (x, period), out)
            } else {
                out == x
            }
        }
}

fn wrapped<A: Arithmetic>(x: A::Real, bound: A::Real, period: A::Real) -> (out: A::Real)
    ensures
        is_wrapped::<A>(x, bound, period, out),
{
    if A::less(bound, x) {
        A::minus(x, period)
    } else {
        x
    }
}

/// Whether these are the steps to `sin(turn * mod_freq * audio_phase)`.
pub open spec fn audio_steps<A: Arithmetic>(
    mod_freq: A::Real,
    audio_phase: A::Real,
    turn: A::Real,
    speed: A::Real,
    angle: A::Real,
    out: A::Real,
) -> bool {
    &&& is_turn::<A>(turn)
    &&& call_ensures(A::times, (turn, mod_freq), speed)
    &&& call_ensures(A::times, (speed, audio_phase), angle)
    &&& call_ensures(A::sin, (angle,), out)
}

/// Whether `out` is the audio tone at `audio_phase`.
pub open spec fn is_audio<A: Arithmetic>(
    mod_freq: A::Real,
    audio_phase: A::Real,
    out: A::Real,
) -> bool {
    exists|turn: A::Real, speed: A::Real, angle: A::Real| #[trigger]
        audio_steps::<A>(mod_freq, audio_phase, turn, speed, angle, out)
}

fn audio<A: Arithmetic>(mod_freq: A::Real, audio_phase: A::Real) -> (out: A::Real)
    ensures
        is_audio::<A>(mod_freq, audio_phase, out),
{
    let turn: A::Real = turn::<A>();
    let speed: A::Real = A::times(turn, mod_freq);
    let angle: A::Real = A::times(speed, audio_phase);
    let out: A::Real = A::sin(angle);
    assert(audio_steps::<A>(mod_freq, audio_phase, turn, speed, angle, out));
    out
}

/// Whether `out` is the audio phase one sample after `audio_phase`: `dt` later,
/// and a second earlier once a second has passed.
pub open spec fn is_next_audio_phase<A: Arithmetic>(
    audio_phase: A::Real,
    dt: A::Real,
    out: A::Real,
) -> bool {
    exists|later: A::Real, one: A::Real|
        {
            &&& #[trigger] call_ensures(A::plus, (audio_phase, dt), later)
            &&& #[trigger] call_ensures(A::integer, (1i64,), one)
            &&& is_wrapped::<A>(later, one, one, out)
        }
}

/// Whether these are the steps from `phase` to
/// `phase + turn * (carrier_offset + fm_deviation * audio) * dt`.
pub open spec fn carrier_steps<A: Arithmetic>(
    tone: Tone<A>,
    phase: A::Real,
    audio: A::Real,
    dt: A::Real,
    swing: A::Real,
    frequency: A::Real,
    turn: A::Real,
    speed: A::Real,
    step: A::Real,
    later: A::Real,
    pi: A::Real,
) -> bool {
    &&& call_ensures(A::times, (tone.fm_deviation, audio), swing)
    &&& call_ensures(A::plus, (tone.carrier_offset, swing), frequency)
    &&& is_turn::<A>(turn)
    &&& call_ensures(A::times, (turn, frequency), speed)
    &&& call_ensures(A::times, (speed, dt), step)
    &&& call_ensures(A::plus, (phase, step), later)
    &&& call_ensures(A::pi, (), pi)
}

/// Whether `out` is the carrier's phase one sample after `phase`: it moves at
/// the frequency that the audio tone asks for, and is a turn less once it has
/// passed half a turn.
pub open spec fn is_next_phase<A: Arithmetic>(
    tone: Tone<A>,
    phase: A::Real,
    audio: A::Real,
    dt: A::Real,
    out: A::Real,
) -> bool {
    exists|
        swing: A::Real,
        frequency: A::Real,
        turn: A::Real,
        speed: A::Real,
        step: A::Real,
        later: A::Real,
        pi: A::Real,
    |
        {
            &&& #[trigger] carrier_steps::<A>(
                tone,
                phase,
                audio,
                dt,
                swing,
                frequency,
                turn,
                speed,
                step,
                later,
                pi,
            )
            &&& is_wrapped::<A>(later, pi, turn, out)
        }
}

/// Whether `next` is where the signal is one sample after `before`.
pub open spec fn is_advanced<A: Arithmetic>(
    tone: Tone<A>,
    before: Phase<A>,
    next: Phase<A>,
) -> bool {
    exists|one: A::Real, dt: A::Real, audio: A::Real|
        {
            &&& #[trigger] call_ensures(A::integer, (1i64,), one)
            &&& #[trigger] call_ensures(A::ratio, (one, tone.sample_rate), dt)
            &&& #[trigger] is_audio::<A>(tone.mod_freq, before.audio_phase, audio)
            &&& is_next_audio_phase::<A>(before.audio_phase, dt, next.audio_phase)
            &&& is_next_phase::<A>(tone, before.phase, audio, dt, next.phase)
        }
}

/// Whether these are the steps from a signal and a number of the noise to
/// `(signal + noise / 20) * 80 + 127.5`, brought into the range of a byte.
pub open spec fn byte_steps<A: Arithmetic>(
    signal: A::Real,
    noise: A::Real,
    share: A::Real,
    faint: A::Real,
    noisy: A::Real,
    scale: A::Real,
    scaled: A::Real,
    middle: A::Real,
    shifted: A::Real,
    zero: A::Real,
    top: A::Real,
    bounded: A::Real,
    out: u8,
) -> bool {
    &&& call_ensures(A::fraction, (1i64, 20i64), share)
    &&& call_ensures(A::times, (noise, share), faint)
    &&& call_ensures(A::plus, (signal, faint), noisy)
    &&& call_ensures(A::integer, (80i64,), scale)
    &&& call_ensures(A::times, (noisy, scale), scaled)
    &&& call_ensures(A::fraction, (255i64, 2i64), middle)
    &&& call_ensures(A::plus, (scaled, middle), shifted)
    &&& call_ensures(A::zero, (), zero)
    &&& call_ensures(A::integer, (255i64,), top)
    &&& call_ensures(A::clamp, (shifted, zero, top), bounded)
    &&& call_ensures(A::to_byte, (bounded,), out)
}

/// Whether `out` is the byte of a raw sample for a signal with some noise in it.
pub open spec fn is_noisy_byte<A: Arithmetic>(signal: A::Real, noise: A::Real, out: u8) -> bool {
    exists|
        share: A::Real,
        faint: A::Real,
        noisy: A::Real,
        scale: A::Real,
        scaled: A::Real,
        middle: A::Real,
        shifted: A::Real,
        zero: A::Real,
        top: A::Real,
        bounded: A::Real,
    | #[trigger]
        byte_steps::<A>(
            signal,
            noise,
            share,
            faint,
            noisy,
            scale,
            scaled,
            middle,
            shifted,
            zero,
            top,
            bounded,
            out,
        )
}

fn noisy_byte<A: Arithmetic>(signal: A::Real, noise: A::Real) -> (out: u8)
    ensures
        is_noisy_byte::<A>(signal, noise, out),
{
    let share: A::Real = A::fraction(1, 20);
    let faint: A::Real = A::times(noise, share);
    let noisy: A::Real = A::plus(signal, faint);
    let scale: A::Real = A::integer(80);
    let scaled: A::Real = A::times(noisy, scale);
    let middle: A::Real = A::fraction(255, 2);
    let shifted: A::Real = A::plus(scaled, middle);
    let zero: A::Real = A::zero();
    let top: A::Real = A::integer(255);
    let bounded: A::Real = A::clamp(shifted, zero, top);
    let out: u8 = A::to_byte(bounded);
    assert(byte_steps::<A>(
        signal,
        noise,
        share,
        faint,
        noisy,
        scale,
        scaled,
        middle,
        shifted,
        zero,
        top,
        bounded,
        out,
    ));
    out
}

/// Whether the two bytes are the raw sample of the carrier at `phase`: its
/// cosine and its sine, each with a number of the noise in it.
pub open spec fn is_raw_sample<A: Arithmetic>(
    phase: A::Real,
    number_i: u32,
    number_q: u32,
    i: u8,
    q: u8,
) -> bool {
    exists|cosine: A::Real, sine: A::Real, noise_i: A::Real, noise_q: A::Real|
        {
            &&& #[trigger] call_ensures(A::cos, (phase,), cosine)
            &&& #[trigger] call_ensures(A::sin, (phase,), sine)
            &&& #[trigger] is_noise::<A>(number_i, noise_i)
            &&& #[trigger] is_noise::<A>(number_q, noise_q)
            &&& is_noisy_byte::<A>(cosine, noise_i, i)
            &&& is_noisy_byte::<A>(sine, noise_q, q)
        }
}

/// Whether `signal` holds where the signal is before the first and after each
/// of `n` samples.
pub open spec fn is_signal<A: Arithmetic>(
    tone: Tone<A>,
    start: Phase<A>,
    signal: Seq<Phase<A>>,
    n: int,
) -> bool {
    &&& signal.len() == n + 1
    &&& signal[0] == start
    &&& forall|i: int| #![trigger signal[i + 1]]
        0 <= i < n ==> is_advanced::<A>(tone, signal[i], signal[i + 1])
}

/// Whether `out` holds the `n` pairs of bytes of the signal, each byte with a
/// number of its own out of the noise that follows `seed`.
pub open spec fn is_sampled<A: Arithmetic>(
    signal: Seq<Phase<A>>,
    seed: u32,
    n: int,
    out: Seq<u8>,
) -> bool {
    &&& out.len() == 2 * n
    &&& forall|i: int| #![trigger signal[i + 1]]
        0 <= i < n ==> is_raw_sample::<A>(
            signal[i + 1].phase,
            noise_after(seed, (2 * i + 1) as nat),
            noise_after(seed, (2 * i + 2) as nat),
            out[2 * i],
            out[2 * i + 1],
        )
}

// ── The source ─────────────────────────────────────────────────────────────

/// A source of a carrier that is modulated by a tone, with some noise.
pub struct MockIqSource<A: Arithmetic> {
    pub phase: A::Real,
    pub audio_phase: A::Real,
    pub sample_rate: A::Real,
    pub carrier_offset: A::Real,
    pub mod_freq: A::Real,
    pub fm_deviation: A::Real,
    pub noise_seed: u32,
}

impl<A: Arithmetic> MockIqSource<A> {
    /// The rates and frequencies of the signal.
    pub open spec fn tone(self) -> Tone<A> {
        Tone {
            sample_rate: self.sample_rate,
            carrier_offset: self.carrier_offset,
            mod_freq: self.mod_freq,
            fm_deviation: self.fm_deviation,
        }
    }

    /// Where the signal is.
    pub open spec fn place(self) -> Phase<A> {
        Phase { phase: self.phase, audio_phase: self.audio_phase }
    }

    /// Whether this is a source for `sample_rate` that has generated nothing.
    pub open spec fn is_new(self, sample_rate: A::Real) -> bool {
        &&& call_ensures(A::zero, (), self.phase)
        &&& call_ensures(A::zero, (), self.audio_phase)
        &&& self.sample_rate == sample_rate
        &&& call_ensures(A::integer, (CARRIER_OFFSET,), self.carrier_offset)
        &&& call_ensures(A::integer, (TONE_FREQ,), self.mod_freq)
        &&& call_ensures(A::integer, (TONE_DEVIATION,), self.fm_deviation)
        &&& self.noise_seed == NOISE_SEED
    }

    /// Whether `next` and `out` are what this source turns into and gives when
    /// it generates `n` samples.
    pub open spec fn is_generated(self, n: int, next: MockIqSource<A>, out: Seq<u8>) -> bool {
        &&& next.tone() == self.tone()
        &&& next.noise_seed == noise_after(self.noise_seed, (2 * n) as nat)
        &&& exists|signal: Seq<Phase<A>>| #[trigger]
            is_signal::<A>(self.tone(), self.place(), signal, n) && is_sampled::<A>(
                signal,
                self.noise_seed,
                n,
                out,
            ) && next.place() == signal[n]
    }

    /// A source for a sample rate in Hz.
    pub fn new(sample_rate: A::Real) -> (res: MockIqSource<A>)
        ensures
            res.is_new(sample_rate),
    {
        MockIqSource {
            phase: A::zero(),
            audio_phase: A::zero(),
            sample_rate,
            carrier_offset: A::integer(CARRIER_OFFSET),
            mod_freq: A::integer(TONE_FREQ),
            fm_deviation: A::integer(TONE_DEVIATION),
            noise_seed: NOISE_SEED,
        }
    }

    /// Moves the signal on by one sample, which takes the time `dt`.
    fn advance(&mut self, one: A::Real, dt: A::Real)
        requires
            call_ensures(A::integer, (1i64,), one),
            call_ensures(A::ratio, (one, old(self).sample_rate), dt),
        ensures
            final(self).tone() == old(self).tone(),
            final(self).noise_seed == old(self).noise_seed,
            is_advanced::<A>(old(self).tone(), old(self).place(), final(self).place()),
    {
        let ghost tone = self.tone();
        let ghost before = self.place();
        let audio: A::Real = audio::<A>(self.mod_freq, self.audio_phase);

        let later: A::Real = A::plus(self.audio_phase, dt);
        self.audio_phase = wrapped::<A>(later, one, one);
        assert(is_next_audio_phase::<A>(before.audio_phase, dt, self.audio_phase));

        let swing: A::Real = A::times(self.fm_deviation, audio);
        let frequency: A::Real = A::plus(self.carrier_offset, swing);
        let turn: A::Real = turn::<A>();
        let speed: A::Real = A::times(turn, frequency);
        let step: A::Real = A::times(speed, dt);
        let later: A::Real = A::plus(self.phase, step);
        let pi: A::Real = A::pi();
        self.phase = wrapped::<A>(later, pi, turn);
        assert(carrier_steps::<A>(
            tone,
            before.phase,
            audio,
            dt,
            swing,
            frequency,
            turn,
            speed,
            step,
            later,
            pi,
        ));
        assert(is_next_phase::<A>(tone, before.phase, audio, dt, self.phase));
        assert(call_ensures(A::ratio, (one, tone.sample_rate), dt));
        assert(is_audio::<A>(tone.mod_freq, before.audio_phase, audio));
    }

    /// Generates as many pairs of bytes as fit in `num_bytes`.
    pub fn generate(&mut self, num_bytes: usize) -> (out: Vec<u8>)
        ensures
            old(self).is_generated(num_bytes as int / 2, *final(self), out@),
    {
        let ghost start = *self;
        let num_samples: usize = num_bytes / 2;
        let mut out: Vec<u8> = Vec::new();
        let one: A::Real = A::integer(1);
        let dt: A::Real = A::ratio(one, self.sample_rate);
        let ghost mut signal: Seq<Phase<A>> = seq![self.place()];
        let mut i: usize = 0;
        while i < num_samples
            invariant
                i <= num_samples,
                call_ensures(A::integer, (1i64,), one),
                call_ensures(A::ratio, (one, start.sample_rate), dt),
                self.tone() == start.tone(),
                self.noise_seed == noise_after(start.noise_seed, (2 * i) as nat),
                is_signal::<A>(start.tone(), start.place(), signal, i as int),
                is_sampled::<A>(signal, start.noise_seed, i as int, out@),
                self.place() == signal[i as int],
            decreases num_samples - i,
        {
            let ghost done = out@;
            let ghost past = signal;
            self.advance(one, dt);
            let cosine: A::Real = A::cos(self.phase);
            let sine: A::Real = A::sin(self.phase);
            let noise_i: A::Real = self.cheap_noise();
            let ghost number_i = self.noise_seed;
            let noise_q: A::Real = self.cheap_noise();
            let byte_i: u8 = noisy_byte::<A>(cosine, noise_i);
            let byte_q: u8 = noisy_byte::<A>(sine, noise_q);
            out.push(byte_i);
            out.push(byte_q);
            proof {
                signal = signal.push(self.place());
                reveal_with_fuel(noise_after, 3);
                assert(is_raw_sample::<A>(self.phase, number_i, self.noise_seed, byte_i, byte_q));
                assert forall|j: int| #![trigger signal[j + 1]] 0 <= j <= i implies is_raw_sample::<
                    A,
                >(
                    signal[j + 1].phase,
                    noise_after(start.noise_seed, (2 * j + 1) as nat),
                    noise_after(start.noise_seed, (2 * j + 2) as nat),
                    out@[2 * j],
                    out@[2 * j + 1],
                ) by {
                    if j < i {
                        assert(signal[j + 1] == past[j + 1]);
                        assert(out@[2 * j] == done[2 * j]);
                        assert(out@[2 * j + 1] == done[2 * j + 1]);
                    }
                }
                assert forall|j: int| #![trigger signal[j + 1]] 0 <= j <= i implies is_advanced::<
                    A,
                >(start.tone(), signal[j], signal[j + 1]) by {
                    if j < i {
                        assert(signal[j + 1] == past[j + 1]);
                        assert(signal[j] == past[j]);
                    }
                }
            }
            i = i + 1;
        }
        out
    }

    /// Moves the noise on by one number and gives it, spread over the range from
    /// -1 to 1.
    pub fn cheap_noise(&mut self) -> (res: A::Real)
        ensures
            is_noise::<A>(next_noise(old(self).noise_seed), res),
            *final(self) == (MockIqSource {
                noise_seed: next_noise(old(self).noise_seed),
                ..*old(self)
            }),
    {
        let a: u32 = self.noise_seed ^ (self.noise_seed << 13);
        let b: u32 = a ^ (a >> 17);
        self.noise_seed = b ^ (b << 5);
        let value: A::Real = A::integer(self.noise_seed as i64);
        let largest: A::Real = A::integer(u32::MAX as i64);
        let share: A::Real = A::ratio(value, largest);
        let two: A::Real = A::integer(2);
        let doubled: A::Real = A::times(share, two);
        let one: A::Real = A::integer(1);
        let res: A::Real = A::minus(doubled, one);
        assert(noise_steps::<A>(self.noise_seed, value, largest, share, two, doubled, one, res));
        res
    }
}

/// Noise that starts with a number other than zero never gets stuck at zero.
pub proof fn noise_never_dies(seed: u32, n: nat)
    requires
        seed != 0,
    ensures
        noise_after(seed, n) != 0,
    decreases n,
{
    if n > 0 {
        noise_never_dies(seed, (n - 1) as nat);
        let x = noise_after(seed, (n - 1) as nat);
        assert(x != 0 ==> next_noise(x) != 0) by (bit_vector);
    }
}

/// Two different numbers are followed by different numbers in the noise.
pub proof fn noise_is_reversible(x: u32, y: u32)
    requires
        next_noise(x) == next_noise(y),
    ensures
        x == y,
{
    assert(next_noise(x) == next_noise(y) ==> x == y) by (bit_vector);
}

/// Generating in two goes gives the bytes, and leaves the noise and the signal,
/// of generating in one go, where the first go asks for whole pairs.
pub proof fn generation_of_consecutive_blocks<A: Arithmetic>(
    start: MockIqSource<A>,
    n: int,
    middle: MockIqSource<A>,
    out_first: Seq<u8>,
    m: int,
    end: MockIqSource<A>,
    out_second: Seq<u8>,
)
    requires
        n >= 0,
        m >= 0,
        start.is_generated(n, middle, out_first),
        middle.is_generated(m, end, out_second),
    ensures
        start.is_generated(n + m, end, out_first + out_second),
{
    let tone = start.tone();
    let s1 = choose|signal: Seq<Phase<A>>| #[trigger]
        is_signal::<A>(tone, start.place(), signal, n) && is_sampled::<A>(
            signal,
            start.noise_seed,
            n,
            out_first,
        ) && middle.place() == signal[n];
    let s2 = choose|signal: Seq<Phase<A>>| #[trigger]
        is_signal::<A>(tone, middle.place(), signal, m) && is_sampled::<A>(
            signal,
            middle.noise_seed,
            m,
            out_second,
        ) && end.place() == signal[m];
    let signal = s1 + s2.drop_first();
    let out = out_first + out_second;
    lemma_noise_after_adds(start.noise_seed, (2 * n) as nat, (2 * m) as nat);
    assert(s1.len() == n + 1 && s2.len() == m + 1);
    assert forall|i: int| 0 <= i <= m implies #[trigger] signal[n + i] == s2[i] by {}
    assert forall|i: int| #![trigger signal[i + 1]] 0 <= i < n + m implies is_advanced::<A>(
        tone,
        signal[i],
        signal[i + 1],
    ) && is_raw_sample::<A>(
        signal[i + 1].phase,
        noise_after(start.noise_seed, (2 * i + 1) as nat),
        noise_after(start.noise_seed, (2 * i + 2) as nat),
        out[2 * i],
        out[2 * i + 1],
    ) by {
        if i < n {
            assert(signal[i + 1] == s1[i + 1]);
            assert(signal[i] == s1[i]);
            assert(out[2 * i] == out_first[2 * i]);
            assert(out[2 * i + 1] == out_first[2 * i + 1]);
        } else {
            let k = i - n;
            assert(signal[n + k] == s2[k]);
            assert(signal[n + (k + 1)] == s2[k + 1]);
            assert(out[2 * i] == out_second[2 * k]);
            assert(out[2 * i + 1] == out_second[2 * k + 1]);
            lemma_noise_after_adds(start.noise_seed, (2 * n) as nat, (2 * k + 1) as nat);
            lemma_noise_after_adds(start.noise_seed, (2 * n) as nat, (2 * k + 2) as nat);
        }
    }
    assert(is_signal::<A>(tone, start.place(), signal, n + m));
    assert(is_sampled::<A>(signal, start.noise_seed, n + m, out));
    assert(end.place() == signal[n + m]);
}

proof fn lemma_noise_after_adds(seed: u32, a: nat, b: nat)
    ensures
        noise_after(noise_after(seed, a), b) == noise_after(seed, a + b),
    decreases b,
{
    if b > 0 {
        lemma_noise_after_adds(seed, a, (b - 1) as nat);
    }
}

/// The noise is a xor-shift sequence: its numbers are mixed with themselves moved up
/// by 13 bits, then down by 17, then up by 5, and bits moved beyond 32 are lost.
pub proof fn noise_is_mixed_by_shifts(x: u32, a: u32, b: u32)
    requires
        a == x ^ ((x * 8_192) % 0x1_0000_0000) as u32,
        b == a ^ (a / 131_072),
    ensures
        next_noise(x) == b ^ ((b * 32) % 0x1_0000_0000) as u32,
{
    lemma_shifts(x);
    lemma_shifts(a);
    lemma_shifts(b);
}

proof fn lemma_shifts(x: u32)
    ensures
        x << 13 == ((x * 8_192) % 0x1_0000_0000) as u32,
        x >> 17 == x / 131_072,
        x << 5 == ((x * 32) % 0x1_0000_0000) as u32,
{
    assert(x << 13 == ((x * 8_192) % 0x1_0000_0000) as u32) by (bit_vector);
    assert(x >> 17 == x / 131_072) by (bit_vector);
    assert(x << 5 == ((x * 32) % 0x1_0000_0000) as u32) by (bit_vector);
}

} // verus!
