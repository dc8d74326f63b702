//! FM and AM demodulation and de-emphasis.

use vstd::prelude::*;

use crate::arithmetic::{is_turn, turn, Arithmetic};

verus! {

// ── FM ─────────────────────────────────────────────────────────────────────

/// The sample that comes before sample `i` of `samples`, where `prev` comes
/// before the first.
pub open spec fn predecessor<T>(prev: T, samples: Seq<T>, i: int) -> T {
    if i == 0 {
        prev
    } else {
        samples[i - 1]
    }
}

/// The sample that comes before what follows `samples`.
pub open spec fn last_of<T>(prev: T, samples: Seq<T>) -> T {
    predecessor(prev, samples, samples.len() as int)
}

/// Whether `out` is the phase of `sample` relative to `prev`, times `gain`.
pub open spec fn is_phase_step<A: Arithmetic>(
    sample: A::Iq,
    prev: A::Iq,
    gain: A::Real,
    out: A::Real,
) -> bool {
    exists|mirrored: A::Iq, product: A::Iq, im: A::Real, re: A::Real, phase: A::Real|
        {
            &&& #[trigger] call_ensures(A::conj, (prev,), mirrored)
            &&& #[trigger] call_ensures(A::iq_times, (sample, mirrored), product)
            &&& #[trigger] call_ensures(A::im, (product,), im)
            &&& #[trigger] call_ensures(A::re, (product,), re)
            &&& #[trigger] call_ensures(A::atan2, (im, re), phase)
            &&& call_ensures(A::times, (phase, gain), out)
        }
}

fn phase_step<A: Arithmetic>(sample: A::Iq, prev: A::Iq, gain: A::Real) -> (out: A::Real)
    ensures
        is_phase_step::<A>(sample, prev, gain, out),
{
    let mirrored: A::Iq = A::conj(prev);
    let product: A::Iq = A::iq_times(sample, mirrored);
    let im: A::Real = A::im(product);
    let re: A::Real = A::re(product);
    let phase: A::Real = A::atan2(im, re);
    A::times(phase, gain)
}

/// Whether `out` is the gain that maps the phase step at `max_deviation` to one:
/// `sample_rate / (turn * max_deviation)`.
pub open spec fn is_fm_gain<A: Arithmetic>(
    max_deviation: A::Real,
    sample_rate: A::Real,
    out: A::Real,
) -> bool {
    exists|turn: A::Real, steepest: A::Real|
        {
            &&& #[trigger] is_turn::<A>(turn)
            &&& #[trigger] call_ensures(A::times, (turn, max_deviation), steepest)
            &&& call_ensures(A::ratio, (sample_rate, steepest), out)
        }
}

/// Whether `out` holds the phase step from each sample's predecessor to it.
pub open spec fn is_fm_demodulated<A: Arithmetic>(
    prev: A::Iq,
    gain: A::Real,
    samples: Seq<A::Iq>,
    out: Seq<A::Real>,
) -> bool {
    &&& out.len() == samples.len()
    &&& forall|i: int| #![trigger out[i]]
        0 <= i < out.len() ==> is_phase_step::<A>(
            samples[i],
            predecessor(prev, samples, i),
            gain,
            out[i],
        )
}

/// FM demodulator by the phase step from sample to sample.
pub struct FmDemod<A: Arithmetic> {
    /// The last sample of the block before.
    pub prev: A::Iq,
    /// What a phase step is multiplied by.
    pub gain: A::Real,
}

impl<A: Arithmetic> FmDemod<A> {
    /// A demodulator for a frequency deviation of up to `max_deviation` at
    /// `sample_rate`.
    pub fn new(max_deviation: A::Real, sample_rate: A::Real) -> (res: FmDemod<A>)
        ensures
            call_ensures(A::iq_zero, (), res.prev),
            is_fm_gain::<A>(max_deviation, sample_rate, res.gain),
    {
        let turn: A::Real = turn::<A>();
        let steepest: A::Real = A::times(turn, max_deviation);
        FmDemod { prev: A::iq_zero(), gain: A::ratio(sample_rate, steepest) }
    }

    /// Demodulates a block of samples.
    pub fn demodulate(&mut self, samples: &[A::Iq]) -> (out: Vec<A::Real>)
        ensures
            is_fm_demodulated::<A>(old(self).prev, old(self).gain, samples@, out@),
            final(self).prev == last_of(old(self).prev, samples@),
            final(self).gain == old(self).gain,
    {
        let ghost prev = self.prev;
        let ghost gain = self.gain;
        let mut out: Vec<A::Real> = Vec::new();
        let mut i: usize = 0;
        while i < samples.len()
            invariant
                i <= samples@.len(),
                self.gain == gain,
                self.prev == predecessor(prev, samples@, i as int),
                out@.len() == i,
                forall|j: int| #![trigger out@[j]]
                    0 <= j < i ==> is_phase_step::<A>(
                        samples@[j],
                        predecessor(prev, samples@, j),
                        gain,
                        out@[j],
                    ),
            decreases samples@.len() - i,
        {
            let sample: A::Iq = samples[i];
            out.push(phase_step::<A>(sample, self.prev, self.gain));
            self.prev = sample;
            i = i + 1;
        }
        out
    }
}

/// Demodulating two blocks one after the other gives what demodulating them as
/// one block gives.
pub proof fn fm_of_consecutive_blocks<A: Arithmetic>(
    prev: A::Iq,
    gain: A::Real,
    first: Seq<A::Iq>,
    second: Seq<A::Iq>,
    out_first: Seq<A::Real>,
    out_second: Seq<A::Real>,
)
    requires
        is_fm_demodulated::<A>(prev, gain, first, out_first),
        is_fm_demodulated::<A>(last_of(prev, first), gain, second, out_second),
    ensures
        is_fm_demodulated::<A>(prev, gain, first + second, out_first + out_second),
        last_of(last_of(prev, first), second) == last_of(prev, first + second),
{
    let samples = first + second;
    let out = out_first + out_second;
    assert forall|i: int| #![trigger out[i]] 0 <= i < out.len() implies is_phase_step::<A>(
        samples[i],
        predecessor(prev, samples, i),
        gain,
        out[i],
    ) by {
        if i < first.len() {
            assert(out[i] == out_first[i]);
            assert(samples[i] == first[i]);
            assert(predecessor(prev, samples, i) == predecessor(prev, first, i));
        } else {
            let k = i - first.len();
            assert(out[i] == out_second[k]);
            assert(samples[i] == second[k]);
            assert(predecessor(prev, samples, i) == predecessor(last_of(prev, first), second, k));
        }
    }
}

// ── AM ─────────────────────────────────────────────────────────────────────

/// Whether `norms` holds the magnitudes of the first `n` samples and `sums`
/// their partial sums.
pub open spec fn is_norm_sum<A: Arithmetic>(
    samples: Seq<A::Iq>,
    norms: Seq<A::Real>,
    sums: Seq<A::Real>,
    n: int,
) -> bool {
    &&& norms.len() == n
    &&& sums.len() == n + 1
    &&& call_ensures(A::zero, (), sums[0])
    &&& forall|i: int| #![trigger norms[i]]
        0 <= i < n ==> call_ensures(A::norm, (samples[i],), norms[i])
    &&& forall|i: int| #![trigger sums[i + 1]]
        0 <= i < n ==> call_ensures(A::plus, (sums[i], norms[i]), sums[i + 1])
}

/// What a sum of `len` values is divided by for their mean.
pub open spec fn divisor(len: nat) -> usize {
    if len == 0 {
        1
    } else {
        len as usize
    }
}

/// Whether `mean` is the mean magnitude of the samples; an empty block counts
/// as one sample.
pub open spec fn is_mean_norm<A: Arithmetic>(samples: Seq<A::Iq>, mean: A::Real) -> bool {
    exists|norms: Seq<A::Real>, sums: Seq<A::Real>, count: A::Real|
        {
            &&& #[trigger] is_norm_sum::<A>(samples, norms, sums, samples.len() as int)
            &&& #[trigger] call_ensures(A::count, (divisor(samples.len()),), count)
            &&& call_ensures(A::ratio, (sums[samples.len() as int], count), mean)
        }
}

/// Whether `level` is the magnitude of `sample` less `mean`.
pub open spec fn is_centred<A: Arithmetic>(sample: A::Iq, mean: A::Real, level: A::Real) -> bool {
    exists|norm: A::Real| #[trigger]
        call_ensures(A::norm, (sample,), norm) && call_ensures(A::minus, (norm, mean), level)
}

/// Whether `out` is the envelope of the samples without its mean.
pub open spec fn is_am_demodulated<A: Arithmetic>(
    samples: Seq<A::Iq>,
    out: Seq<A::Real>,
) -> bool {
    &&& out.len() == samples.len()
    &&& exists|mean: A::Real| #[trigger]
        is_mean_norm::<A>(samples, mean) && forall|i: int| #![trigger out[i]]
            0 <= i < out.len() ==> is_centred::<A>(samples[i], mean, out[i])
}

/// Demodulates AM: the envelope of a block of samples without its mean.
pub fn am_demod<A: Arithmetic>(samples: &[A::Iq]) -> (out: Vec<A::Real>)
    ensures
        is_am_demodulated::<A>(samples@, out@),
{
    let n: usize = samples.len();
    let mut sum: A::Real = A::zero();
    let ghost mut norms: Seq<A::Real> = Seq::empty();
    let ghost mut sums: Seq<A::Real> = seq![sum];
    let mut i: usize = 0;
    while i < n
        invariant
            i <= n,
            n == samples@.len(),
            sum == sums[i as int],
            is_norm_sum::<A>(samples@, norms, sums, i as int),
        decreases n - i,
    {
        let norm: A::Real = A::norm(samples[i]);
        sum = A::plus(sum, norm);
        proof {
            norms = norms.push(norm);
            sums = sums.push(sum);
        }
        i = i + 1;
    }
    let by: usize = if n == 0 {
        1
    } else {
        n
    };
    assert(by == divisor(samples@.len()));
    let count: A::Real = A::count(by);
    let mean: A::Real = A::ratio(sum, count);
    assert(is_mean_norm::<A>(samples@, mean));
    let mut out: Vec<A::Real> = Vec::new();
    let mut j: usize = 0;
    while j < n
        invariant
            j <= n,
            n == samples@.len(),
            out@.len() == j,
            forall|k: int| #![trigger out@[k]]
                0 <= k < j ==> is_centred::<A>(samples@[k], mean, out@[k]),
        decreases n - j,
    {
        let norm: A::Real = A::norm(samples[j]);
        let level: A::Real = A::minus(norm, mean);
        assert(is_centred::<A>(samples@[j as int], mean, level));
        out.push(level);
        j = j + 1;
    }
    out
}

// ── De-emphasis ────────────────────────────────────────────────────────────

/// Whether `out` is the share of a new sample that gives a time constant of
/// `tau_us` microseconds: `dt / (tau + dt)`, where `dt` is the time from sample
/// to sample.
pub open spec fn is_smoothing<A: Arithmetic>(
    tau_us: A::Real,
    sample_rate: A::Real,
    out: A::Real,
) -> bool {
    exists|one: A::Real, dt: A::Real, micro: A::Real, tau: A::Real, total: A::Real|
        {
            &&& #[trigger] call_ensures(A::integer, (1i64,), one)
            &&& #[trigger] call_ensures(A::ratio, (one, sample_rate), dt)
            &&& #[trigger] call_ensures(A::fraction, (1i64, 1_000_000i64), micro)
            &&& #[trigger] call_ensures(A::times, (tau_us, micro), tau)
            &&& #[trigger] call_ensures(A::plus, (tau, dt), total)
            &&& call_ensures(A::ratio, (dt, total), out)
        }
}

/// Whether `out` is `alpha * sample + (1 - alpha) * prev`.
pub open spec fn is_blend<A: Arithmetic>(
    alpha: A::Real,
    sample: A::Real,
    prev: A::Real,
    out: A::Real,
) -> bool {
    exists|new: A::Real, one: A::Real, share: A::Real, past: A::Real|
        {
            &&& #[trigger] call_ensures(A::times, (alpha, sample), new)
            &&& #[trigger] call_ensures(A::integer, (1i64,), one)
            &&& #[trigger] call_ensures(A::minus, (one, alpha), share)
            &&& #[trigger] call_ensures(A::times, (share, prev), past)
            &&& call_ensures(A::plus, (new, past), out)
        }
}

fn blend<A: Arithmetic>(alpha: A::Real, sample: A::Real, prev: A::Real) -> (out: A::Real)
    ensures
        is_blend::<A>(alpha, sample, prev, out),
{
    let new: A::Real = A::times(alpha, sample);
    let one: A::Real = A::integer(1);
    let share: A::Real = A::minus(one, alpha);
    let past: A::Real = A::times(share, prev);
    A::plus(new, past)
}

/// Whether `out` is `samples` smoothed: each result is made of the sample and
/// the result before it, where `prev` comes before the first.
pub open spec fn is_smoothed<A: Arithmetic>(
    alpha: A::Real,
    prev: A::Real,
    samples: Seq<A::Real>,
    out: Seq<A::Real>,
) -> bool {
    &&& out.len() == samples.len()
    &&& forall|i: int| #![trigger out[i]]
        0 <= i < out.len() ==> is_blend::<A>(
            alpha,
            samples[i],
            predecessor(prev, out, i),
            out[i],
        )
}

/// Single-pole de-emphasis filter.
pub struct DeEmphasis<A: Arithmetic> {
    /// The share of the new sample in each result.
    pub alpha: A::Real,
    /// The last result of the block before.
    pub prev: A::Real,
}

impl<A: Arithmetic> DeEmphasis<A> {
    /// A filter with a time constant of `tau_us` microseconds.
    pub fn new(tau_us: A::Real, sample_rate: A::Real) -> (res: DeEmphasis<A>)
        ensures
            is_smoothing::<A>(tau_us, sample_rate, res.alpha),
            call_ensures(A::zero, (), res.prev),
    {
        let one: A::Real = A::integer(1);
        let dt: A::Real = A::ratio(one, sample_rate);
        let micro: A::Real = A::fraction(1, 1_000_000);
        let tau: A::Real = A::times(tau_us, micro);
        let total: A::Real = A::plus(tau, dt);
        DeEmphasis { alpha: A::ratio(dt, total), prev: A::zero() }
    }

    /// Filters a block of samples in place.
    pub fn process(&mut self, samples: &mut [A::Real])
        ensures
            is_smoothed::<A>(old(self).alpha, old(self).prev, old(samples)@, final(samples)@),
            final(self).alpha == old(self).alpha,
            final(self).prev == last_of(old(self).prev, final(samples)@),
    {
        let ghost before = samples@;
        let ghost alpha = self.alpha;
        let ghost prev = self.prev;
        let n: usize = samples.len();
        let mut i: usize = 0;
        while i < n
            invariant
                i <= n,
                n == before.len(),
                samples@.len() == n,
                self.alpha == alpha,
                self.prev == predecessor(prev, samples@, i as int),
                forall|j: int| #![trigger samples@[j]] i <= j < n ==> samples@[j] == before[j],
                forall|j: int| #![trigger samples@[j]]
                    0 <= j < i ==> is_blend::<A>(
                        alpha,
                        before[j],
                        predecessor(prev, samples@, j),
                        samples@[j],
                    ),
            decreases n - i,
        {
            let ghost done = samples@;
            let y: A::Real = blend::<A>(self.alpha, samples[i], self.prev);
            self.prev = y;
            samples[i] = y;
            assert forall|j: int| #![trigger samples@[j]] 0 <= j <= i implies is_blend::<A>(
                alpha,
                before[j],
                predecessor(prev, samples@, j),
                samples@[j],
            ) by {
                assert(predecessor(prev, samples@, j) == predecessor(prev, done, j));
                if j < i {
                    assert(samples@[j] == done[j]);
                }
            }
            i = i + 1;
        }
    }
}

/// Filtering two blocks one after the other gives what filtering them as one
/// block gives.
pub proof fn de_emphasis_of_consecutive_blocks<A: Arithmetic>(
    alpha: A::Real,
    prev: A::Real,
    first: Seq<A::Real>,
    second: Seq<A::Real>,
    out_first: Seq<A::Real>,
    out_second: Seq<A::Real>,
)
    requires
        is_smoothed::<A>(alpha, prev, first, out_first),
        is_smoothed::<A>(alpha, last_of(prev, out_first), second, out_second),
    ensures
        is_smoothed::<A>(alpha, prev, first + second, out_first + out_second),
        last_of(last_of(prev, out_first), out_second) == last_of(prev, out_first + out_second),
{
    let samples = first + second;
    let out = out_first + out_second;
    assert forall|i: int| #![trigger out[i]] 0 <= i < out.len() implies is_blend::<A>(
        alpha,
        samples[i],
        predecessor(prev, out, i),
        out[i],
    ) by {
        if i < first.len() {
            assert(out[i] == out_first[i]);
            assert(samples[i] == first[i]);
            assert(predecessor(prev, out, i) == predecessor(prev, out_first, i));
        } else {
            let k = i - first.len();
            assert(out[i] == out_second[k]);
            assert(samples[i] == second[k]);
            assert(predecessor(prev, out, i) == predecessor(
                last_of(prev, out_first),
                out_second,
                k,
            ));
        }
    }
}

} // verus!
