//! Low-pass filters and decimation.

use vstd::prelude::*;

use crate::arithmetic::{hann, is_hann, is_turn, turn, Arithmetic};

verus! {

/// The last `history.len()` samples, newest first, once the first `k` of
/// `samples` have followed those of `history`.
pub open spec fn history_after<T>(history: Seq<T>, samples: Seq<T>, k: int) -> Seq<T> {
    Seq::new(
        history.len(),
        |i: int|
            if i < k {
                samples[k - 1 - i]
            } else {
                history[i - k]
            },
    )
}

/// How many of `len` samples are kept when every `factor`-th one is, starting
/// with the first.
pub open spec fn decimated_len(len: int, factor: int) -> int {
    (len + factor - 1) / factor
}

/// Whether `out` is `acc + sample * tap`.
pub open spec fn is_iq_mac<A: Arithmetic>(
    acc: A::Iq,
    sample: A::Iq,
    tap: A::Real,
    out: A::Iq,
) -> bool {
    exists|product: A::Iq| #[trigger]
        call_ensures(A::iq_scaled, (sample, tap), product) && call_ensures(
            A::iq_plus,
            (acc, product),
            out,
        )
}

/// Whether `out` is `acc + sample * tap`.
pub open spec fn is_mac<A: Arithmetic>(
    acc: A::Real,
    sample: A::Real,
    tap: A::Real,
    out: A::Real,
) -> bool {
    exists|product: A::Real| #[trigger]
        call_ensures(A::times, (sample, tap), product) && call_ensures(A::plus, (acc, product), out)
}

/// Whether `out` is the sum of the products of samples and coefficients, added
/// up in order.
pub open spec fn is_iq_sum<A: Arithmetic>(
    window: Seq<A::Iq>,
    taps: Seq<A::Real>,
    out: A::Iq,
) -> bool {
    exists|acc: Seq<A::Iq>| #[trigger]
        is_iq_accumulation::<A>(window, taps, acc, taps.len() as int) && out == acc.last()
}

/// Whether `acc` holds the partial sums of the first `n` products.
pub open spec fn is_iq_accumulation<A: Arithmetic>(
    window: Seq<A::Iq>,
    taps: Seq<A::Real>,
    acc: Seq<A::Iq>,
    n: int,
) -> bool {
    &&& acc.len() == n + 1
    &&& call_ensures(A::iq_zero, (), acc[0])
    &&& forall|i: int| #![trigger acc[i + 1]]
        0 <= i < n ==> is_iq_mac::<A>(acc[i], window[i], taps[i], acc[i + 1])
}

/// Whether `acc` holds the partial sums of the first `n` products.
pub open spec fn is_accumulation<A: Arithmetic>(
    window: Seq<A::Real>,
    taps: Seq<A::Real>,
    acc: Seq<A::Real>,
    n: int,
) -> bool {
    &&& acc.len() == n + 1
    &&& call_ensures(A::zero, (), acc[0])
    &&& forall|i: int| #![trigger acc[i + 1]]
        0 <= i < n ==> is_mac::<A>(acc[i], window[i], taps[i], acc[i + 1])
}

/// Whether `out` is the sum of the products of samples and coefficients, added
/// up in order.
pub open spec fn is_sum<A: Arithmetic>(
    window: Seq<A::Real>,
    taps: Seq<A::Real>,
    out: A::Real,
) -> bool {
    exists|acc: Seq<A::Real>| #[trigger]
        is_accumulation::<A>(window, taps, acc, taps.len() as int) && out == acc.last()
}

/// Whether `out` is what the filter makes of `samples` that follow `history`,
/// when it keeps every `decim`-th of its results.
pub open spec fn is_iq_filtered<A: Arithmetic>(
    taps: Seq<A::Real>,
    history: Seq<A::Iq>,
    samples: Seq<A::Iq>,
    decim: int,
    out: Seq<A::Iq>,
) -> bool {
    &&& out.len() == decimated_len(samples.len() as int, decim)
    &&& forall|j: int| #![trigger out[j]]
        0 <= j < out.len() ==> is_iq_sum::<A>(
            history_after(history, samples, j * decim + 1),
            taps,
            out[j],
        )
}

/// Whether `out` is what the filter makes of `samples` that follow `history`,
/// when it keeps every `decim`-th of its results.
pub open spec fn is_filtered<A: Arithmetic>(
    taps: Seq<A::Real>,
    history: Seq<A::Real>,
    samples: Seq<A::Real>,
    decim: int,
    out: Seq<A::Real>,
) -> bool {
    &&& out.len() == decimated_len(samples.len() as int, decim)
    &&& forall|j: int| #![trigger out[j]]
        0 <= j < out.len() ==> is_sum::<A>(
            history_after(history, samples, j * decim + 1),
            taps,
            out[j],
        )
}

/// Equal samples, once there are enough of them, are all that is left of the
/// history.
pub proof fn steady_input_fills_the_history<T>(history: Seq<T>, c: T, n: nat)
    requires
        n >= history.len(),
    ensures
        history_after(history, Seq::new(n, |i: int| c), n as int) == Seq::new(
            history.len(),
            |i: int| c,
        ),
{
    assert(history_after(history, Seq::new(n, |i: int| c), n as int) =~= Seq::new(
        history.len(),
        |i: int| c,
    ));
}

// ── Delay line ─────────────────────────────────────────────────────────────

/// A ring of the last samples.
struct DelayLine<T> {
    slots: Vec<T>,
    /// The slot that the next sample goes to.
    pos: usize,
}

impl<T: Copy> DelayLine<T> {
    spec fn valid(self) -> bool {
        self.slots@.len() > 0 ==> self.pos < self.slots@.len()
    }

    /// The slot of the sample that came `i` samples before the newest one.
    spec fn slot(self, i: int) -> int {
        if i < self.pos {
            self.pos - 1 - i
        } else {
            self.pos - 1 - i + self.slots@.len()
        }
    }

    /// The samples, newest first.
    spec fn history(self) -> Seq<T> {
        Seq::new(self.slots@.len(), |i: int| self.slots@[self.slot(i)])
    }

    fn new(len: usize, silence: T) -> (res: DelayLine<T>)
        ensures
            res.valid(),
            res.slots@.len() == len,
            res.history() == Seq::new(len as nat, |i: int| silence),
    {
        let mut slots: Vec<T> = Vec::new();
        let mut i: usize = 0;
        while i < len
            invariant
                i <= len,
                slots@ == Seq::new(i as nat, |j: int| silence),
            decreases len - i,
        {
            slots.push(silence);
            i = i + 1;
        }
        let res: DelayLine<T> = DelayLine { slots, pos: 0 };
        assert(res.history() =~= Seq::new(len as nat, |j: int| silence));
        res
    }

    fn push(&mut self, sample: T)
        requires
            old(self).valid(),
            old(self).slots@.len() > 0,
        ensures
            final(self).valid(),
            final(self).slots@.len() == old(self).slots@.len(),
            final(self).history() == history_after(old(self).history(), seq![sample], 1),
    {
        let pos: usize = self.pos;
        self.slots.set(pos, sample);
        self.pos = if pos < self.slots.len() - 1 {
            pos + 1
        } else {
            0
        };
        assert(self.history() =~= history_after(old(self).history(), seq![sample], 1));
    }

    /// The sample that came `i` samples before the newest one.
    fn ago(&self, i: usize) -> (res: T)
        requires
            self.valid(),
            i < self.slots@.len(),
        ensures
            res == self.history()[i as int],
    {
        let n: usize = self.slots.len();
        let slot: usize = if i < self.pos {
            self.pos - 1 - i
        } else {
            n - 1 - (i - self.pos)
        };
        self.slots[slot]
    }
}

// ── Filter design ──────────────────────────────────────────────────────────

/// Whether `out` is the sinc function `n` places from its middle, for the cutoff
/// `fc` relative to the sample rate: `turn * fc` in the middle, and else
/// `sin(turn * fc * n) / n`.
pub open spec fn is_sinc<A: Arithmetic>(fc: A::Real, n: int, out: A::Real) -> bool {
    exists|turn: A::Real, width: A::Real|
        {
            &&& #[trigger] is_turn::<A>(turn)
            &&& #[trigger] call_ensures(A::times, (turn, fc), width)
            &&& if n == 0 {
                out == width
            } else {
                is_sine_over::<A>(width, n, out)
            }
        }
}

/// Whether `out` is `sin(width * n) / n`.
pub open spec fn is_sine_over<A: Arithmetic>(width: A::Real, n: int, out: A::Real) -> bool {
    exists|place: A::Real, angle: A::Real, sine: A::Real|
        {
            &&& #[trigger] call_ensures(A::integer, (n as i64,), place)
            &&& #[trigger] call_ensures(A::times, (width, place), angle)
            &&& #[trigger] call_ensures(A::sin, (angle,), sine)
            &&& call_ensures(A::ratio, (sine, place), out)
        }
}

/// Whether `out` is coefficient number `i` of `m` before it is scaled: the sinc
/// function, weighted by a Hann window that ends with the last coefficient.
pub open spec fn is_sinc_tap<A: Arithmetic>(fc: A::Real, i: int, m: int, out: A::Real) -> bool {
    exists|sinc: A::Real, place: A::Real, span: A::Real, weight: A::Real|
        {
            &&& #[trigger] is_sinc::<A>(fc, i - m / 2, sinc)
            &&& call_ensures(A::integer, (i as i64,), place)
            &&& call_ensures(A::integer, ((m - 1) as i64,), span)
            &&& #[trigger] is_hann::<A>(place, span, weight)
            &&& call_ensures(A::times, (sinc, weight), out)
        }
}

fn sinc<A: Arithmetic>(fc: A::Real, n: isize) -> (out: A::Real)
    ensures
        is_sinc::<A>(fc, n as int, out),
{
    let turn: A::Real = turn::<A>();
    let width: A::Real = A::times(turn, fc);
    if n == 0 {
        width
    } else {
        let place: A::Real = A::integer(n as i64);
        let angle: A::Real = A::times(width, place);
        let sine: A::Real = A::sin(angle);
        let out: A::Real = A::ratio(sine, place);
        assert(is_sine_over::<A>(width, n as int, out));
        out
    }
}

fn sinc_tap<A: Arithmetic>(fc: A::Real, i: isize, m: isize) -> (out: A::Real)
    requires
        0 <= i < m,
    ensures
        is_sinc_tap::<A>(fc, i as int, m as int, out),
{
    let half: isize = m / 2;
    let sinc: A::Real = sinc::<A>(fc, i - half);
    let place: A::Real = A::integer(i as i64);
    let span: A::Real = A::integer((m - 1) as i64);
    let weight: A::Real = hann::<A>(place, span);
    A::times(sinc, weight)
}

/// Whether `taps` is a windowed-sinc low-pass filter of `m` coefficients for
/// `cutoff` at `rate`: each coefficient is divided by the sum of all of them.
pub open spec fn is_low_pass<A: Arithmetic>(
    cutoff: A::Real,
    rate: A::Real,
    m: int,
    taps: Seq<A::Real>,
) -> bool {
    exists|fc: A::Real, raw: Seq<A::Real>, sums: Seq<A::Real>| #[trigger]
        is_low_pass_design::<A>(cutoff, rate, m, fc, raw, sums, m) && taps.len() == m && forall|
            i: int,
        | #![trigger taps[i]] 0 <= i < m ==> call_ensures(A::ratio, (raw[i], sums[m]), taps[i])
}

/// Whether `raw` holds the first `n` of `m` coefficients before they are
/// scaled, and `sums` their partial sums.
pub open spec fn is_low_pass_design<A: Arithmetic>(
    cutoff: A::Real,
    rate: A::Real,
    m: int,
    fc: A::Real,
    raw: Seq<A::Real>,
    sums: Seq<A::Real>,
    n: int,
) -> bool {
    &&& call_ensures(A::ratio, (cutoff, rate), fc)
    &&& raw.len() == n
    &&& sums.len() == n + 1
    &&& call_ensures(A::zero, (), sums[0])
    &&& forall|i: int| #![trigger raw[i]]
        0 <= i < n ==> is_sinc_tap::<A>(fc, i, m, raw[i])
    &&& forall|i: int| #![trigger sums[i + 1]]
        0 <= i < n ==> call_ensures(A::plus, (sums[i], raw[i]), sums[i + 1])
}

/// The coefficients of a low-pass filter.
fn low_pass_taps<A: Arithmetic>(cutoff: A::Real, rate: A::Real, num_taps: usize) -> (res: Vec<
    A::Real,
>)
    requires
        num_taps <= isize::MAX,
    ensures
        is_low_pass::<A>(cutoff, rate, num_taps as int, res@),
{
    let fc: A::Real = A::ratio(cutoff, rate);
    let m: isize = num_taps as isize;
    let mut raw: Vec<A::Real> = Vec::new();
    let mut sum: A::Real = A::zero();
    let ghost mut sums: Seq<A::Real> = seq![sum];
    let mut i: isize = 0;
    while i < m
        invariant
            0 <= i <= m,
            m == num_taps,
            sum == sums[i as int],
            is_low_pass_design::<A>(cutoff, rate, m as int, fc, raw@, sums, i as int),
        decreases m - i,
    {
        let val: A::Real = sinc_tap::<A>(fc, i, m);
        sum = A::plus(sum, val);
        raw.push(val);
        proof {
            sums = sums.push(sum);
        }
        i = i + 1;
    }
    let mut taps: Vec<A::Real> = Vec::new();
    let mut j: usize = 0;
    while j < num_taps
        invariant
            j <= num_taps,
            raw@.len() == num_taps,
            taps@.len() == j,
            forall|k: int| #![trigger taps@[k]]
                0 <= k < j ==> call_ensures(A::ratio, (raw@[k], sum), taps@[k]),
        decreases num_taps - j,
    {
        taps.push(A::ratio(raw[j], sum));
        j = j + 1;
    }
    assert(is_low_pass_design::<A>(cutoff, rate, num_taps as int, fc, raw@, sums, num_taps as int));
    taps
}

// ── Filter for complex samples ─────────────────────────────────────────────

/// Windowed-sinc low-pass filter on complex samples.
pub struct FirLowPass<A: Arithmetic> {
    taps: Vec<A::Real>,
    delay: DelayLine<A::Iq>,
}

impl<A: Arithmetic> FirLowPass<A> {
    /// The delay line is as long as the list of coefficients.
    pub closed spec fn valid(self) -> bool {
        self.delay.valid() && self.delay.slots@.len() == self.taps@.len()
    }

    /// The coefficients.
    pub closed spec fn taps(self) -> Seq<A::Real> {
        self.taps@
    }

    /// The last samples, newest first.
    pub closed spec fn history(self) -> Seq<A::Iq> {
        self.delay.history()
    }

    /// A filter remembers as many samples as it has coefficients.
    pub proof fn remembers_a_sample_for_each_coefficient(self)
        requires
            self.valid(),
        ensures
            self.history().len() == self.taps().len(),
    {
    }

    /// A filter with `num_taps` coefficients that has seen only silence.
    pub fn new(cutoff: A::Real, sample_rate: A::Real, num_taps: usize) -> (res: FirLowPass<A>)
        requires
            num_taps <= isize::MAX,
        ensures
            res.valid(),
            is_low_pass::<A>(cutoff, sample_rate, num_taps as int, res.taps()),
            exists|silence: A::Iq| #[trigger]
                call_ensures(A::iq_zero, (), silence) && res.history() == Seq::new(
                    num_taps as nat,
                    |i: int| silence,
                ),
    {
        let taps: Vec<A::Real> = low_pass_taps::<A>(cutoff, sample_rate, num_taps);
        let silence: A::Iq = A::iq_zero();
        FirLowPass { taps, delay: DelayLine::new(num_taps, silence) }
    }

    /// Filters one sample.
    pub fn process_one(&mut self, sample: A::Iq) -> (out: A::Iq)
        requires
            old(self).valid(),
            old(self).taps().len() > 0,
        ensures
            final(self).valid(),
            final(self).taps() == old(self).taps(),
            final(self).history() == history_after(old(self).history(), seq![sample], 1),
            is_iq_sum::<A>(final(self).history(), old(self).taps(), out),
    {
        self.delay.push(sample);
        let n: usize = self.taps.len();
        let mut out: A::Iq = A::iq_zero();
        let ghost mut acc: Seq<A::Iq> = seq![out];
        let mut i: usize = 0;
        while i < n
            invariant
                i <= n,
                n == self.taps@.len() == self.delay.slots@.len(),
                self.delay.valid(),
                is_iq_accumulation::<A>(self.delay.history(), self.taps@, acc, i as int),
                out == acc[i as int],
            decreases n - i,
        {
            let product: A::Iq = A::iq_scaled(self.delay.ago(i), self.taps[i]);
            let ghost sum = out;
            out = A::iq_plus(out, product);
            assert(is_iq_mac::<A>(sum, self.delay.history()[i as int], self.taps@[i as int], out));
            proof {
                acc = acc.push(out);
            }
            i = i + 1;
        }
        assert(is_iq_accumulation::<A>(self.history(), self.taps(), acc, n as int));
        out
    }

    /// Filters a block of samples and keeps every `decim`-th result, starting
    /// with the first.
    pub fn filter_decimate(&mut self, samples: &[A::Iq], decim: usize) -> (out: Vec<A::Iq>)
        requires
            old(self).valid(),
            samples@.len() > 0 ==> old(self).taps().len() > 0,
            decim > 0,
        ensures
            final(self).valid(),
            final(self).taps() == old(self).taps(),
            final(self).history() == history_after(
                old(self).history(),
                samples@,
                samples@.len() as int,
            ),
            is_iq_filtered::<A>(
                old(self).taps(),
                old(self).history(),
                samples@,
                decim as int,
                out@,
            ),
    {
        let ghost start = self.history();
        let ghost taps = self.taps();
        let mut out: Vec<A::Iq> = Vec::new();
        let mut i: usize = 0;
        proof {
            assert(start =~= history_after(start, samples@, 0));
            lemma_decimation_step(0, decim as int);
        }
        while i < samples.len()
            invariant
                i <= samples@.len(),
                decim > 0,
                self.valid(),
                self.taps() == taps,
                samples@.len() > 0 ==> taps.len() > 0,
                start.len() == taps.len(),
                self.history() == history_after(start, samples@, i as int),
                out@.len() == decimated_len(i as int, decim as int),
                forall|j: int| #![trigger out@[j]]
                    0 <= j < out@.len() ==> is_iq_sum::<A>(
                        history_after(start, samples@, j * decim + 1),
                        taps,
                        out@[j],
                    ),
            decreases samples@.len() - i,
        {
            let y: A::Iq = self.process_one(samples[i]);
            assert(self.history() =~= history_after(start, samples@, i + 1));
            proof {
                lemma_decimation_step(i as int, decim as int);
            }
            if i % decim == 0 {
                out.push(y);
            }
            i = i + 1;
        }
        out
    }
}

// ── Filter for real samples ────────────────────────────────────────────────

/// Windowed-sinc low-pass filter on real samples.
pub struct FirLowPassReal<A: Arithmetic> {
    taps: Vec<A::Real>,
    delay: DelayLine<A::Real>,
}

impl<A: Arithmetic> FirLowPassReal<A> {
    /// The delay line is as long as the list of coefficients.
    pub closed spec fn valid(self) -> bool {
        self.delay.valid() && self.delay.slots@.len() == self.taps@.len()
    }

    /// The coefficients.
    pub closed spec fn taps(self) -> Seq<A::Real> {
        self.taps@
    }

    /// The last samples, newest first.
    pub closed spec fn history(self) -> Seq<A::Real> {
        self.delay.history()
    }

    /// A filter remembers as many samples as it has coefficients.
    pub proof fn remembers_a_sample_for_each_coefficient(self)
        requires
            self.valid(),
        ensures
            self.history().len() == self.taps().len(),
    {
    }

    /// A filter with `num_taps` coefficients that has seen only silence.
    pub fn new(cutoff: A::Real, sample_rate: A::Real, num_taps: usize) -> (res: FirLowPassReal<A>)
        requires
            num_taps <= isize::MAX,
        ensures
            res.valid(),
            is_low_pass::<A>(cutoff, sample_rate, num_taps as int, res.taps()),
            exists|silence: A::Real| #[trigger]
                call_ensures(A::zero, (), silence) && res.history() == Seq::new(
                    num_taps as nat,
                    |i: int| silence,
                ),
    {
        let taps: Vec<A::Real> = low_pass_taps::<A>(cutoff, sample_rate, num_taps);
        let silence: A::Real = A::zero();
        FirLowPassReal { taps, delay: DelayLine::new(num_taps, silence) }
    }

    /// The sum of the products of the last samples and the coefficients.
    fn weighted_sum(&self) -> (out: A::Real)
        requires
            self.valid(),
        ensures
            is_sum::<A>(self.history(), self.taps(), out),
    {
        let n: usize = self.taps.len();
        let mut out: A::Real = A::zero();
        let ghost mut acc: Seq<A::Real> = seq![out];
        let mut i: usize = 0;
        while i < n
            invariant
                i <= n,
                n == self.taps@.len() == self.delay.slots@.len(),
                self.delay.valid(),
                is_accumulation::<A>(self.delay.history(), self.taps@, acc, i as int),
                out == acc[i as int],
            decreases n - i,
        {
            let product: A::Real = A::times(self.delay.ago(i), self.taps[i]);
            let ghost sum = out;
            out = A::plus(out, product);
            assert(is_mac::<A>(sum, self.delay.history()[i as int], self.taps@[i as int], out));
            proof {
                acc = acc.push(out);
            }
            i = i + 1;
        }
        assert(is_accumulation::<A>(self.history(), self.taps(), acc, n as int));
        out
    }

    /// Takes a block of samples and gives the filter's result for every
    /// `decim`-th of them, starting with the first.
    pub fn filter_decimate(&mut self, samples: &[A::Real], decim: usize) -> (out: Vec<A::Real>)
        requires
            old(self).valid(),
            samples@.len() > 0 ==> old(self).taps().len() > 0,
            decim > 0,
        ensures
            final(self).valid(),
            final(self).taps() == old(self).taps(),
            final(self).history() == history_after(
                old(self).history(),
                samples@,
                samples@.len() as int,
            ),
            is_filtered::<A>(old(self).taps(), old(self).history(), samples@, decim as int, out@),
    {
        let ghost start = self.history();
        let ghost taps = self.taps();
        let mut out: Vec<A::Real> = Vec::new();
        let mut i: usize = 0;
        proof {
            assert(start =~= history_after(start, samples@, 0));
            lemma_decimation_step(0, decim as int);
        }
        while i < samples.len()
            invariant
                i <= samples@.len(),
                decim > 0,
                self.valid(),
                self.taps() == taps,
                samples@.len() > 0 ==> taps.len() > 0,
                start.len() == taps.len(),
                self.history() == history_after(start, samples@, i as int),
                out@.len() == decimated_len(i as int, decim as int),
                forall|j: int| #![trigger out@[j]]
                    0 <= j < out@.len() ==> is_sum::<A>(
                        history_after(start, samples@, j * decim + 1),
                        taps,
                        out@[j],
                    ),
            decreases samples@.len() - i,
        {
            self.delay.push(samples[i]);
            assert(self.history() =~= history_after(start, samples@, i + 1));
            proof {
                lemma_decimation_step(i as int, decim as int);
            }
            if i % decim == 0 {
                let y: A::Real = self.weighted_sum();
                out.push(y);
            }
            i = i + 1;
        }
        out
    }
}

// ── Decimation ─────────────────────────────────────────────────────────────

/// Takes every `factor`-th sample, starting with the first.
pub fn decimate<T: Copy>(samples: &[T], factor: usize) -> (out: Vec<T>)
    requires
        factor > 0,
    ensures
        out@ == Seq::new(
            decimated_len(samples@.len() as int, factor as int) as nat,
            |j: int| samples@[j * factor],
        ),
{
    let mut out: Vec<T> = Vec::new();
    let mut i: usize = 0;
    proof {
        lemma_decimation_step(0, factor as int);
    }
    while i < samples.len()
        invariant
            i <= samples@.len(),
            factor > 0,
            out@.len() == decimated_len(i as int, factor as int),
            forall|j: int| #![trigger out@[j]]
                0 <= j < out@.len() ==> out@[j] == samples@[j * factor],
        decreases samples@.len() - i,
    {
        proof {
            lemma_decimation_step(i as int, factor as int);
        }
        if i % factor == 0 {
            out.push(samples[i]);
        }
        i = i + 1;
    }
    assert(out@ =~= Seq::new(
        decimated_len(samples@.len() as int, factor as int) as nat,
        |j: int| samples@[j * factor],
    ));
    out
}

// ── Blocks ─────────────────────────────────────────────────────────────────

/// What a delay line holds does not depend on how the samples are cut into
/// blocks.
pub proof fn history_of_consecutive_blocks<T>(history: Seq<T>, first: Seq<T>, second: Seq<T>)
    ensures
        history_after(
            history_after(history, first, first.len() as int),
            second,
            second.len() as int,
        ) == history_after(history, first + second, (first + second).len() as int),
{
    assert(history_after(
        history_after(history, first, first.len() as int),
        second,
        second.len() as int,
    ) =~= history_after(history, first + second, (first + second).len() as int));
}

proof fn lemma_decimated_len_concat(first: int, second: int, decim: int)
    requires
        first >= 0,
        second >= 0,
        decim > 0,
        first % decim == 0,
    ensures
        decimated_len(first + second, decim) == decimated_len(first, decim) + decimated_len(
            second,
            decim,
        ),
        decimated_len(first, decim) * decim == first,
{
    lemma_decimation_step(first, decim);
    let q = decimated_len(first, decim);
    vstd::arithmetic::div_mod::lemma_hoist_over_denominator(second + decim - 1, q, decim as nat);
}

/// The kept samples are samples of the block.
pub(crate) proof fn lemma_decimated_in_range(j: int, len: int, factor: int)
    requires
        0 <= j < decimated_len(len, factor),
        factor > 0,
        len >= 0,
    ensures
        0 <= j * factor < len,
{
    let q = decimated_len(len, factor);
    vstd::arithmetic::div_mod::lemma_fundamental_div_mod(len + factor - 1, factor);
    assert(j * factor < len && j * factor >= 0) by (nonlinear_arith)
        requires
            0 <= j,
            j + 1 <= q,
            factor > 0,
            len + factor - 1 == factor * q + (len + factor - 1) % factor,
            (len + factor - 1) % factor >= 0,
    ;
}

/// What the delay line holds for result `j` of two blocks is what it holds for
/// that result of the first block, or for the result of the second block that is
/// left once those of the first are counted off.
proof fn lemma_history_in_blocks<T>(
    history: Seq<T>,
    first: Seq<T>,
    second: Seq<T>,
    decim: int,
    j: int,
)
    requires
        decim > 0,
        first.len() % (decim as nat) == 0,
        0 <= j < decimated_len((first.len() + second.len()) as int, decim),
    ensures
        decimated_len((first.len() + second.len()) as int, decim) == decimated_len(
            first.len() as int,
            decim,
        ) + decimated_len(second.len() as int, decim),
        ({
            let k = decimated_len(first.len() as int, decim);
            history_after(history, first + second, j * decim + 1) == (if j < k {
                history_after(history, first, j * decim + 1)
            } else {
                history_after(
                    history_after(history, first, first.len() as int),
                    second,
                    (j - k) * decim + 1,
                )
            })
        }),
{
    lemma_decimated_len_concat(first.len() as int, second.len() as int, decim);
    let k = decimated_len(first.len() as int, decim);
    if j < k {
        lemma_decimated_in_range(j, first.len() as int, decim);
        assert(history_after(history, first + second, j * decim + 1) =~= history_after(
            history,
            first,
            j * decim + 1,
        ));
    } else {
        let l = j - k;
        assert(j * decim == first.len() + l * decim) by (nonlinear_arith)
            requires
                k * decim == first.len(),
                l == j - k,
        ;
        lemma_decimated_in_range(l, second.len() as int, decim);
        assert(history_after(history, first + second, j * decim + 1) =~= history_after(
            history_after(history, first, first.len() as int),
            second,
            l * decim + 1,
        ));
    }
}

/// Filtering two blocks one after the other gives what filtering them as one
/// block gives, where the length of the first is a multiple of the decimation
/// factor.
pub proof fn iq_filter_of_consecutive_blocks<A: Arithmetic>(
    taps: Seq<A::Real>,
    history: Seq<A::Iq>,
    first: Seq<A::Iq>,
    second: Seq<A::Iq>,
    decim: int,
    out_first: Seq<A::Iq>,
    out_second: Seq<A::Iq>,
)
    requires
        decim > 0,
        first.len() % (decim as nat) == 0,
        is_iq_filtered::<A>(taps, history, first, decim, out_first),
        is_iq_filtered::<A>(
            taps,
            history_after(history, first, first.len() as int),
            second,
            decim,
            out_second,
        ),
    ensures
        is_iq_filtered::<A>(taps, history, first + second, decim, out_first + out_second),
{
    lemma_decimated_len_concat(first.len() as int, second.len() as int, decim);
    let out = out_first + out_second;
    assert forall|j: int| #![trigger out[j]] 0 <= j < out.len() implies is_iq_sum::<A>(
        history_after(history, first + second, j * decim + 1),
        taps,
        out[j],
    ) by {
        lemma_history_in_blocks(history, first, second, decim, j);
        if j < out_first.len() {
            assert(out[j] == out_first[j]);
        } else {
            assert(out[j] == out_second[j - out_first.len()]);
        }
    }
}

/// Filtering two blocks one after the other gives what filtering them as one
/// block gives, where the length of the first is a multiple of the decimation
/// factor.
pub proof fn filter_of_consecutive_blocks<A: Arithmetic>(
    taps: Seq<A::Real>,
    history: Seq<A::Real>,
    first: Seq<A::Real>,
    second: Seq<A::Real>,
    decim: int,
    out_first: Seq<A::Real>,
    out_second: Seq<A::Real>,
)
    requires
        decim > 0,
        first.len() % (decim as nat) == 0,
        is_filtered::<A>(taps, history, first, decim, out_first),
        is_filtered::<A>(
            taps,
            history_after(history, first, first.len() as int),
            second,
            decim,
            out_second,
        ),
    ensures
        is_filtered::<A>(taps, history, first + second, decim, out_first + out_second),
{
    lemma_decimated_len_concat(first.len() as int, second.len() as int, decim);
    let out = out_first + out_second;
    assert forall|j: int| #![trigger out[j]] 0 <= j < out.len() implies is_sum::<A>(
        history_after(history, first + second, j * decim + 1),
        taps,
        out[j],
    ) by {
        lemma_history_in_blocks(history, first, second, decim, j);
        if j < out_first.len() {
            assert(out[j] == out_first[j]);
        } else {
            assert(out[j] == out_second[j - out_first.len()]);
        }
    }
}

/// A sample is kept exactly where its index is a multiple of the factor, and it
/// then is the one whose place in the result is the quotient.
proof fn lemma_decimation_step(i: int, factor: int)
    requires
        i >= 0,
        factor > 0,
    ensures
        i % factor == 0 ==> decimated_len(i + 1, factor) == decimated_len(i, factor) + 1
            && decimated_len(i, factor) * factor == i,
        i % factor != 0 ==> decimated_len(i + 1, factor) == decimated_len(i, factor),
        decimated_len(0, factor) == 0,
{
    let q = i / factor;
    let r = i % factor;
    vstd::arithmetic::div_mod::lemma_fundamental_div_mod(i, factor);
    vstd::arithmetic::div_mod::lemma_mod_bound(i, factor);
    vstd::arithmetic::mul::lemma_mul_is_commutative(q, factor);
    if r == 0 {
        vstd::arithmetic::div_mod::lemma_fundamental_div_mod_converse(
            i + factor - 1,
            factor,
            q,
            factor - 1,
        );
        vstd::arithmetic::mul::lemma_mul_is_distributive_add(factor, q, 1);
        vstd::arithmetic::div_mod::lemma_fundamental_div_mod_converse(i + factor, factor, q + 1, 0);
    } else {
        vstd::arithmetic::mul::lemma_mul_is_distributive_add(factor, q, 1);
        vstd::arithmetic::div_mod::lemma_fundamental_div_mod_converse(
            i + factor - 1,
            factor,
            q + 1,
            r - 1,
        );
        vstd::arithmetic::div_mod::lemma_fundamental_div_mod_converse(i + factor, factor, q + 1, r);
    }
    vstd::arithmetic::div_mod::lemma_fundamental_div_mod_converse(
        factor - 1,
        factor,
        0,
        factor - 1,
    );
}

} // verus!
