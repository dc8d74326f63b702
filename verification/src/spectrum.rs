//! Conversion of raw samples and computation of the spectrum.

use vstd::prelude::*;

use crate::arithmetic::{hann, is_hann, Arithmetic};

verus! {

/// Whether `out` is the number that a byte of a raw sample stands for: its
/// distance from the middle of the range, in halves of the range.
pub open spec fn is_component<A: Arithmetic>(byte: u8, out: A::Real) -> bool {
    exists|value: A::Real, middle: A::Real, distance: A::Real|
        {
            &&& #[trigger] call_ensures(A::integer, (byte as i64,), value)
            &&& #[trigger] call_ensures(A::fraction, (255i64, 2i64), middle)
            &&& #[trigger] call_ensures(A::minus, (value, middle), distance)
            &&& call_ensures(A::ratio, (distance, middle), out)
        }
}

fn component<A: Arithmetic>(byte: u8) -> (out: A::Real)
    ensures
        is_component::<A>(byte, out),
{
    let value: A::Real = A::integer(byte as i64);
    let middle: A::Real = A::fraction(255, 2);
    let distance: A::Real = A::minus(value, middle);
    A::ratio(distance, middle)
}

/// Whether `out` is the sample that an in-phase and a quadrature byte stand for.
pub open spec fn is_sample<A: Arithmetic>(i: u8, q: u8, out: A::Iq) -> bool {
    exists|re: A::Real, im: A::Real|
        {
            &&& #[trigger] is_component::<A>(i, re)
            &&& #[trigger] is_component::<A>(q, im)
            &&& call_ensures(A::iq, (re, im), out)
        }
}

fn sample<A: Arithmetic>(i: u8, q: u8) -> (out: A::Iq)
    ensures
        is_sample::<A>(i, q, out),
{
    let re: A::Real = component::<A>(i);
    let im: A::Real = component::<A>(q);
    A::iq(re, im)
}

/// Whether `out` holds one complex sample for each pair of bytes.
pub open spec fn is_converted<A: Arithmetic>(raw: Seq<u8>, out: Seq<A::Iq>) -> bool {
    &&& out.len() == raw.len() / 2
    &&& forall|i: int| #![trigger out[i]]
        0 <= i < out.len() ==> is_sample::<A>(raw[2 * i], raw[2 * i + 1], out[i])
}

/// Converts raw samples, pairs of an in-phase and a quadrature byte. A last byte
/// without its partner is left out.
pub fn u8_iq_to_complex<A: Arithmetic>(raw: &[u8]) -> (out: Vec<A::Iq>)
    ensures
        is_converted::<A>(raw@, out@),
{
    let n: usize = raw.len() / 2;
    let mut out: Vec<A::Iq> = Vec::new();
    let mut i: usize = 0;
    while i < n
        invariant
            i <= n,
            n == raw@.len() / 2,
            raw@.len() <= usize::MAX,
            out@.len() == i,
            forall|j: int| #![trigger out@[j]]
                0 <= j < i ==> is_sample::<A>(raw@[2 * j], raw@[2 * j + 1], out@[j]),
        decreases n - i,
    {
        out.push(sample::<A>(raw[2 * i], raw[2 * i + 1]));
        i = i + 1;
    }
    out
}

/// Converting two blocks one after the other gives what converting them as one
/// block gives, where the first ends with a whole pair.
pub proof fn conversion_of_consecutive_blocks<A: Arithmetic>(
    first: Seq<u8>,
    second: Seq<u8>,
    out_first: Seq<A::Iq>,
    out_second: Seq<A::Iq>,
)
    requires
        first.len() % 2 == 0,
        is_converted::<A>(first, out_first),
        is_converted::<A>(second, out_second),
    ensures
        is_converted::<A>(first + second, out_first + out_second),
{
    let raw = first + second;
    let out = out_first + out_second;
    assert forall|i: int| #![trigger out[i]] 0 <= i < out.len() implies is_sample::<A>(
        raw[2 * i],
        raw[2 * i + 1],
        out[i],
    ) by {
        if i < out_first.len() {
            assert(out[i] == out_first[i]);
            assert(raw[2 * i] == first[2 * i] && raw[2 * i + 1] == first[2 * i + 1]);
        } else {
            let k = i - out_first.len();
            assert(out[i] == out_second[k]);
            assert(raw[2 * i] == second[2 * k] && raw[2 * i + 1] == second[2 * k + 1]);
        }
    }
}

/// Where place `i` of a spectrum of `n` places comes from: the bin of the
/// centre frequency goes to the middle.
pub open spec fn shifted_bin(i: int, n: int) -> int {
    (i + n - n / 2) % n
}

/// Sample `i` of a frame before it is weighted: the frame is filled up with
/// `silence`.
pub open spec fn padded<T>(samples: Seq<T>, silence: T, i: int) -> T {
    if i < samples.len() {
        samples[i]
    } else {
        silence
    }
}

/// Whether `out` is `sample`, weighted by place `i` of a Hann window of `n`
/// places.
pub open spec fn is_weighted<A: Arithmetic>(
    sample: A::Iq,
    i: usize,
    n: usize,
    out: A::Iq,
) -> bool {
    exists|place: A::Real, span: A::Real, weight: A::Real|
        {
            &&& #[trigger] call_ensures(A::count, (i,), place)
            &&& #[trigger] call_ensures(A::count, (n,), span)
            &&& #[trigger] is_hann::<A>(place, span, weight)
            &&& call_ensures(A::iq_scaled, (sample, weight), out)
        }
}

fn weighted<A: Arithmetic>(sample: A::Iq, i: usize, n: usize) -> (out: A::Iq)
    ensures
        is_weighted::<A>(sample, i, n, out),
{
    let place: A::Real = A::count(i);
    let span: A::Real = A::count(n);
    let weight: A::Real = hann::<A>(place, span);
    A::iq_scaled(sample, weight)
}

/// Whether `out` is the level of bin `index` in decibels: twenty times the
/// logarithm of its magnitude divided by `n`. Magnitudes below a
/// ten-thousand-millionth count as that.
pub open spec fn is_level<A: Arithmetic>(
    bins: A::Bins,
    index: usize,
    n: usize,
    out: A::Real,
) -> bool {
    exists|
        bin: A::Iq,
        norm: A::Real,
        count: A::Real,
        magnitude: A::Real,
        floor: A::Real,
        bounded: A::Real,
        logarithm: A::Real,
        twenty: A::Real,
    | #[trigger]
        level_steps::<A>(
            bins,
            index,
            n,
            bin,
            norm,
            count,
            magnitude,
            floor,
            bounded,
            logarithm,
            twenty,
            out,
        )
}

/// Whether these are the steps to the level of a bin.
pub open spec fn level_steps<A: Arithmetic>(
    bins: A::Bins,
    index: usize,
    n: usize,
    bin: A::Iq,
    norm: A::Real,
    count: A::Real,
    magnitude: A::Real,
    floor: A::Real,
    bounded: A::Real,
    logarithm: A::Real,
    twenty: A::Real,
    out: A::Real,
) -> bool {
    &&& call_ensures(A::bin, (&bins, index), bin)
    &&& call_ensures(A::norm, (bin,), norm)
    &&& call_ensures(A::count, (n,), count)
    &&& call_ensures(A::ratio, (norm, count), magnitude)
    &&& call_ensures(A::fraction, (1i64, 10_000_000_000i64), floor)
    &&& call_ensures(A::larger, (magnitude, floor), bounded)
    &&& call_ensures(A::log10, (bounded,), logarithm)
    &&& call_ensures(A::integer, (20i64,), twenty)
    &&& call_ensures(A::times, (twenty, logarithm), out)
}

fn level<A: Arithmetic>(bins: &A::Bins, index: usize, n: usize) -> (out: A::Real)
    ensures
        is_level::<A>(*bins, index, n, out),
{
    let bin: A::Iq = A::bin(bins, index);
    let norm: A::Real = A::norm(bin);
    let count: A::Real = A::count(n);
    let magnitude: A::Real = A::ratio(norm, count);
    let floor: A::Real = A::fraction(1, 10_000_000_000);
    let bounded: A::Real = A::larger(magnitude, floor);
    let logarithm: A::Real = A::log10(bounded);
    let twenty: A::Real = A::integer(20);
    let out: A::Real = A::times(twenty, logarithm);
    assert(level_steps::<A>(
        *bins,
        index,
        n,
        bin,
        norm,
        count,
        magnitude,
        floor,
        bounded,
        logarithm,
        twenty,
        out,
    ));
    out
}

/// Whether `frame` holds the first `n` samples, filled up with `silence` and
/// weighted by the window.
pub open spec fn is_frame<A: Arithmetic>(
    samples: Seq<A::Iq>,
    n: usize,
    silence: A::Iq,
    frame: Seq<A::Iq>,
) -> bool {
    &&& call_ensures(A::iq_zero, (), silence)
    &&& frame.len() == n
    &&& forall|i: int| #![trigger frame[i]]
        0 <= i < n ==> is_weighted::<A>(padded(samples, silence, i), i as usize, n, frame[i])
}

/// Whether `out` is the spectrum of the first `n` samples, with the centre
/// frequency in the middle.
pub open spec fn is_spectrum<A: Arithmetic>(
    samples: Seq<A::Iq>,
    n: usize,
    out: Seq<A::Real>,
) -> bool {
    exists|silence: A::Iq, frame: Vec<A::Iq>, bins: A::Bins|
        {
            &&& #[trigger] is_frame::<A>(samples, n, silence, frame@)
            &&& #[trigger] call_ensures(A::transform, (frame,), bins)
            &&& is_shifted::<A>(bins, n, out)
        }
}

/// Whether `out` holds the levels of the bins, with the centre frequency in the
/// middle.
pub open spec fn is_shifted<A: Arithmetic>(bins: A::Bins, n: usize, out: Seq<A::Real>) -> bool {
    &&& out.len() == n
    &&& forall|i: int| #![trigger out[i]]
        0 <= i < n ==> is_level::<A>(bins, shifted_bin(i, n as int) as usize, n, out[i])
}

/// Computes the spectrum of the first `fft_size` samples in decibels. The
/// centre frequency is in the middle.
pub fn compute_spectrum<A: Arithmetic>(samples: &[A::Iq], fft_size: usize) -> (out: Vec<A::Real>)
    ensures
        is_spectrum::<A>(samples@, fft_size, out@),
{
    let silence: A::Iq = A::iq_zero();
    let mut frame: Vec<A::Iq> = Vec::new();
    let mut i: usize = 0;
    while i < fft_size
        invariant
            i <= fft_size,
            frame@.len() == i,
            forall|j: int| #![trigger frame@[j]]
                0 <= j < i ==> is_weighted::<A>(
                    padded(samples@, silence, j),
                    j as usize,
                    fft_size,
                    frame@[j],
                ),
        decreases fft_size - i,
    {
        let sample: A::Iq = if i < samples.len() {
            samples[i]
        } else {
            silence
        };
        frame.push(weighted::<A>(sample, i, fft_size));
        i = i + 1;
    }
    let ghost held = frame;
    let bins: A::Bins = A::transform(frame);
    let half: usize = fft_size / 2;
    let mut out: Vec<A::Real> = Vec::new();
    let mut k: usize = 0;
    while k < fft_size
        invariant
            k <= fft_size,
            half == fft_size / 2,
            out@.len() == k,
            forall|j: int| #![trigger out@[j]]
                0 <= j < k ==> is_level::<A>(
                    bins,
                    shifted_bin(j, fft_size as int) as usize,
                    fft_size,
                    out@[j],
                ),
        decreases fft_size - k,
    {
        let index: usize = if k < half {
            fft_size - half + k
        } else {
            k - half
        };
        proof {
            lemma_shifted_bin(k as int, fft_size as int);
        }
        out.push(level::<A>(&bins, index, fft_size));
        k = k + 1;
    }
    assert(is_frame::<A>(samples@, fft_size, silence, held@));
    out
}

proof fn lemma_shifted_bin(i: int, n: int)
    requires
        0 <= i < n,
    ensures
        shifted_bin(i, n) == (if i < n / 2 {
            n - n / 2 + i
        } else {
            i - n / 2
        }),
{
    if i < n / 2 {
        vstd::arithmetic::div_mod::lemma_small_mod((n - n / 2 + i) as nat, n as nat);
    } else {
        vstd::arithmetic::div_mod::lemma_small_mod((i - n / 2) as nat, n as nat);
        vstd::arithmetic::div_mod::lemma_mod_add_multiples_vanish(i - n / 2, n);
    }
}

/// The middle of the spectrum is the centre frequency, the bins above it follow
/// in order, and those below it come before it in order.
pub proof fn centre_frequency_is_in_the_middle(n: int, i: int)
    requires
        0 <= i < n,
    ensures
        shifted_bin(n / 2, n) == 0,
        i >= n / 2 ==> shifted_bin(i, n) == i - n / 2,
        i < n / 2 ==> shifted_bin(i, n) == n - (n / 2 - i),
{
    lemma_shifted_bin(n / 2, n);
    lemma_shifted_bin(i, n);
}

/// No bin occurs twice in a spectrum.
pub proof fn shifted_bins_are_distinct(n: int, i: int, j: int)
    requires
        0 <= i < n,
        0 <= j < n,
        i != j,
    ensures
        0 <= shifted_bin(i, n) < n,
        shifted_bin(i, n) != shifted_bin(j, n),
{
    lemma_shifted_bin(i, n);
    lemma_shifted_bin(j, n);
}

} // verus!
