//! What holds of the signal processing where numbers behave as numbers do.
//!
//! The premises speak of the operations on numbers only. Floating point whose
//! logarithm rises with its argument meets them; `Arithmetic` does not ask for
//! them.

use vstd::prelude::*;

use crate::arithmetic::{is_hann, is_turn, Arithmetic};
use crate::colour::{
    gradient, is_below, is_brightness, is_colour, is_colour_at, is_darkness, is_in_segment,
    is_position, is_share, progress, segment_start, segments_lead_along_the_gradient,
};
use crate::config::DemodMode;
use crate::demodulate::{
    divisor, fm_of_consecutive_blocks, is_am_demodulated, is_blend, is_centred, is_fm_demodulated,
    is_mean_norm, is_norm_sum, is_phase_step, is_smoothed, last_of, predecessor,
};
use crate::filter::{
    decimated_len, filter_of_consecutive_blocks, history_after, iq_filter_of_consecutive_blocks,
    is_accumulation, is_filtered, is_iq_accumulation, is_iq_filtered, is_iq_mac, is_iq_sum,
    is_low_pass, is_low_pass_design, is_mac, is_sinc, is_sinc_tap, is_sum,
    lemma_decimated_in_range, FirLowPass, FirLowPassReal,
};
use crate::mock::{
    generation_of_consecutive_blocks, is_advanced, is_audio, is_next_audio_phase, is_next_phase,
    is_noise, is_noisy_byte, is_raw_sample, is_sampled, is_signal, noise_after, MockIqSource, Phase,
    Tone,
};
use crate::pipeline::{
    audio_of_consecutive_blocks, is_clamped, is_in_unit_range, joined, result_lengths, DspPipeline,
    DspResult, Stages,
};
use crate::spectrum::{
    is_component, is_converted, is_frame, is_level, is_sample, is_shifted, is_spectrum,
    is_weighted, level_steps, padded, shifted_bin,
};

verus! {

/// Each operation gives one result on equal arguments.
pub open spec fn repeatable<A: Arithmetic>() -> bool {
    &&& repeatable_constants::<A>()
    &&& repeatable_sums::<A>()
    &&& repeatable_functions::<A>()
    &&& repeatable_complex::<A>()
}

/// Each constant has one value.
pub open spec fn repeatable_constants<A: Arithmetic>() -> bool {
    &&& forall|r: A::Real, s: A::Real| #[trigger]
        call_ensures(A::zero, (), r) && #[trigger] call_ensures(A::zero, (), s) ==> r == s
    &&& forall|x: i64, r: A::Real, s: A::Real| #[trigger]
        call_ensures(A::integer, (x,), r) && #[trigger] call_ensures(A::integer, (x,), s) ==> r == s
    &&& forall|n: usize, r: A::Real, s: A::Real| #[trigger]
        call_ensures(A::count, (n,), r) && #[trigger] call_ensures(A::count, (n,), s) ==> r == s
    &&& forall|x: i64, y: i64, r: A::Real, s: A::Real| #[trigger]
        call_ensures(A::fraction, (x, y), r) && #[trigger] call_ensures(A::fraction, (x, y), s)
            ==> r == s
    &&& forall|r: A::Real, s: A::Real| #[trigger]
        call_ensures(A::pi, (), r) && #[trigger] call_ensures(A::pi, (), s) ==> r == s
    &&& forall|r: A::Iq, s: A::Iq| #[trigger]
        call_ensures(A::iq_zero, (), r) && #[trigger] call_ensures(A::iq_zero, (), s) ==> r == s
}

/// Sums, differences, products and quotients each have one value.
pub open spec fn repeatable_sums<A: Arithmetic>() -> bool {
    &&& forall|a: A::Real, b: A::Real, r: A::Real, s: A::Real| #[trigger]
        call_ensures(A::plus, (a, b), r) && #[trigger] call_ensures(A::plus, (a, b), s) ==> r == s
    &&& forall|a: A::Real, b: A::Real, r: A::Real, s: A::Real| #[trigger]
        call_ensures(A::minus, (a, b), r) && #[trigger] call_ensures(A::minus, (a, b), s) ==> r == s
    &&& forall|a: A::Real, b: A::Real, r: A::Real, s: A::Real| #[trigger]
        call_ensures(A::times, (a, b), r) && #[trigger] call_ensures(A::times, (a, b), s) ==> r == s
    &&& forall|a: A::Real, b: A::Real, r: A::Real, s: A::Real| #[trigger]
        call_ensures(A::ratio, (a, b), r) && #[trigger] call_ensures(A::ratio, (a, b), s) ==> r == s
}

/// Each function of real numbers has one value.
pub open spec fn repeatable_functions<A: Arithmetic>() -> bool {
    &&& forall|x: A::Real, r: A::Real, s: A::Real| #[trigger]
        call_ensures(A::sin, (x,), r) && #[trigger] call_ensures(A::sin, (x,), s) ==> r == s
    &&& forall|x: A::Real, r: A::Real, s: A::Real| #[trigger]
        call_ensures(A::cos, (x,), r) && #[trigger] call_ensures(A::cos, (x,), s) ==> r == s
    &&& forall|y: A::Real, x: A::Real, r: A::Real, s: A::Real| #[trigger]
        call_ensures(A::atan2, (y, x), r) && #[trigger] call_ensures(A::atan2, (y, x), s) ==> r == s
    &&& forall|x: A::Real, r: A::Real, s: A::Real| #[trigger]
        call_ensures(A::log10, (x,), r) && #[trigger] call_ensures(A::log10, (x,), s) ==> r == s
    &&& forall|a: A::Real, b: A::Real, r: A::Real, s: A::Real| #[trigger]
        call_ensures(A::larger, (a, b), r) && #[trigger] call_ensures(A::larger, (a, b), s) ==> r
            == s
    &&& forall|x: A::Real, a: A::Real, b: A::Real, r: A::Real, s: A::Real| #[trigger]
        call_ensures(A::clamp, (x, a, b), r) && #[trigger] call_ensures(A::clamp, (x, a, b), s)
            ==> r == s
    &&& forall|a: A::Real, b: A::Real, r: bool, s: bool| #[trigger]
        call_ensures(A::less, (a, b), r) && #[trigger] call_ensures(A::less, (a, b), s) ==> r == s
    &&& forall|x: A::Real, r: u8, s: u8| #[trigger]
        call_ensures(A::to_byte, (x,), r) && #[trigger] call_ensures(A::to_byte, (x,), s) ==> r == s
}

/// Each operation on complex numbers has one value.
pub open spec fn repeatable_complex<A: Arithmetic>() -> bool {
    &&& forall|a: A::Real, b: A::Real, r: A::Iq, s: A::Iq| #[trigger]
        call_ensures(A::iq, (a, b), r) && #[trigger] call_ensures(A::iq, (a, b), s) ==> r == s
    &&& forall|z: A::Iq, r: A::Real, s: A::Real| #[trigger]
        call_ensures(A::re, (z,), r) && #[trigger] call_ensures(A::re, (z,), s) ==> r == s
    &&& forall|z: A::Iq, r: A::Real, s: A::Real| #[trigger]
        call_ensures(A::im, (z,), r) && #[trigger] call_ensures(A::im, (z,), s) ==> r == s
    &&& forall|a: A::Iq, b: A::Iq, r: A::Iq, s: A::Iq| #[trigger]
        call_ensures(A::iq_plus, (a, b), r) && #[trigger] call_ensures(A::iq_plus, (a, b), s) ==> r
            == s
    &&& forall|a: A::Iq, b: A::Iq, r: A::Iq, s: A::Iq| #[trigger]
        call_ensures(A::iq_times, (a, b), r) && #[trigger] call_ensures(A::iq_times, (a, b), s)
            ==> r == s
    &&& forall|z: A::Iq, f: A::Real, r: A::Iq, s: A::Iq| #[trigger]
        call_ensures(A::iq_scaled, (z, f), r) && #[trigger] call_ensures(A::iq_scaled, (z, f), s)
            ==> r == s
    &&& forall|z: A::Iq, r: A::Iq, s: A::Iq| #[trigger]
        call_ensures(A::conj, (z,), r) && #[trigger] call_ensures(A::conj, (z,), s) ==> r == s
    &&& forall|z: A::Iq, r: A::Real, s: A::Real| #[trigger]
        call_ensures(A::norm, (z,), r) && #[trigger] call_ensures(A::norm, (z,), s) ==> r == s
    &&& forall|f: Vec<A::Iq>, g: Vec<A::Iq>, r: A::Bins, s: A::Bins| #[trigger]
        call_ensures(A::transform, (f,), r) && #[trigger] call_ensures(A::transform, (g,), s) && f@
            == g@ ==> r == s
    &&& forall|b: A::Bins, i: usize, r: A::Iq, s: A::Iq| #[trigger]
        call_ensures(A::bin, (&b, i), r) && #[trigger] call_ensures(A::bin, (&b, i), s) ==> r == s
}

// ── Filters ────────────────────────────────────────────────────────────────

proof fn lemma_iq_sum_repeats<A: Arithmetic>(
    window: Seq<A::Iq>,
    taps: Seq<A::Real>,
    one: A::Iq,
    other: A::Iq,
)
    requires
        repeatable::<A>(),
        is_iq_sum::<A>(window, taps, one),
        is_iq_sum::<A>(window, taps, other),
    ensures
        one == other,
{
    let n = taps.len() as int;
    let acc = choose|acc: Seq<A::Iq>| #[trigger]
        is_iq_accumulation::<A>(window, taps, acc, n) && one == acc.last();
    let bcc = choose|acc: Seq<A::Iq>| #[trigger]
        is_iq_accumulation::<A>(window, taps, acc, n) && other == acc.last();
    lemma_iq_accumulations_agree::<A>(window, taps, acc, bcc, n, n);
}

proof fn lemma_iq_accumulations_agree<A: Arithmetic>(
    window: Seq<A::Iq>,
    taps: Seq<A::Real>,
    acc: Seq<A::Iq>,
    bcc: Seq<A::Iq>,
    n: int,
    k: int,
)
    requires
        repeatable::<A>(),
        is_iq_accumulation::<A>(window, taps, acc, n),
        is_iq_accumulation::<A>(window, taps, bcc, n),
        0 <= k <= n,
    ensures
        acc[k] == bcc[k],
    decreases k,
{
    if k > 0 {
        lemma_iq_accumulations_agree::<A>(window, taps, acc, bcc, n, k - 1);
        let i = k - 1;
        assert(is_iq_mac::<A>(acc[i], window[i], taps[i], acc[i + 1]));
        assert(is_iq_mac::<A>(bcc[i], window[i], taps[i], bcc[i + 1]));
    }
}

proof fn lemma_sum_repeats<A: Arithmetic>(
    window: Seq<A::Real>,
    taps: Seq<A::Real>,
    one: A::Real,
    other: A::Real,
)
    requires
        repeatable::<A>(),
        is_sum::<A>(window, taps, one),
        is_sum::<A>(window, taps, other),
    ensures
        one == other,
{
    let n = taps.len() as int;
    let acc = choose|acc: Seq<A::Real>| #[trigger]
        is_accumulation::<A>(window, taps, acc, n) && one == acc.last();
    let bcc = choose|acc: Seq<A::Real>| #[trigger]
        is_accumulation::<A>(window, taps, acc, n) && other == acc.last();
    lemma_accumulations_agree::<A>(window, taps, acc, bcc, n, n);
}

proof fn lemma_accumulations_agree<A: Arithmetic>(
    window: Seq<A::Real>,
    taps: Seq<A::Real>,
    acc: Seq<A::Real>,
    bcc: Seq<A::Real>,
    n: int,
    k: int,
)
    requires
        repeatable::<A>(),
        is_accumulation::<A>(window, taps, acc, n),
        is_accumulation::<A>(window, taps, bcc, n),
        0 <= k <= n,
    ensures
        acc[k] == bcc[k],
    decreases k,
{
    if k > 0 {
        lemma_accumulations_agree::<A>(window, taps, acc, bcc, n, k - 1);
        let i = k - 1;
        assert(is_mac::<A>(acc[i], window[i], taps[i], acc[i + 1]));
        assert(is_mac::<A>(bcc[i], window[i], taps[i], bcc[i + 1]));
    }
}

/// Two filters in equal states give equal results on equal samples.
pub proof fn iq_filter_repeats<A: Arithmetic>(
    taps: Seq<A::Real>,
    history: Seq<A::Iq>,
    samples: Seq<A::Iq>,
    decim: int,
    one: Seq<A::Iq>,
    other: Seq<A::Iq>,
)
    requires
        repeatable::<A>(),
        is_iq_filtered::<A>(taps, history, samples, decim, one),
        is_iq_filtered::<A>(taps, history, samples, decim, other),
    ensures
        one == other,
{
    assert forall|j: int| 0 <= j < one.len() implies one[j] == other[j] by {
        lemma_iq_sum_repeats::<A>(
            history_after(history, samples, j * decim + 1),
            taps,
            one[j],
            other[j],
        );
    }
    assert(one =~= other);
}

/// Two filters in equal states give equal results on equal samples.
pub proof fn filter_repeats<A: Arithmetic>(
    taps: Seq<A::Real>,
    history: Seq<A::Real>,
    samples: Seq<A::Real>,
    decim: int,
    one: Seq<A::Real>,
    other: Seq<A::Real>,
)
    requires
        repeatable::<A>(),
        is_filtered::<A>(taps, history, samples, decim, one),
        is_filtered::<A>(taps, history, samples, decim, other),
    ensures
        one == other,
{
    assert forall|j: int| 0 <= j < one.len() implies one[j] == other[j] by {
        lemma_sum_repeats::<A>(
            history_after(history, samples, j * decim + 1),
            taps,
            one[j],
            other[j],
        );
    }
    assert(one =~= other);
}

/// Of two filters in equal states, one that takes two blocks at once gives what
/// the other gives on the blocks one after the other, and both end in equal
/// states, where the length of the first block is a multiple of the decimation
/// factor.
pub proof fn iq_filter_ignores_block_boundaries<A: Arithmetic>(
    taps: Seq<A::Real>,
    history: Seq<A::Iq>,
    first: Seq<A::Iq>,
    second: Seq<A::Iq>,
    decim: int,
    out_whole: Seq<A::Iq>,
    out_first: Seq<A::Iq>,
    out_second: Seq<A::Iq>,
)
    requires
        repeatable::<A>(),
        decim > 0,
        first.len() % (decim as nat) == 0,
        is_iq_filtered::<A>(taps, history, first + second, decim, out_whole),
        is_iq_filtered::<A>(taps, history, first, decim, out_first),
        is_iq_filtered::<A>(
            taps,
            history_after(history, first, first.len() as int),
            second,
            decim,
            out_second,
        ),
    ensures
        out_whole == out_first + out_second,
        history_after(history, first + second, (first + second).len() as int) == history_after(
            history_after(history, first, first.len() as int),
            second,
            second.len() as int,
        ),
{
    iq_filter_of_consecutive_blocks::<A>(
        taps,
        history,
        first,
        second,
        decim,
        out_first,
        out_second,
    );
    iq_filter_repeats::<A>(taps, history, first + second, decim, out_whole, out_first + out_second);
    crate::filter::history_of_consecutive_blocks(history, first, second);
}

/// Of two filters in equal states, one that takes two blocks at once gives what
/// the other gives on the blocks one after the other, and both end in equal
/// states, where the length of the first block is a multiple of the decimation
/// factor.
pub proof fn filter_ignores_block_boundaries<A: Arithmetic>(
    taps: Seq<A::Real>,
    history: Seq<A::Real>,
    first: Seq<A::Real>,
    second: Seq<A::Real>,
    decim: int,
    out_whole: Seq<A::Real>,
    out_first: Seq<A::Real>,
    out_second: Seq<A::Real>,
)
    requires
        repeatable::<A>(),
        decim > 0,
        first.len() % (decim as nat) == 0,
        is_filtered::<A>(taps, history, first + second, decim, out_whole),
        is_filtered::<A>(taps, history, first, decim, out_first),
        is_filtered::<A>(
            taps,
            history_after(history, first, first.len() as int),
            second,
            decim,
            out_second,
        ),
    ensures
        out_whole == out_first + out_second,
        history_after(history, first + second, (first + second).len() as int) == history_after(
            history_after(history, first, first.len() as int),
            second,
            second.len() as int,
        ),
{
    filter_of_consecutive_blocks::<A>(taps, history, first, second, decim, out_first, out_second);
    filter_repeats::<A>(taps, history, first + second, decim, out_whole, out_first + out_second);
    crate::filter::history_of_consecutive_blocks(history, first, second);
}

// ── Demodulators ───────────────────────────────────────────────────────────

/// Two demodulators in equal states give equal results on equal samples.
pub proof fn fm_repeats<A: Arithmetic>(
    prev: A::Iq,
    gain: A::Real,
    samples: Seq<A::Iq>,
    one: Seq<A::Real>,
    other: Seq<A::Real>,
)
    requires
        repeatable::<A>(),
        is_fm_demodulated::<A>(prev, gain, samples, one),
        is_fm_demodulated::<A>(prev, gain, samples, other),
    ensures
        one == other,
{
    assert forall|i: int| 0 <= i < one.len() implies one[i] == other[i] by {
        let before = predecessor(prev, samples, i);
        assert(is_phase_step::<A>(samples[i], before, gain, one[i]));
        assert(is_phase_step::<A>(samples[i], before, gain, other[i]));
    }
    assert(one =~= other);
}

/// Of two demodulators in equal states, one that takes two blocks at once gives
/// what the other gives on the blocks one after the other, and both end in equal
/// states.
pub proof fn fm_ignores_block_boundaries<A: Arithmetic>(
    prev: A::Iq,
    gain: A::Real,
    first: Seq<A::Iq>,
    second: Seq<A::Iq>,
    out_whole: Seq<A::Real>,
    out_first: Seq<A::Real>,
    out_second: Seq<A::Real>,
)
    requires
        repeatable::<A>(),
        is_fm_demodulated::<A>(prev, gain, first + second, out_whole),
        is_fm_demodulated::<A>(prev, gain, first, out_first),
        is_fm_demodulated::<A>(last_of(prev, first), gain, second, out_second),
    ensures
        out_whole == out_first + out_second,
        last_of(prev, first + second) == last_of(last_of(prev, first), second),
{
    fm_of_consecutive_blocks::<A>(prev, gain, first, second, out_first, out_second);
    fm_repeats::<A>(prev, gain, first + second, out_whole, out_first + out_second);
}

/// Two de-emphasis filters in equal states give equal results on equal samples.
pub proof fn de_emphasis_repeats<A: Arithmetic>(
    alpha: A::Real,
    prev: A::Real,
    samples: Seq<A::Real>,
    one: Seq<A::Real>,
    other: Seq<A::Real>,
)
    requires
        repeatable::<A>(),
        is_smoothed::<A>(alpha, prev, samples, one),
        is_smoothed::<A>(alpha, prev, samples, other),
    ensures
        one == other,
{
    assert forall|i: int| 0 <= i < one.len() implies one[i] == other[i] by {
        lemma_smoothed_agree::<A>(alpha, prev, samples, one, other, i);
    }
    assert(one =~= other);
}

proof fn lemma_smoothed_agree<A: Arithmetic>(
    alpha: A::Real,
    prev: A::Real,
    samples: Seq<A::Real>,
    one: Seq<A::Real>,
    other: Seq<A::Real>,
    i: int,
)
    requires
        repeatable::<A>(),
        is_smoothed::<A>(alpha, prev, samples, one),
        is_smoothed::<A>(alpha, prev, samples, other),
        0 <= i < one.len(),
    ensures
        one[i] == other[i],
    decreases i,
{
    if i > 0 {
        lemma_smoothed_agree::<A>(alpha, prev, samples, one, other, i - 1);
    }
    assert(predecessor(prev, one, i) == predecessor(prev, other, i));
    assert(is_blend::<A>(alpha, samples[i], predecessor(prev, one, i), one[i]));
    assert(is_blend::<A>(alpha, samples[i], predecessor(prev, other, i), other[i]));
}

/// Two demodulators of AM give equal results on equal samples.
pub proof fn am_repeats<A: Arithmetic>(samples: Seq<A::Iq>, one: Seq<A::Real>, other: Seq<A::Real>)
    requires
        repeatable::<A>(),
        is_am_demodulated::<A>(samples, one),
        is_am_demodulated::<A>(samples, other),
    ensures
        one == other,
{
    let m1 = choose|mean: A::Real| #[trigger]
        is_mean_norm::<A>(samples, mean) && forall|i: int| #![trigger one[i]]
            0 <= i < one.len() ==> is_centred::<A>(samples[i], mean, one[i]);
    let m2 = choose|mean: A::Real| #[trigger]
        is_mean_norm::<A>(samples, mean) && forall|i: int| #![trigger other[i]]
            0 <= i < other.len() ==> is_centred::<A>(samples[i], mean, other[i]);
    lemma_mean_norm_repeats::<A>(samples, m1, m2);
    assert forall|i: int| 0 <= i < one.len() implies one[i] == other[i] by {
        assert(is_centred::<A>(samples[i], m1, one[i]));
        assert(is_centred::<A>(samples[i], m1, other[i]));
    }
    assert(one =~= other);
}

proof fn lemma_mean_norm_repeats<A: Arithmetic>(samples: Seq<A::Iq>, one: A::Real, other: A::Real)
    requires
        repeatable::<A>(),
        is_mean_norm::<A>(samples, one),
        is_mean_norm::<A>(samples, other),
    ensures
        one == other,
{
    let n = samples.len() as int;
    let (norms1, sums1, count1) = choose|
        norms: Seq<A::Real>,
        sums: Seq<A::Real>,
        count: A::Real,
    |
        {
            &&& #[trigger] is_norm_sum::<A>(samples, norms, sums, n)
            &&& #[trigger] call_ensures(A::count, (divisor(samples.len()),), count)
            &&& call_ensures(A::ratio, (sums[n], count), one)
        };
    let (norms2, sums2, count2) = choose|
        norms: Seq<A::Real>,
        sums: Seq<A::Real>,
        count: A::Real,
    |
        {
            &&& #[trigger] is_norm_sum::<A>(samples, norms, sums, n)
            &&& #[trigger] call_ensures(A::count, (divisor(samples.len()),), count)
            &&& call_ensures(A::ratio, (sums[n], count), other)
        };
    lemma_norm_sums_agree::<A>(samples, norms1, sums1, norms2, sums2, n, n);
}

proof fn lemma_norm_sums_agree<A: Arithmetic>(
    samples: Seq<A::Iq>,
    norms1: Seq<A::Real>,
    sums1: Seq<A::Real>,
    norms2: Seq<A::Real>,
    sums2: Seq<A::Real>,
    n: int,
    k: int,
)
    requires
        repeatable::<A>(),
        is_norm_sum::<A>(samples, norms1, sums1, n),
        is_norm_sum::<A>(samples, norms2, sums2, n),
        0 <= k <= n,
    ensures
        sums1[k] == sums2[k],
    decreases k,
{
    if k > 0 {
        let i = k - 1;
        lemma_norm_sums_agree::<A>(samples, norms1, sums1, norms2, sums2, n, i);
        assert(call_ensures(A::norm, (samples[i],), norms1[i]));
        assert(call_ensures(A::norm, (samples[i],), norms2[i]));
        assert(call_ensures(A::plus, (sums1[i], norms1[i]), sums1[i + 1]));
        assert(call_ensures(A::plus, (sums2[i], norms2[i]), sums2[i + 1]));
    }
}

// ── Conversion and spectrum ────────────────────────────────────────────────

/// Raw samples are converted in one way.
pub proof fn conversion_repeats<A: Arithmetic>(raw: Seq<u8>, one: Seq<A::Iq>, other: Seq<A::Iq>)
    requires
        repeatable::<A>(),
        is_converted::<A>(raw, one),
        is_converted::<A>(raw, other),
    ensures
        one == other,
{
    assert forall|i: int| 0 <= i < one.len() implies one[i] == other[i] by {
        lemma_sample_repeats::<A>(raw[2 * i], raw[2 * i + 1], one[i], other[i]);
    }
    assert(one =~= other);
}

proof fn lemma_sample_repeats<A: Arithmetic>(i: u8, q: u8, one: A::Iq, other: A::Iq)
    requires
        repeatable::<A>(),
        is_sample::<A>(i, q, one),
        is_sample::<A>(i, q, other),
    ensures
        one == other,
{
    let (re1, im1) = choose|re: A::Real, im: A::Real|
        {
            &&& #[trigger] is_component::<A>(i, re)
            &&& #[trigger] is_component::<A>(q, im)
            &&& call_ensures(A::iq, (re, im), one)
        };
    let (re2, im2) = choose|re: A::Real, im: A::Real|
        {
            &&& #[trigger] is_component::<A>(i, re)
            &&& #[trigger] is_component::<A>(q, im)
            &&& call_ensures(A::iq, (re, im), other)
        };
    lemma_component_repeats::<A>(i, re1, re2);
    lemma_component_repeats::<A>(q, im1, im2);
}

proof fn lemma_component_repeats<A: Arithmetic>(byte: u8, one: A::Real, other: A::Real)
    requires
        repeatable::<A>(),
        is_component::<A>(byte, one),
        is_component::<A>(byte, other),
    ensures
        one == other,
{
}

proof fn lemma_turn_repeats<A: Arithmetic>(one: A::Real, other: A::Real)
    requires
        repeatable::<A>(),
        is_turn::<A>(one),
        is_turn::<A>(other),
    ensures
        one == other,
{
}

proof fn lemma_hann_repeats<A: Arithmetic>(
    place: A::Real,
    span: A::Real,
    one: A::Real,
    other: A::Real,
)
    requires
        repeatable::<A>(),
        is_hann::<A>(place, span, one),
        is_hann::<A>(place, span, other),
    ensures
        one == other,
{
    assert forall|t: A::Real, u: A::Real| #[trigger]
        is_turn::<A>(t) && #[trigger] is_turn::<A>(u) implies t == u by {
        lemma_turn_repeats::<A>(t, u);
    }
}

proof fn lemma_weighted_repeats<A: Arithmetic>(
    sample: A::Iq,
    i: usize,
    n: usize,
    one: A::Iq,
    other: A::Iq,
)
    requires
        repeatable::<A>(),
        is_weighted::<A>(sample, i, n, one),
        is_weighted::<A>(sample, i, n, other),
    ensures
        one == other,
{
    let (p1, s1, w1) = choose|place: A::Real, span: A::Real, weight: A::Real|
        {
            &&& #[trigger] call_ensures(A::count, (i,), place)
            &&& #[trigger] call_ensures(A::count, (n,), span)
            &&& #[trigger] is_hann::<A>(place, span, weight)
            &&& call_ensures(A::iq_scaled, (sample, weight), one)
        };
    let (p2, s2, w2) = choose|place: A::Real, span: A::Real, weight: A::Real|
        {
            &&& #[trigger] call_ensures(A::count, (i,), place)
            &&& #[trigger] call_ensures(A::count, (n,), span)
            &&& #[trigger] is_hann::<A>(place, span, weight)
            &&& call_ensures(A::iq_scaled, (sample, weight), other)
        };
    lemma_hann_repeats::<A>(p1, s1, w1, w2);
}

proof fn lemma_level_repeats<A: Arithmetic>(
    bins: A::Bins,
    index: usize,
    n: usize,
    one: A::Real,
    other: A::Real,
)
    requires
        repeatable::<A>(),
        is_level::<A>(bins, index, n, one),
        is_level::<A>(bins, index, n, other),
    ensures
        one == other,
{
}

/// Spectra are equal where the frames that they are made of are: the first `n`
/// samples, filled up with the complex zero.
pub proof fn spectrum_depends_on_its_frame<A: Arithmetic>(
    samples: Seq<A::Iq>,
    others: Seq<A::Iq>,
    n: usize,
    one: Seq<A::Real>,
    other: Seq<A::Real>,
)
    requires
        repeatable::<A>(),
        is_spectrum::<A>(samples, n, one),
        is_spectrum::<A>(others, n, other),
        forall|silence: A::Iq, i: int|
            #![trigger padded(samples, silence, i)]
            call_ensures(A::iq_zero, (), silence) && 0 <= i < n ==> padded(samples, silence, i)
                == padded(others, silence, i),
    ensures
        one == other,
{
    let (silence1, frame1, bins1) = choose|silence: A::Iq, frame: Vec<A::Iq>, bins: A::Bins|
        {
            &&& #[trigger] is_frame::<A>(samples, n, silence, frame@)
            &&& #[trigger] call_ensures(A::transform, (frame,), bins)
            &&& is_shifted::<A>(bins, n, one)
        };
    let (silence2, frame2, bins2) = choose|silence: A::Iq, frame: Vec<A::Iq>, bins: A::Bins|
        {
            &&& #[trigger] is_frame::<A>(others, n, silence, frame@)
            &&& #[trigger] call_ensures(A::transform, (frame,), bins)
            &&& is_shifted::<A>(bins, n, other)
        };
    assert(silence1 == silence2);
    assert forall|i: int| 0 <= i < n implies frame1@[i] == frame2@[i] by {
        let sample = padded(samples, silence1, i);
        assert(sample == padded(others, silence1, i));
        lemma_weighted_repeats::<A>(sample, i as usize, n, frame1@[i], frame2@[i]);
    }
    assert(frame1@ =~= frame2@);
    assert(bins1 == bins2);
    assert forall|i: int| 0 <= i < n implies one[i] == other[i] by {
        lemma_level_repeats::<A>(
            bins1,
            shifted_bin(i, n as int) as usize,
            n,
            one[i],
            other[i],
        );
    }
    assert(one =~= other);
}

/// A spectrum does not depend on samples beyond the first `n`.
pub proof fn spectrum_of_longer_input<A: Arithmetic>(
    samples: Seq<A::Iq>,
    more: Seq<A::Iq>,
    n: usize,
    one: Seq<A::Real>,
    other: Seq<A::Real>,
)
    requires
        repeatable::<A>(),
        samples.len() >= n,
        is_spectrum::<A>(samples, n, one),
        is_spectrum::<A>(samples + more, n, other),
    ensures
        one == other,
{
    spectrum_depends_on_its_frame::<A>(samples, samples + more, n, one, other);
}

/// A short input has the spectrum of that input filled up with zeros.
pub proof fn spectrum_of_padded_input<A: Arithmetic>(
    samples: Seq<A::Iq>,
    silence: A::Iq,
    zeros: nat,
    n: usize,
    one: Seq<A::Real>,
    other: Seq<A::Real>,
)
    requires
        repeatable::<A>(),
        call_ensures(A::iq_zero, (), silence),
        is_spectrum::<A>(samples, n, one),
        is_spectrum::<A>(samples + Seq::new(zeros, |i: int| silence), n, other),
    ensures
        one == other,
        one.len() == n,
{
    let others = samples + Seq::new(zeros, |i: int| silence);
    assert forall|zero: A::Iq, i: int|
        #![trigger padded(samples, zero, i)]
        call_ensures(A::iq_zero, (), zero) && 0 <= i < n implies padded(samples, zero, i)
        == padded(others, zero, i) by {
        assert(zero == silence);
    }
    spectrum_depends_on_its_frame::<A>(samples, others, n, one, other);
}

// ── The chain ──────────────────────────────────────────────────────────────

/// A chain makes one thing of a block of raw samples.
proof fn lemma_stages_repeat<A: Arithmetic>(
    start: DspPipeline<A>,
    raw: Seq<u8>,
    one: Stages<A>,
    other: Stages<A>,
)
    requires
        repeatable::<A>(),
        start.are_stages(raw, one),
        start.are_stages(raw, other),
    ensures
        one == other,
{
    conversion_repeats::<A>(raw, one.iq, other.iq);
    iq_filter_repeats::<A>(
        start.iq_filter.taps(),
        start.iq_filter.history(),
        one.iq,
        start.iq_decim as int,
        one.narrowed,
        other.narrowed,
    );
    if start.config.mode == DemodMode::AM {
        am_repeats::<A>(one.narrowed, one.demodulated, other.demodulated);
    } else {
        fm_repeats::<A>(
            start.fm_demod.prev,
            start.fm_demod.gain,
            one.narrowed,
            one.demodulated,
            other.demodulated,
        );
    }
    if start.audio_decim > 1 {
        filter_repeats::<A>(
            start.audio_filter.taps(),
            start.audio_filter.history(),
            one.demodulated,
            start.audio_decim as int,
            one.decimated,
            other.decimated,
        );
    }
    if start.config.mode == DemodMode::WFM {
        de_emphasis_repeats::<A>(
            start.de_emphasis.alpha,
            start.de_emphasis.prev,
            one.decimated,
            one.shaped,
            other.shaped,
        );
    }
}

proof fn lemma_clamped_repeats<A: Arithmetic>(
    samples: Seq<A::Real>,
    one: Seq<A::Real>,
    other: Seq<A::Real>,
)
    requires
        repeatable::<A>(),
        is_clamped::<A>(samples, one),
        is_clamped::<A>(samples, other),
    ensures
        one == other,
{
    assert forall|i: int| 0 <= i < one.len() implies one[i] == other[i] by {
        assert(is_in_unit_range::<A>(samples[i], one[i]));
        assert(is_in_unit_range::<A>(samples[i], other[i]));
    }
    assert(one =~= other);
}

/// Whether two chains have the same configuration, and their filters and
/// demodulators are in equal states.
pub open spec fn in_equal_states<A: Arithmetic>(
    one: DspPipeline<A>,
    other: DspPipeline<A>,
) -> bool {
    &&& one.config == other.config
    &&& one.iq_decim == other.iq_decim
    &&& one.audio_decim == other.audio_decim
    &&& one.iq_filter.taps() == other.iq_filter.taps()
    &&& one.iq_filter.history() == other.iq_filter.history()
    &&& one.audio_filter.taps() == other.audio_filter.taps()
    &&& one.audio_filter.history() == other.audio_filter.history()
    &&& one.fm_demod == other.fm_demod
    &&& one.de_emphasis == other.de_emphasis
}

/// The stages of a block that a chain has processed.
spec fn stages_of<A: Arithmetic>(
    start: DspPipeline<A>,
    raw: Seq<u8>,
    next: DspPipeline<A>,
    result: DspResult<A>,
) -> Stages<A> {
    choose|stages: Stages<A>|
        {
            &&& #[trigger] start.are_stages(raw, stages)
            &&& start.is_advanced(stages, next)
            &&& start.is_shown(stages.iq, result.spectrum@)
            &&& start.waterfall.is_pushed(result.spectrum@, next.waterfall)
            &&& is_clamped::<A>(stages.shaped, result.audio@)
        }
}

/// Two chains in equal states give equal audio on equal raw samples, and stay in
/// equal states.
pub proof fn chain_repeats<A: Arithmetic>(
    start: DspPipeline<A>,
    twin: DspPipeline<A>,
    raw: Seq<u8>,
    next: DspPipeline<A>,
    result: DspResult<A>,
    twin_next: DspPipeline<A>,
    twin_result: DspResult<A>,
)
    requires
        repeatable::<A>(),
        in_equal_states(start, twin),
        start.is_processed(raw, next, result),
        twin.is_processed(raw, twin_next, twin_result),
    ensures
        result.audio@ == twin_result.audio@,
        in_equal_states(next, twin_next),
{
    let one = stages_of(start, raw, next, result);
    let other = stages_of(twin, raw, twin_next, twin_result);
    assert(start.are_stages(raw, other));
    lemma_stages_repeat(start, raw, one, other);
    lemma_clamped_repeats::<A>(one.shaped, result.audio@, twin_result.audio@);
}

/// In the FM modes a chain that processes two blocks as one gives the audio that
/// it gives on the blocks one after the other, and ends in an equal state, where
/// the first block ends with a whole pair and its samples fill whole decimation
/// periods.
pub proof fn chain_ignores_block_boundaries<A: Arithmetic>(
    start: DspPipeline<A>,
    raw_first: Seq<u8>,
    middle: DspPipeline<A>,
    first: DspResult<A>,
    raw_second: Seq<u8>,
    end: DspPipeline<A>,
    second: DspResult<A>,
    after: DspPipeline<A>,
    whole: DspResult<A>,
)
    requires
        repeatable::<A>(),
        start.valid(),
        start.config.mode != DemodMode::AM,
        raw_first.len() % 2 == 0,
        (raw_first.len() / 2) % (start.iq_decim as nat) == 0,
        decimated_len((raw_first.len() / 2) as int, start.iq_decim as int) % (
        start.audio_decim as int) == 0,
        start.is_processed(raw_first, middle, first),
        middle.is_processed(raw_second, end, second),
        start.is_processed(raw_first + raw_second, after, whole),
    ensures
        whole.audio@ == first.audio@ + second.audio@,
        in_equal_states(after, end),
{
    let s1 = stages_of(start, raw_first, middle, first);
    let s2 = stages_of(middle, raw_second, end, second);
    let s = stages_of(start, raw_first + raw_second, after, whole);
    audio_of_consecutive_blocks(start, raw_first, s1, middle, raw_second, s2, end);
    lemma_stages_repeat(start, raw_first + raw_second, s, joined(s1, s2));
    let audio = first.audio@ + second.audio@;
    assert forall|i: int| #![trigger audio[i]] 0 <= i < audio.len() implies is_in_unit_range::<A>(
        s.shaped[i],
        audio[i],
    ) by {
        if i < first.audio@.len() {
            assert(audio[i] == first.audio@[i]);
        } else {
            assert(audio[i] == second.audio@[i - first.audio@.len()]);
        }
    }
    lemma_clamped_repeats::<A>(s.shaped, whole.audio@, audio);
}

// ── The mock source ────────────────────────────────────────────────────────

proof fn lemma_noise_repeats<A: Arithmetic>(number: u32, one: A::Real, other: A::Real)
    requires
        repeatable::<A>(),
        is_noise::<A>(number, one),
        is_noise::<A>(number, other),
    ensures
        one == other,
{
}

proof fn lemma_noisy_byte_repeats<A: Arithmetic>(
    signal: A::Real,
    noise: A::Real,
    one: u8,
    other: u8,
)
    requires
        repeatable::<A>(),
        is_noisy_byte::<A>(signal, noise, one),
        is_noisy_byte::<A>(signal, noise, other),
    ensures
        one == other,
{
}

proof fn lemma_raw_sample_repeats<A: Arithmetic>(
    phase: A::Real,
    number_i: u32,
    number_q: u32,
    i1: u8,
    q1: u8,
    i2: u8,
    q2: u8,
)
    requires
        repeatable::<A>(),
        is_raw_sample::<A>(phase, number_i, number_q, i1, q1),
        is_raw_sample::<A>(phase, number_i, number_q, i2, q2),
    ensures
        i1 == i2,
        q1 == q2,
{
    let (c1, s1, m1, n1) = choose|c: A::Real, s: A::Real, m: A::Real, n: A::Real|
        {
            &&& #[trigger] call_ensures(A::cos, (phase,), c)
            &&& #[trigger] call_ensures(A::sin, (phase,), s)
            &&& #[trigger] is_noise::<A>(number_i, m)
            &&& #[trigger] is_noise::<A>(number_q, n)
            &&& is_noisy_byte::<A>(c, m, i1)
            &&& is_noisy_byte::<A>(s, n, q1)
        };
    let (c2, s2, m2, n2) = choose|c: A::Real, s: A::Real, m: A::Real, n: A::Real|
        {
            &&& #[trigger] call_ensures(A::cos, (phase,), c)
            &&& #[trigger] call_ensures(A::sin, (phase,), s)
            &&& #[trigger] is_noise::<A>(number_i, m)
            &&& #[trigger] is_noise::<A>(number_q, n)
            &&& is_noisy_byte::<A>(c, m, i2)
            &&& is_noisy_byte::<A>(s, n, q2)
        };
    lemma_noise_repeats::<A>(number_i, m1, m2);
    lemma_noise_repeats::<A>(number_q, n1, n2);
    lemma_noisy_byte_repeats::<A>(c1, m1, i1, i2);
    lemma_noisy_byte_repeats::<A>(s1, n1, q1, q2);
}

proof fn lemma_audio_repeats<A: Arithmetic>(
    mod_freq: A::Real,
    audio_phase: A::Real,
    one: A::Real,
    other: A::Real,
)
    requires
        repeatable::<A>(),
        is_audio::<A>(mod_freq, audio_phase, one),
        is_audio::<A>(mod_freq, audio_phase, other),
    ensures
        one == other,
{
    assert forall|t: A::Real, u: A::Real| #[trigger]
        is_turn::<A>(t) && #[trigger] is_turn::<A>(u) implies t == u by {
        lemma_turn_repeats::<A>(t, u);
    }
}

proof fn lemma_next_audio_phase_repeats<A: Arithmetic>(
    audio_phase: A::Real,
    dt: A::Real,
    one: A::Real,
    other: A::Real,
)
    requires
        repeatable::<A>(),
        is_next_audio_phase::<A>(audio_phase, dt, one),
        is_next_audio_phase::<A>(audio_phase, dt, other),
    ensures
        one == other,
{
}

proof fn lemma_next_phase_repeats<A: Arithmetic>(
    tone: Tone<A>,
    phase: A::Real,
    audio: A::Real,
    dt: A::Real,
    one: A::Real,
    other: A::Real,
)
    requires
        repeatable::<A>(),
        is_next_phase::<A>(tone, phase, audio, dt, one),
        is_next_phase::<A>(tone, phase, audio, dt, other),
    ensures
        one == other,
{
    assert forall|t: A::Real, u: A::Real| #[trigger]
        is_turn::<A>(t) && #[trigger] is_turn::<A>(u) implies t == u by {
        lemma_turn_repeats::<A>(t, u);
    }
}

proof fn lemma_advance_repeats<A: Arithmetic>(
    tone: Tone<A>,
    before: Phase<A>,
    one: Phase<A>,
    other: Phase<A>,
)
    requires
        repeatable::<A>(),
        is_advanced::<A>(tone, before, one),
        is_advanced::<A>(tone, before, other),
    ensures
        one == other,
{
    let (one1, dt1, audio1) = choose|o: A::Real, dt: A::Real, audio: A::Real|
        {
            &&& #[trigger] call_ensures(A::integer, (1i64,), o)
            &&& #[trigger] call_ensures(A::ratio, (o, tone.sample_rate), dt)
            &&& #[trigger] is_audio::<A>(tone.mod_freq, before.audio_phase, audio)
            &&& is_next_audio_phase::<A>(before.audio_phase, dt, one.audio_phase)
            &&& is_next_phase::<A>(tone, before.phase, audio, dt, one.phase)
        };
    let (one2, dt2, audio2) = choose|o: A::Real, dt: A::Real, audio: A::Real|
        {
            &&& #[trigger] call_ensures(A::integer, (1i64,), o)
            &&& #[trigger] call_ensures(A::ratio, (o, tone.sample_rate), dt)
            &&& #[trigger] is_audio::<A>(tone.mod_freq, before.audio_phase, audio)
            &&& is_next_audio_phase::<A>(before.audio_phase, dt, other.audio_phase)
            &&& is_next_phase::<A>(tone, before.phase, audio, dt, other.phase)
        };
    lemma_audio_repeats::<A>(tone.mod_freq, before.audio_phase, audio1, audio2);
    lemma_next_audio_phase_repeats::<A>(
        before.audio_phase,
        dt1,
        one.audio_phase,
        other.audio_phase,
    );
    lemma_next_phase_repeats::<A>(tone, before.phase, audio1, dt1, one.phase, other.phase);
}

proof fn lemma_signals_agree<A: Arithmetic>(
    tone: Tone<A>,
    start: Phase<A>,
    one: Seq<Phase<A>>,
    other: Seq<Phase<A>>,
    n: int,
    k: int,
)
    requires
        repeatable::<A>(),
        is_signal::<A>(tone, start, one, n),
        is_signal::<A>(tone, start, other, n),
        0 <= k <= n,
    ensures
        one[k] == other[k],
    decreases k,
{
    if k > 0 {
        let i = k - 1;
        lemma_signals_agree::<A>(tone, start, one, other, n, i);
        assert(is_advanced::<A>(tone, one[i], one[i + 1]));
        assert(is_advanced::<A>(tone, other[i], other[i + 1]));
        lemma_advance_repeats::<A>(tone, one[i], one[k], other[k]);
    }
}

/// A mock source generates one sequence of samples and turns into one state.
pub proof fn generation_repeats<A: Arithmetic>(
    start: MockIqSource<A>,
    n: int,
    next: MockIqSource<A>,
    out: Seq<u8>,
    twin_next: MockIqSource<A>,
    twin_out: Seq<u8>,
)
    requires
        repeatable::<A>(),
        n >= 0,
        start.is_generated(n, next, out),
        start.is_generated(n, twin_next, twin_out),
    ensures
        out == twin_out,
        next == twin_next,
{
    let tone = start.tone();
    let s1 = choose|signal: Seq<Phase<A>>| #[trigger]
        is_signal::<A>(tone, start.place(), signal, n) && is_sampled::<A>(
            signal,
            start.noise_seed,
            n,
            out,
        ) && next.place() == signal[n];
    let s2 = choose|signal: Seq<Phase<A>>| #[trigger]
        is_signal::<A>(tone, start.place(), signal, n) && is_sampled::<A>(
            signal,
            start.noise_seed,
            n,
            twin_out,
        ) && twin_next.place() == signal[n];
    lemma_signals_agree::<A>(tone, start.place(), s1, s2, n, n);
    assert forall|i: int| 0 <= i < n implies out[2 * i] == #[trigger] twin_out[2 * i] && out[2 * i
        + 1] == twin_out[2 * i + 1] by {
        lemma_signals_agree::<A>(tone, start.place(), s1, s2, n, i + 1);
        let phase = s1[i + 1].phase;
        assert(s2[i + 1].phase == phase);
        lemma_raw_sample_repeats::<A>(
            phase,
            noise_after(start.noise_seed, (2 * i + 1) as nat),
            noise_after(start.noise_seed, (2 * i + 2) as nat),
            out[2 * i],
            out[2 * i + 1],
            twin_out[2 * i],
            twin_out[2 * i + 1],
        );
    }
    assert forall|k: int| 0 <= k < out.len() implies out[k] == twin_out[k] by {
        let i = k / 2;
        assert(out[2 * i] == twin_out[2 * i]);
        assert(k == 2 * i || k == 2 * i + 1);
    }
    assert(out =~= twin_out);
    assert(next.tone() == twin_next.tone() && next.place() == twin_next.place());
}

/// A mock source that generates in one go gives what it gives in two goes, and
/// turns into the same state.
pub proof fn generation_ignores_block_boundaries<A: Arithmetic>(
    start: MockIqSource<A>,
    n: int,
    middle: MockIqSource<A>,
    out_first: Seq<u8>,
    m: int,
    end: MockIqSource<A>,
    out_second: Seq<u8>,
    after: MockIqSource<A>,
    out_whole: Seq<u8>,
)
    requires
        repeatable::<A>(),
        n >= 0,
        m >= 0,
        start.is_generated(n, middle, out_first),
        middle.is_generated(m, end, out_second),
        start.is_generated(n + m, after, out_whole),
    ensures
        out_whole == out_first + out_second,
        after == end,
{
    generation_of_consecutive_blocks(start, n, middle, out_first, m, end, out_second);
    generation_repeats(start, n + m, after, out_whole, end, out_first + out_second);
}

// ── Order ──────────────────────────────────────────────────────────────────

/// Whether `x` is never found to be less than `y`. That is so of numbers in order,
/// and also of a value that compares with nothing, as one that is no number does.
pub open spec fn at_least<A: Arithmetic>(x: A::Real, y: A::Real) -> bool {
    forall|b: bool| #[trigger] call_ensures(A::less, (x, y), b) ==> !b
}

/// The operations respect the order of numbers: bounds hold, whole numbers are in
/// order, and logarithms and multiples rise.
pub open spec fn ordered<A: Arithmetic>() -> bool {
    &&& forall|x: A::Real, low: A::Real, high: A::Real, r: A::Real| #[trigger]
        call_ensures(A::clamp, (x, low, high), r) && at_least::<A>(high, low) ==> at_least::<A>(
            r,
            low,
        ) && at_least::<A>(high, r)
    &&& forall|i: i64, j: i64, a: A::Real, b: A::Real|
        i <= j && #[trigger] call_ensures(A::integer, (i,), a) && #[trigger] call_ensures(
            A::integer,
            (j,),
            b,
        ) ==> at_least::<A>(b, a)
    &&& forall|a: A::Real, b: A::Real, r: A::Real| #[trigger]
        call_ensures(A::larger, (a, b), r) ==> at_least::<A>(r, b)
    &&& forall|a: A::Real, b: A::Real, r: A::Real, s: A::Real|
        {
            &&& at_least::<A>(a, b)
            &&& #[trigger] call_ensures(A::log10, (a,), r)
            &&& #[trigger] call_ensures(A::log10, (b,), s)
        } ==> at_least::<A>(r, s)
    &&& forall|i: i64, k: A::Real, a: A::Real, b: A::Real, r: A::Real, s: A::Real|
        i >= 0 && #[trigger] call_ensures(A::integer, (i,), k) && at_least::<A>(a, b) && #[trigger]
            call_ensures(A::times, (k, a), r) && #[trigger] call_ensures(A::times, (k, b), s)
            ==> at_least::<A>(r, s)
}

/// Whether `x` is found neither below -1 nor above 1: it lies in that range, or it
/// compares with nothing.
pub open spec fn in_unit_range<A: Arithmetic>(x: A::Real) -> bool {
    exists|low: A::Real, high: A::Real|
        {
            &&& #[trigger] call_ensures(A::integer, (-1i64,), low)
            &&& #[trigger] call_ensures(A::integer, (1i64,), high)
            &&& at_least::<A>(x, low)
            &&& at_least::<A>(high, x)
        }
}

/// No audio sample is found below -1 or above 1, the spectrum has the configured
/// length, and the configuration stays as it is.
pub proof fn audio_lies_in_unit_range<A: Arithmetic>(
    before: DspPipeline<A>,
    raw: Seq<u8>,
    after: DspPipeline<A>,
    result: DspResult<A>,
)
    requires
        ordered::<A>(),
        before.valid(),
        before.is_processed(raw, after, result),
    ensures
        forall|i: int|
            0 <= i < result.audio@.len() ==> in_unit_range::<A>(#[trigger] result.audio@[i]),
        result.spectrum@.len() == before.config.fft_size,
        after.config == before.config,
{
    result_lengths(before, raw, after, result);
    let stages = stages_of(before, raw, after, result);
    assert forall|i: int| 0 <= i < result.audio@.len() implies in_unit_range::<A>(
        #[trigger] result.audio@[i],
    ) by {
        let x = result.audio@[i];
        assert(is_in_unit_range::<A>(stages.shaped[i], x));
        let (low, high) = choose|low: A::Real, high: A::Real|
            {
                &&& #[trigger] call_ensures(A::integer, (-1i64,), low)
                &&& #[trigger] call_ensures(A::integer, (1i64,), high)
                &&& call_ensures(A::clamp, (stages.shaped[i], low, high), x)
            };
        assert(at_least::<A>(high, low));
    }
}

/// No level of a spectrum lies below the level of the smallest magnitude that
/// counts, which is twenty times the logarithm of a ten-thousand-millionth.
pub proof fn spectrum_has_a_floor<A: Arithmetic>(
    samples: Seq<A::Iq>,
    n: usize,
    out: Seq<A::Real>,
    smallest: A::Real,
    logarithm: A::Real,
    twenty: A::Real,
    lowest: A::Real,
)
    requires
        repeatable::<A>(),
        ordered::<A>(),
        is_spectrum::<A>(samples, n, out),
        call_ensures(A::fraction, (1i64, 10_000_000_000i64), smallest),
        call_ensures(A::log10, (smallest,), logarithm),
        call_ensures(A::integer, (20i64,), twenty),
        call_ensures(A::times, (twenty, logarithm), lowest),
    ensures
        out.len() == n,
        forall|i: int| 0 <= i < out.len() ==> at_least::<A>(#[trigger] out[i], lowest),
{
    let (silence, frame, bins) = choose|silence: A::Iq, frame: Vec<A::Iq>, bins: A::Bins|
        {
            &&& #[trigger] is_frame::<A>(samples, n, silence, frame@)
            &&& #[trigger] call_ensures(A::transform, (frame,), bins)
            &&& is_shifted::<A>(bins, n, out)
        };
    assert forall|i: int| 0 <= i < out.len() implies at_least::<A>(#[trigger] out[i], lowest) by {
        let index = shifted_bin(i, n as int) as usize;
        assert(is_level::<A>(bins, index, n, out[i]));
        lemma_level_has_a_floor::<A>(
            bins,
            index,
            n,
            out[i],
            smallest,
            logarithm,
            twenty,
            lowest,
        );
    }
}

proof fn lemma_level_has_a_floor<A: Arithmetic>(
    bins: A::Bins,
    index: usize,
    n: usize,
    out: A::Real,
    smallest: A::Real,
    logarithm: A::Real,
    twenty: A::Real,
    lowest: A::Real,
)
    requires
        repeatable::<A>(),
        ordered::<A>(),
        is_level::<A>(bins, index, n, out),
        call_ensures(A::fraction, (1i64, 10_000_000_000i64), smallest),
        call_ensures(A::log10, (smallest,), logarithm),
        call_ensures(A::integer, (20i64,), twenty),
        call_ensures(A::times, (twenty, logarithm), lowest),
    ensures
        at_least::<A>(out, lowest),
{
    let (bin, norm, count, magnitude, floor, bounded, log, score) = choose|
        bin: A::Iq,
        norm: A::Real,
        count: A::Real,
        magnitude: A::Real,
        floor: A::Real,
        bounded: A::Real,
        log: A::Real,
        score: A::Real,
    | #[trigger]
        level_steps::<A>(
            bins,
            index,
            n,
            bin,
            norm,
            count,
            magnitude,
            floor,
            bounded,
            log,
            score,
            out,
        );
    assert(floor == smallest);
    assert(score == twenty);
    assert(at_least::<A>(bounded, floor));
    assert(at_least::<A>(log, logarithm));
}

// ── Real and complex numbers ───────────────────────────────────────────────

/// The real part of a complex operation is the real operation on real parts.
pub open spec fn componentwise<A: Arithmetic>() -> bool {
    &&& forall|z: A::Iq, r: A::Real| #[trigger]
        call_ensures(A::iq_zero, (), z) && #[trigger] call_ensures(A::zero, (), r) ==> call_ensures(
            A::re,
            (z,),
            r,
        )
    &&& forall|x: A::Real, y: A::Real, z: A::Iq| #[trigger]
        call_ensures(A::iq, (x, y), z) ==> call_ensures(A::re, (z,), x)
    &&& forall|z: A::Iq, f: A::Real, w: A::Iq, r: A::Real, p: A::Real| #[trigger]
        call_ensures(A::iq_scaled, (z, f), w) && call_ensures(A::re, (z,), r) && #[trigger]
            call_ensures(A::times, (r, f), p) ==> call_ensures(A::re, (w,), p)
    &&& forall|a: A::Iq, b: A::Iq, c: A::Iq, r: A::Real, s: A::Real, t: A::Real| #[trigger]
        call_ensures(A::iq_plus, (a, b), c) && call_ensures(A::re, (a,), r) && call_ensures(
            A::re,
            (b,),
            s,
        ) && #[trigger] call_ensures(A::plus, (r, s), t) ==> call_ensures(A::re, (c,), t)
}

/// Whether `levels` holds the real parts of `samples`.
pub open spec fn are_real_parts<A: Arithmetic>(samples: Seq<A::Iq>, levels: Seq<A::Real>) -> bool {
    &&& samples.len() == levels.len()
    &&& forall|i: int| #![trigger samples[i]] #![trigger levels[i]]
        0 <= i < samples.len() ==> call_ensures(A::re, (samples[i],), levels[i])
}

proof fn lemma_real_accumulation<A: Arithmetic>(
    window: Seq<A::Iq>,
    levels: Seq<A::Real>,
    taps: Seq<A::Real>,
    acc: Seq<A::Iq>,
    bcc: Seq<A::Real>,
    n: int,
    k: int,
)
    requires
        componentwise::<A>(),
        are_real_parts::<A>(window, levels),
        window.len() == taps.len() == n,
        is_iq_accumulation::<A>(window, taps, acc, n),
        is_accumulation::<A>(levels, taps, bcc, n),
        0 <= k <= n,
    ensures
        call_ensures(A::re, (acc[k],), bcc[k]),
    decreases k,
{
    if k > 0 {
        let i = k - 1;
        lemma_real_accumulation::<A>(window, levels, taps, acc, bcc, n, i);
        assert(is_iq_mac::<A>(acc[i], window[i], taps[i], acc[i + 1]));
        assert(is_mac::<A>(bcc[i], levels[i], taps[i], bcc[i + 1]));
        let w = choose|w: A::Iq| #[trigger]
            call_ensures(A::iq_scaled, (window[i], taps[i]), w) && call_ensures(
                A::iq_plus,
                (acc[i], w),
                acc[i + 1],
            );
        let p = choose|p: A::Real| #[trigger]
            call_ensures(A::times, (levels[i], taps[i]), p) && call_ensures(
                A::plus,
                (bcc[i], p),
                bcc[i + 1],
            );
        assert(call_ensures(A::re, (window[i],), levels[i]));
        assert(call_ensures(A::re, (w,), p));
    }
}

proof fn lemma_low_pass_repeats<A: Arithmetic>(
    cutoff: A::Real,
    rate: A::Real,
    m: int,
    one: Seq<A::Real>,
    other: Seq<A::Real>,
)
    requires
        repeatable::<A>(),
        m >= 0,
        is_low_pass::<A>(cutoff, rate, m, one),
        is_low_pass::<A>(cutoff, rate, m, other),
    ensures
        one == other,
{
    let (fc1, raw1, sums1) = choose|fc: A::Real, raw: Seq<A::Real>, sums: Seq<A::Real>| #[trigger]
        is_low_pass_design::<A>(cutoff, rate, m, fc, raw, sums, m) && one.len() == m && forall|
            i: int,
        | #![trigger one[i]] 0 <= i < m ==> call_ensures(A::ratio, (raw[i], sums[m]), one[i]);
    let (fc2, raw2, sums2) = choose|fc: A::Real, raw: Seq<A::Real>, sums: Seq<A::Real>| #[trigger]
        is_low_pass_design::<A>(cutoff, rate, m, fc, raw, sums, m) && other.len() == m && forall|
            i: int,
        | #![trigger other[i]] 0 <= i < m ==> call_ensures(A::ratio, (raw[i], sums[m]), other[i]);
    lemma_designs_agree::<A>(cutoff, rate, m, fc1, raw1, sums1, raw2, sums2, m);
    assert forall|i: int| 0 <= i < m implies one[i] == other[i] by {
        lemma_sinc_tap_repeats::<A>(fc1, i, m, raw1[i], raw2[i]);
    }
    assert(one =~= other);
}

proof fn lemma_designs_agree<A: Arithmetic>(
    cutoff: A::Real,
    rate: A::Real,
    m: int,
    fc: A::Real,
    raw1: Seq<A::Real>,
    sums1: Seq<A::Real>,
    raw2: Seq<A::Real>,
    sums2: Seq<A::Real>,
    k: int,
)
    requires
        repeatable::<A>(),
        is_low_pass_design::<A>(cutoff, rate, m, fc, raw1, sums1, m),
        is_low_pass_design::<A>(cutoff, rate, m, fc, raw2, sums2, m),
        0 <= k <= m,
    ensures
        sums1[k] == sums2[k],
    decreases k,
{
    if k > 0 {
        let i = k - 1;
        lemma_designs_agree::<A>(cutoff, rate, m, fc, raw1, sums1, raw2, sums2, i);
        lemma_sinc_tap_repeats::<A>(fc, i, m, raw1[i], raw2[i]);
        assert(call_ensures(A::plus, (sums1[i], raw1[i]), sums1[i + 1]));
        assert(call_ensures(A::plus, (sums2[i], raw2[i]), sums2[i + 1]));
    }
}

proof fn lemma_sinc_tap_repeats<A: Arithmetic>(
    fc: A::Real,
    i: int,
    m: int,
    one: A::Real,
    other: A::Real,
)
    requires
        repeatable::<A>(),
        is_sinc_tap::<A>(fc, i, m, one),
        is_sinc_tap::<A>(fc, i, m, other),
    ensures
        one == other,
{
    let (sinc1, place1, span1, weight1) = choose|
        sinc: A::Real,
        place: A::Real,
        span: A::Real,
        weight: A::Real,
    |
        {
            &&& #[trigger] is_sinc::<A>(fc, i - m / 2, sinc)
            &&& call_ensures(A::integer, (i as i64,), place)
            &&& call_ensures(A::integer, ((m - 1) as i64,), span)
            &&& #[trigger] is_hann::<A>(place, span, weight)
            &&& call_ensures(A::times, (sinc, weight), one)
        };
    let (sinc2, place2, span2, weight2) = choose|
        sinc: A::Real,
        place: A::Real,
        span: A::Real,
        weight: A::Real,
    |
        {
            &&& #[trigger] is_sinc::<A>(fc, i - m / 2, sinc)
            &&& call_ensures(A::integer, (i as i64,), place)
            &&& call_ensures(A::integer, ((m - 1) as i64,), span)
            &&& #[trigger] is_hann::<A>(place, span, weight)
            &&& call_ensures(A::times, (sinc, weight), other)
        };
    lemma_sinc_repeats::<A>(fc, i - m / 2, sinc1, sinc2);
    lemma_hann_repeats::<A>(place1, span1, weight1, weight2);
}

proof fn lemma_sinc_repeats<A: Arithmetic>(fc: A::Real, n: int, one: A::Real, other: A::Real)
    requires
        repeatable::<A>(),
        is_sinc::<A>(fc, n, one),
        is_sinc::<A>(fc, n, other),
    ensures
        one == other,
{
    assert forall|t: A::Real, u: A::Real| #[trigger]
        is_turn::<A>(t) && #[trigger] is_turn::<A>(u) implies t == u by {
        lemma_turn_repeats::<A>(t, u);
    }
}

/// A new real filter gives on real samples the real parts of what a new complex
/// filter with the same cutoff, rate and number of coefficients gives on those
/// samples as complex numbers.
pub proof fn real_filter_is_the_real_part<A: Arithmetic>(
    cutoff: A::Real,
    rate: A::Real,
    real_filter: FirLowPassReal<A>,
    complex_filter: FirLowPass<A>,
    levels: Seq<A::Real>,
    zero: A::Real,
    samples: Seq<A::Iq>,
    decim: int,
    out_levels: Seq<A::Real>,
    out_samples: Seq<A::Iq>,
)
    requires
        repeatable::<A>(),
        componentwise::<A>(),
        decim > 0,
        call_ensures(A::zero, (), zero),
        real_filter.history().len() == real_filter.taps().len(),
        complex_filter.history().len() == real_filter.taps().len(),
        is_low_pass::<A>(
            cutoff,
            rate,
            real_filter.taps().len() as int,
            real_filter.taps(),
        ),
        is_low_pass::<A>(
            cutoff,
            rate,
            real_filter.taps().len() as int,
            complex_filter.taps(),
        ),
        forall|i: int|
            0 <= i < real_filter.history().len() ==> call_ensures(
                A::zero,
                (),
                #[trigger] real_filter.history()[i],
            ),
        forall|i: int|
            0 <= i < complex_filter.history().len() ==> call_ensures(
                A::iq_zero,
                (),
                #[trigger] complex_filter.history()[i],
            ),
        samples.len() == levels.len(),
        forall|i: int|
            0 <= i < samples.len() ==> call_ensures(
                A::iq,
                (levels[i], zero),
                #[trigger] samples[i],
            ),
        is_filtered::<A>(
            real_filter.taps(),
            real_filter.history(),
            levels,
            decim,
            out_levels,
        ),
        is_iq_filtered::<A>(
            complex_filter.taps(),
            complex_filter.history(),
            samples,
            decim,
            out_samples,
        ),
    ensures
        out_levels.len() == decimated_len(levels.len() as int, decim),
        are_real_parts::<A>(out_samples, out_levels),
        forall|j: int, part: A::Real|
            0 <= j < out_samples.len() && #[trigger] call_ensures(
                A::re,
                (out_samples[j],),
                part,
            ) ==> part == out_levels[j],
{
    let taps = real_filter.taps();
    let n = taps.len() as int;
    lemma_low_pass_repeats::<A>(cutoff, rate, n, taps, complex_filter.taps());
    assert forall|j: int| 0 <= j < out_samples.len() implies call_ensures(
        A::re,
        (#[trigger] out_samples[j],),
        out_levels[j],
    ) by {
        lemma_decimated_in_range(j, levels.len() as int, decim);
        let window = history_after(complex_filter.history(), samples, j * decim + 1);
        let past = history_after(real_filter.history(), levels, j * decim + 1);
        assert forall|i: int| #![trigger window[i]] #![trigger past[i]]
            0 <= i < window.len() implies call_ensures(A::re, (window[i],), past[i]) by {
            if i < j * decim + 1 {
                let k = j * decim - i;
                assert(window[i] == samples[k]);
                assert(past[i] == levels[k]);
            } else {
                let k = i - (j * decim + 1);
                assert(window[i] == complex_filter.history()[k]);
                assert(past[i] == real_filter.history()[k]);
            }
        }
        assert(is_iq_sum::<A>(window, taps, out_samples[j]));
        assert(is_sum::<A>(past, taps, out_levels[j]));
        let acc = choose|acc: Seq<A::Iq>| #[trigger]
            is_iq_accumulation::<A>(window, taps, acc, n) && out_samples[j] == acc.last();
        let bcc = choose|acc: Seq<A::Real>| #[trigger]
            is_accumulation::<A>(past, taps, acc, n) && out_levels[j] == acc.last();
        lemma_real_accumulation::<A>(window, past, taps, acc, bcc, n, n);
    }
}

// ── Steady input ───────────────────────────────────────────────────────────

/// Whether `x` is `c * (part / whole)` up to `steps` roundings; `near` tells
/// whether one value is another up to so many roundings.
pub open spec fn is_near_share<A: Arithmetic>(
    near: spec_fn(A::Iq, A::Iq, nat) -> bool,
    c: A::Iq,
    part: A::Real,
    whole: A::Real,
    x: A::Iq,
    steps: nat,
) -> bool {
    exists|share: A::Real, product: A::Iq|
        {
            &&& #[trigger] call_ensures(A::ratio, (part, whole), share)
            &&& #[trigger] call_ensures(A::iq_scaled, (c, share), product)
            &&& near(x, product, steps)
        }
}

/// Shares of `c` add up to the share of a sum, with one more rounding for each
/// sum, as long as the parts are moderate; no part gives silence, and the whole
/// gives `c`.
///
/// Exact numbers meet this with `near` for equality and every part moderate. Of
/// floating point it holds where `moderate` bounds the parts and `near` bounds the
/// difference by the error that so many sums of such shares can make.
pub open spec fn shares_add_up<A: Arithmetic>(
    near: spec_fn(A::Iq, A::Iq, nat) -> bool,
    moderate: spec_fn(A::Real) -> bool,
    c: A::Iq,
    whole: A::Real,
) -> bool {
    &&& forall|zero: A::Real, silence: A::Iq|
        {
            &&& #[trigger] call_ensures(A::zero, (), zero)
            &&& #[trigger] call_ensures(A::iq_zero, (), silence)
        } ==> is_near_share::<A>(near, c, zero, whole, silence, 0)
    &&& forall|
        a: A::Real,
        b: A::Real,
        total: A::Real,
        x: A::Iq,
        share: A::Real,
        y: A::Iq,
        z: A::Iq,
        steps: nat,
    |
        {
            &&& moderate(a)
            &&& moderate(b)
            &&& #[trigger] call_ensures(A::plus, (a, b), total)
            &&& #[trigger] is_near_share::<A>(near, c, a, whole, x, steps)
            &&& #[trigger] call_ensures(A::ratio, (b, whole), share)
            &&& #[trigger] call_ensures(A::iq_scaled, (c, share), y)
            &&& #[trigger] call_ensures(A::iq_plus, (x, y), z)
        } ==> is_near_share::<A>(near, c, total, whole, z, steps + 1)
    &&& forall|x: A::Iq, steps: nat| #[trigger]
        is_near_share::<A>(near, c, whole, whole, x, steps) ==> near(x, c, steps)
}

/// Whether the coefficients of a low-pass filter, before they are scaled, and
/// their partial sums are moderate, and shares of `c` in their sum add up.
pub open spec fn is_tame_design<A: Arithmetic>(
    near: spec_fn(A::Iq, A::Iq, nat) -> bool,
    moderate: spec_fn(A::Real) -> bool,
    c: A::Iq,
    raw: Seq<A::Real>,
    sums: Seq<A::Real>,
) -> bool {
    &&& forall|i: int| 0 <= i < raw.len() ==> moderate(#[trigger] raw[i])
    &&& forall|i: int| 0 <= i < sums.len() ==> moderate(#[trigger] sums[i])
    &&& shares_add_up::<A>(near, moderate, c, sums.last())
}

proof fn lemma_shares_accumulate<A: Arithmetic>(
    near: spec_fn(A::Iq, A::Iq, nat) -> bool,
    moderate: spec_fn(A::Real) -> bool,
    c: A::Iq,
    window: Seq<A::Iq>,
    taps: Seq<A::Real>,
    raw: Seq<A::Real>,
    sums: Seq<A::Real>,
    acc: Seq<A::Iq>,
    m: int,
    k: nat,
)
    requires
        is_tame_design::<A>(near, moderate, c, raw, sums),
        raw.len() == taps.len() == window.len() == m,
        sums.len() == m + 1,
        call_ensures(A::zero, (), sums[0]),
        forall|i: int| #![trigger sums[i + 1]]
            0 <= i < m ==> call_ensures(A::plus, (sums[i], raw[i]), sums[i + 1]),
        forall|i: int| #![trigger taps[i]]
            0 <= i < m ==> call_ensures(A::ratio, (raw[i], sums[m]), taps[i]),
        forall|i: int| 0 <= i < m ==> #[trigger] window[i] == c,
        is_iq_accumulation::<A>(window, taps, acc, m),
        k <= m,
    ensures
        is_near_share::<A>(near, c, sums[k as int], sums[m], acc[k as int], k),
    decreases k,
{
    if k > 0 {
        let i = k - 1;
        lemma_shares_accumulate::<A>(
            near,
            moderate,
            c,
            window,
            taps,
            raw,
            sums,
            acc,
            m,
            i as nat,
        );
        assert(is_iq_mac::<A>(acc[i], window[i], taps[i], acc[i + 1]));
        assert(window[i] == c);
        assert(call_ensures(A::plus, (sums[i], raw[i]), sums[i + 1]));
        assert(call_ensures(A::ratio, (raw[i], sums[m]), taps[i]));
        assert(moderate(sums[i]) && moderate(raw[i]));
        let product = choose|product: A::Iq| #[trigger]
            call_ensures(A::iq_scaled, (window[i], taps[i]), product) && call_ensures(
                A::iq_plus,
                (acc[i], product),
                acc[i + 1],
            );
        assert(call_ensures(A::iq_scaled, (c, taps[i]), product));
        assert(i as nat + 1 == k);
    }
}

/// A low-pass filter that has taken as many equal samples as it has coefficients
/// gives that sample, up to as many roundings: its gain at zero frequency is one.
pub proof fn steady_input_comes_out_as_itself<A: Arithmetic>(
    near: spec_fn(A::Iq, A::Iq, nat) -> bool,
    moderate: spec_fn(A::Real) -> bool,
    cutoff: A::Real,
    rate: A::Real,
    filter: FirLowPass<A>,
    c: A::Iq,
    out: A::Iq,
)
    requires
        is_low_pass::<A>(cutoff, rate, filter.taps().len() as int, filter.taps()),
        forall|fc: A::Real, raw: Seq<A::Real>, sums: Seq<A::Real>|
            #[trigger] is_low_pass_design::<A>(
                cutoff,
                rate,
                filter.taps().len() as int,
                fc,
                raw,
                sums,
                filter.taps().len() as int,
            ) ==> is_tame_design::<A>(near, moderate, c, raw, sums),
        filter.history() == Seq::new(filter.taps().len(), |i: int| c),
        is_iq_sum::<A>(filter.history(), filter.taps(), out),
    ensures
        near(out, c, filter.taps().len()),
{
    let taps = filter.taps();
    let m = taps.len() as int;
    let (fc, raw, sums) = choose|fc: A::Real, raw: Seq<A::Real>, sums: Seq<A::Real>| #[trigger]
        is_low_pass_design::<A>(cutoff, rate, m, fc, raw, sums, m) && taps.len() == m && forall|
            i: int,
        | #![trigger taps[i]] 0 <= i < m ==> call_ensures(A::ratio, (raw[i], sums[m]), taps[i]);
    let acc = choose|acc: Seq<A::Iq>| #[trigger]
        is_iq_accumulation::<A>(filter.history(), taps, acc, m) && out == acc.last();
    assert(sums.last() == sums[m]);
    lemma_shares_accumulate::<A>(
        near,
        moderate,
        c,
        filter.history(),
        taps,
        raw,
        sums,
        acc,
        m,
        m as nat,
    );
}

// ── Colours ────────────────────────────────────────────────────────────────

/// Whether `x` is found to be less than `y`.
pub open spec fn below<A: Arithmetic>(x: A::Real, y: A::Real) -> bool {
    call_ensures(A::less, (x, y), true)
}

/// Whether `x` has a place in the order of numbers.
pub open spec fn is_ordinary<A: Arithmetic>(x: A::Real) -> bool {
    exists|y: A::Real| #[trigger] below::<A>(x, y) || #[trigger] below::<A>(y, x)
}

/// Comparison is an order, and bounding a number goes by it.
pub open spec fn comparable<A: Arithmetic>() -> bool {
    &&& forall|x: A::Real, y: A::Real| #[trigger] below::<A>(x, y) ==> !below::<A>(y, x)
    &&& forall|x: A::Real, y: A::Real, z: A::Real|
        {
            &&& is_ordinary::<A>(x)
            &&& !below::<A>(y, x)
            &&& #[trigger] below::<A>(y, z)
        } ==> #[trigger] below::<A>(x, z)
    &&& forall|x: A::Real, y: A::Real, z: A::Real|
        {
            &&& is_ordinary::<A>(z)
            &&& #[trigger] below::<A>(x, y)
            &&& !below::<A>(z, y)
        } ==> #[trigger] below::<A>(x, z)
    &&& forall|x: A::Real, low: A::Real, high: A::Real, r: A::Real| #[trigger]
        call_ensures(A::clamp, (x, low, high), r) ==> r == (if below::<A>(x, low) {
            low
        } else if below::<A>(high, x) {
            high
        } else {
            x
        })
    &&& forall|zero: A::Real, one: A::Real|
        {
            &&& #[trigger] call_ensures(A::zero, (), zero)
            &&& #[trigger] call_ensures(A::integer, (1i64,), one)
        } ==> below::<A>(zero, one)
    &&& forall|zero: A::Real, k: i64, part: A::Real|
        {
            &&& k > 0
            &&& #[trigger] call_ensures(A::zero, (), zero)
            &&& #[trigger] call_ensures(A::fraction, (k, 8i64), part)
        } ==> below::<A>(zero, part)
    &&& forall|one: A::Real, x: A::Real|
        {
            &&& #[trigger] call_ensures(A::integer, (1i64,), one)
            &&& #[trigger] is_ordinary::<A>(x)
            &&& !below::<A>(x, one)
            &&& !below::<A>(one, x)
        } ==> x == one
}

/// Differences and quotients respect the order of numbers.
pub open spec fn graded<A: Arithmetic>() -> bool {
    &&& forall|a: A::Real, b: A::Real, c: A::Real, x: A::Real, y: A::Real|
        {
            &&& !below::<A>(b, a)
            &&& #[trigger] call_ensures(A::minus, (a, c), x)
            &&& #[trigger] call_ensures(A::minus, (b, c), y)
        } ==> !below::<A>(y, x)
    &&& forall|a: A::Real, b: A::Real, x: A::Real, zero: A::Real|
        {
            &&& below::<A>(a, b)
            &&& #[trigger] call_ensures(A::minus, (b, a), x)
            &&& #[trigger] call_ensures(A::zero, (), zero)
        } ==> below::<A>(zero, x)
    &&& forall|a: A::Real, x: A::Real, zero: A::Real|
        {
            &&& #[trigger] call_ensures(A::minus, (a, a), x)
            &&& #[trigger] call_ensures(A::zero, (), zero)
        } ==> !below::<A>(zero, x)
    &&& forall|a: A::Real, d: A::Real, x: A::Real, zero: A::Real|
        {
            &&& #[trigger] call_ensures(A::zero, (), zero)
            &&& below::<A>(zero, d)
            &&& #[trigger] call_ensures(A::ratio, (a, d), x)
            &&& !below::<A>(zero, a)
        } ==> !below::<A>(zero, x)
    &&& forall|a: A::Real, b: A::Real, d: A::Real, x: A::Real, y: A::Real, zero: A::Real|
        {
            &&& #[trigger] call_ensures(A::zero, (), zero)
            &&& below::<A>(zero, d)
            &&& !below::<A>(b, a)
            &&& #[trigger] call_ensures(A::ratio, (a, d), x)
            &&& #[trigger] call_ensures(A::ratio, (b, d), y)
        } ==> !below::<A>(y, x)
    &&& forall|d: A::Real, x: A::Real, zero: A::Real, one: A::Real|
        {
            &&& #[trigger] call_ensures(A::zero, (), zero)
            &&& below::<A>(zero, d)
            &&& #[trigger] call_ensures(A::ratio, (d, d), x)
            &&& is_ordinary::<A>(x)
            &&& #[trigger] call_ensures(A::integer, (1i64,), one)
        } ==> x == one
}

/// Whether the place of `db` in the range from `min_db` to `max_db` is found by
/// way of ordinary numbers.
pub open spec fn is_measurable<A: Arithmetic>(
    db: A::Real,
    min_db: A::Real,
    max_db: A::Real,
) -> bool {
    forall|height: A::Real, range: A::Real, share: A::Real|
        {
            &&& #[trigger] call_ensures(A::minus, (db, min_db), height)
            &&& #[trigger] call_ensures(A::minus, (max_db, min_db), range)
            &&& #[trigger] call_ensures(A::ratio, (height, range), share)
        } ==> is_ordinary::<A>(height) && is_ordinary::<A>(share)
}

/// The steps from a level to its place in the range.
spec fn position_steps<A: Arithmetic>(
    db: A::Real,
    min_db: A::Real,
    max_db: A::Real,
    t: A::Real,
    height: A::Real,
    range: A::Real,
    share: A::Real,
    zero: A::Real,
    one: A::Real,
) -> bool {
    &&& call_ensures(A::minus, (db, min_db), height)
    &&& call_ensures(A::minus, (max_db, min_db), range)
    &&& call_ensures(A::ratio, (height, range), share)
    &&& call_ensures(A::zero, (), zero)
    &&& call_ensures(A::integer, (1i64,), one)
    &&& call_ensures(A::clamp, (share, zero, one), t)
}

proof fn lemma_position_steps<A: Arithmetic>(
    db: A::Real,
    min_db: A::Real,
    max_db: A::Real,
    t: A::Real,
) -> (steps: (A::Real, A::Real, A::Real, A::Real, A::Real))
    requires
        is_position::<A>(db, min_db, max_db, t),
    ensures
        position_steps::<A>(
            db,
            min_db,
            max_db,
            t,
            steps.0,
            steps.1,
            steps.2,
            steps.3,
            steps.4,
        ),
{
    choose|height: A::Real, range: A::Real, share: A::Real, zero: A::Real, one: A::Real|
        {
            &&& #[trigger] call_ensures(A::minus, (db, min_db), height)
            &&& #[trigger] call_ensures(A::minus, (max_db, min_db), range)
            &&& #[trigger] call_ensures(A::ratio, (height, range), share)
            &&& #[trigger] call_ensures(A::zero, (), zero)
            &&& #[trigger] call_ensures(A::integer, (1i64,), one)
            &&& call_ensures(A::clamp, (share, zero, one), t)
        }
}

proof fn lemma_colour_steps<A: Arithmetic>(t: A::Real, rgba: Seq<u8>) -> (steps: (
    u8,
    A::Real,
    u8,
    u8,
))
    requires
        is_colour_at::<A>(t, rgba),
    ensures
        is_in_segment::<A>(t, steps.0),
        is_share::<A>(t, steps.0, steps.1),
        is_brightness::<A>(steps.1, steps.2),
        is_darkness::<A>(steps.1, steps.3),
        rgba == gradient(steps.0, steps.2, steps.3),
{
    choose|segment: u8, u: A::Real, rise: u8, fall: u8|
        {
            &&& is_in_segment::<A>(t, segment)
            &&& #[trigger] is_share::<A>(t, segment, u)
            &&& #[trigger] is_brightness::<A>(u, rise)
            &&& #[trigger] is_darkness::<A>(u, fall)
            &&& rgba == gradient(segment, rise, fall)
        }
}

proof fn lemma_bound<A: Arithmetic>(t: A::Real, eighths: i64, found: bool) -> (bound: A::Real)
    requires
        is_below::<A>(t, eighths, found),
    ensures
        call_ensures(A::fraction, (eighths, 8i64), bound),
        call_ensures(A::less, (t, bound), found),
{
    choose|bound: A::Real| #[trigger]
        call_ensures(A::fraction, (eighths, 8i64), bound) && call_ensures(
            A::less,
            (t, bound),
            found,
        )
}

proof fn lemma_position_repeats<A: Arithmetic>(
    db: A::Real,
    min_db: A::Real,
    max_db: A::Real,
    one: A::Real,
    other: A::Real,
)
    requires
        repeatable::<A>(),
        is_position::<A>(db, min_db, max_db, one),
        is_position::<A>(db, min_db, max_db, other),
    ensures
        one == other,
{
}

proof fn lemma_positions_rise<A: Arithmetic>(
    lower: A::Real,
    higher: A::Real,
    min_db: A::Real,
    max_db: A::Real,
    t1: A::Real,
    t2: A::Real,
)
    requires
        repeatable::<A>(),
        comparable::<A>(),
        graded::<A>(),
        below::<A>(min_db, max_db),
        !below::<A>(higher, lower),
        is_measurable::<A>(lower, min_db, max_db),
        is_measurable::<A>(higher, min_db, max_db),
        is_position::<A>(lower, min_db, max_db, t1),
        is_position::<A>(higher, min_db, max_db, t2),
    ensures
        is_ordinary::<A>(t1),
        is_ordinary::<A>(t2),
        !below::<A>(t2, t1),
{
    let (h1, range, s1, z, o) = lemma_position_steps::<A>(lower, min_db, max_db, t1);
    let (h2, range2, s2, z2, o2) = lemma_position_steps::<A>(higher, min_db, max_db, t2);
    assert(range2 == range && z2 == z && o2 == o);
    assert(below::<A>(z, range));
    assert(!below::<A>(h2, h1));
    assert(!below::<A>(s2, s1));
    assert(below::<A>(z, o));
    if below::<A>(t2, t1) {
        if below::<A>(s1, z) {
            assert(t1 == z);
            assert(!below::<A>(s2, z));
        } else if below::<A>(o, s1) {
            assert(t1 == o);
            assert(below::<A>(o, s2));
        } else {
            assert(t1 == s1);
            if below::<A>(s2, z) {
                assert(below::<A>(s1, z));
            }
        }
    }
}

proof fn lemma_shares_rise<A: Arithmetic>(
    t1: A::Real,
    t2: A::Real,
    zero: A::Real,
    segment: u8,
    u1: A::Real,
    u2: A::Real,
)
    requires
        repeatable::<A>(),
        comparable::<A>(),
        graded::<A>(),
        graded_bytes::<A>(),
        is_ordinary::<A>(t1),
        is_ordinary::<A>(t2),
        !below::<A>(t2, t1),
        call_ensures(A::zero, (), zero),
        is_share::<A>(t1, segment, u1),
        is_share::<A>(t2, segment, u2),
    ensures
        is_ordinary::<A>(u1),
        is_ordinary::<A>(u2),
        !below::<A>(u2, u1),
{
}

proof fn lemma_darkness_falls<A: Arithmetic>(u1: A::Real, u2: A::Real, fall1: u8, fall2: u8)
    requires
        repeatable::<A>(),
        comparable::<A>(),
        graded_bytes::<A>(),
        is_ordinary::<A>(u1),
        is_ordinary::<A>(u2),
        !below::<A>(u2, u1),
        is_darkness::<A>(u1, fall1),
        is_darkness::<A>(u2, fall2),
    ensures
        fall2 <= fall1,
{
}

proof fn lemma_colour_at_repeats<A: Arithmetic>(t: A::Real, one: Seq<u8>, other: Seq<u8>)
    requires
        repeatable::<A>(),
        is_colour_at::<A>(t, one),
        is_colour_at::<A>(t, other),
    ensures
        one == other,
{
    let (segment1, u1, rise1, fall1) = lemma_colour_steps::<A>(t, one);
    let (segment2, u2, rise2, fall2) = lemma_colour_steps::<A>(t, other);
    lemma_segment_repeats::<A>(t, segment1, segment2);
    lemma_segment_repeats::<A>(t, segment2, segment1);
    assert(u1 == u2);
    assert(rise1 == rise2);
    assert(fall1 == fall2);
}

proof fn lemma_segment_repeats<A: Arithmetic>(t: A::Real, one: u8, other: u8)
    requires
        repeatable::<A>(),
        is_in_segment::<A>(t, one),
        is_in_segment::<A>(t, other),
    ensures
        one <= other,
{
    if other < one {
        let next = (other + 1) as u8;
        assert(is_below::<A>(t, segment_start(next), true));
        assert(is_below::<A>(t, segment_start(next), false));
    }
}

proof fn lemma_low_place_is_blue<A: Arithmetic>(
    t: A::Real,
    share: A::Real,
    zero: A::Real,
    one: A::Real,
    rgba: Seq<u8>,
)
    requires
        repeatable::<A>(),
        comparable::<A>(),
        call_ensures(A::zero, (), zero),
        call_ensures(A::integer, (1i64,), one),
        call_ensures(A::clamp, (share, zero, one), t),
        is_ordinary::<A>(share),
        !below::<A>(zero, share),
        is_colour_at::<A>(t, rgba),
    ensures
        rgba == gradient(0, 0, 0),
{
    if below::<A>(one, share) {
        assert(!below::<A>(share, one));
        assert(below::<A>(zero, share));
    }
    assert(t == zero || t == share);
    let (segment, u, rise, fall) = lemma_colour_steps::<A>(t, rgba);
    if segment > 0 {
        let part = lemma_bound::<A>(t, segment_start(1), false);
        assert(below::<A>(zero, part));
        assert(below::<A>(t, part));
    }
}

/// A level outside the range has the colour of the nearer end of the range: the
/// colour of a level is that of the level bounded by the range.
pub proof fn colour_of_a_bounded_level<A: Arithmetic>(
    db: A::Real,
    min_db: A::Real,
    max_db: A::Real,
    bounded: A::Real,
    one: Seq<u8>,
    other: Seq<u8>,
)
    requires
        repeatable::<A>(),
        comparable::<A>(),
        graded::<A>(),
        below::<A>(min_db, max_db),
        is_measurable::<A>(db, min_db, max_db),
        is_measurable::<A>(bounded, min_db, max_db),
        call_ensures(A::clamp, (db, min_db, max_db), bounded),
        is_colour::<A>(db, min_db, max_db, one),
        is_colour::<A>(bounded, min_db, max_db, other),
    ensures
        one == other,
{
    let t1 = choose|t: A::Real| #[trigger]
        is_position::<A>(db, min_db, max_db, t) && is_colour_at::<A>(t, one);
    let t2 = choose|t: A::Real| #[trigger]
        is_position::<A>(bounded, min_db, max_db, t) && is_colour_at::<A>(t, other);
    let (h1, range, s1, z, o) = lemma_position_steps::<A>(db, min_db, max_db, t1);
    let (h2, range2, s2, z2, o2) = lemma_position_steps::<A>(bounded, min_db, max_db, t2);
    assert(range2 == range && z2 == z && o2 == o);
    assert(below::<A>(z, range));
    assert(is_ordinary::<A>(h1) && is_ordinary::<A>(s1));
    assert(is_ordinary::<A>(h2) && is_ordinary::<A>(s2));
    if below::<A>(db, min_db) {
        assert(bounded == min_db);
        assert(!below::<A>(z, h2));
        assert(!below::<A>(h2, h1));
        if below::<A>(z, h1) {
            assert(below::<A>(z, h2));
        }
        assert(!below::<A>(z, s1));
        assert(!below::<A>(z, s2));
        lemma_low_place_is_blue::<A>(t1, s1, z, o, one);
        lemma_low_place_is_blue::<A>(t2, s2, z, o, other);
    } else if below::<A>(max_db, db) {
        assert(bounded == max_db);
        assert(h2 == range);
        assert(s2 == o);
        assert(!below::<A>(h1, h2));
        assert(!below::<A>(s1, o));
        if below::<A>(s1, z) {
            assert(below::<A>(s1, o));
        }
        assert(t2 == o);
        assert(t1 == o);
        lemma_colour_at_repeats::<A>(o, one, other);
    } else {
        assert(bounded == db);
        assert(t1 == t2);
        lemma_colour_at_repeats::<A>(t1, one, other);
    }
}

/// Eighths, zero, one and the bytes of zero and one are exact.
pub open spec fn exact<A: Arithmetic>() -> bool {
    &&& forall|i: i64, j: i64, a: A::Real, b: A::Real|
        {
            &&& 0 <= i <= 8
            &&& 0 <= j <= 8
            &&& #[trigger] call_ensures(A::fraction, (i, 8i64), a)
            &&& #[trigger] call_ensures(A::fraction, (j, 8i64), b)
        } ==> (below::<A>(a, b) <==> i < j)
    &&& forall|k: i64, part: A::Real, one: A::Real|
        {
            &&& k <= 8
            &&& #[trigger] call_ensures(A::fraction, (k, 8i64), part)
            &&& #[trigger] call_ensures(A::integer, (1i64,), one)
        } ==> !below::<A>(one, part)
    &&& forall|k: i64, part: A::Real, x: A::Real, zero: A::Real|
        {
            &&& #[trigger] call_ensures(A::fraction, (k, 8i64), part)
            &&& #[trigger] call_ensures(A::minus, (part, part), x)
            &&& #[trigger] call_ensures(A::zero, (), zero)
        } ==> x == zero
    &&& forall|k: i64, part: A::Real, x: A::Real, zero: A::Real|
        {
            &&& k > 0
            &&& #[trigger] call_ensures(A::fraction, (k, 8i64), part)
            &&& #[trigger] call_ensures(A::zero, (), zero)
            &&& #[trigger] call_ensures(A::ratio, (zero, part), x)
        } ==> x == zero
    &&& forall|one: A::Real, part: A::Real, rest: A::Real, width: A::Real, x: A::Real|
        {
            &&& #[trigger] call_ensures(A::integer, (1i64,), one)
            &&& #[trigger] call_ensures(A::fraction, (6i64, 8i64), part)
            &&& #[trigger] call_ensures(A::minus, (one, part), rest)
            &&& #[trigger] call_ensures(A::fraction, (2i64, 8i64), width)
            &&& #[trigger] call_ensures(A::ratio, (rest, width), x)
        } ==> x == one
    &&& forall|one: A::Real, zero: A::Real, x: A::Real|
        {
            &&& #[trigger] call_ensures(A::integer, (1i64,), one)
            &&& #[trigger] call_ensures(A::zero, (), zero)
            &&& #[trigger] call_ensures(A::minus, (one, zero), x)
        } ==> x == one
    &&& forall|one: A::Real, zero: A::Real, x: A::Real|
        {
            &&& #[trigger] call_ensures(A::integer, (1i64,), one)
            &&& #[trigger] call_ensures(A::zero, (), zero)
            &&& #[trigger] call_ensures(A::minus, (one, one), x)
        } ==> x == zero
    &&& forall|zero: A::Real, scale: A::Real, x: A::Real, byte: u8|
        {
            &&& #[trigger] call_ensures(A::zero, (), zero)
            &&& #[trigger] call_ensures(A::integer, (255i64,), scale)
            &&& #[trigger] call_ensures(A::times, (zero, scale), x)
            &&& #[trigger] call_ensures(A::to_byte, (x,), byte)
        } ==> byte == 0
    &&& forall|one: A::Real, scale: A::Real, x: A::Real, byte: u8|
        {
            &&& #[trigger] call_ensures(A::integer, (1i64,), one)
            &&& #[trigger] call_ensures(A::integer, (255i64,), scale)
            &&& #[trigger] call_ensures(A::times, (one, scale), x)
            &&& #[trigger] call_ensures(A::to_byte, (x,), byte)
        } ==> byte == 255
}

/// Bytes respect the order of numbers, and the way to them leads over ordinary
/// numbers.
pub open spec fn graded_bytes<A: Arithmetic>() -> bool {
    &&& forall|k: i64, x: A::Real, part: A::Real, y: A::Real|
        {
            &&& is_ordinary::<A>(x)
            &&& #[trigger] call_ensures(A::fraction, (k, 8i64), part)
            &&& #[trigger] call_ensures(A::minus, (x, part), y)
        } ==> is_ordinary::<A>(y)
    &&& forall|k: i64, x: A::Real, part: A::Real, y: A::Real|
        {
            &&& k > 0
            &&& is_ordinary::<A>(x)
            &&& #[trigger] call_ensures(A::fraction, (k, 8i64), part)
            &&& #[trigger] call_ensures(A::ratio, (x, part), y)
        } ==> is_ordinary::<A>(y)
    &&& forall|x: A::Real, one: A::Real, y: A::Real|
        {
            &&& is_ordinary::<A>(x)
            &&& #[trigger] call_ensures(A::integer, (1i64,), one)
            &&& #[trigger] call_ensures(A::minus, (one, x), y)
        } ==> is_ordinary::<A>(y)
    &&& forall|one: A::Real, a: A::Real, b: A::Real, x: A::Real, y: A::Real|
        {
            &&& #[trigger] call_ensures(A::integer, (1i64,), one)
            &&& !below::<A>(b, a)
            &&& #[trigger] call_ensures(A::minus, (one, a), x)
            &&& #[trigger] call_ensures(A::minus, (one, b), y)
        } ==> !below::<A>(x, y)
    &&& forall|x: A::Real, scale: A::Real, y: A::Real|
        {
            &&& is_ordinary::<A>(x)
            &&& #[trigger] call_ensures(A::integer, (255i64,), scale)
            &&& #[trigger] call_ensures(A::times, (x, scale), y)
        } ==> is_ordinary::<A>(y)
    &&& forall|scale: A::Real, a: A::Real, b: A::Real, x: A::Real, y: A::Real|
        {
            &&& #[trigger] call_ensures(A::integer, (255i64,), scale)
            &&& !below::<A>(b, a)
            &&& #[trigger] call_ensures(A::times, (a, scale), x)
            &&& #[trigger] call_ensures(A::times, (b, scale), y)
        } ==> !below::<A>(y, x)
    &&& forall|a: A::Real, b: A::Real, i: u8, j: u8|
        {
            &&& is_ordinary::<A>(a)
            &&& is_ordinary::<A>(b)
            &&& !below::<A>(b, a)
            &&& #[trigger] call_ensures(A::to_byte, (a,), i)
            &&& #[trigger] call_ensures(A::to_byte, (b,), j)
        } ==> i <= j
}

/// The lowest level of the range is blue.
pub proof fn lowest_level_is_blue<A: Arithmetic>(min_db: A::Real, max_db: A::Real, rgba: Seq<u8>)
    requires
        repeatable::<A>(),
        comparable::<A>(),
        graded::<A>(),
        below::<A>(min_db, max_db),
        is_measurable::<A>(min_db, min_db, max_db),
        is_colour::<A>(min_db, min_db, max_db, rgba),
    ensures
        rgba == seq![0u8, 0, 255, 255],
        progress(rgba) == 0,
{
    let t = choose|t: A::Real| #[trigger]
        is_position::<A>(min_db, min_db, max_db, t) && is_colour_at::<A>(t, rgba);
    let (height, range, share, zero, one) = lemma_position_steps::<A>(min_db, min_db, max_db, t);
    assert(below::<A>(zero, range));
    assert(!below::<A>(zero, height));
    assert(!below::<A>(zero, share));
    lemma_low_place_is_blue::<A>(t, share, zero, one, rgba);
}

/// The highest level of the range is red.
pub proof fn highest_level_is_red<A: Arithmetic>(min_db: A::Real, max_db: A::Real, rgba: Seq<u8>)
    requires
        repeatable::<A>(),
        comparable::<A>(),
        graded::<A>(),
        exact::<A>(),
        below::<A>(min_db, max_db),
        is_measurable::<A>(max_db, min_db, max_db),
        is_colour::<A>(max_db, min_db, max_db, rgba),
    ensures
        rgba == seq![255u8, 0, 0, 255],
        progress(rgba) == 1020,
{
    let t = choose|t: A::Real| #[trigger]
        is_position::<A>(max_db, min_db, max_db, t) && is_colour_at::<A>(t, rgba);
    let (height, range, share, zero, one) = lemma_position_steps::<A>(max_db, min_db, max_db, t);
    assert(height == range);
    assert(below::<A>(zero, range));
    assert(share == one);
    assert(below::<A>(zero, one));
    assert(t == one);
    let (segment, u, rise, fall) = lemma_colour_steps::<A>(t, rgba);
    if segment < 4 {
        let next = (segment + 1) as u8;
        let part = lemma_bound::<A>(t, segment_start(next), true);
        assert(below::<A>(one, part));
    }
    assert(u == one);
    assert(fall == 0);
    assert(rgba =~= seq![255u8, 0, 0, 255]);
}

/// The colours of the levels at two, four, five and six eighths of the range are
/// blue, cyan, green and yellow.
pub proof fn levels_at_the_stops<A: Arithmetic>(
    db: A::Real,
    min_db: A::Real,
    max_db: A::Real,
    eighths: i64,
    t: A::Real,
    zero: A::Real,
    rgba: Seq<u8>,
)
    requires
        repeatable::<A>(),
        exact::<A>(),
        eighths == 2 || eighths == 4 || eighths == 5 || eighths == 6,
        call_ensures(A::fraction, (eighths, 8i64), t),
        call_ensures(A::zero, (), zero),
        is_position::<A>(db, min_db, max_db, t),
        is_colour::<A>(db, min_db, max_db, rgba),
    ensures
        eighths == 2 ==> rgba == seq![0u8, 0, 255, 255],
        eighths == 4 ==> rgba == seq![0u8, 255, 255, 255],
        eighths == 5 ==> rgba == seq![0u8, 255, 0, 255],
        eighths == 6 ==> rgba == seq![255u8, 255, 0, 255],
{
    let place = choose|place: A::Real| #[trigger]
        is_position::<A>(db, min_db, max_db, place) && is_colour_at::<A>(place, rgba);
    lemma_position_repeats::<A>(db, min_db, max_db, t, place);
    let (segment, u, rise, fall) = lemma_colour_steps::<A>(t, rgba);
    if segment < 4 {
        let next = (segment + 1) as u8;
        let part = lemma_bound::<A>(t, segment_start(next), true);
        assert(below::<A>(t, part));
        assert(eighths < segment_start(next));
    }
    if segment > 0 {
        let part = lemma_bound::<A>(t, segment_start(segment), false);
        if eighths < segment_start(segment) {
            assert(below::<A>(t, part));
        }
    }
    assert(segment_start(segment) == eighths);
    assert(u == zero);
    assert(rise == 0);
    assert(fall == 255);
    assert(rgba =~= gradient(segment, 0, 255));
    assert(gradient(1, 0, 255) =~= seq![0u8, 0, 255, 255]);
    assert(gradient(2, 0, 255) =~= seq![0u8, 255, 255, 255]);
    assert(gradient(3, 0, 255) =~= seq![0u8, 255, 0, 255]);
    assert(gradient(4, 0, 255) =~= seq![255u8, 255, 0, 255]);
}

/// As the level rises, its colour moves along the gradient and never back: from
/// blue over cyan, green and yellow to red.
pub proof fn colours_rise_with_the_level<A: Arithmetic>(
    lower: A::Real,
    higher: A::Real,
    min_db: A::Real,
    max_db: A::Real,
    one: Seq<u8>,
    other: Seq<u8>,
)
    requires
        repeatable::<A>(),
        comparable::<A>(),
        graded::<A>(),
        graded_bytes::<A>(),
        below::<A>(min_db, max_db),
        !below::<A>(higher, lower),
        is_measurable::<A>(lower, min_db, max_db),
        is_measurable::<A>(higher, min_db, max_db),
        is_colour::<A>(lower, min_db, max_db, one),
        is_colour::<A>(higher, min_db, max_db, other),
    ensures
        progress(one) <= progress(other),
{
    let t1 = choose|t: A::Real| #[trigger]
        is_position::<A>(lower, min_db, max_db, t) && is_colour_at::<A>(t, one);
    let t2 = choose|t: A::Real| #[trigger]
        is_position::<A>(higher, min_db, max_db, t) && is_colour_at::<A>(t, other);
    lemma_positions_rise::<A>(lower, higher, min_db, max_db, t1, t2);
    let (segment1, u1, rise1, fall1) = lemma_colour_steps::<A>(t1, one);
    let (segment2, u2, rise2, fall2) = lemma_colour_steps::<A>(t2, other);
    segments_lead_along_the_gradient(segment1, rise1, fall1);
    segments_lead_along_the_gradient(segment2, rise2, fall2);
    if segment2 < segment1 {
        let next = (segment2 + 1) as u8;
        let part = lemma_bound::<A>(t2, segment_start(next), true);
        let same = lemma_bound::<A>(t1, segment_start(next), false);
        assert(below::<A>(t2, part));
        assert(below::<A>(t1, part));
        assert(same == part);
    }
    if segment1 == segment2 {
        let zero = lemma_position_steps::<A>(lower, min_db, max_db, t1).3;
        lemma_shares_rise::<A>(t1, t2, zero, segment1, u1, u2);
        assert(rise1 <= rise2);
        lemma_darkness_falls::<A>(u1, u2, fall1, fall2);
    }
}

} // verus!
