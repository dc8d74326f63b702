//! The signal-processing chain: raw samples to spectrum and audio.

use vstd::prelude::*;

use crate::arithmetic::Arithmetic;
use crate::config::{mode_plan, DemodMode, DspConfig, ModePlan};
use crate::demodulate::{
    am_demod, is_am_demodulated, is_fm_demodulated, is_fm_gain, is_smoothed, is_smoothing, last_of,
    DeEmphasis, FmDemod,
};
use crate::filter::{
    decimated_len, history_after, is_filtered, is_iq_filtered, is_low_pass, FirLowPass,
    FirLowPassReal,
};
use crate::spectrum::{compute_spectrum, is_converted, is_spectrum, u8_iq_to_complex};
use crate::waterfall::WaterfallBuffer;

verus! {

/// Coefficients of each filter.
pub const NUM_TAPS: usize = 31;

/// Cutoff of the audio filter (Hz).
pub const AUDIO_CUTOFF: i64 = 15_000;

/// Time constant of the de-emphasis (microseconds).
pub const DE_EMPHASIS_TAU: i64 = 50;

/// Rows of the waterfall.
pub const WATERFALL_ROWS: usize = 200;

/// What one block of raw samples gives.
pub struct DspResult<A: Arithmetic> {
    /// Levels in decibels, centre frequency in the middle.
    pub spectrum: Vec<A::Real>,
    /// Audio samples in the range from -1 to 1.
    pub audio: Vec<A::Real>,
}

/// The complete chain.
pub struct DspPipeline<A: Arithmetic> {
    pub config: DspConfig,
    pub iq_filter: FirLowPass<A>,
    pub audio_filter: FirLowPassReal<A>,
    pub fm_demod: FmDemod<A>,
    pub de_emphasis: DeEmphasis<A>,
    pub iq_decim: usize,
    pub audio_decim: usize,
    pub waterfall: WaterfallBuffer<A>,
}

/// The numbers that a chain is built from.
pub struct Parameters<A: Arithmetic> {
    pub sample_rate: A::Real,
    pub audio_rate: A::Real,
    pub iq_cutoff: A::Real,
    pub iq_decim: A::Real,
    pub intermediate_rate: A::Real,
    pub audio_cutoff: A::Real,
    pub fm_deviation: A::Real,
    pub tau: A::Real,
}

impl<A: Arithmetic> Parameters<A> {
    /// Whether these are the numbers of `config`. The intermediate rate is the
    /// sample rate divided by the decimation of the complex samples.
    pub open spec fn are_of(self, config: DspConfig) -> bool {
        let plan = mode_plan(config);
        &&& call_ensures(A::integer, (config.sample_rate as i64,), self.sample_rate)
        &&& call_ensures(A::integer, (config.audio_rate as i64,), self.audio_rate)
        &&& call_ensures(A::integer, (plan.iq_cutoff as i64,), self.iq_cutoff)
        &&& call_ensures(A::count, (plan.iq_decim,), self.iq_decim)
        &&& call_ensures(A::ratio, (self.sample_rate, self.iq_decim), self.intermediate_rate)
        &&& call_ensures(A::integer, (AUDIO_CUTOFF,), self.audio_cutoff)
        &&& call_ensures(A::integer, (plan.fm_deviation as i64,), self.fm_deviation)
        &&& call_ensures(A::integer, (DE_EMPHASIS_TAU,), self.tau)
    }
}

/// Whether filters, demodulator and de-emphasis are made for the numbers `p` and
/// have seen only silence.
pub open spec fn are_parts_of<A: Arithmetic>(
    p: Parameters<A>,
    iq_filter: FirLowPass<A>,
    audio_filter: FirLowPassReal<A>,
    fm_demod: FmDemod<A>,
    de_emphasis: DeEmphasis<A>,
) -> bool {
    &&& is_low_pass::<A>(p.iq_cutoff, p.sample_rate, NUM_TAPS as int, iq_filter.taps())
    &&& exists|silence: A::Iq| #[trigger]
        call_ensures(A::iq_zero, (), silence) && iq_filter.history() == Seq::new(
            NUM_TAPS as nat,
            |i: int| silence,
        )
    &&& is_low_pass::<A>(
        p.audio_cutoff,
        p.intermediate_rate,
        NUM_TAPS as int,
        audio_filter.taps(),
    )
    &&& exists|silence: A::Real| #[trigger]
        call_ensures(A::zero, (), silence) && audio_filter.history() == Seq::new(
            NUM_TAPS as nat,
            |i: int| silence,
        )
    &&& call_ensures(A::iq_zero, (), fm_demod.prev)
    &&& is_fm_gain::<A>(p.fm_deviation, p.intermediate_rate, fm_demod.gain)
    &&& is_smoothing::<A>(p.tau, p.audio_rate, de_emphasis.alpha)
    &&& call_ensures(A::zero, (), de_emphasis.prev)
}

/// The parts of a chain that depend on its mode.
struct Parts<A: Arithmetic> {
    iq_filter: FirLowPass<A>,
    audio_filter: FirLowPassReal<A>,
    fm_demod: FmDemod<A>,
    de_emphasis: DeEmphasis<A>,
}

/// The parts of a chain for `config`.
fn parts_for<A: Arithmetic>(config: &DspConfig, plan: &ModePlan) -> (res: Parts<A>)
    requires
        *plan == mode_plan(*config),
    ensures
        res.iq_filter.valid(),
        res.iq_filter.taps().len() == NUM_TAPS,
        res.audio_filter.valid(),
        res.audio_filter.taps().len() == NUM_TAPS,
        exists|p: Parameters<A>| #[trigger]
            p.are_of(*config) && are_parts_of::<A>(
                p,
                res.iq_filter,
                res.audio_filter,
                res.fm_demod,
                res.de_emphasis,
            ),
{
    let sample_rate: A::Real = A::integer(config.sample_rate as i64);
    let audio_rate: A::Real = A::integer(config.audio_rate as i64);
    let iq_cutoff: A::Real = A::integer(plan.iq_cutoff as i64);
    let iq_decim: A::Real = A::count(plan.iq_decim);
    let intermediate_rate: A::Real = A::ratio(sample_rate, iq_decim);
    let audio_cutoff: A::Real = A::integer(AUDIO_CUTOFF);
    let fm_deviation: A::Real = A::integer(plan.fm_deviation as i64);
    let tau: A::Real = A::integer(DE_EMPHASIS_TAU);
    let ghost p = Parameters::<A> {
        sample_rate,
        audio_rate,
        iq_cutoff,
        iq_decim,
        intermediate_rate,
        audio_cutoff,
        fm_deviation,
        tau,
    };
    assert(p.are_of(*config));
    Parts {
        iq_filter: FirLowPass::new(iq_cutoff, sample_rate, NUM_TAPS),
        audio_filter: FirLowPassReal::new(audio_cutoff, intermediate_rate, NUM_TAPS),
        fm_demod: FmDemod::new(fm_deviation, intermediate_rate),
        de_emphasis: DeEmphasis::new(tau, audio_rate),
    }
}

/// What the chain makes of a block of raw samples, stage by stage.
pub struct Stages<A: Arithmetic> {
    /// The complex samples.
    pub iq: Seq<A::Iq>,
    /// The complex samples, filtered and decimated.
    pub narrowed: Seq<A::Iq>,
    /// The demodulated signal.
    pub demodulated: Seq<A::Real>,
    /// The demodulated signal at the audio rate.
    pub decimated: Seq<A::Real>,
    /// The audio before it is clamped.
    pub shaped: Seq<A::Real>,
}

/// Whether `out` is `x` brought into the range from -1 to 1.
pub open spec fn is_in_unit_range<A: Arithmetic>(x: A::Real, out: A::Real) -> bool {
    exists|low: A::Real, high: A::Real|
        {
            &&& #[trigger] call_ensures(A::integer, (-1i64,), low)
            &&& #[trigger] call_ensures(A::integer, (1i64,), high)
            &&& call_ensures(A::clamp, (x, low, high), out)
        }
}

/// Whether `out` is `samples` brought into the range from -1 to 1.
pub open spec fn is_clamped<A: Arithmetic>(samples: Seq<A::Real>, out: Seq<A::Real>) -> bool {
    &&& out.len() == samples.len()
    &&& forall|i: int| #![trigger out[i]]
        0 <= i < out.len() ==> is_in_unit_range::<A>(samples[i], out[i])
}

impl<A: Arithmetic> DspPipeline<A> {
    /// The parts are usable: there is no decimation by zero, the filters have
    /// coefficients, and the waterfall has rows.
    pub open spec fn valid(self) -> bool {
        &&& self.iq_filter.valid()
        &&& self.iq_filter.taps().len() > 0
        &&& self.audio_filter.valid()
        &&& self.audio_filter.taps().len() > 0
        &&& self.iq_decim > 0
        &&& self.audio_decim > 0
        &&& self.waterfall.valid()
        &&& self.waterfall.height > 0
    }

    /// Whether the chain's parts are made for the numbers `p`, and its filters
    /// and demodulator have seen only silence.
    pub open spec fn is_built_from(self, p: Parameters<A>) -> bool {
        are_parts_of::<A>(
            p,
            self.iq_filter,
            self.audio_filter,
            self.fm_demod,
            self.de_emphasis,
        )
    }

    /// Whether the chain filters and decimates as `config` asks for, and its
    /// filters and demodulator have seen only silence.
    pub open spec fn is_fresh(self, config: DspConfig) -> bool {
        &&& self.config == config
        &&& self.iq_decim == mode_plan(config).iq_decim
        &&& self.audio_decim == mode_plan(config).audio_decim
        &&& exists|p: Parameters<A>| #[trigger] p.are_of(config) && self.is_built_from(p)
    }

    /// Whether this is a chain for `config` that has processed nothing yet.
    pub open spec fn is_new(self, config: DspConfig) -> bool {
        &&& self.is_fresh(config)
        &&& self.waterfall.data@ == Seq::new(
            (config.fft_size * WATERFALL_ROWS * 4) as nat,
            |i: int| 0u8,
        )
        &&& self.waterfall.width == config.fft_size
        &&& self.waterfall.height == WATERFALL_ROWS
        &&& self.waterfall.write_pos == 0
        &&& call_ensures(A::integer, (-60i64,), self.waterfall.min_db)
        &&& call_ensures(A::integer, (0i64,), self.waterfall.max_db)
    }

    /// Whether `spectrum` is what is shown for the complex samples: their
    /// spectrum where there are enough of them, else the lowest level all over.
    pub open spec fn is_shown(self, iq: Seq<A::Iq>, spectrum: Seq<A::Real>) -> bool {
        if iq.len() >= self.config.fft_size {
            is_spectrum::<A>(iq, self.config.fft_size, spectrum)
        } else {
            spectrum == Seq::new(self.config.fft_size as nat, |i: int| self.waterfall.min_db)
        }
    }

    /// Whether the stages are those of this chain on `raw`: the complex samples
    /// are filtered and decimated, then demodulated, then brought to the audio
    /// rate, and only then, in wideband FM, de-emphasised.
    pub open spec fn are_stages(self, raw: Seq<u8>, stages: Stages<A>) -> bool {
        &&& is_converted::<A>(raw, stages.iq)
        &&& is_iq_filtered::<A>(
            self.iq_filter.taps(),
            self.iq_filter.history(),
            stages.iq,
            self.iq_decim as int,
            stages.narrowed,
        )
        &&& match self.config.mode {
            DemodMode::AM => is_am_demodulated::<A>(stages.narrowed, stages.demodulated),
            _ => is_fm_demodulated::<A>(
                self.fm_demod.prev,
                self.fm_demod.gain,
                stages.narrowed,
                stages.demodulated,
            ),
        }
        &&& if self.audio_decim > 1 {
            is_filtered::<A>(
                self.audio_filter.taps(),
                self.audio_filter.history(),
                stages.demodulated,
                self.audio_decim as int,
                stages.decimated,
            )
        } else {
            stages.decimated == stages.demodulated
        }
        &&& if self.config.mode == DemodMode::WFM {
            is_smoothed::<A>(
                self.de_emphasis.alpha,
                self.de_emphasis.prev,
                stages.decimated,
                stages.shaped,
            )
        } else {
            stages.shaped == stages.decimated
        }
    }

    /// Whether `next` is this chain after a block with these stages: every part
    /// that took part remembers the end of the block, and the others and the
    /// configuration stay as they were.
    pub open spec fn is_advanced(self, stages: Stages<A>, next: DspPipeline<A>) -> bool {
        &&& next.config == self.config
        &&& next.iq_decim == self.iq_decim
        &&& next.audio_decim == self.audio_decim
        &&& next.iq_filter.taps() == self.iq_filter.taps()
        &&& next.iq_filter.history() == history_after(
            self.iq_filter.history(),
            stages.iq,
            stages.iq.len() as int,
        )
        &&& next.fm_demod.gain == self.fm_demod.gain
        &&& next.fm_demod.prev == (if self.config.mode == DemodMode::AM {
            self.fm_demod.prev
        } else {
            last_of(self.fm_demod.prev, stages.narrowed)
        })
        &&& next.audio_filter.taps() == self.audio_filter.taps()
        &&& next.audio_filter.history() == (if self.audio_decim > 1 {
            history_after(
                self.audio_filter.history(),
                stages.demodulated,
                stages.demodulated.len() as int,
            )
        } else {
            self.audio_filter.history()
        })
        &&& next.de_emphasis.alpha == self.de_emphasis.alpha
        &&& next.de_emphasis.prev == (if self.config.mode == DemodMode::WFM {
            last_of(self.de_emphasis.prev, stages.shaped)
        } else {
            self.de_emphasis.prev
        })
    }

    /// Whether `result` and `next` are what this chain makes of `raw`.
    pub open spec fn is_processed(
        self,
        raw: Seq<u8>,
        next: DspPipeline<A>,
        result: DspResult<A>,
    ) -> bool {
        exists|stages: Stages<A>|
            {
                &&& #[trigger] self.are_stages(raw, stages)
                &&& self.is_advanced(stages, next)
                &&& self.is_shown(stages.iq, result.spectrum@)
                &&& self.waterfall.is_pushed(result.spectrum@, next.waterfall)
                &&& is_clamped::<A>(stages.shaped, result.audio@)
            }
    }

    /// A chain for `config`.
    pub fn new(config: DspConfig) -> (res: DspPipeline<A>)
        requires
            config.mode == DemodMode::WFM ==> config.audio_rate > 0,
            config.fft_size * WATERFALL_ROWS * 4 <= isize::MAX,
        ensures
            res.valid(),
            res.is_new(config),
    {
        let plan: ModePlan = config.plan();
        let parts: Parts<A> = parts_for::<A>(&config, &plan);
        proof {
            crate::config::intermediate_rate_is_near_the_modes_own(config);
        }
        DspPipeline {
            config,
            iq_filter: parts.iq_filter,
            audio_filter: parts.audio_filter,
            fm_demod: parts.fm_demod,
            de_emphasis: parts.de_emphasis,
            iq_decim: plan.iq_decim,
            audio_decim: plan.audio_decim,
            waterfall: WaterfallBuffer::new(config.fft_size, WATERFALL_ROWS),
        }
    }

    /// Changes the mode: filters, demodulator and de-emphasis are made anew, and
    /// the waterfall and the rest of the configuration stay as they are.
    pub fn set_mode(&mut self, mode: DemodMode)
        requires
            old(self).valid(),
            mode == DemodMode::WFM ==> old(self).config.audio_rate > 0,
        ensures
            final(self).valid(),
            final(self).is_fresh(DspConfig { mode, ..old(self).config }),
            final(self).waterfall == old(self).waterfall,
    {
        let config: DspConfig = DspConfig {
            sample_rate: self.config.sample_rate,
            fft_size: self.config.fft_size,
            mode,
            audio_rate: self.config.audio_rate,
        };
        let plan: ModePlan = config.plan();
        let parts: Parts<A> = parts_for::<A>(&config, &plan);
        proof {
            crate::config::intermediate_rate_is_near_the_modes_own(config);
        }
        self.config = config;
        self.iq_filter = parts.iq_filter;
        self.audio_filter = parts.audio_filter;
        self.fm_demod = parts.fm_demod;
        self.de_emphasis = parts.de_emphasis;
        self.iq_decim = plan.iq_decim;
        self.audio_decim = plan.audio_decim;
    }

    /// Processes a block of raw samples.
    pub fn process(&mut self, raw_iq: &[u8]) -> (result: DspResult<A>)
        requires
            old(self).valid(),
        ensures
            final(self).valid(),
            old(self).is_processed(raw_iq@, *final(self), result),
    {
        let ghost before = *self;
        let iq: Vec<A::Iq> = u8_iq_to_complex::<A>(raw_iq);

        let spectrum: Vec<A::Real> = if iq.len() >= self.config.fft_size {
            compute_spectrum::<A>(iq.as_slice(), self.config.fft_size)
        } else {
            flat_line::<A>(self.waterfall.min_db, self.config.fft_size)
        };
        self.waterfall.push_line(spectrum.as_slice());

        let narrowed: Vec<A::Iq> = self.iq_filter.filter_decimate(iq.as_slice(), self.iq_decim);

        let demodulated: Vec<A::Real> = match self.config.mode {
            DemodMode::AM => am_demod::<A>(narrowed.as_slice()),
            _ => self.fm_demod.demodulate(narrowed.as_slice()),
        };
        let ghost demodulated_seq = demodulated@;

        // The decimation to the audio rate comes before the de-emphasis, whose
        // time constant holds at that rate.
        let mut audio: Vec<A::Real> = if self.audio_decim > 1 {
            self.audio_filter.filter_decimate(demodulated.as_slice(), self.audio_decim)
        } else {
            demodulated
        };
        let ghost decimated_seq = audio@;

        if self.config.mode == DemodMode::WFM {
            self.de_emphasis.process(audio.as_mut_slice());
        }
        let ghost stages = Stages::<A> {
            iq: iq@,
            narrowed: narrowed@,
            demodulated: demodulated_seq,
            decimated: decimated_seq,
            shaped: audio@,
        };
        let audio: Vec<A::Real> = clamp_all::<A>(audio.as_slice());
        let result: DspResult<A> = DspResult { spectrum, audio };
        assert(before.are_stages(raw_iq@, stages));
        assert(before.is_advanced(stages, *self));
        result
    }
}

/// `n` times the same level.
fn flat_line<A: Arithmetic>(level: A::Real, n: usize) -> (out: Vec<A::Real>)
    ensures
        out@ == Seq::new(n as nat, |i: int| level),
{
    let mut out: Vec<A::Real> = Vec::new();
    let mut i: usize = 0;
    while i < n
        invariant
            i <= n,
            out@ == Seq::new(i as nat, |j: int| level),
        decreases n - i,
    {
        out.push(level);
        i = i + 1;
    }
    out
}

fn clamp_all<A: Arithmetic>(samples: &[A::Real]) -> (out: Vec<A::Real>)
    ensures
        is_clamped::<A>(samples@, out@),
{
    let mut out: Vec<A::Real> = Vec::new();
    let mut i: usize = 0;
    while i < samples.len()
        invariant
            i <= samples@.len(),
            out@.len() == i,
            forall|j: int| #![trigger out@[j]]
                0 <= j < i ==> is_in_unit_range::<A>(samples@[j], out@[j]),
        decreases samples@.len() - i,
    {
        let low: A::Real = A::integer(-1);
        let high: A::Real = A::integer(1);
        out.push(A::clamp(samples[i], low, high));
        i = i + 1;
    }
    out
}

/// A block of raw samples gives a spectrum of the configured length and one
/// audio sample for each time that both decimations keep one.
pub proof fn result_lengths<A: Arithmetic>(
    before: DspPipeline<A>,
    raw: Seq<u8>,
    after: DspPipeline<A>,
    result: DspResult<A>,
)
    requires
        before.valid(),
        before.is_processed(raw, after, result),
    ensures
        result.spectrum@.len() == before.config.fft_size,
        result.audio@.len() == decimated_len(
            decimated_len((raw.len() / 2) as int, before.iq_decim as int),
            before.audio_decim as int,
        ),
{
    let stages = choose|stages: Stages<A>|
        {
            &&& #[trigger] before.are_stages(raw, stages)
            &&& before.is_advanced(stages, after)
            &&& before.is_shown(stages.iq, result.spectrum@)
            &&& before.waterfall.is_pushed(result.spectrum@, after.waterfall)
            &&& is_clamped::<A>(stages.shaped, result.audio@)
        };
    if before.audio_decim == 1 {
        let n = stages.demodulated.len() as int;
        assert(decimated_len(n, 1) == n);
    }
}

/// At 2.4 million samples a second a chain that decimates as its mode asks for
/// delivers 48 kilohertz: in every mode fifty complex samples give one audio
/// sample. It goes on decimating that way.
pub proof fn fifty_samples_give_one_audio_sample<A: Arithmetic>(
    before: DspPipeline<A>,
    raw: Seq<u8>,
    after: DspPipeline<A>,
    result: DspResult<A>,
    n: int,
)
    requires
        before.valid(),
        before.config.sample_rate == 2_400_000,
        before.config.audio_rate == 48_000,
        before.iq_decim == mode_plan(before.config).iq_decim,
        before.audio_decim == mode_plan(before.config).audio_decim,
        raw.len() == 2 * n,
        n % 50 == 0,
        before.is_processed(raw, after, result),
    ensures
        result.audio@.len() == n / 50,
        after.config == before.config,
        after.iq_decim == mode_plan(after.config).iq_decim,
        after.audio_decim == mode_plan(after.config).audio_decim,
{
    result_lengths(before, raw, after, result);
    let narrowed = decimated_len(n, before.iq_decim as int);
    match before.config.mode {
        DemodMode::WFM => {
            assert(before.iq_decim == 10 && before.audio_decim == 5);
            assert(narrowed == n / 10);
            assert(decimated_len(narrowed, 5) == n / 50);
        },
        _ => {
            assert(before.iq_decim == 50 && before.audio_decim == 1);
            assert(narrowed == n / 50);
        },
    }
}

/// The stages of two blocks put together.
pub open spec fn joined<A: Arithmetic>(first: Stages<A>, second: Stages<A>) -> Stages<A> {
    Stages {
        iq: first.iq + second.iq,
        narrowed: first.narrowed + second.narrowed,
        demodulated: first.demodulated + second.demodulated,
        decimated: first.decimated + second.decimated,
        shaped: first.shaped + second.shaped,
    }
}

/// In the FM modes two blocks processed one after the other give the audio that
/// they give as one block, and leave the chain in the same state, where the
/// first ends with a whole pair and its samples fill whole decimation periods.
pub proof fn audio_of_consecutive_blocks<A: Arithmetic>(
    start: DspPipeline<A>,
    raw_first: Seq<u8>,
    first: Stages<A>,
    middle: DspPipeline<A>,
    raw_second: Seq<u8>,
    second: Stages<A>,
    end: DspPipeline<A>,
)
    requires
        start.valid(),
        start.config.mode != DemodMode::AM,
        raw_first.len() % 2 == 0,
        first.iq.len() % (start.iq_decim as nat) == 0,
        start.audio_decim > 1 ==> first.demodulated.len() % (start.audio_decim as nat) == 0,
        start.are_stages(raw_first, first),
        start.is_advanced(first, middle),
        middle.are_stages(raw_second, second),
        middle.is_advanced(second, end),
    ensures
        start.are_stages(raw_first + raw_second, joined(first, second)),
        start.is_advanced(joined(first, second), end),
{
    crate::spectrum::conversion_of_consecutive_blocks::<A>(
        raw_first,
        raw_second,
        first.iq,
        second.iq,
    );
    crate::filter::iq_filter_of_consecutive_blocks::<A>(
        start.iq_filter.taps(),
        start.iq_filter.history(),
        first.iq,
        second.iq,
        start.iq_decim as int,
        first.narrowed,
        second.narrowed,
    );
    crate::filter::history_of_consecutive_blocks(start.iq_filter.history(), first.iq, second.iq);
    crate::demodulate::fm_of_consecutive_blocks::<A>(
        start.fm_demod.prev,
        start.fm_demod.gain,
        first.narrowed,
        second.narrowed,
        first.demodulated,
        second.demodulated,
    );
    if start.audio_decim > 1 {
        crate::filter::filter_of_consecutive_blocks::<A>(
            start.audio_filter.taps(),
            start.audio_filter.history(),
            first.demodulated,
            second.demodulated,
            start.audio_decim as int,
            first.decimated,
            second.decimated,
        );
        crate::filter::history_of_consecutive_blocks(
            start.audio_filter.history(),
            first.demodulated,
            second.demodulated,
        );
    }
    if start.config.mode == DemodMode::WFM {
        crate::demodulate::de_emphasis_of_consecutive_blocks::<A>(
            start.de_emphasis.alpha,
            start.de_emphasis.prev,
            first.decimated,
            second.decimated,
            first.shaped,
            second.shaped,
        );
    }
}

} // verus!
