//! Configuration of the signal-processing chain.

use vstd::prelude::*;

verus! {

/// Demodulation mode.
#[derive(Clone, Copy, Debug, PartialEq, Eq, Structural)]
pub enum DemodMode {
    /// Wideband FM (broadcast radio).
    WFM,
    /// Narrowband FM (walkie-talkie, amateur).
    NFM,
    /// Amplitude modulation.
    AM,
}

/// Configuration for the DSP pipeline.
#[derive(Clone, Copy, Debug)]
pub struct DspConfig {
    pub sample_rate: u32,
    pub fft_size: usize,
    pub mode: DemodMode,
    pub audio_rate: u32,
}

/// The intermediate rate of wideband FM (Hz).
pub const WFM_RATE: u32 = 240_000;

/// The intermediate rate of the narrow modes (Hz).
pub const NARROW_RATE: u32 = 48_000;

/// How a mode filters and decimates.
#[derive(Clone, Copy, Debug, PartialEq, Eq, Structural)]
pub struct ModePlan {
    /// Cutoff of the filter on the complex samples (Hz).
    pub iq_cutoff: u32,
    /// Decimation of the complex samples.
    pub iq_decim: usize,
    /// Largest frequency deviation (Hz).
    pub fm_deviation: u32,
    /// Decimation of the audio samples.
    pub audio_decim: usize,
}

/// A decimation factor: `ratio`, but at least one.
pub open spec fn decimation(ratio: u32) -> usize {
    if ratio == 0 {
        1
    } else {
        ratio as usize
    }
}

/// How `config` filters and decimates.
pub open spec fn mode_plan(config: DspConfig) -> ModePlan {
    match config.mode {
        DemodMode::WFM => ModePlan {
            iq_cutoff: 120_000,
            iq_decim: decimation(config.sample_rate / WFM_RATE),
            fm_deviation: 75_000,
            audio_decim: decimation(WFM_RATE / config.audio_rate),
        },
        DemodMode::NFM => ModePlan {
            iq_cutoff: 8_000,
            iq_decim: decimation(config.sample_rate / NARROW_RATE),
            fm_deviation: 5_000,
            audio_decim: 1,
        },
        DemodMode::AM => ModePlan {
            iq_cutoff: 5_000,
            iq_decim: decimation(config.sample_rate / NARROW_RATE),
            fm_deviation: 5_000,
            audio_decim: 1,
        },
    }
}

fn decimation_factor(ratio: u32) -> (res: usize)
    ensures
        res == decimation(ratio),
{
    if ratio == 0 {
        1
    } else {
        ratio as usize
    }
}

impl DspConfig {
    /// How this configuration filters and decimates.
    pub fn plan(&self) -> (res: ModePlan)
        requires
            self.mode == DemodMode::WFM ==> self.audio_rate > 0,
        ensures
            res == mode_plan(*self),
    {
        match self.mode {
            DemodMode::WFM => ModePlan {
                iq_cutoff: 120_000,
                iq_decim: decimation_factor(self.sample_rate / WFM_RATE),
                fm_deviation: 75_000,
                audio_decim: decimation_factor(WFM_RATE / self.audio_rate),
            },
            DemodMode::NFM => ModePlan {
                iq_cutoff: 8_000,
                iq_decim: decimation_factor(self.sample_rate / NARROW_RATE),
                fm_deviation: 5_000,
                audio_decim: 1,
            },
            DemodMode::AM => ModePlan {
                iq_cutoff: 5_000,
                iq_decim: decimation_factor(self.sample_rate / NARROW_RATE),
                fm_deviation: 5_000,
                audio_decim: 1,
            },
        }
    }
}

impl DemodMode {
    /// The width of the passband (Hz): the filter's cutoff on both sides of the
    /// centre.
    pub open spec fn spec_passband(self) -> u32 {
        match self {
            DemodMode::WFM => 240_000,
            DemodMode::NFM => 16_000,
            DemodMode::AM => 10_000,
        }
    }

    /// The short name of the mode.
    pub open spec fn spec_label(self) -> Seq<char> {
        match self {
            DemodMode::WFM => "WFM"@,
            DemodMode::NFM => "NFM"@,
            DemodMode::AM => "AM"@,
        }
    }

    /// The mode that a mode selector's value stands for.
    pub open spec fn named(name: Seq<char>) -> DemodMode {
        if name == "nfm"@ {
            DemodMode::NFM
        } else if name == "am"@ {
            DemodMode::AM
        } else {
            DemodMode::WFM
        }
    }

    /// The mode that a mode selector's value stands for; an unknown value
    /// stands for wideband FM.
    pub fn from_name(name: &str) -> (res: DemodMode)
        ensures
            res == DemodMode::named(name@),
    {
        let name: String = name.to_owned();
        if name == "nfm".to_owned() {
            DemodMode::NFM
        } else if name == "am".to_owned() {
            DemodMode::AM
        } else {
            DemodMode::WFM
        }
    }

    /// The width of the passband (Hz).
    pub fn passband(&self) -> (res: u32)
        ensures
            res == self.spec_passband(),
    {
        match self {
            DemodMode::WFM => 240_000,
            DemodMode::NFM => 16_000,
            DemodMode::AM => 10_000,
        }
    }

    /// The short name of the mode.
    pub fn label(&self) -> (res: &'static str)
        ensures
            res@ == self.spec_label(),
    {
        match self {
            DemodMode::WFM => "WFM",
            DemodMode::NFM => "NFM",
            DemodMode::AM => "AM",
        }
    }
}

/// The passband of a mode is twice the cutoff of its filter.
pub proof fn passband_is_twice_the_cutoff(config: DspConfig)
    ensures
        config.mode.spec_passband() == 2 * mode_plan(config).iq_cutoff,
{
}

/// A mode's plan never decimates by zero, and the intermediate rate that
/// follows from a sample rate at or above the mode's own is at least that rate
/// and below twice of it.
pub proof fn intermediate_rate_is_near_the_modes_own(config: DspConfig)
    requires
        config.mode == DemodMode::WFM ==> config.audio_rate > 0,
    ensures
        mode_plan(config).iq_decim > 0,
        mode_plan(config).audio_decim > 0,
        ({
            let own = if config.mode == DemodMode::WFM {
                WFM_RATE as int
            } else {
                NARROW_RATE as int
            };
            let decim = mode_plan(config).iq_decim as int;
            config.sample_rate >= own ==> own * decim <= config.sample_rate < 2 * own * decim
        }),
{
    let rate = config.sample_rate as int;
    let decim = mode_plan(config).iq_decim as int;
    match config.mode {
        DemodMode::WFM => {
            assert((WFM_RATE / config.audio_rate) as int <= u32::MAX);
            if rate >= 240_000 {
                assert(decim == rate / 240_000);
                assert(240_000 * decim <= rate < 480_000 * decim);
            }
        },
        _ => {
            if rate >= 48_000 {
                assert(decim == rate / 48_000);
                assert(48_000 * decim <= rate < 96_000 * decim);
            }
        },
    }
}

/// The value of a mode selector is the short name of its mode in small letters,
/// and any other value stands for wideband FM.
pub proof fn modes_go_by_their_names(name: Seq<char>)
    ensures
        ({
            let label = DemodMode::named(name).spec_label();
            let capital = |c: char|
                if 'a' <= c <= 'z' {
                    (c as u32 - 32) as char
                } else {
                    c
                };
            DemodMode::named(name) != DemodMode::WFM ==> label == name.map_values(capital)
        }),
        DemodMode::named(name) == DemodMode::NFM <==> name == seq!['n', 'f', 'm'],
        DemodMode::named(name) == DemodMode::AM <==> name == seq!['a', 'm'],
        DemodMode::WFM.spec_label() == seq!['W', 'F', 'M'],
{
    reveal_strlit("nfm");
    reveal_strlit("am");
    reveal_strlit("WFM");
    reveal_strlit("NFM");
    reveal_strlit("AM");
    assert("nfm"@ =~= seq!['n', 'f', 'm']);
    assert("am"@ =~= seq!['a', 'm']);
    assert("WFM"@ =~= seq!['W', 'F', 'M']);
    assert("NFM"@ =~= seq!['N', 'F', 'M']);
    assert("AM"@ =~= seq!['A', 'M']);
    let capital = |c: char|
        if 'a' <= c <= 'z' {
            (c as u32 - 32) as char
        } else {
            c
        };
    if name == "nfm"@ {
        assert(name.map_values(capital) =~= seq!['N', 'F', 'M']);
    } else if name == "am"@ {
        assert(name.map_values(capital) =~= seq!['A', 'M']);
    }
}

} // verus!
