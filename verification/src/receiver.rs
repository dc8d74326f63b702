//! The RTL-SDR receiver: settings, and the operations that change them.

use vstd::prelude::*;

use crate::demod::{
    if_registers, if_word, rate_of_ratio, rate_ratio, resampler_ratio, LPF_COEFS, LPF_FIRST_REG,
};
use crate::operation::{DriverError, Op, Operation, Progress};
use crate::transfer::{DEFAULT_BLOCK_SIZE, RTL2832_PRODUCT_IDS, RTL2832_VENDOR_ID};
use crate::tuner::{
    div_num, lna_index, manual_gain, mixer_index, pll_fraction, pll_nint, pll_sdm, pll_settings,
    GAIN_MAX, PLL_NINT_MIN, R820T_FIRST_REG, R820T_IF_FREQ, R820T_INIT_REGS,
};

verus! {

// USB block registers.
pub const USB_SYSCTL: u16 = 0x2000;

pub const USB_EPA_CTL: u16 = 0x2148;

pub const USB_EPA_MAXPKT: u16 = 0x2158;

// System block registers.
pub const SYS_DEMOD_CTL: u16 = 0x3000;

pub const SYS_DEMOD_CTL1: u16 = 0x300B;

// ── Operations as contracts speak of them ──────────────────────────────────

/// The write of a one-byte demodulator register.
pub open spec fn demod_byte(page: u16, addr: u16, val: u16) -> Op {
    Op::DemodReg { page, addr, val, len: 1 }
}

/// Opens the way to the tuner.
pub open spec fn i2c_opened() -> Op {
    demod_byte(1, 0x01, 0x18)
}

/// Closes the way to the tuner.
pub open spec fn i2c_closed() -> Op {
    demod_byte(1, 0x01, 0x10)
}

/// Initialisation of the RTL2832U.
pub open spec fn rtl2832u_init_ops() -> Seq<Op> {
    seq![
        Op::UsbReg { addr: USB_SYSCTL, val: 0x09, len: 1 },
        Op::UsbReg { addr: USB_EPA_MAXPKT, val: 0x0200, len: 2 },
        Op::UsbReg { addr: USB_EPA_CTL, val: 0x0210, len: 2 },
        Op::SysReg { addr: SYS_DEMOD_CTL1, val: 0x22 },
        Op::SysReg { addr: SYS_DEMOD_CTL, val: 0xE8 },
        demod_byte(1, 0x01, 0x14),
        demod_byte(1, 0x01, 0x10),
        demod_byte(1, 0x15, 0x01),
        demod_byte(1, 0x16, 0x00),
        demod_byte(1, 0x17, 0x00),
        demod_byte(1, 0x18, 0x00),
        demod_byte(1, 0x19, 0x00),
        demod_byte(1, 0x1A, 0x00),
        demod_byte(1, 0x1B, 0x00),
    ] + lpf_ops() + seq![
        demod_byte(0, 0x19, 0x05),
        demod_byte(1, 0x93, 0xF0),
        demod_byte(1, 0x94, 0x0F),
        demod_byte(1, 0x11, 0x00),
        demod_byte(1, 0x04, 0x00),
        demod_byte(0, 0x61, 0x60),
        demod_byte(0, 0x06, 0x80),
        demod_byte(1, 0xB1, 0x1B),
        demod_byte(0, 0x0D, 0x83),
    ]
}

/// The low-pass filter coefficients, one register each.
pub open spec fn lpf_ops() -> Seq<Op> {
    Seq::new(
        20,
        |i: int| demod_byte(1, (LPF_FIRST_REG + i) as u16, LPF_COEFS@[i] as u16),
    )
}

/// The initial tuner registers, one write each.
pub open spec fn r820t_init_ops() -> Seq<Op> {
    Seq::new(
        27,
        |i: int| Op::TunerReg { reg: (R820T_FIRST_REG + i) as u8, val: R820T_INIT_REGS@[i] },
    )
}

/// The multiplier for an intermediate frequency, in its three registers.
pub open spec fn if_frequency_ops(freq: u32) -> Seq<Op> {
    seq![
        demod_byte(1, 0x19, (if_word(freq) / 0x1_0000) as u16),
        demod_byte(1, 0x1A, ((if_word(freq) / 0x100) % 0x100) as u16),
        demod_byte(1, 0x1B, (if_word(freq) % 0x100) as u16),
    ]
}

/// The resampler ratio in its two registers, then a reset of the demodulator.
pub open spec fn sample_rate_ops(rate: u32) -> Seq<Op> {
    seq![
        Op::DemodReg { page: 1, addr: 0x9F, val: (rate_ratio(rate) / 0x1_0000) as u16, len: 2 },
        Op::DemodReg { page: 1, addr: 0xA1, val: (rate_ratio(rate) % 0x1_0000) as u16, len: 2 },
        demod_byte(1, 0x01, 0x14),
        demod_byte(1, 0x01, 0x10),
    ]
}

/// Whether the tuner's PLL can be told `freq`.
pub open spec fn tunable(freq: u32) -> bool {
    pll_nint(freq) >= PLL_NINT_MIN
}

/// The PLL settings for `freq`, then up to twenty looks at the lock flag.
pub open spec fn tuner_freq_ops(freq: u32) -> Seq<Op>
    recommends
        tunable(freq),
{
    let steps = (pll_nint(freq) - PLL_NINT_MIN) as int;
    seq![
        Op::TunerReg { reg: 0x14, val: ((steps % 4) * 64 + steps / 4) as u8 },
        if pll_fraction(freq) == 0 {
            Op::TunerUpdate { reg: 0x12, keep: 0xFF, set: 0x08 }
        } else {
            Op::TunerUpdate { reg: 0x12, keep: 0xF7, set: 0x00 }
        },
        Op::TunerReg { reg: 0x16, val: (pll_sdm(freq) / 0x100) as u8 },
        Op::TunerReg { reg: 0x15, val: (pll_sdm(freq) % 0x100) as u8 },
        Op::TunerUpdate { reg: 0x10, keep: 0x1F, set: (div_num(freq) * 32) as u8 },
        Op::AwaitLock { attempts: 20 },
    ]
}

/// The gain settings: a gain of zero leaves amplifier and mixer to the tuner,
/// any other sets them.
pub open spec fn tuner_gain_ops(gain_tenth_db: i32) -> Seq<Op> {
    if gain_tenth_db == 0 {
        seq![
            Op::TunerUpdate { reg: 0x05, keep: 0xEF, set: 0x00 },
            Op::TunerUpdate { reg: 0x07, keep: 0xFF, set: 0x10 },
            Op::TunerUpdate { reg: 0x0C, keep: 0x60, set: 0x0B },
        ]
    } else {
        seq![
            Op::TunerUpdate { reg: 0x05, keep: 0xE0, set: (0x10 + lna_index(gain_tenth_db)) as u8 },
            Op::TunerUpdate { reg: 0x07, keep: 0xE0, set: mixer_index(gain_tenth_db) as u8 },
            Op::TunerUpdate { reg: 0x0C, keep: 0x60, set: 0x08 },
        ]
    }
}

/// Stops and empties the sample buffer, then lets it run.
pub open spec fn reset_ops() -> Seq<Op> {
    seq![
        Op::UsbReg { addr: USB_EPA_CTL, val: 0x0210, len: 2 },
        Op::UsbReg { addr: USB_EPA_CTL, val: 0x0000, len: 2 },
    ]
}

/// Retuning: a frequency that the tuner cannot be told leaves it at that the
/// way to the tuner was opened.
pub open spec fn center_freq_ops(freq: u32) -> Seq<Op> {
    if tunable(freq) {
        seq![i2c_opened()] + tuner_freq_ops(freq) + seq![i2c_closed()]
    } else {
        seq![i2c_opened()]
    }
}

/// Change of the gain.
pub open spec fn gain_ops(gain_tenth_db: i32) -> Seq<Op> {
    seq![i2c_opened()] + tuner_gain_ops(gain_tenth_db) + seq![i2c_closed()]
}

/// Start of the receiver up to and without tuning.
pub open spec fn power_up_ops(rate: u32) -> Seq<Op> {
    seq![Op::Open, Op::SelectConfiguration { number: 1 }, Op::ClaimInterface { number: 0 }]
        + rtl2832u_init_ops() + seq![i2c_opened()] + r820t_init_ops() + seq![i2c_closed()]
        + if_frequency_ops(R820T_IF_FREQ) + sample_rate_ops(rate)
}

/// Start of the receiver.
pub open spec fn start_ops(config: RtlSdrConfig) -> Seq<Op> {
    if tunable(config.center_freq) {
        power_up_ops(config.sample_rate) + center_freq_ops(config.center_freq) + gain_ops(
            config.gain,
        ) + reset_ops()
    } else {
        power_up_ops(config.sample_rate) + center_freq_ops(config.center_freq)
    }
}

/// The error that tuning to `freq` ends with.
pub open spec fn tuning_verdict(freq: u32) -> Option<DriverError> {
    if tunable(freq) {
        None
    } else {
        Some(DriverError::PllNintTooSmall)
    }
}

// ── Building the operations ────────────────────────────────────────────────

spec fn all_valid(ops: Seq<Op>) -> bool {
    forall|i: int| 0 <= i < ops.len() ==> (#[trigger] ops[i]).valid()
}

fn demod_byte_op(page: u16, addr: u16, val: u16) -> (res: Op)
    ensures
        res == demod_byte(page, addr, val),
{
    Op::DemodReg { page, addr, val, len: 1 }
}

/// The access that opens the way to the tuner.
pub fn open_i2c() -> (res: Op)
    ensures
        res == i2c_opened(),
{
    demod_byte_op(1, 0x01, 0x18)
}

/// The access that closes the way to the tuner.
pub fn close_i2c() -> (res: Op)
    ensures
        res == i2c_closed(),
{
    demod_byte_op(1, 0x01, 0x10)
}

/// Initialisation of the RTL2832U.
pub fn init_rtl2832u() -> (res: Vec<Op>)
    ensures
        res@ == rtl2832u_init_ops(),
{
    let mut ops: Vec<Op> = vec![
        Op::UsbReg { addr: USB_SYSCTL, val: 0x09, len: 1 },
        // EPA: packets of 512 bytes, stall and FIFO reset.
        Op::UsbReg { addr: USB_EPA_MAXPKT, val: 0x0200, len: 2 },
        Op::UsbReg { addr: USB_EPA_CTL, val: 0x0210, len: 2 },
        // ADC and PLL on.
        Op::SysReg { addr: SYS_DEMOD_CTL1, val: 0x22 },
        Op::SysReg { addr: SYS_DEMOD_CTL, val: 0xE8 },
        // Reset of the demodulator.
        demod_byte_op(1, 0x01, 0x14),
        demod_byte_op(1, 0x01, 0x10),
        // The R820T delivers an inverted spectrum.
        demod_byte_op(1, 0x15, 0x01),
        // No carrier offset.
        demod_byte_op(1, 0x16, 0x00),
        demod_byte_op(1, 0x17, 0x00),
        demod_byte_op(1, 0x18, 0x00),
        // No intermediate frequency yet.
        demod_byte_op(1, 0x19, 0x00),
        demod_byte_op(1, 0x1A, 0x00),
        demod_byte_op(1, 0x1B, 0x00),
    ];
    let ghost head = ops@;
    let mut i: usize = 0;
    while i < 20
        invariant
            i <= 20,
            ops@ == head + lpf_ops().take(i as int),
        decreases 20 - i,
    {
        ops.push(demod_byte_op(1, LPF_FIRST_REG + i as u16, LPF_COEFS[i] as u16));
        i = i + 1;
        assert(lpf_ops().take(i as int) =~= lpf_ops().take(i - 1).push(lpf_ops()[i - 1]));
    }
    assert(lpf_ops().take(20) =~= lpf_ops());
    let mut tail: Vec<Op> = vec![
        // SDR mode.
        demod_byte_op(0, 0x19, 0x05),
        // FSM.
        demod_byte_op(1, 0x93, 0xF0),
        demod_byte_op(1, 0x94, 0x0F),
        // No digital gain control, no gain control loop.
        demod_byte_op(1, 0x11, 0x00),
        demod_byte_op(1, 0x04, 0x00),
        // Error packets.
        demod_byte_op(0, 0x61, 0x60),
        // ADC datapath.
        demod_byte_op(0, 0x06, 0x80),
        // Zero intermediate frequency.
        demod_byte_op(1, 0xB1, 0x1B),
        // Clock output.
        demod_byte_op(0, 0x0D, 0x83),
    ];
    ops.append(&mut tail);
    ops
}

/// The initial contents of the tuner registers.
pub fn init_r820t() -> (res: Vec<Op>)
    ensures
        res@ == r820t_init_ops(),
{
    let mut ops: Vec<Op> = Vec::new();
    let mut i: usize = 0;
    while i < 27
        invariant
            i <= 27,
            ops@ == r820t_init_ops().take(i as int),
        decreases 27 - i,
    {
        ops.push(Op::TunerReg { reg: R820T_FIRST_REG + i as u8, val: R820T_INIT_REGS[i] });
        i = i + 1;
        assert(r820t_init_ops().take(i as int) =~= r820t_init_ops().take(i - 1).push(
            r820t_init_ops()[i - 1],
        ));
    }
    assert(r820t_init_ops().take(27) =~= r820t_init_ops());
    ops
}

/// Sets the intermediate frequency that the demodulator expects.
pub fn set_if_frequency(freq: u32) -> (res: Vec<Op>)
    ensures
        res@ == if_frequency_ops(freq),
{
    let (high, middle, low): (u8, u8, u8) = if_registers(freq);
    vec![
        demod_byte_op(1, 0x19, high as u16),
        demod_byte_op(1, 0x1A, middle as u16),
        demod_byte_op(1, 0x1B, low as u16),
    ]
}

/// Tunes the R820T, or `None` where the PLL cannot be told the frequency.
pub fn set_r820t_freq(freq: u32) -> (res: Option<Vec<Op>>)
    ensures
        res is Some <==> tunable(freq),
        res matches Some(ops) ==> ops@ == tuner_freq_ops(freq),
{
    match pll_settings(freq) {
        None => None,
        Some(pll) => {
            let ni: u8 = pll.steps / 4;
            let si: u8 = pll.steps % 4;
            let r12: Op = if pll.fractional {
                Op::TunerUpdate { reg: 0x12, keep: 0xF7, set: 0x00 }
            } else {
                Op::TunerUpdate { reg: 0x12, keep: 0xFF, set: 0x08 }
            };
            proof {
                crate::tuner::pll_settings_bounds(freq);
            }
            Some(
                vec![
                    Op::TunerReg { reg: 0x14, val: si * 64 + ni },
                    r12,
                    Op::TunerReg { reg: 0x16, val: (pll.sdm / 0x100) as u8 },
                    Op::TunerReg { reg: 0x15, val: (pll.sdm % 0x100) as u8 },
                    Op::TunerUpdate { reg: 0x10, keep: 0x1F, set: pll.div_num * 32 },
                    Op::AwaitLock { attempts: 20 },
                ],
            )
        },
    }
}

/// Sets the gain of the R820T. A gain of zero leaves the low-noise amplifier
/// and the mixer to the tuner's own control; any other gain, in tenths of a
/// decibel, sets them.
///
/// In register 0x05 bit 4 stands for a manual amplifier, in register 0x07 bit 4
/// stands for an automatic mixer.
pub fn set_r820t_gain(gain_tenth_db: i32) -> (res: Vec<Op>)
    requires
        gain_tenth_db <= GAIN_MAX,
    ensures
        res@ == tuner_gain_ops(gain_tenth_db),
{
    if gain_tenth_db == 0 {
        vec![
            Op::TunerUpdate { reg: 0x05, keep: 0xEF, set: 0x00 },
            Op::TunerUpdate { reg: 0x07, keep: 0xFF, set: 0x10 },
            Op::TunerUpdate { reg: 0x0C, keep: 0x60, set: 0x0B },
        ]
    } else {
        let (lna, mixer): (u8, u8) = manual_gain(gain_tenth_db);
        vec![
            Op::TunerUpdate { reg: 0x05, keep: 0xE0, set: 0x10 + lna },
            Op::TunerUpdate { reg: 0x07, keep: 0xE0, set: mixer },
            Op::TunerUpdate { reg: 0x0C, keep: 0x60, set: 0x08 },
        ]
    }
}

/// Sets the resampler ratio and resets the demodulator. Also gives the sample
/// rate that results.
fn set_resampler(rate: u32) -> (res: (Vec<Op>, u32))
    ensures
        res.0@ == sample_rate_ops(rate),
        res.1 == rate_of_ratio(rate_ratio(rate)),
{
    let (ratio, real_rate): (u32, u32) = resampler_ratio(rate);
    let ops: Vec<Op> = vec![
        Op::DemodReg { page: 1, addr: 0x9F, val: (ratio / 0x1_0000) as u16, len: 2 },
        Op::DemodReg { page: 1, addr: 0xA1, val: (ratio % 0x1_0000) as u16, len: 2 },
        demod_byte_op(1, 0x01, 0x14),
        demod_byte_op(1, 0x01, 0x10),
    ];
    (ops, real_rate)
}

fn reset_buffer_ops() -> (res: Vec<Op>)
    ensures
        res@ == reset_ops(),
{
    vec![
        Op::UsbReg { addr: USB_EPA_CTL, val: 0x0210, len: 2 },
        Op::UsbReg { addr: USB_EPA_CTL, val: 0x0000, len: 2 },
    ]
}

/// The accesses that retune, and whether the tuner can be told the frequency.
fn retune(freq: u32) -> (res: (Vec<Op>, bool))
    ensures
        res.0@ == center_freq_ops(freq),
        res.1 == tunable(freq),
{
    let mut ops: Vec<Op> = vec![open_i2c()];
    assert(ops@ =~= seq![i2c_opened()]);
    match set_r820t_freq(freq) {
        None => (ops, false),
        Some(tuning) => {
            let mut tuning: Vec<Op> = tuning;
            ops.append(&mut tuning);
            ops.push(close_i2c());
            assert(ops@ =~= center_freq_ops(freq));
            (ops, true)
        },
    }
}

fn regain(gain_tenth_db: i32) -> (res: Vec<Op>)
    requires
        gain_tenth_db <= GAIN_MAX,
    ensures
        res@ == gain_ops(gain_tenth_db),
{
    let mut ops: Vec<Op> = vec![open_i2c()];
    assert(ops@ =~= seq![i2c_opened()]);
    let mut gain: Vec<Op> = set_r820t_gain(gain_tenth_db);
    ops.append(&mut gain);
    ops.push(close_i2c());
    assert(ops@ =~= gain_ops(gain_tenth_db));
    ops
}

// ── The receiver ───────────────────────────────────────────────────────────

/// The settings with which a receiver is started.
#[derive(Clone, Copy, Debug)]
pub struct RtlSdrConfig {
    pub center_freq: u32,
    pub sample_rate: u32,
    pub gain: i32,
}

impl Default for RtlSdrConfig {
    fn default() -> (res: RtlSdrConfig)
        ensures
            res.center_freq == 100_000_000,
            res.sample_rate == 2_400_000,
            res.gain == 0,
    {
        RtlSdrConfig { center_freq: 100_000_000, sample_rate: 2_400_000, gain: 0 }
    }
}

/// Which USB devices to look for.
#[derive(Clone, Copy, Debug, PartialEq, Eq, Structural)]
pub struct DeviceFilter {
    pub vendor_id: u16,
    pub product_id: u16,
}

/// The filters for every dongle that this receiver drives.
pub fn device_filters() -> (res: Vec<DeviceFilter>)
    ensures
        res@ == seq![
            DeviceFilter { vendor_id: RTL2832_VENDOR_ID, product_id: RTL2832_PRODUCT_IDS@[0] },
            DeviceFilter { vendor_id: RTL2832_VENDOR_ID, product_id: RTL2832_PRODUCT_IDS@[1] },
        ],
        res@ == seq![
            DeviceFilter { vendor_id: 0x0BDA, product_id: 0x2832 },
            DeviceFilter { vendor_id: 0x0BDA, product_id: 0x2838 },
        ],
{
    vec![
        DeviceFilter { vendor_id: RTL2832_VENDOR_ID, product_id: RTL2832_PRODUCT_IDS[0] },
        DeviceFilter { vendor_id: RTL2832_VENDOR_ID, product_id: RTL2832_PRODUCT_IDS[1] },
    ]
}

/// The setting that an operation changes.
#[derive(Clone, Copy, Debug, PartialEq, Eq, Structural)]
pub enum Change {
    Nothing,
    Frequency(u32),
    SampleRate(u32),
    Gain(i32),
}

/// An operation and the setting that takes effect once it has succeeded.
#[derive(Debug)]
pub struct Command {
    pub operation: Operation,
    pub change: Change,
}

/// How a bulk transfer ended.
#[derive(Clone, Copy, Debug, PartialEq, Eq, Structural)]
pub enum TransferStatus {
    Complete,
    Stall,
    Other,
}

/// What to do with the result of a bulk transfer.
#[derive(Debug)]
pub enum BulkRead {
    /// Clear the halt of the endpoint, whatever comes of it, and go on with
    /// these samples in place of those that were lost.
    ClearHalt { samples: Vec<u8> },
    Samples { samples: Vec<u8> },
    /// The transfer ended with another status.
    BadStatus,
    /// The transfer ended well but brought nothing.
    NoData,
}

/// The receiver's settings.
#[derive(Clone, Copy, Debug, PartialEq, Eq, Structural)]
pub struct RtlSdr {
    pub tuner_freq: u32,
    pub sample_rate: u32,
    pub gain: i32,
}

impl RtlSdr {
    /// The settings once `change` has taken effect.
    pub open spec fn with(self, change: Change) -> RtlSdr {
        match change {
            Change::Nothing => self,
            Change::Frequency(freq) => RtlSdr { tuner_freq: freq, ..self },
            Change::SampleRate(rate) => RtlSdr { sample_rate: rate, ..self },
            Change::Gain(gain) => RtlSdr { gain, ..self },
        }
    }

    /// A receiver with the settings of `config` and the command that starts it:
    /// the device is opened, the RTL2832U and the R820T are initialised, and
    /// intermediate frequency, sample rate, frequency and gain are set.
    pub fn new(config: &RtlSdrConfig) -> (res: (RtlSdr, Command))
        requires
            tunable(config.center_freq) ==> config.gain <= GAIN_MAX,
        ensures
            res.0 == (RtlSdr {
                tuner_freq: config.center_freq,
                sample_rate: config.sample_rate,
                gain: config.gain,
            }),
            res.1.operation@ == Progress::start(
                start_ops(*config),
                tuning_verdict(config.center_freq),
            ),
            res.1.change == Change::SampleRate(
                rate_of_ratio(rate_ratio(config.sample_rate)) as u32,
            ),
    {
        let sdr: RtlSdr = RtlSdr {
            tuner_freq: config.center_freq,
            sample_rate: config.sample_rate,
            gain: config.gain,
        };
        let mut ops: Vec<Op> = vec![
            Op::Open,
            Op::SelectConfiguration { number: 1 },
            Op::ClaimInterface { number: 0 },
        ];
        let mut demodulator: Vec<Op> = init_rtl2832u();
        ops.append(&mut demodulator);
        ops.push(open_i2c());
        let mut tuner: Vec<Op> = init_r820t();
        ops.append(&mut tuner);
        ops.push(close_i2c());
        // Without this the baseband is off by the intermediate frequency.
        let mut intermediate: Vec<Op> = set_if_frequency(R820T_IF_FREQ);
        ops.append(&mut intermediate);
        let (resampler, real_rate): (Vec<Op>, u32) = set_resampler(config.sample_rate);
        let mut resampler: Vec<Op> = resampler;
        ops.append(&mut resampler);
        assert(ops@ =~= power_up_ops(config.sample_rate));
        let (tuning, in_range): (Vec<Op>, bool) = retune(config.center_freq);
        let mut tuning: Vec<Op> = tuning;
        ops.append(&mut tuning);
        let verdict: Option<DriverError> = if in_range {
            let mut gain: Vec<Op> = regain(config.gain);
            ops.append(&mut gain);
            let mut reset: Vec<Op> = reset_buffer_ops();
            ops.append(&mut reset);
            None
        } else {
            Some(DriverError::PllNintTooSmall)
        };
        assert(ops@ =~= start_ops(*config));
        assert(all_valid(ops@));
        let command: Command = Command {
            operation: Operation::new(ops, verdict),
            change: Change::SampleRate(real_rate),
        };
        (sdr, command)
    }

    /// Tunes to `freq`.
    pub fn set_center_freq(&self, freq: u32) -> (res: Command)
        ensures
            res.operation@ == Progress::start(center_freq_ops(freq), tuning_verdict(freq)),
            res.change == Change::Frequency(freq),
    {
        let (ops, in_range): (Vec<Op>, bool) = retune(freq);
        let verdict: Option<DriverError> = if in_range {
            None
        } else {
            Some(DriverError::PllNintTooSmall)
        };
        assert(all_valid(ops@));
        Command { operation: Operation::new(ops, verdict), change: Change::Frequency(freq) }
    }

    /// Sets the sample rate to what the resampler makes of `rate`.
    pub fn set_sample_rate(&self, rate: u32) -> (res: Command)
        ensures
            res.operation@ == Progress::start(sample_rate_ops(rate), None),
            res.change == Change::SampleRate(rate_of_ratio(rate_ratio(rate)) as u32),
    {
        let (ops, real_rate): (Vec<Op>, u32) = set_resampler(rate);
        assert(all_valid(ops@));
        Command { operation: Operation::new(ops, None), change: Change::SampleRate(real_rate) }
    }

    /// Sets the gain, in tenths of a decibel; zero stands for automatic gain.
    pub fn set_gain(&self, gain_tenth_db: i32) -> (res: Command)
        requires
            gain_tenth_db <= GAIN_MAX,
        ensures
            res.operation@ == Progress::start(gain_ops(gain_tenth_db), None),
            res.change == Change::Gain(gain_tenth_db),
    {
        let ops: Vec<Op> = regain(gain_tenth_db);
        assert(all_valid(ops@));
        Command { operation: Operation::new(ops, None), change: Change::Gain(gain_tenth_db) }
    }

    /// Empties the sample buffer.
    pub fn reset_buffer(&self) -> (res: Command)
        ensures
            res.operation@ == Progress::start(reset_ops(), None),
            res.change == Change::Nothing,
    {
        let ops: Vec<Op> = reset_buffer_ops();
        assert(all_valid(ops@));
        Command { operation: Operation::new(ops, None), change: Change::Nothing }
    }

    /// Releases and closes the device.
    pub fn close(&self) -> (res: Command)
        ensures
            res.operation@ == Progress::start(
                seq![Op::ReleaseInterface { number: 0 }, Op::Close],
                None,
            ),
            res.change == Change::Nothing,
    {
        let ops: Vec<Op> = vec![Op::ReleaseInterface { number: 0 }, Op::Close];
        assert(all_valid(ops@));
        Command { operation: Operation::new(ops, None), change: Change::Nothing }
    }

    /// Takes a finished command: its change takes effect where it has
    /// succeeded, and the settings stay as they are where it has not.
    pub fn finish(&mut self, command: &Command) -> (res: Result<(), DriverError>)
        requires
            command.operation@.finished(),
        ensures
            match command.operation@.outcome() {
                None => res is Ok && *final(self) == old(self).with(command.change),
                Some(e) => res == Err::<(), DriverError>(e) && *final(self) == *old(self),
            },
    {
        match command.operation.outcome() {
            Some(Err(e)) => Err(e),
            _ => {
                match command.change {
                    Change::Nothing => {},
                    Change::Frequency(freq) => {
                        self.tuner_freq = freq;
                    },
                    Change::SampleRate(rate) => {
                        self.sample_rate = rate;
                    },
                    Change::Gain(gain) => {
                        self.gain = gain;
                    },
                }
                Ok(())
            },
        }
    }

    /// Judges the result of a bulk transfer that asked for `length` bytes. A
    /// stalled transfer counts as one that brought zeros.
    pub fn read_samples(
        &self,
        length: u32,
        status: TransferStatus,
        data: Option<Vec<u8>>,
    ) -> (res: BulkRead)
        ensures
            match status {
                TransferStatus::Stall => res matches BulkRead::ClearHalt { samples } && samples@
                    == Seq::new(length as nat, |i: int| 0u8),
                TransferStatus::Other => res is BadStatus,
                TransferStatus::Complete => match data {
                    Some(bytes) => res matches BulkRead::Samples { samples } && samples@ == bytes@,
                    None => res is NoData,
                },
            },
    {
        match status {
            TransferStatus::Stall => {
                let samples: Vec<u8> = vec![0u8; length as usize];
                assert(samples@ =~= Seq::new(length as nat, |i: int| 0u8));
                BulkRead::ClearHalt { samples }
            },
            TransferStatus::Other => BulkRead::BadStatus,
            TransferStatus::Complete => match data {
                Some(samples) => BulkRead::Samples { samples },
                None => BulkRead::NoData,
            },
        }
    }

    /// How many bytes to ask for when reading one block.
    pub fn read_block(&self) -> (res: u32)
        ensures
            res == DEFAULT_BLOCK_SIZE,
            res == 131_072,
    {
        DEFAULT_BLOCK_SIZE
    }

    pub fn tuner_freq(&self) -> (res: u32)
        ensures
            res == self.tuner_freq,
    {
        self.tuner_freq
    }

    pub fn sample_rate(&self) -> (res: u32)
        ensures
            res == self.sample_rate,
    {
        self.sample_rate
    }
}

} // verus!
