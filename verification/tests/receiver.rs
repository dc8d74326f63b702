use radioband::operation::{DriverError, Op, Operation, Reply};
use radioband::receiver::{
    close_i2c, device_filters, init_r820t, init_rtl2832u, open_i2c, set_if_frequency,
    set_r820t_freq, set_r820t_gain, BulkRead, Change, Command, DeviceFilter, RtlSdr, RtlSdrConfig,
    TransferStatus,
};
use radioband::transfer::{
    ctrl_in, ctrl_in_reply, ctrl_out, demod_read_reg, demod_write_reg, i2c_read, i2c_write, read_r820t_reg,
    set_sys_reg, set_usb_reg, write_r820t_reg, UsbRequest, BULK_ENDPOINT,
};
use radioband::tuner::R820T_INIT_REGS;

/// A dongle that keeps a record of what it is asked.
struct Dongle {
    log: Vec<String>,
    tuner: [u8; 256],
    demod: Vec<(u16, u16, Vec<u8>)>,
    open: bool,
    /// How many reads of the lock flag find it clear.
    unlocked_reads: usize,
    /// The request that fails, counted from zero.
    fails_at: Option<usize>,
}

impl Dongle {
    fn new() -> Dongle {
        Dongle {
            log: Vec::new(),
            tuner: [0xFF; 256],
            demod: Vec::new(),
            open: false,
            unlocked_reads: 0,
            fails_at: None,
        }
    }

    fn answer(&mut self, request: UsbRequest) -> Reply {
        let number = self.log.len();
        self.log.push(format!("{:?}", request));
        if self.fails_at == Some(number) {
            return Reply::Failed;
        }
        match request {
            UsbRequest::ControlOut { value: 0x34, index: 0x0610, data } => {
                assert!(self.open, "the tuner is reached while the repeater is closed");
                if data.len() == 2 {
                    self.tuner[data[0] as usize] = data[1];
                }
                Reply::Completed { data: None }
            }
            UsbRequest::ControlOut { value, index, data } => {
                assert_eq!(index & 0x10, 0x10);
                if index == 0x10 || index == 0x11 {
                    assert_eq!(value & 0xFF, 0x20);
                    if value == 0x0120 && index == 0x11 {
                        self.open = data[0] & 0x08 != 0;
                    }
                    self.demod.push((index & 0x0F, value >> 8, data));
                }
                Reply::Completed { data: None }
            }
            UsbRequest::ControlIn { value: 0x34, index: 0x0600, length } => {
                assert!(self.open && length >= 8);
                let mut data: Vec<u8> =
                    (0..length as usize).map(|i| self.tuner[i].reverse_bits()).collect();
                if length == 8 && self.log[number - 1].contains("[2]") {
                    let locked = self.unlocked_reads == 0;
                    self.unlocked_reads = self.unlocked_reads.saturating_sub(1);
                    data[2] = if locked { 0x40u8.reverse_bits() } else { 0 };
                }
                Reply::Completed { data: Some(data) }
            }
            UsbRequest::ControlIn { length, .. } => {
                Reply::Completed { data: Some(vec![0; length as usize]) }
            }
            _ => Reply::Completed { data: None },
        }
    }

    /// The bytes that were last written to a register of the demodulator.
    fn demod_reg(&self, page: u16, addr: u16) -> Vec<u8> {
        self.demod.iter().rev().find(|w| w.0 == page && w.1 == addr).unwrap().2.clone()
    }
}

fn run(operation: &mut Operation, dongle: &mut Dongle) -> Result<(), DriverError> {
    while let Some(request) = operation.request() {
        assert!(operation.outcome().is_none());
        let reply = dongle.answer(request);
        operation.resume(reply);
    }
    operation.outcome().unwrap()
}

fn carry_out(sdr: &mut RtlSdr, command: Command, dongle: &mut Dongle) -> Result<(), DriverError> {
    let mut command = command;
    let outcome = run(&mut command.operation, dongle);
    assert_eq!(sdr.finish(&command), outcome);
    outcome
}

fn started() -> (RtlSdr, Dongle) {
    let (mut sdr, command) = RtlSdr::new(&RtlSdrConfig::default());
    let mut dongle = Dongle::new();
    assert_eq!(carry_out(&mut sdr, command, &mut dongle), Ok(()));
    (sdr, dongle)
}

#[test]
fn dongles_are_found_by_vendor_and_product() {
    assert_eq!(
        device_filters(),
        vec![
            DeviceFilter { vendor_id: 0x0bda, product_id: 0x2832 },
            DeviceFilter { vendor_id: 0x0bda, product_id: 0x2838 },
        ]
    );
}

#[test]
fn default_settings_are_broadcast_fm() {
    let config = RtlSdrConfig::default();
    assert_eq!((config.center_freq, config.sample_rate, config.gain), (100_000_000, 2_400_000, 0));
}

#[test]
fn requests_are_encoded_as_the_device_expects() {
    let text = |request: UsbRequest| format!("{:?}", request);
    assert_eq!(
        text(ctrl_out(0x2148, 0x0100, vec![1, 2])),
        "ControlOut { value: 8520, index: 272, data: [1, 2] }"
    );
    assert_eq!(text(ctrl_in(1, 2, 3)), "ControlIn { value: 1, index: 2, length: 8 }");
    assert_eq!(text(ctrl_in(1, 2, 31)), "ControlIn { value: 1, index: 2, length: 31 }");
    assert_eq!(
        text(set_usb_reg(0x2148, 0x0210, 2)),
        "ControlOut { value: 8520, index: 272, data: [16, 2] }"
    );
    assert_eq!(
        text(set_sys_reg(0x3000, 0xE8)),
        "ControlOut { value: 12288, index: 528, data: [232] }"
    );
    assert_eq!(
        text(demod_write_reg(1, 0x9F, 0x0300, 2)),
        "ControlOut { value: 40736, index: 17, data: [3, 0] }"
    );
    assert_eq!(
        text(demod_read_reg(0x0A, 0x01)),
        "ControlIn { value: 288, index: 10, length: 8 }"
    );
    assert_eq!(
        text(i2c_write(0x34, vec![5])),
        "ControlOut { value: 52, index: 1552, data: [5] }"
    );
    assert_eq!(text(i2c_read(0x34, 17)), "ControlIn { value: 52, index: 1536, length: 17 }");
    assert_eq!(
        text(write_r820t_reg(0x14, 0x2C)),
        "ControlOut { value: 52, index: 1552, data: [20, 44] }"
    );
}

#[test]
fn tuner_registers_are_read_with_their_bits_reversed() {
    assert_eq!(read_r820t_reg(&vec![0, 0x01, 0x40], 1), 0x80);
    assert_eq!(read_r820t_reg(&vec![0, 0x01, 0x40], 2), 0x02);
    assert_eq!(read_r820t_reg(&vec![0, 0x01, 0x40], 3), 0);
}

#[test]
fn replies_are_cut_to_the_length_that_was_wanted() {
    assert_eq!(ctrl_in_reply(Some(vec![1, 2, 3, 4]), 3), vec![1, 2, 3]);
    assert_eq!(ctrl_in_reply(Some(vec![1, 2]), 3), vec![1, 2]);
    assert_eq!(ctrl_in_reply(Some(vec![1, 2]), 0), Vec::<u8>::new());
    assert_eq!(ctrl_in_reply(None, 3), Vec::<u8>::new());
}

#[test]
fn a_register_that_is_not_sent_counts_as_zero() {
    let ops = vec![Op::TunerUpdate { reg: 0x05, keep: 0xE0, set: 0x13 }];
    let mut operation = Operation::new(ops, None);
    operation.resume(Reply::Completed { data: None });
    operation.resume(Reply::Completed { data: None });
    let request = format!("{:?}", operation.request().unwrap());
    assert_eq!(request, "ControlOut { value: 52, index: 1552, data: [5, 19] }");
}

#[test]
fn initialisation_is_a_fixed_sequence() {
    let ops = init_rtl2832u();
    assert_eq!(ops.len(), 43);
    assert_eq!(ops[0], Op::UsbReg { addr: 0x2000, val: 0x09, len: 1 });
    assert_eq!(ops[2], Op::UsbReg { addr: 0x2148, val: 0x0210, len: 2 });
    assert_eq!(ops[4], Op::SysReg { addr: 0x3000, val: 0xE8 });
    assert_eq!(ops[7], Op::DemodReg { page: 1, addr: 0x15, val: 0x01, len: 1 });
    assert_eq!(ops[14], Op::DemodReg { page: 1, addr: 0x1C, val: 0xCA, len: 1 });
    assert_eq!(ops[33], Op::DemodReg { page: 1, addr: 0x2F, val: 0xA5, len: 1 });
    assert_eq!(ops[34], Op::DemodReg { page: 0, addr: 0x19, val: 0x05, len: 1 });
    assert_eq!(ops[42], Op::DemodReg { page: 0, addr: 0x0D, val: 0x83, len: 1 });
    let ops = init_r820t();
    assert_eq!(ops.len(), 27);
    assert_eq!(ops[0], Op::TunerReg { reg: 0x05, val: 0x83 });
    assert_eq!(ops[26], Op::TunerReg { reg: 0x1F, val: 0xC0 });
    assert_eq!(open_i2c(), Op::DemodReg { page: 1, addr: 0x01, val: 0x18, len: 1 });
    assert_eq!(close_i2c(), Op::DemodReg { page: 1, addr: 0x01, val: 0x10, len: 1 });
    assert_eq!(
        set_if_frequency(3_570_000),
        vec![
            Op::DemodReg { page: 1, addr: 0x19, val: 0x38, len: 1 },
            Op::DemodReg { page: 1, addr: 0x1A, val: 0x11, len: 1 },
            Op::DemodReg { page: 1, addr: 0x1B, val: 0x12, len: 1 },
        ]
    );
}

#[test]
fn tuning_is_a_sequence_of_register_accesses() {
    assert_eq!(
        set_r820t_freq(100_000_000).unwrap(),
        vec![
            Op::TunerReg { reg: 0x14, val: 11 },
            Op::TunerUpdate { reg: 0x12, keep: 0xF7, set: 0x00 },
            Op::TunerReg { reg: 0x16, val: 0x89 },
            Op::TunerReg { reg: 0x15, val: 0xF4 },
            Op::TunerUpdate { reg: 0x10, keep: 0x1F, set: 0x80 },
            Op::AwaitLock { attempts: 20 },
        ]
    );
    assert!(set_r820t_freq(1_000_000).is_none());
}

#[test]
fn gain_is_automatic_or_manual() {
    assert_eq!(
        set_r820t_gain(0),
        vec![
            Op::TunerUpdate { reg: 0x05, keep: 0xEF, set: 0x00 },
            Op::TunerUpdate { reg: 0x07, keep: 0xFF, set: 0x10 },
            Op::TunerUpdate { reg: 0x0C, keep: 0x60, set: 0x0B },
        ]
    );
    assert_eq!(
        set_r820t_gain(164),
        vec![
            Op::TunerUpdate { reg: 0x05, keep: 0xE0, set: 0x15 },
            Op::TunerUpdate { reg: 0x07, keep: 0xE0, set: 0x04 },
            Op::TunerUpdate { reg: 0x0C, keep: 0x60, set: 0x08 },
        ]
    );
}

#[test]
fn starting_sets_up_demodulator_and_tuner() {
    let (sdr, dongle) = started();
    assert_eq!(sdr, RtlSdr { tuner_freq: 100_000_000, sample_rate: 2_400_000, gain: 0 });
    assert_eq!(sdr.tuner_freq(), 100_000_000);
    assert_eq!(sdr.sample_rate(), 2_400_000);
    assert_eq!(dongle.log[0], "Open");
    assert_eq!(dongle.log[1], "SelectConfiguration { number: 1 }");
    assert_eq!(dongle.log[2], "ClaimInterface { number: 0 }");
    assert!(!dongle.open);
    assert_eq!(dongle.demod_reg(1, 0x15), vec![0x01]);
    assert_eq!(dongle.demod_reg(1, 0x19), vec![0x38]);
    assert_eq!(dongle.demod_reg(1, 0x1A), vec![0x11]);
    assert_eq!(dongle.demod_reg(1, 0x1B), vec![0x12]);
    assert_eq!(dongle.demod_reg(1, 0x9F), vec![0x03, 0x00]);
    assert_eq!(dongle.demod_reg(1, 0xA1), vec![0x00, 0x00]);

    let mut tuner = [0xFFu8; 256];
    for (i, val) in R820T_INIT_REGS.iter().enumerate() {
        tuner[5 + i] = *val;
    }
    tuner[0x14] = 11;
    tuner[0x12] &= 0xF7;
    tuner[0x16] = 0x89;
    tuner[0x15] = 0xF4;
    tuner[0x10] = (tuner[0x10] & 0x1F) | 0x80;
    tuner[0x05] &= 0xEF;
    tuner[0x07] |= 0x10;
    tuner[0x0C] = (tuner[0x0C] & 0x60) | 0x0B;
    assert_eq!(dongle.tuner, tuner);
    let last = &dongle.log[dongle.log.len() - 2..];
    assert_eq!(last[0], "ControlOut { value: 8520, index: 272, data: [16, 2] }");
    assert_eq!(last[1], "ControlOut { value: 8520, index: 272, data: [0, 0] }");
}

#[test]
fn a_manual_gain_reaches_the_tuner() {
    let (mut sdr, mut dongle) = started();
    let before = dongle.tuner;
    let command = sdr.set_gain(164);
    assert_eq!(command.change, Change::Gain(164));
    assert_eq!(carry_out(&mut sdr, command, &mut dongle), Ok(()));
    assert_eq!(sdr.gain, 164);
    assert_eq!(dongle.tuner[0x05], (before[0x05] & 0xE0) | 0x15);
    assert_eq!(dongle.tuner[0x07], (before[0x07] & 0xE0) | 0x04);
    assert_eq!(dongle.tuner[0x0C], (before[0x0C] & 0x60) | 0x08);
    let untouched = |i: &usize| ![0x05, 0x07, 0x0C].contains(i);
    assert!((0..256).filter(untouched).all(|i| dongle.tuner[i] == before[i]));
    assert!(!dongle.open);
}

#[test]
fn retuning_changes_the_frequency_once_it_has_succeeded() {
    let (mut sdr, mut dongle) = started();
    let command = sdr.set_center_freq(111_630_000);
    assert_eq!(sdr.tuner_freq, 100_000_000);
    assert_eq!(carry_out(&mut sdr, command, &mut dongle), Ok(()));
    assert_eq!(sdr.tuner_freq, 111_630_000);
    assert_eq!(dongle.tuner[0x14], (19 % 4) * 64 + 19 / 4);
    assert_eq!(dongle.tuner[0x12] & 0x08, 0x08);
    assert_eq!((dongle.tuner[0x16], dongle.tuner[0x15]), (0, 0));
    assert_eq!(dongle.tuner[0x10] >> 5, 3);
}

#[test]
fn a_frequency_that_is_too_low_is_refused() {
    let (mut sdr, mut dongle) = started();
    let before = dongle.tuner;
    let command = sdr.set_center_freq(2_000_000);
    assert_eq!(carry_out(&mut sdr, command, &mut dongle), Err(DriverError::PllNintTooSmall));
    assert_eq!(sdr.tuner_freq, 100_000_000);
    assert_eq!(dongle.tuner, before);
    assert!(dongle.open);

    let config = RtlSdrConfig { center_freq: 1, ..RtlSdrConfig::default() };
    let (mut sdr, command) = RtlSdr::new(&config);
    let outcome = carry_out(&mut sdr, command, &mut Dongle::new());
    assert_eq!(outcome, Err(DriverError::PllNintTooSmall));
}

#[test]
fn the_lock_flag_is_read_up_to_twenty_times() {
    for (unlocked, reads) in [(0, 1), (3, 4), (19, 20), (20, 20), (500, 20)] {
        let (mut sdr, mut dongle) = started();
        dongle.log.clear();
        dongle.unlocked_reads = unlocked;
        let mut command = sdr.set_center_freq(90_000_000);
        assert_eq!(command.operation.locked(), None);
        run(&mut command.operation, &mut dongle).unwrap();
        assert_eq!(command.operation.completed(), 8);
        assert_eq!(command.operation.locked(), Some(unlocked < 20));
        assert_eq!(sdr.finish(&command), Ok(()));
        let looks = dongle.log.iter().filter(|r| r.contains("data: [2]")).count();
        assert_eq!(looks, reads);
    }
}

#[test]
fn a_failed_transfer_ends_an_operation() {
    let (_, command) = RtlSdr::new(&RtlSdrConfig::default());
    let mut dongle = Dongle::new();
    let mut operation = command.operation;
    run(&mut operation, &mut dongle).unwrap();
    let total = dongle.log.len();
    for fails_at in 0..total {
        let (mut sdr, command) = RtlSdr::new(&RtlSdrConfig {
            sample_rate: 1_000_001,
            ..RtlSdrConfig::default()
        });
        let mut dongle = Dongle::new();
        dongle.fails_at = Some(fails_at);
        assert_eq!(carry_out(&mut sdr, command, &mut dongle), Err(DriverError::Transfer));
        assert_eq!(dongle.log.len(), fails_at + 1);
        assert_eq!(sdr.sample_rate, 1_000_001);
    }
}

#[test]
fn closing_goes_on_when_a_request_fails() {
    let (mut sdr, mut dongle) = started();
    dongle.log.clear();
    dongle.fails_at = Some(0);
    let command = sdr.close();
    assert_eq!(carry_out(&mut sdr, command, &mut dongle), Ok(()));
    assert_eq!(dongle.log, vec!["ReleaseInterface { number: 0 }", "Close"]);
}

#[test]
fn the_sample_rate_is_what_the_resampler_makes_of_it() {
    let (mut sdr, mut dongle) = started();
    let command = sdr.set_sample_rate(1_000_001);
    assert_eq!(carry_out(&mut sdr, command, &mut dongle), Ok(()));
    let ratio = (120_795_955_200_000f64 / 1_000_001.0 + 0.5) as u32 & 0x0FFF_FFFC;
    assert_eq!(dongle.demod_reg(1, 0x9F), (ratio >> 16).to_be_bytes()[2..]);
    assert_eq!(dongle.demod_reg(1, 0xA1), ratio.to_be_bytes()[2..]);
    assert_eq!(sdr.sample_rate(), (120_795_955_200_000f64 / ratio as f64) as u32);
}

#[test]
fn emptying_the_buffer_changes_no_setting() {
    let (mut sdr, mut dongle) = started();
    let before = sdr;
    dongle.log.clear();
    let command = sdr.reset_buffer();
    assert_eq!(carry_out(&mut sdr, command, &mut dongle), Ok(()));
    assert_eq!(sdr, before);
    assert_eq!(dongle.log.len(), 2);
}

#[test]
fn bulk_transfers_are_judged_by_their_status() {
    let (sdr, _) = started();
    assert_eq!(sdr.read_block(), 131_072);
    assert_eq!(BULK_ENDPOINT, 1);
    let samples = sdr.read_samples(4, TransferStatus::Complete, Some(vec![9, 8, 7]));
    assert!(matches!(samples, BulkRead::Samples { samples } if samples == [9, 8, 7]));
    let stalled = sdr.read_samples(4, TransferStatus::Stall, Some(vec![9]));
    assert!(matches!(stalled, BulkRead::ClearHalt { samples } if samples == [0, 0, 0, 0]));
    assert!(matches!(sdr.read_samples(4, TransferStatus::Complete, None), BulkRead::NoData));
    let other = sdr.read_samples(4, TransferStatus::Other, Some(vec![1]));
    assert!(matches!(other, BulkRead::BadStatus));
}

#[test]
fn an_operation_without_accesses_is_finished() {
    let operation = Operation::new(Vec::new(), None);
    assert!(operation.request().is_none());
    assert_eq!(operation.outcome(), Some(Ok(())));
}
