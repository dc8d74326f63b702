//! What operations do to a dongle that keeps to its protocol.
//!
//! The dongle is a model: the tuner's registers and the I2C repeater in front
//! of them. The tuner takes writes and answers reads only while the repeater is
//! open, and it sends each register with its bits reversed.

use vstd::prelude::*;

use crate::operation::{DriverError, Op, Progress, Reply};
use crate::receiver::{
    center_freq_ops, demod_byte, gain_ops, i2c_closed, i2c_opened, if_frequency_ops, lpf_ops,
    power_up_ops, r820t_init_ops, reset_ops, rtl2832u_init_ops, sample_rate_ops, start_ops, tunable,
    tuner_freq_ops, tuner_gain_ops, RtlSdrConfig,
};
use crate::transfer::{
    control_reply, demod_value, Request, BLOCK_I2C, R820T_I2C_ADDR, WRITE_FLAG,
};
use crate::tuner::{
    div_num, lna_index, mixer_index, pll_fraction, pll_nint, pll_sdm, PLL_NINT_MIN, R820T_FIRST_REG,
    R820T_IF_FREQ, R820T_INIT_REGS,
};
use crate::wire::{reversed, reversed_is_involution};

verus! {

/// The dongle's state.
#[verifier::ext_equal]
pub struct Dongle {
    /// Whether the way to the tuner is open.
    pub repeater: bool,
    /// The tuner's registers.
    pub tuner: Seq<u8>,
}

impl Dongle {
    /// A dongle has one register for each register number.
    pub open spec fn valid(self) -> bool {
        self.tuner.len() == 256
    }

    /// The dongle after a request.
    pub open spec fn after(self, request: Request) -> Dongle {
        match request {
            Request::ControlOut { value, index, data } => if value == R820T_I2C_ADDR as u16 && index
                == BLOCK_I2C | WRITE_FLAG {
                if self.repeater && data.len() == 2 {
                    Dongle { tuner: self.tuner.update(data[0] as int, data[1]), ..self }
                } else {
                    self
                }
            } else if value == demod_value(0x01) && index == 1 | WRITE_FLAG && data.len() == 1 {
                Dongle { repeater: data[0] & 0x08 != 0, ..self }
            } else {
                self
            },
            _ => self,
        }
    }

    /// Whether `reply` is what the dongle sends on a request: a read of the
    /// tuner through the open repeater gives its registers from the first one on.
    pub open spec fn answers(self, request: Request, reply: Option<Seq<u8>>) -> bool {
        match request {
            Request::ControlIn { value, index, length } => value == R820T_I2C_ADDR as u16 && index
                == BLOCK_I2C && self.repeater ==> {
                &&& reply matches Some(bytes)
                &&& bytes.len() >= length
                &&& forall|i: int| #![trigger bytes[i]]
                    0 <= i < length && i < 256 ==> bytes[i] == reversed(self.tuner[i])
            },
            _ => true,
        }
    }

    /// The dongle after a register access.
    pub open spec fn accessed(self, op: Op) -> Dongle {
        match op {
            Op::TunerUpdate { reg, keep, set } => if self.repeater {
                Dongle {
                    tuner: self.tuner.update(
                        reg as int,
                        (self.tuner[reg as int] & keep) | set,
                    ),
                    ..self
                }
            } else {
                self
            },
            Op::AwaitLock { .. } => self,
            _ => self.after(op.request(0, 0)),
        }
    }

    /// The dongle after a sequence of register accesses.
    pub open spec fn accessed_all(self, ops: Seq<Op>) -> Dongle
        decreases ops.len(),
    {
        if ops.len() == 0 {
            self
        } else {
            self.accessed(ops[0]).accessed_all(ops.drop_first())
        }
    }
}

// ── Operations carried out on a dongle ─────────────────────────────────────

/// Whether `replies` is a run of the operation on a dongle in which no request
/// fails and every reply is the dongle's own.
pub open spec fn is_run(p: Progress, d: Dongle, replies: Seq<Reply>) -> bool
    decreases replies.len(),
{
    replies.len() == 0 || {
        &&& p.request() matches Some(request)
        &&& replies[0] is Completed
        &&& d.answers(request, replies[0].data())
        &&& is_run(p.resumed(replies[0]), d.after(request), replies.drop_first())
    }
}

/// The operation after a run.
pub open spec fn run_progress(p: Progress, replies: Seq<Reply>) -> Progress
    decreases replies.len(),
{
    if replies.len() == 0 {
        p
    } else {
        run_progress(p.resumed(replies[0]), replies.drop_first())
    }
}

/// The dongle after a run.
pub open spec fn run_dongle(p: Progress, d: Dongle, replies: Seq<Reply>) -> Dongle
    decreases replies.len(),
{
    if replies.len() == 0 {
        d
    } else {
        run_dongle(
            p.resumed(replies[0]),
            d.after(p.request().unwrap()),
            replies.drop_first(),
        )
    }
}

/// What holds between an operation and the dongle at every point of a run.
spec fn in_step(p: Progress, d: Dongle) -> bool {
    &&& d.valid()
    &&& forall|i: int| 0 <= i < p.ops.len() ==> (#[trigger] p.ops[i]).valid()
    &&& 0 <= p.pos <= p.ops.len()
    &&& p.pos < p.ops.len() ==> {
        &&& 0 <= p.phase < p.ops[p.pos].phases()
        &&& p.phase == 2 && d.repeater ==> (p.ops[p.pos] matches Op::TunerUpdate { reg, .. }
            ==> p.latched == d.tuner[reg as int])
    }
}

/// The dongle once the rest of the operation is carried out.
spec fn destination(p: Progress, d: Dongle) -> Dongle {
    if p.pos >= p.ops.len() {
        d
    } else if p.ops[p.pos] is DemodReg && p.phase == 1 {
        d.accessed_all(p.ops.skip(p.pos + 1))
    } else {
        d.accessed_all(p.ops.skip(p.pos))
    }
}

proof fn lemma_step(p: Progress, d: Dongle, reply: Reply)
    requires
        in_step(p, d),
        !p.finished(),
        reply is Completed,
        d.answers(p.request().unwrap(), reply.data()),
    ensures
        in_step(p.resumed(reply), d.after(p.request().unwrap())),
        destination(p.resumed(reply), d.after(p.request().unwrap())) == destination(p, d),
{
    let op = p.ops[p.pos];
    let request = p.request().unwrap();
    let next = p.resumed(reply);
    let e = d.after(request);
    let rest = p.ops.skip(p.pos);
    assert(rest[0] == op);
    assert(rest.drop_first() =~= p.ops.skip(p.pos + 1));
    assert(d.accessed_all(rest) == d.accessed(op).accessed_all(p.ops.skip(p.pos + 1)));
    if next.pos < next.ops.len() && next.pos == p.pos + 1 {
        let op2 = next.ops[next.pos];
        assert(next.phase == 0);
    }
    match op {
        Op::TunerUpdate { reg, keep, set } => {
            if p.phase == 0 {
                assert(e == d);
            } else if p.phase == 1 {
                assert(e == d);
                if d.repeater {
                    let bytes = reply.data().unwrap();
                    assert(bytes[reg as int] == reversed(d.tuner[reg as int]));
                    assert(control_reply(reply.data(), op.wanted())[reg as int]
                        == bytes[reg as int]);
                    reversed_is_involution(d.tuner[reg as int]);
                    assert(next.latched == d.tuner[reg as int]);
                }
            } else {
                assert(p.phase == 2);
                let data = seq![reg, (p.latched & keep) | set];
                assert(data.len() == 2 && data[0] == reg);
                assert(e =~= d.accessed(op));
            }
        },
        Op::AwaitLock { attempts } => {
            assert(e == d);
        },
        Op::DemodReg { page, addr, val, len } => {
            if p.phase == 0 {
                assert(e == d.accessed(op));
            } else {
                assert(e == d);
            }
        },
        _ => {
            assert(e == d.accessed(op));
        },
    }
}

proof fn lemma_run(p: Progress, d: Dongle, replies: Seq<Reply>)
    requires
        in_step(p, d),
        is_run(p, d, replies),
    ensures
        in_step(run_progress(p, replies), run_dongle(p, d, replies)),
        destination(run_progress(p, replies), run_dongle(p, d, replies)) == destination(p, d),
    decreases replies.len(),
{
    if replies.len() > 0 {
        lemma_step(p, d, replies[0]);
        lemma_run(p.resumed(replies[0]), d.after(p.request().unwrap()), replies.drop_first());
    }
}

/// An operation that runs to its end on a dongle leaves it as if each register
/// access had been made at once: what is written back is what was read, changed
/// as the access says.
pub proof fn run_carries_out_accesses(
    ops: Seq<Op>,
    verdict: Option<DriverError>,
    d: Dongle,
    replies: Seq<Reply>,
)
    requires
        forall|i: int| 0 <= i < ops.len() ==> (#[trigger] ops[i]).valid(),
        d.valid(),
        is_run(Progress::start(ops, verdict), d, replies),
        run_progress(Progress::start(ops, verdict), replies).finished(),
    ensures
        run_dongle(Progress::start(ops, verdict), d, replies) == d.accessed_all(ops),
{
    let p = Progress::start(ops, verdict);
    assert(ops.skip(0) =~= ops);
    if ops.len() > 0 {
        assert(ops[0].valid());
    }
    lemma_run(p, d, replies);
    lemma_no_failure(p, d, replies);
}

proof fn lemma_no_failure(p: Progress, d: Dongle, replies: Seq<Reply>)
    requires
        !p.failed,
        is_run(p, d, replies),
    ensures
        !run_progress(p, replies).failed,
    decreases replies.len(),
{
    if replies.len() > 0 {
        lemma_no_failure(
            p.resumed(replies[0]),
            d.after(p.request().unwrap()),
            replies.drop_first(),
        );
    }
}

// ── What the receiver's commands leave in the tuner ────────────────────────

proof fn lemma_accessed_concat(d: Dongle, first: Seq<Op>, second: Seq<Op>)
    ensures
        d.accessed_all(first + second) == d.accessed_all(first).accessed_all(second),
    decreases first.len(),
{
    if first.len() == 0 {
        assert(first + second =~= second);
    } else {
        assert((first + second).drop_first() =~= first.drop_first() + second);
        lemma_accessed_concat(d.accessed(first[0]), first.drop_first(), second);
    }
}

proof fn lemma_accessed_one(d: Dongle, op: Op)
    ensures
        d.accessed_all(seq![op]) == d.accessed(op),
{
    reveal_with_fuel(Dongle::accessed_all, 2);
    assert(seq![op].drop_first() =~= Seq::<Op>::empty());
}

/// A write to the repeater's register opens or closes it and does nothing else.
proof fn lemma_repeater_write(d: Dongle, val: u16)
    requires
        val < 256,
    ensures
        d.accessed(demod_byte(1, 0x01, val)) == (Dongle { repeater: val as u8 & 0x08 != 0, ..d }),
{
    let data = crate::wire::be_bytes(val as u32, 1);
    assert(data.len() == 1);
    assert(crate::wire::byte_of(val as u32, 0) == val) by {
        assert(crate::wire::pow256(0) == 1);
        assert(val as int / 1 == val);
    }
    assert(data[0] == val);
}

proof fn lemma_repeater_opens(d: Dongle)
    ensures
        d.accessed(i2c_opened()) == (Dongle { repeater: true, ..d }),
{
    lemma_repeater_write(d, 0x18);
    assert(0x18u8 & 0x08 != 0) by (bit_vector);
}

proof fn lemma_repeater_closes(d: Dongle)
    ensures
        d.accessed(i2c_closed()) == (Dongle { repeater: false, ..d }),
{
    lemma_repeater_write(d, 0x10);
    assert(0x10u8 & 0x08 == 0) by (bit_vector);
}

/// Between opening and closing the repeater, accesses act on the tuner.
proof fn lemma_through_repeater(d: Dongle, ops: Seq<Op>)
    ensures
        d.accessed_all(seq![i2c_opened()] + ops + seq![i2c_closed()]) == (Dongle {
            repeater: false,
            ..(Dongle { repeater: true, ..d }).accessed_all(ops)
        }),
{
    let opened = Dongle { repeater: true, ..d };
    lemma_accessed_concat(d, seq![i2c_opened()] + ops, seq![i2c_closed()]);
    lemma_accessed_concat(d, seq![i2c_opened()], ops);
    lemma_accessed_one(d, i2c_opened());
    lemma_repeater_opens(d);
    lemma_accessed_one(opened.accessed_all(ops), i2c_closed());
    lemma_repeater_closes(opened.accessed_all(ops));
}

/// The tuner's registers once the gain is set.
pub open spec fn with_gain(tuner: Seq<u8>, gain_tenth_db: i32) -> Seq<u8> {
    if gain_tenth_db == 0 {
        tuner.update(0x05, tuner[0x05] & 0xEF).update(0x07, tuner[0x07] | 0x10).update(
            0x0C,
            (tuner[0x0C] & 0x60) | 0x0B,
        )
    } else {
        tuner.update(0x05, (tuner[0x05] & 0xE0) | (0x10 + lna_index(gain_tenth_db)) as u8).update(
            0x07,
            (tuner[0x07] & 0xE0) | mixer_index(gain_tenth_db) as u8,
        ).update(0x0C, (tuner[0x0C] & 0x60) | 0x08)
    }
}

/// Setting the gain leaves the gain settings in the tuner, every other register
/// as it was, and the repeater closed.
pub proof fn gain_reaches_tuner(d: Dongle, gain_tenth_db: i32)
    requires
        d.valid(),
    ensures
        d.accessed_all(gain_ops(gain_tenth_db)) == (Dongle {
            repeater: false,
            tuner: with_gain(d.tuner, gain_tenth_db),
        }),
{
    let ops = tuner_gain_ops(gain_tenth_db);
    lemma_through_repeater(d, ops);
    let d0 = Dongle { repeater: true, ..d };
    let d1 = d0.accessed(ops[0]);
    let d2 = d1.accessed(ops[1]);
    let d3 = d2.accessed(ops[2]);
    reveal_with_fuel(Dongle::accessed_all, 4);
    assert(ops.len() == 3);
    assert(ops.drop_first()[0] == ops[1]);
    assert(ops.drop_first().drop_first()[0] == ops[2]);
    assert(d0.accessed_all(ops) == d3);
    let r05 = d.tuner[0x05];
    let r07 = d.tuner[0x07];
    assert((r05 & 0xEF) | 0x00 == r05 & 0xEF) by (bit_vector);
    assert((r07 & 0xFF) | 0x10 == r07 | 0x10) by (bit_vector);
    assert(d3.tuner =~= with_gain(d.tuner, gain_tenth_db));
}

/// In automatic gain the amplifier's manual flag is clear and the mixer's
/// automatic flag is set. In manual gain it is the other way round, and the low
/// four bits of the two registers hold the gain indices.
pub proof fn gain_flags(tuner: Seq<u8>, gain_tenth_db: i32)
    requires
        tuner.len() == 256,
    ensures
        ({
            let r05 = with_gain(tuner, gain_tenth_db)[0x05];
            let r07 = with_gain(tuner, gain_tenth_db)[0x07];
            if gain_tenth_db == 0 {
                r05 & 0x10 == 0 && r07 & 0x10 == 0x10
            } else {
                &&& r05 & 0x10 == 0x10 && r05 & 0x0F == lna_index(gain_tenth_db)
                &&& r07 & 0x10 == 0 && r07 & 0x0F == mixer_index(gain_tenth_db)
            }
        }),
{
    let old05 = tuner[0x05];
    let old07 = tuner[0x07];
    let lna = lna_index(gain_tenth_db) as u8;
    let mixer = mixer_index(gain_tenth_db) as u8;
    let set = (0x10 + lna) as u8;
    assert((old05 & 0xEF) & 0x10 == 0 && (old07 | 0x10) & 0x10 == 0x10) by (bit_vector);
    assert(((old05 & 0xE0) | set) & 0x10 == 0x10 && ((old05 & 0xE0) | set) & 0x0F == lna && ((old07
        & 0xE0) | mixer) & 0x10 == 0 && ((old07 & 0xE0) | mixer) & 0x0F == mixer) by (bit_vector)
        requires
            lna <= 15,
            mixer <= 15,
            set == 0x10 + lna,
    ;
}

/// The tuner's registers once it is tuned to `freq`.
pub open spec fn with_frequency(tuner: Seq<u8>, freq: u32) -> Seq<u8> {
    let steps = pll_nint(freq) - PLL_NINT_MIN;
    tuner.update(0x14, ((steps % 4) * 64 + steps / 4) as u8).update(
        0x12,
        if pll_fraction(freq) == 0 {
            tuner[0x12] | 0x08
        } else {
            tuner[0x12] & 0xF7
        },
    ).update(0x16, (pll_sdm(freq) / 0x100) as u8).update(
        0x15,
        (pll_sdm(freq) % 0x100) as u8,
    ).update(0x10, (tuner[0x10] & 0x1F) | (div_num(freq) * 32) as u8)
}

/// Tuning leaves the PLL settings in the tuner, every other register as it
/// was, and the repeater closed. A frequency that the PLL cannot be told leaves
/// all registers as they were and the repeater open.
pub proof fn frequency_reaches_tuner(d: Dongle, freq: u32)
    requires
        d.valid(),
    ensures
        d.accessed_all(center_freq_ops(freq)) == (if tunable(freq) {
            Dongle { repeater: false, tuner: with_frequency(d.tuner, freq) }
        } else {
            Dongle { repeater: true, ..d }
        }),
{
    if tunable(freq) {
        let ops = tuner_freq_ops(freq);
        lemma_through_repeater(d, ops);
        let d0 = Dongle { repeater: true, ..d };
        let d1 = d0.accessed(ops[0]);
        let d2 = d1.accessed(ops[1]);
        let d3 = d2.accessed(ops[2]);
        let d4 = d3.accessed(ops[3]);
        let d5 = d4.accessed(ops[4]);
        let d6 = d5.accessed(ops[5]);
        assert(d0.accessed_all(ops) == d6) by {
            reveal_with_fuel(Dongle::accessed_all, 7);
            let s1 = ops.drop_first();
            let s2 = s1.drop_first();
            let s3 = s2.drop_first();
            let s4 = s3.drop_first();
            let s5 = s4.drop_first();
            assert(s1[0] == ops[1] && s2[0] == ops[2] && s3[0] == ops[3] && s4[0] == ops[4] && s5[0]
                == ops[5]);
            assert(s5.len() == 1);
        }
        let r12 = d.tuner[0x12];
        assert((r12 & 0xFF) | 0x08 == r12 | 0x08 && (r12 & 0xF7) | 0x00 == r12 & 0xF7)
            by (bit_vector);
        assert(d6.tuner =~= with_frequency(d.tuner, freq));
    } else {
        lemma_accessed_one(d, i2c_opened());
        lemma_repeater_opens(d);
    }
}

/// The registers of a tuned tuner, taken apart, give back the settings of its
/// PLL: the whole steps, the fraction, the divider, and the flag that turns
/// the fraction off where there is none.
pub proof fn tuned_registers_hold_settings(tuner: Seq<u8>, freq: u32)
    requires
        tuner.len() == 256,
        tunable(freq),
    ensures
        ({
            let r = with_frequency(tuner, freq);
            &&& PLL_NINT_MIN + 4 * (r[0x14] % 64) + r[0x14] / 64 == pll_nint(freq)
            &&& 0x100 * r[0x16] + r[0x15] == pll_sdm(freq)
            &&& r[0x10] / 32 == div_num(freq)
            &&& r[0x12] & 0x08 != 0 <==> pll_fraction(freq) == 0
        }),
{
    crate::tuner::pll_settings_bounds(freq);
    let steps = pll_nint(freq) - PLL_NINT_MIN;
    let r = with_frequency(tuner, freq);
    assert(r[0x14] == (steps % 4) * 64 + steps / 4);
    let r10 = tuner[0x10];
    let r12 = tuner[0x12];
    let d = div_num(freq) as u8;
    let shifted = (div_num(freq) * 32) as u8;
    assert(((r10 & 0x1F) | shifted) / 32 == d) by (bit_vector)
        requires
            shifted == d * 32,
            d <= 6,
    ;
    assert((r12 | 0x08) & 0x08 != 0 && (r12 & 0xF7) & 0x08 == 0) by (bit_vector);
}

/// The tuner's registers once they are initialised.
pub open spec fn initialised(tuner: Seq<u8>) -> Seq<u8> {
    Seq::new(
        tuner.len(),
        |i: int|
            if R820T_FIRST_REG <= i < R820T_FIRST_REG + 27 {
                R820T_INIT_REGS@[i - R820T_FIRST_REG]
            } else {
                tuner[i]
            },
    )
}

proof fn lemma_initialised(d: Dongle, n: int)
    requires
        d.valid(),
        d.repeater,
        0 <= n <= 27,
    ensures
        ({
            let e = d.accessed_all(r820t_init_ops().take(n));
            &&& e.repeater
            &&& e.tuner.len() == 256
            &&& forall|i: int|
                0 <= i < 256 ==> #[trigger] e.tuner[i] == (if R820T_FIRST_REG <= i < R820T_FIRST_REG
                    + n {
                    R820T_INIT_REGS@[i - R820T_FIRST_REG]
                } else {
                    d.tuner[i]
                })
        }),
    decreases n,
{
    let ops = r820t_init_ops();
    if n == 0 {
        assert(ops.take(0) =~= Seq::<Op>::empty());
    } else {
        lemma_initialised(d, n - 1);
        assert(ops.take(n) =~= ops.take(n - 1) + seq![ops[n - 1]]);
        lemma_accessed_concat(d, ops.take(n - 1), seq![ops[n - 1]]);
        let e = d.accessed_all(ops.take(n - 1));
        lemma_accessed_one(e, ops[n - 1]);
        let reg = (R820T_FIRST_REG + n - 1) as u8;
        let val = R820T_INIT_REGS@[n - 1];
        assert(ops[n - 1] == Op::TunerReg { reg, val });
        assert(e.accessed(ops[n - 1]).tuner == e.tuner.update(reg as int, val));
    }
}

/// Whether an access is none of the tuner's.
spec fn spares_tuner(op: Op) -> bool {
    match op {
        Op::DemodReg { page, .. } => page <= 1,
        Op::TunerReg { .. } => false,
        Op::TunerUpdate { .. } => false,
        _ => true,
    }
}

proof fn lemma_spares_tuner(d: Dongle, ops: Seq<Op>)
    requires
        forall|i: int| 0 <= i < ops.len() ==> spares_tuner(#[trigger] ops[i]),
    ensures
        d.accessed_all(ops).tuner == d.tuner,
    decreases ops.len(),
{
    if ops.len() > 0 {
        let e = d.accessed(ops[0]);
        assert(0x0600u16 | 0x10 == 0x610 && 0x0200u16 | 0x10 == 0x210 && 0x0100u16 | 0x10 == 0x110
            && 0u16 | 0x10 == 0x10 && 1u16 | 0x10 == 0x11) by (bit_vector);
        assert(e.tuner == d.tuner);
        assert forall|i: int| 0 <= i < ops.len() - 1 implies spares_tuner(
            #[trigger] ops.drop_first()[i],
        ) by {
            assert(ops.drop_first()[i] == ops[i + 1]);
        }
        lemma_spares_tuner(e, ops.drop_first());
    }
}

/// Power-up leaves the tuner initialised and the repeater closed.
proof fn lemma_power_up(d: Dongle, rate: u32)
    requires
        d.valid(),
    ensures
        d.accessed_all(power_up_ops(rate)) == (Dongle {
            repeater: false,
            tuner: initialised(d.tuner),
        }),
{
    let open = seq![
        Op::Open,
        Op::SelectConfiguration { number: 1 },
        Op::ClaimInterface { number: 0 },
    ];
    let head = open + rtl2832u_init_ops();
    let tuner_ops = seq![i2c_opened()] + r820t_init_ops() + seq![i2c_closed()];
    let tail = if_frequency_ops(R820T_IF_FREQ) + sample_rate_ops(rate).take(3);
    let last = seq![i2c_closed()];
    assert(power_up_ops(rate) =~= head + tuner_ops + tail + last);
    assert forall|i: int| 0 <= i < head.len() implies spares_tuner(#[trigger] head[i]) by {
        assert(open.len() == 3);
        assert(rtl2832u_init_ops().len() == 43);
    }
    assert forall|i: int| 0 <= i < tail.len() implies spares_tuner(#[trigger] tail[i]) by {
        assert(tail.len() == 6);
    }
    let d1 = d.accessed_all(head);
    let d2 = d1.accessed_all(tuner_ops);
    let d3 = d2.accessed_all(tail);
    lemma_accessed_concat(d, head + tuner_ops + tail, last);
    lemma_accessed_concat(d, head + tuner_ops, tail);
    lemma_accessed_concat(d, head, tuner_ops);
    lemma_spares_tuner(d, head);
    lemma_through_repeater(d1, r820t_init_ops());
    let opened = Dongle { repeater: true, ..d1 };
    lemma_initialised(opened, 27);
    assert(r820t_init_ops().take(27) =~= r820t_init_ops());
    assert(d2.tuner =~= initialised(d.tuner));
    lemma_spares_tuner(d2, tail);
    lemma_accessed_one(d3, i2c_closed());
    lemma_repeater_closes(d3);
}

/// Starting the receiver leaves the tuner initialised, tuned and with its gain
/// set, and the repeater closed. Where the PLL cannot be told the frequency, the
/// tuner is initialised and the repeater is left open.
pub proof fn start_sets_up_tuner(d: Dongle, config: RtlSdrConfig)
    requires
        d.valid(),
    ensures
        d.accessed_all(start_ops(config)) == (if tunable(config.center_freq) {
            Dongle {
                repeater: false,
                tuner: with_gain(
                    with_frequency(initialised(d.tuner), config.center_freq),
                    config.gain,
                ),
            }
        } else {
            Dongle { repeater: true, tuner: initialised(d.tuner) }
        }),
{
    let up = power_up_ops(config.sample_rate);
    let tune = center_freq_ops(config.center_freq);
    let gain = gain_ops(config.gain);
    lemma_power_up(d, config.sample_rate);
    let d1 = d.accessed_all(up);
    lemma_accessed_concat(d, up, tune);
    frequency_reaches_tuner(d1, config.center_freq);
    if tunable(config.center_freq) {
        let d2 = d1.accessed_all(tune);
        gain_reaches_tuner(d2, config.gain);
        let d3 = d2.accessed_all(gain);
        lemma_accessed_concat(d, up + tune, gain);
        lemma_accessed_concat(d, up + tune + gain, reset_ops());
        lemma_reset_spares_dongle(d3);
    }
}

proof fn lemma_reset_spares_dongle(d: Dongle)
    ensures
        d.accessed_all(reset_ops()) == d,
{
    let ops = reset_ops();
    assert(0x0600u16 | 0x10 == 0x610 && 0x0100u16 | 0x10 == 0x110 && 1u16 | 0x10 == 0x11)
        by (bit_vector);
    reveal_with_fuel(Dongle::accessed_all, 3);
    assert(ops.drop_first()[0] == ops[1]);
    assert(d.accessed(ops[0]) == d);
    assert(d.accessed(ops[1]) == d);
}

/// A command that sets the gain, once its requests were answered by the dongle,
/// has left the gain settings in the tuner.
pub proof fn gain_command_sets_gain(d: Dongle, gain_tenth_db: i32, replies: Seq<Reply>)
    requires
        d.valid(),
        is_run(Progress::start(gain_ops(gain_tenth_db), None), d, replies),
        run_progress(Progress::start(gain_ops(gain_tenth_db), None), replies).finished(),
    ensures
        run_dongle(Progress::start(gain_ops(gain_tenth_db), None), d, replies) == (Dongle {
            repeater: false,
            tuner: with_gain(d.tuner, gain_tenth_db),
        }),
{
    run_carries_out_accesses(gain_ops(gain_tenth_db), None, d, replies);
    gain_reaches_tuner(d, gain_tenth_db);
}

/// A command that tunes, once its requests were answered by the dongle, has left
/// the PLL settings in the tuner.
pub proof fn frequency_command_tunes(d: Dongle, freq: u32, replies: Seq<Reply>)
    requires
        d.valid(),
        tunable(freq),
        is_run(Progress::start(center_freq_ops(freq), None), d, replies),
        run_progress(Progress::start(center_freq_ops(freq), None), replies).finished(),
    ensures
        run_dongle(Progress::start(center_freq_ops(freq), None), d, replies) == (Dongle {
            repeater: false,
            tuner: with_frequency(d.tuner, freq),
        }),
{
    run_carries_out_accesses(center_freq_ops(freq), None, d, replies);
    frequency_reaches_tuner(d, freq);
}

/// The command that starts the receiver, once its requests were answered by the
/// dongle, has left the tuner initialised, tuned and with its gain set.
pub proof fn start_command_sets_up_tuner(d: Dongle, config: RtlSdrConfig, replies: Seq<Reply>)
    requires
        d.valid(),
        tunable(config.center_freq),
        is_run(Progress::start(start_ops(config), None), d, replies),
        run_progress(Progress::start(start_ops(config), None), replies).finished(),
    ensures
        run_dongle(Progress::start(start_ops(config), None), d, replies) == (Dongle {
            repeater: false,
            tuner: with_gain(
                with_frequency(initialised(d.tuner), config.center_freq),
                config.gain,
            ),
        }),
{
    run_carries_out_accesses(start_ops(config), None, d, replies);
    start_sets_up_tuner(d, config);
}

/// Once the receiver was started, the tuner's registers hold these values, and
/// what tuning and gain leave of the others. Automatic gain takes the tuner's own
/// control of amplifier and mixer and a fixed gain of the last stage; manual gain
/// takes another fixed gain of that stage.
pub proof fn started_tuner_registers(d: Dongle, config: RtlSdrConfig, replies: Seq<Reply>)
    requires
        d.valid(),
        tunable(config.center_freq),
        is_run(Progress::start(start_ops(config), None), d, replies),
        run_progress(Progress::start(start_ops(config), None), replies).finished(),
    ensures
        ({
            let t = run_dongle(Progress::start(start_ops(config), None), d, replies).tuner;
            &&& t[0x06] == 0x32
            &&& t[0x08] == 0xC0
            &&& t[0x09] == 0x40
            &&& t[0x0A] == 0xD6
            &&& t[0x0B] == 0x6C
            &&& t[0x0D] == 0x63
            &&& t[0x0E] == 0x75
            &&& t[0x0F] == 0x68
            &&& t[0x11] == 0x83
            &&& t[0x13] == 0x00
            &&& t[0x17] == 0x30
            &&& t[0x18] == 0x48
            &&& t[0x19] == 0xCC
            &&& t[0x1A] == 0x60
            &&& t[0x1B] == 0x00
            &&& t[0x1C] == 0x54
            &&& t[0x1D] == 0xAE
            &&& t[0x1E] == 0x4A
            &&& t[0x1F] == 0xC0
            &&& t[0x10] % 32 == 0x0C
            &&& t[0x12] == 0x80 || t[0x12] == 0x88
            &&& config.gain == 0 ==> t[0x05] == 0x83 && t[0x07] == 0x75 && t[0x0C] == 0x6B
            &&& config.gain != 0 ==> t[0x05] / 16 == 0x9 && t[0x07] / 16 == 0x6 && t[0x0C] == 0x68
        }),
{
    start_command_sets_up_tuner(d, config, replies);
    crate::tuner::pll_settings_bounds(config.center_freq);
    let fresh = initialised(d.tuner);
    let tuned = with_frequency(fresh, config.center_freq);
    assert(fresh[0x05] == 0x83 && fresh[0x07] == 0x75 && fresh[0x0C] == 0xF5 && fresh[0x10] == 0x6C
        && fresh[0x12] == 0x80);
    assert(tuned[0x05] == 0x83 && tuned[0x07] == 0x75 && tuned[0x0C] == 0xF5);
    let shifted = (div_num(config.center_freq) * 32) as u8;
    let div = div_num(config.center_freq) as u8;
    assert(((0x6Cu8 & 0x1F) | shifted) % 32 == 0x0C) by (bit_vector)
        requires
            shifted == div * 32,
            div <= 6,
    ;
    assert(0x80u8 | 0x08 == 0x88 && 0x80u8 & 0xF7 == 0x80) by (bit_vector);
    assert(0x83u8 & 0xEF == 0x83 && 0x75u8 | 0x10 == 0x75 && (0xF5u8 & 0x60) | 0x0B == 0x6B && (
    0xF5u8 & 0x60) | 0x08 == 0x68) by (bit_vector);
    let lna = lna_index(config.gain) as u8;
    let mixer = mixer_index(config.gain) as u8;
    let set = (0x10 + lna_index(config.gain)) as u8;
    assert(((0x83u8 & 0xE0) | set) / 16 == 0x9 && ((0x75u8 & 0xE0) | mixer) / 16 == 0x6)
        by (bit_vector)
        requires
            lna <= 15,
            mixer <= 15,
            set == 0x10 + lna,
    ;
}

/// What a tuned tuner was told, read back from its registers, is the frequency
/// and 3.57 MHz more, times the mixer divider: short of it by less than 1/65536
/// of a step of 57.6 MHz, and never beyond. From 24 MHz on, as long as the local
/// oscillator does not pass 1.77 GHz, the divider keeps the PLL between 1.77 and
/// 3.54 GHz.
pub proof fn tuned_tuner_is_told_the_frequency(d: Dongle, freq: u32, replies: Seq<Reply>)
    requires
        d.valid(),
        freq >= 2_280_000,
        is_run(Progress::start(center_freq_ops(freq), None), d, replies),
        run_progress(Progress::start(center_freq_ops(freq), None), replies).finished(),
    ensures
        ({
            let t = run_dongle(Progress::start(center_freq_ops(freq), None), d, replies).tuner;
            let dividers = seq![2int, 4, 8, 16, 32, 64, 128];
            let steps = 13 + 4 * (t[0x14] % 64) + t[0x14] / 64;
            let parts = 0x100 * t[0x16] + t[0x15];
            let oscillator = (freq + 3_570_000) * dividers[(t[0x10] / 32) as int];
            let told = 57_600_000 * (65536 * steps + parts);
            &&& t[0x10] / 32 <= 6
            &&& 0 <= 65536 * oscillator - told < 57_600_000
            &&& (t[0x12] / 8) % 2 == 1 <==> oscillator % 57_600_000 == 0
            &&& 24_000_000 <= freq <= 1_766_430_000 ==> 1_770_000_000 < oscillator
                <= 3_540_000_000
        }),
{
    crate::tuner::tunable_from_lowest_frequency(freq);
    frequency_command_tunes(d, freq, replies);
    tuned_registers_hold_settings(d.tuner, freq);
    crate::tuner::pll_settings_bounds(freq);
    crate::tuner::pll_error_is_below_one_part(freq);
    vstd::arithmetic::power2::lemma2_to64();
    let t = with_frequency(d.tuner, freq);
    let dividers = seq![2int, 4, 8, 16, 32, 64, 128];
    let div = div_num(freq);
    assert(t[0x10] / 32 == div);
    assert(dividers[div as int] == crate::tuner::mix_div(freq)) by {
        assert(div == 0 || div == 1 || div == 2 || div == 3 || div == 4 || div == 5 || div == 6);
    }
    let r12 = t[0x12];
    assert((r12 & 0x08 != 0) == ((r12 / 8) % 2 == 1)) by (bit_vector);
    if 24_000_000 <= freq <= 1_766_430_000 {
        crate::tuner::vco_stays_in_its_octave(freq);
    }
}

/// A command that sets the gain changes three registers of the tuner and no other.
/// In automatic gain bit 4 of register 0x05 is cleared and that of register 0x07
/// is set. In manual gain both have the low five bits set: to 16 and the steps of
/// the amplifier, and to the steps of the mixer. Register 0x0C keeps bits 5 and 6,
/// and the rest of it is 0x0B or 0x08.
pub proof fn gain_command_changes_only_the_gain(d: Dongle, gain_tenth_db: i32, replies: Seq<Reply>)
    requires
        d.valid(),
        is_run(Progress::start(gain_ops(gain_tenth_db), None), d, replies),
        run_progress(Progress::start(gain_ops(gain_tenth_db), None), replies).finished(),
    ensures
        ({
            let before = d.tuner;
            let t = run_dongle(Progress::start(gain_ops(gain_tenth_db), None), d, replies).tuner;
            &&& t.len() == 256
            &&& forall|r: int| #![trigger t[r]]
                0 <= r < 256 && r != 0x05 && r != 0x07 && r != 0x0C ==> t[r] == before[r]
            &&& (t[0x0C] / 32) % 4 == (before[0x0C] / 32) % 4
            &&& if gain_tenth_db == 0 {
                &&& t[0x05] / 32 == before[0x05] / 32 && t[0x05] % 32 == before[0x05] % 16
                &&& t[0x07] / 32 == before[0x07] / 32 && t[0x07] % 32 == 16 + before[0x07] % 16
                &&& t[0x0C] < 128 && t[0x0C] % 32 == 0x0B
            } else {
                &&& t[0x05] / 32 == before[0x05] / 32 && t[0x05] % 32 == 16 + lna_index(
                    gain_tenth_db,
                )
                &&& t[0x07] / 32 == before[0x07] / 32 && t[0x07] % 32 == mixer_index(gain_tenth_db)
                &&& t[0x0C] < 128 && t[0x0C] % 32 == 0x08
            }
        }),
{
    gain_command_sets_gain(d, gain_tenth_db, replies);
    let (a, b, c) = (d.tuner[0x05], d.tuner[0x07], d.tuner[0x0C]);
    let lna = lna_index(gain_tenth_db) as u8;
    let mixer = mixer_index(gain_tenth_db) as u8;
    let set = (0x10 + lna_index(gain_tenth_db)) as u8;
    assert((a & 0xEF) / 32 == a / 32 && (a & 0xEF) % 32 == a % 16 && (b | 0x10) / 32 == b / 32 && (b
        | 0x10) % 32 == 16 + b % 16) by (bit_vector);
    assert(((c & 0x60) | 0x0B) % 32 == 0x0B && ((c & 0x60) | 0x08) % 32 == 0x08 && (((c & 0x60)
        | 0x0B) / 32) % 4 == (c / 32) % 4 && (((c & 0x60) | 0x08) / 32) % 4 == (c / 32) % 4 && ((c
        & 0x60) | 0x0B) < 128 && ((c & 0x60) | 0x08) < 128) by (bit_vector);
    assert(((a & 0xE0) | set) / 32 == a / 32 && ((a & 0xE0) | set) % 32 == 16 + lna && ((b & 0xE0)
        | mixer) / 32 == b / 32 && ((b & 0xE0) | mixer) % 32 == mixer) by (bit_vector)
        requires
            lna <= 15,
            mixer <= 15,
            set == 0x10 + lna,
    ;
}

/// A command that tunes changes the registers of the PLL and no other; of registers
/// 0x10 and 0x12 it keeps the bits that are not the divider and the flag.
pub proof fn tuning_changes_only_the_pll(d: Dongle, freq: u32, replies: Seq<Reply>)
    requires
        d.valid(),
        freq >= 2_280_000,
        is_run(Progress::start(center_freq_ops(freq), None), d, replies),
        run_progress(Progress::start(center_freq_ops(freq), None), replies).finished(),
    ensures
        ({
            let before = d.tuner;
            let t = run_dongle(Progress::start(center_freq_ops(freq), None), d, replies).tuner;
            &&& t.len() == 256
            &&& forall|r: int| #![trigger t[r]]
                0 <= r < 256 && r != 0x10 && r != 0x12 && !(0x14 <= r <= 0x16) ==> t[r]
                    == before[r]
            &&& t[0x10] % 32 == before[0x10] % 32
            &&& t[0x12] % 8 == before[0x12] % 8 && t[0x12] / 16 == before[0x12] / 16
        }),
{
    crate::tuner::tunable_from_lowest_frequency(freq);
    frequency_command_tunes(d, freq, replies);
    crate::tuner::pll_settings_bounds(freq);
    let (a, b) = (d.tuner[0x10], d.tuner[0x12]);
    let div = div_num(freq) as u8;
    let shifted = (div_num(freq) * 32) as u8;
    assert(((a & 0x1F) | shifted) % 32 == a % 32) by (bit_vector)
        requires
            shifted == div * 32,
            div <= 6,
    ;
    assert((b | 0x08) % 8 == b % 8 && (b & 0xF7) % 8 == b % 8 && (b | 0x08) / 16 == b / 16 && (b
        & 0xF7) / 16 == b / 16) by (bit_vector);
}

// ── What starting the receiver leaves in the demodulator ───────────────────

/// Whether an access writes register `addr` of demodulator page `page`.
pub open spec fn writes_demod(op: Op, page: u16, addr: u16) -> bool {
    op matches Op::DemodReg { page: p, addr: a, .. } && p == page && a == addr
}

/// The last of the accesses that write register `addr` of demodulator page
/// `page`.
pub open spec fn last_demod_write(ops: Seq<Op>, page: u16, addr: u16) -> Option<Op>
    decreases ops.len(),
{
    if ops.len() == 0 {
        None
    } else if writes_demod(ops.last(), page, addr) {
        Some(ops.last())
    } else {
        last_demod_write(ops.drop_last(), page, addr)
    }
}

/// Accesses that do not write a register leave the last write to it as it was.
proof fn lemma_last_write_stays(first: Seq<Op>, second: Seq<Op>, page: u16, addr: u16)
    requires
        forall|i: int|
            0 <= i < second.len() ==> !writes_demod(#[trigger] second[i], page, addr),
    ensures
        last_demod_write(first + second, page, addr) == last_demod_write(first, page, addr),
    decreases second.len(),
{
    if second.len() == 0 {
        assert(first + second =~= first);
    } else {
        assert((first + second).last() == second[second.len() - 1]);
        assert((first + second).drop_last() =~= first + second.drop_last());
        lemma_last_write_stays(first, second.drop_last(), page, addr);
    }
}

/// Of accesses to distinct registers, each is the last write to its register.
proof fn lemma_last_write_at(first: Seq<Op>, second: Seq<Op>, k: int, page: u16, addr: u16)
    requires
        0 <= k < second.len(),
        writes_demod(second[k], page, addr),
        forall|i: int|
            k < i < second.len() ==> !writes_demod(#[trigger] second[i], page, addr),
    ensures
        last_demod_write(first + second, page, addr) == Some(second[k]),
{
    let head = first + second.take(k + 1);
    let tail = second.skip(k + 1);
    assert(first + second =~= head + tail);
    assert(head.last() == second[k]);
    assert forall|i: int| 0 <= i < tail.len() implies !writes_demod(
        #[trigger] tail[i],
        page,
        addr,
    ) by {
        assert(tail[i] == second[k + 1 + i]);
    }
    lemma_last_write_stays(head, tail, page, addr);
}

/// Tuning, setting the gain and emptying the buffer write no demodulator
/// register but the first of page one.
proof fn lemma_start_keeps_demod(config: RtlSdrConfig, addr: u16)
    requires
        addr != 0x01,
    ensures
        last_demod_write(start_ops(config), 1, addr) == last_demod_write(
            power_up_ops(config.sample_rate),
            1,
            addr,
        ),
{
    let up = power_up_ops(config.sample_rate);
    let tune = center_freq_ops(config.center_freq);
    let gain = gain_ops(config.gain);
    assert forall|i: int| 0 <= i < tune.len() implies !writes_demod(
        #[trigger] tune[i],
        1,
        addr,
    ) by {
        if tunable(config.center_freq) {
            assert(tuner_freq_ops(config.center_freq).len() == 6);
            assert(tune.len() == 8);
        }
    }
    lemma_last_write_stays(up, tune, 1, addr);
    if tunable(config.center_freq) {
        assert forall|i: int| 0 <= i < gain.len() implies !writes_demod(
            #[trigger] gain[i],
            1,
            addr,
        ) by {
            assert(tuner_gain_ops(config.gain).len() == 3);
        }
        lemma_last_write_stays(up + tune, gain, 1, addr);
        lemma_last_write_stays(up + tune + gain, reset_ops(), 1, addr);
    }
}

/// Starting the receiver leaves the demodulator with its spectrum inverted,
/// with the intermediate frequency of the tuner, and with the ratio for the
/// sample rate.
pub proof fn start_sets_up_demodulator(config: RtlSdrConfig)
    ensures
        last_demod_write(start_ops(config), 1, 0x15) == Some(demod_byte(1, 0x15, 0x01)),
        forall|k: int|
            0 <= k < 3 ==> last_demod_write(
                start_ops(config),
                1,
                (0x19 + k) as u16,
            ) == Some(#[trigger] if_frequency_ops(R820T_IF_FREQ)[k]),
        last_demod_write(start_ops(config), 1, 0x9F) == Some(
            sample_rate_ops(config.sample_rate)[0],
        ),
        last_demod_write(start_ops(config), 1, 0xA1) == Some(
            sample_rate_ops(config.sample_rate)[1],
        ),
{
    let open = seq![
        Op::Open,
        Op::SelectConfiguration { number: 1 },
        Op::ClaimInterface { number: 0 },
    ];
    let init = rtl2832u_init_ops();
    let tuner = seq![i2c_opened()] + r820t_init_ops() + seq![i2c_closed()];
    let intermediate = if_frequency_ops(R820T_IF_FREQ);
    let rate = sample_rate_ops(config.sample_rate);
    let ready = open + init + tuner;
    assert(power_up_ops(config.sample_rate) =~= ready + intermediate + rate);
    assert(init.len() == 43 && lpf_ops().len() == 20);

    lemma_start_keeps_demod(config, 0x15);
    lemma_last_write_stays(ready + intermediate, rate, 1, 0x15);
    lemma_last_write_stays(ready, intermediate, 1, 0x15);
    lemma_last_write_stays(open + init, tuner, 1, 0x15);
    lemma_last_write_at(open, init, 7, 1, 0x15);

    assert forall|k: int| 0 <= k < 3 implies last_demod_write(
        start_ops(config),
        1,
        (0x19 + k) as u16,
    ) == Some(#[trigger] intermediate[k]) by {
        let addr = (0x19 + k) as u16;
        lemma_start_keeps_demod(config, addr);
        lemma_last_write_stays(ready + intermediate, rate, 1, addr);
        lemma_last_write_at(ready, intermediate, k, 1, addr);
    }

    lemma_start_keeps_demod(config, 0x9F);
    lemma_last_write_at(ready + intermediate, rate, 0, 1, 0x9F);
    lemma_start_keeps_demod(config, 0xA1);
    lemma_last_write_at(ready + intermediate, rate, 1, 1, 0xA1);
}

} // verus!
