//! What operations leave in the registers of the RTL2832U.
//!
//! The chip is a model: it keeps the bytes that were last written to each place,
//! and a place is the index and the value of the request that writes it. The
//! tuner is reached through one of these places and is no part of the model.

use vstd::prelude::*;

use crate::demod::{if_word, rate_ratio, LPF_COEFS};
use crate::operation::{DriverError, Op, Progress, Reply};
use crate::receiver::{
    center_freq_ops, demod_byte, gain_ops, i2c_closed, i2c_opened, if_frequency_ops, lpf_ops,
    power_up_ops, r820t_init_ops, reset_ops, rtl2832u_init_ops, sample_rate_ops, start_ops, tunable,
    tuner_freq_ops, tuner_gain_ops, RtlSdrConfig,
};
use crate::transfer::Request;
use crate::tuner::R820T_IF_FREQ;

verus! {

/// Index and value of a request.
pub type Place = (u16, u16);

/// The place through which the tuner is reached.
pub open spec fn tuner_place() -> Place {
    (0x0610, 0x34)
}

/// A register of the USB block.
pub open spec fn usb(addr: u16) -> Place {
    (0x0110, addr)
}

/// A register of the system block.
pub open spec fn sys(addr: u16) -> Place {
    (0x0210, addr)
}

/// Register `addr` of page `page` of the demodulator.
pub open spec fn demod(page: u16, addr: u16) -> Place {
    ((0x10 + page) as u16, (0x100 * addr + 0x20) as u16)
}

/// The registers after a request.
pub open spec fn after(regs: Map<Place, Seq<u8>>, request: Request) -> Map<Place, Seq<u8>> {
    match request {
        Request::ControlOut { value, index, data } => regs.insert((index, value), data),
        _ => regs,
    }
}

/// The registers after the requests of an operation that were answered with
/// `replies`.
pub open spec fn after_run(
    p: Progress,
    regs: Map<Place, Seq<u8>>,
    replies: Seq<Reply>,
) -> Map<Place, Seq<u8>>
    decreases replies.len(),
{
    if replies.len() == 0 {
        regs
    } else {
        after_run(
            p.resumed(replies[0]),
            after(regs, p.request().unwrap()),
            replies.drop_first(),
        )
    }
}

/// Whether `replies` carries an operation on with no request failing.
pub open spec fn is_answered(p: Progress, replies: Seq<Reply>) -> bool
    decreases replies.len(),
{
    replies.len() == 0 || {
        &&& p.request() is Some
        &&& replies[0] is Completed
        &&& is_answered(p.resumed(replies[0]), replies.drop_first())
    }
}

/// The operation after it was answered.
pub open spec fn answered(p: Progress, replies: Seq<Reply>) -> Progress
    decreases replies.len(),
{
    if replies.len() == 0 {
        p
    } else {
        answered(p.resumed(replies[0]), replies.drop_first())
    }
}

// ── Accesses ───────────────────────────────────────────────────────────────

/// Where an access writes.
spec fn target(op: Op) -> Option<Place> {
    match op.request(0, 0) {
        Request::ControlOut { value, index, .. } => Some((index, value)),
        _ => None,
    }
}

/// What an access writes.
spec fn payload(op: Op) -> Seq<u8> {
    match op.request(0, 0) {
        Request::ControlOut { data, .. } => data,
        _ => Seq::empty(),
    }
}

/// The place that an access is made for.
spec fn place_of(op: Op) -> Option<Place> {
    match op {
        Op::UsbReg { addr, .. } => Some(usb(addr)),
        Op::SysReg { addr, .. } => Some(sys(addr)),
        Op::DemodReg { page, addr, .. } => Some(demod(page, addr)),
        Op::TunerReg { .. } => Some(tuner_place()),
        Op::TunerUpdate { .. } => Some(tuner_place()),
        Op::AwaitLock { .. } => Some(tuner_place()),
        _ => None,
    }
}

/// Whether an access names registers that there are.
spec fn is_ordinary(op: Op) -> bool {
    op.valid() && (op matches Op::DemodReg { page, addr, .. } ==> page <= 1 && addr < 0x100)
}

proof fn lemma_target(op: Op)
    requires
        is_ordinary(op),
    ensures
        target(op) == place_of(op),
{
    assert(0x0600u16 | 0x10 == 0x610 && 0x0200u16 | 0x10 == 0x210 && 0x0100u16 | 0x10 == 0x110
        && 0u16 | 0x10 == 0x10 && 1u16 | 0x10 == 0x11) by (bit_vector);
}

/// What a sequence of accesses leaves at a place: the bytes of the last one that
/// writes there.
spec fn last_write(ops: Seq<Op>, place: Place) -> Option<Seq<u8>>
    decreases ops.len(),
{
    if ops.len() == 0 {
        None
    } else if target(ops.last()) == Some(place) {
        Some(payload(ops.last()))
    } else {
        last_write(ops.drop_last(), place)
    }
}

/// What is left at a place.
spec fn content(regs: Map<Place, Seq<u8>>, place: Place) -> Option<Seq<u8>> {
    if regs.dom().contains(place) {
        Some(regs[place])
    } else {
        None
    }
}

/// What a sequence of accesses leaves at a place that held `before`.
spec fn left_at(ops: Seq<Op>, place: Place, before: Option<Seq<u8>>) -> Option<Seq<u8>> {
    match last_write(ops, place) {
        Some(bytes) => Some(bytes),
        None => before,
    }
}

proof fn lemma_first_write(ops: Seq<Op>, place: Place, before: Option<Seq<u8>>)
    requires
        ops.len() > 0,
    ensures
        left_at(ops, place, before) == left_at(
            ops.drop_first(),
            place,
            if target(ops[0]) == Some(place) {
                Some(payload(ops[0]))
            } else {
                before
            },
        ),
    decreases ops.len(),
{
    let rest = ops.drop_first();
    if ops.len() == 1 {
        assert(rest =~= Seq::<Op>::empty());
        assert(ops.drop_last() =~= Seq::<Op>::empty());
        assert(last_write(ops.drop_last(), place) is None);
        assert(ops.last() == ops[0]);
    } else {
        assert(rest.last() == ops.last());
        assert(rest.drop_last() =~= ops.drop_last().drop_first());
        assert(ops.drop_last()[0] == ops[0]);
        lemma_first_write(ops.drop_last(), place, before);
    }
}

/// What the place will hold once the rest of an operation is carried out.
spec fn destination(p: Progress, place: Place, regs: Map<Place, Seq<u8>>) -> Option<Seq<u8>> {
    if p.pos >= p.ops.len() {
        content(regs, place)
    } else if p.phase > 0 {
        left_at(p.ops.skip(p.pos + 1), place, content(regs, place))
    } else {
        left_at(p.ops.skip(p.pos), place, content(regs, place))
    }
}

spec fn in_step(p: Progress) -> bool {
    &&& forall|i: int| 0 <= i < p.ops.len() ==> is_ordinary(#[trigger] p.ops[i])
    &&& 0 <= p.pos <= p.ops.len()
    &&& p.phase >= 0
    &&& p.pos < p.ops.len() ==> p.phase < p.ops[p.pos].phases()
}

proof fn lemma_step(p: Progress, place: Place, regs: Map<Place, Seq<u8>>, reply: Reply)
    requires
        in_step(p),
        !p.finished(),
        reply is Completed,
        place != tuner_place(),
    ensures
        in_step(p.resumed(reply)),
        destination(p.resumed(reply), place, after(regs, p.request().unwrap())) == destination(
            p,
            place,
            regs,
        ),
{
    let op = p.ops[p.pos];
    let next = p.resumed(reply);
    let request = p.request().unwrap();
    let rest = p.ops.skip(p.pos);
    assert(rest[0] == op);
    assert(rest.drop_first() =~= p.ops.skip(p.pos + 1));
    assert(is_ordinary(op));
    lemma_target(op);
    lemma_first_write(rest, place, content(regs, place));
    assert(0x0600u16 | 0x10 == 0x610) by (bit_vector);
    let e = after(regs, request);
    if p.phase == 0 {
        match op {
            Op::TunerUpdate { .. } => {},
            Op::AwaitLock { .. } => {},
            _ => {
                assert(request == op.request(0, 0));
            },
        }
        assert(content(e, place) == (if target(op) == Some(place) {
            Some(payload(op))
        } else {
            content(regs, place)
        }));
    } else {
        assert(content(e, place) == content(regs, place));
    }
    if next.pos == p.pos + 1 {
        assert(p.ops.skip(p.pos + 1) == next.ops.skip(next.pos));
        if next.pos >= next.ops.len() {
            assert(p.ops.skip(p.pos + 1) =~= Seq::<Op>::empty());
            assert(last_write(p.ops.skip(p.pos + 1), place) is None);
        } else {
            assert(is_ordinary(next.ops[next.pos]));
        }
    }
}

proof fn lemma_run(p: Progress, place: Place, regs: Map<Place, Seq<u8>>, replies: Seq<Reply>)
    requires
        in_step(p),
        !p.failed,
        is_answered(p, replies),
        place != tuner_place(),
    ensures
        !answered(p, replies).failed,
        destination(answered(p, replies), place, after_run(p, regs, replies)) == destination(
            p,
            place,
            regs,
        ),
    decreases replies.len(),
{
    if replies.len() > 0 {
        lemma_step(p, place, regs, replies[0]);
        lemma_run(
            p.resumed(replies[0]),
            place,
            after(regs, p.request().unwrap()),
            replies.drop_first(),
        );
    }
}

/// An operation that runs to its end leaves at a place what its last access to it
/// writes.
proof fn lemma_finished_run(
    ops: Seq<Op>,
    verdict: Option<DriverError>,
    place: Place,
    regs: Map<Place, Seq<u8>>,
    replies: Seq<Reply>,
    bytes: Seq<u8>,
)
    requires
        forall|i: int| 0 <= i < ops.len() ==> is_ordinary(#[trigger] ops[i]),
        is_answered(Progress::start(ops, verdict), replies),
        answered(Progress::start(ops, verdict), replies).finished(),
        place != tuner_place(),
        last_write(ops, place) == Some(bytes),
    ensures
        after_run(Progress::start(ops, verdict), regs, replies).dom().contains(place),
        after_run(Progress::start(ops, verdict), regs, replies)[place] == bytes,
{
    let p = Progress::start(ops, verdict);
    if ops.len() > 0 {
        assert(is_ordinary(ops[0]));
    }
    lemma_run(p, place, regs, replies);
    assert(ops.skip(0) =~= ops);
}

proof fn lemma_write_stays(first: Seq<Op>, second: Seq<Op>, place: Place)
    requires
        forall|i: int|
            0 <= i < second.len() ==> is_ordinary(#[trigger] second[i]) && place_of(second[i])
                != Some(place),
    ensures
        last_write(first + second, place) == last_write(first, place),
    decreases second.len(),
{
    if second.len() == 0 {
        assert(first + second =~= first);
    } else {
        let last = second[second.len() - 1];
        lemma_target(last);
        assert((first + second).last() == last);
        assert((first + second).drop_last() =~= first + second.drop_last());
        assert forall|i: int| 0 <= i < second.len() - 1 implies is_ordinary(
            #[trigger] second.drop_last()[i],
        ) && place_of(second.drop_last()[i]) != Some(place) by {
            assert(second.drop_last()[i] == second[i]);
        }
        lemma_write_stays(first, second.drop_last(), place);
    }
}

proof fn lemma_write_at(first: Seq<Op>, second: Seq<Op>, k: int, place: Place)
    requires
        0 <= k < second.len(),
        forall|i: int| 0 <= i < second.len() ==> is_ordinary(#[trigger] second[i]),
        place_of(second[k]) == Some(place),
        forall|i: int| k < i < second.len() ==> place_of(#[trigger] second[i]) != Some(place),
    ensures
        last_write(first + second, place) == Some(payload(second[k])),
{
    let head = first + second.take(k + 1);
    let tail = second.skip(k + 1);
    assert(first + second =~= head + tail);
    assert(head.last() == second[k]);
    lemma_target(second[k]);
    assert forall|i: int| 0 <= i < tail.len() implies is_ordinary(#[trigger] tail[i]) && place_of(
        tail[i],
    ) != Some(place) by {
        assert(tail[i] == second[k + 1 + i]);
    }
    lemma_write_stays(head, tail, place);
}

// ── Starting the receiver ──────────────────────────────────────────────────

spec fn opening() -> Seq<Op> {
    seq![Op::Open, Op::SelectConfiguration { number: 1 }, Op::ClaimInterface { number: 0 }]
}

spec fn tuner_setup() -> Seq<Op> {
    seq![i2c_opened()] + r820t_init_ops() + seq![i2c_closed()]
}

spec fn all_ordinary(ops: Seq<Op>) -> bool {
    forall|i: int| 0 <= i < ops.len() ==> is_ordinary(#[trigger] ops[i])
}

/// Whether no access is made for `place`.
spec fn avoids(ops: Seq<Op>, place: Place) -> bool {
    forall|i: int| 0 <= i < ops.len() ==> place_of(#[trigger] ops[i]) != Some(place)
}

proof fn lemma_join(first: Seq<Op>, second: Seq<Op>)
    requires
        all_ordinary(first),
        all_ordinary(second),
    ensures
        all_ordinary(first + second),
{
    assert forall|i: int| 0 <= i < (first + second).len() implies is_ordinary(
        #[trigger] (first + second)[i],
    ) by {
        if i < first.len() {
            assert((first + second)[i] == first[i]);
        } else {
            assert((first + second)[i] == second[i - first.len()]);
        }
    }
}

/// The groups of accesses that make up the start, and which places each writes.
proof fn lemma_groups(config: RtlSdrConfig, place: Place)
    ensures
        all_ordinary(opening()),
        all_ordinary(rtl2832u_init_ops()),
        rtl2832u_init_ops().len() == 43,
        all_ordinary(tuner_setup()),
        place != tuner_place() && place != demod(1, 0x01) ==> avoids(tuner_setup(), place),
        all_ordinary(if_frequency_ops(R820T_IF_FREQ)),
        place != demod(1, 0x19) && place != demod(1, 0x1A) && place != demod(1, 0x1B) ==> avoids(
            if_frequency_ops(R820T_IF_FREQ),
            place,
        ),
        all_ordinary(sample_rate_ops(config.sample_rate)),
        place != demod(1, 0x9F) && place != demod(1, 0xA1) && place != demod(1, 0x01) ==> avoids(
            sample_rate_ops(config.sample_rate),
            place,
        ),
        all_ordinary(center_freq_ops(config.center_freq)),
        place != tuner_place() && place != demod(1, 0x01) ==> avoids(
            center_freq_ops(config.center_freq),
            place,
        ),
        all_ordinary(gain_ops(config.gain)),
        place != tuner_place() && place != demod(1, 0x01) ==> avoids(gain_ops(config.gain), place),
        all_ordinary(reset_ops()),
        place != usb(0x2148) ==> avoids(reset_ops(), place),
{
    assert(lpf_ops().len() == 20);
    let setup = tuner_setup();
    assert(setup.len() == 29);
    assert forall|i: int| 0 <= i < 29 implies is_ordinary(#[trigger] setup[i]) && (place_of(
        setup[i],
    ) == Some(tuner_place()) || place_of(setup[i]) == Some(demod(1, 0x01))) by {
        if 1 <= i < 28 {
            assert(setup[i] == r820t_init_ops()[i - 1]);
        }
    }
    let tune = center_freq_ops(config.center_freq);
    assert forall|i: int| 0 <= i < tune.len() implies is_ordinary(#[trigger] tune[i]) && (place_of(
        tune[i],
    ) == Some(tuner_place()) || place_of(tune[i]) == Some(demod(1, 0x01))) by {
        if tunable(config.center_freq) {
            let inner = tuner_freq_ops(config.center_freq);
            assert(inner.len() == 6 && tune.len() == 8);
            if 1 <= i < 7 {
                assert(tune[i] == inner[i - 1]);
            }
        }
    }
    let gain = gain_ops(config.gain);
    assert forall|i: int| 0 <= i < gain.len() implies is_ordinary(#[trigger] gain[i]) && (place_of(
        gain[i],
    ) == Some(tuner_place()) || place_of(gain[i]) == Some(demod(1, 0x01))) by {
        let inner = tuner_gain_ops(config.gain);
        assert(inner.len() == 3 && gain.len() == 5);
        if 1 <= i < 4 {
            assert(gain[i] == inner[i - 1]);
        }
    }
    let init = rtl2832u_init_ops();
    assert forall|i: int| 0 <= i < 43 implies is_ordinary(#[trigger] init[i]) by {
        if 14 <= i < 34 {
            assert(init[i] == lpf_ops()[i - 14]);
        }
    }
}

/// Without a later write, what power-up leaves at a place stays there.
proof fn lemma_start_keeps(config: RtlSdrConfig, place: Place)
    requires
        place != tuner_place(),
        place != demod(1, 0x01),
        place != usb(0x2148),
    ensures
        last_write(start_ops(config), place) == last_write(
            power_up_ops(config.sample_rate),
            place,
        ),
{
    let up = power_up_ops(config.sample_rate);
    let tune = center_freq_ops(config.center_freq);
    let gain = gain_ops(config.gain);
    lemma_groups(config, place);
    lemma_write_stays(up, tune, place);
    if tunable(config.center_freq) {
        lemma_write_stays(up + tune, gain, place);
        lemma_write_stays(up + tune + gain, reset_ops(), place);
    }
}

/// What the initialisation of the RTL2832U leaves at a place stays there, where
/// neither the tuner nor a setting is concerned.
proof fn lemma_init_register(config: RtlSdrConfig, k: int, place: Place)
    requires
        place != tuner_place(),
        place != demod(1, 0x01),
        place != usb(0x2148),
        place != demod(1, 0x19),
        place != demod(1, 0x1A),
        place != demod(1, 0x1B),
        place != demod(1, 0x9F),
        place != demod(1, 0xA1),
        0 <= k < 43,
        place_of(rtl2832u_init_ops()[k]) == Some(place),
        forall|i: int|
            k < i < 43 ==> place_of(#[trigger] rtl2832u_init_ops()[i]) != Some(place),
    ensures
        last_write(start_ops(config), place) == Some(payload(rtl2832u_init_ops()[k])),
{
    let init = rtl2832u_init_ops();
    let intermediate = if_frequency_ops(R820T_IF_FREQ);
    let rate = sample_rate_ops(config.sample_rate);
    lemma_groups(config, place);
    lemma_start_keeps(config, place);
    assert(power_up_ops(config.sample_rate) =~= opening() + init + tuner_setup() + intermediate
        + rate);
    lemma_write_at(opening(), init, k, place);
    lemma_write_stays(opening() + init, tuner_setup(), place);
    lemma_write_stays(opening() + init + tuner_setup(), intermediate, place);
    lemma_write_stays(opening() + init + tuner_setup() + intermediate, rate, place);
}

proof fn lemma_start_is_ordinary(config: RtlSdrConfig)
    ensures
        all_ordinary(start_ops(config)),
{
    lemma_groups(config, tuner_place());
    let init = rtl2832u_init_ops();
    let intermediate = if_frequency_ops(R820T_IF_FREQ);
    let rate = sample_rate_ops(config.sample_rate);
    let up = power_up_ops(config.sample_rate);
    let tune = center_freq_ops(config.center_freq);
    assert(up =~= opening() + init + tuner_setup() + intermediate + rate);
    lemma_join(opening(), init);
    lemma_join(opening() + init, tuner_setup());
    lemma_join(opening() + init + tuner_setup(), intermediate);
    lemma_join(opening() + init + tuner_setup() + intermediate, rate);
    lemma_join(up, tune);
    if tunable(config.center_freq) {
        lemma_join(up + tune, gain_ops(config.gain));
        lemma_join(up + tune + gain_ops(config.gain), reset_ops());
    }
}

/// The bytes of numbers of one and two bytes.
proof fn lemma_bytes(val: u32)
    ensures
        val < 0x100 ==> crate::wire::be_bytes(val, 1) == seq![val as u8],
        val < 0x100 ==> crate::wire::le_bytes(val, 1) == seq![val as u8],
        val < 0x1_0000 ==> crate::wire::be_bytes(val, 2) == seq![
            (val / 0x100) as u8,
            (val % 0x100) as u8,
        ],
        val < 0x1_0000 ==> crate::wire::le_bytes(val, 2) == seq![
            (val % 0x100) as u8,
            (val / 0x100) as u8,
        ],
{
    reveal_with_fuel(crate::wire::pow256, 3);
    assert(crate::wire::pow256(0) == 1 && crate::wire::pow256(1) == 256);
    assert(crate::wire::byte_of(val, 0) == (val % 0x100) as u8) by {
        assert(val as int / 1 == val);
    }
    assert(crate::wire::byte_of(val, 1) == ((val / 0x100) % 0x100) as u8) by {
        assert(val as int / 256 == (val / 0x100) as int);
    }
    if val < 0x100 {
        assert(crate::wire::be_bytes(val, 1) =~= seq![val as u8]);
        assert(crate::wire::le_bytes(val, 1) =~= seq![val as u8]);
    }
    if val < 0x1_0000 {
        assert(crate::wire::be_bytes(val, 2) =~= seq![(val / 0x100) as u8, (val % 0x100) as u8]);
        assert(crate::wire::le_bytes(val, 2) =~= seq![(val % 0x100) as u8, (val / 0x100) as u8]);
    }
}

/// Whether a place was written and holds `bytes`.
pub open spec fn holds(regs: Map<Place, Seq<u8>>, place: Place, bytes: Seq<u8>) -> bool {
    regs.dom().contains(place) && regs[place] == bytes
}

/// The command that starts the receiver, as it is when nothing was asked yet.
pub open spec fn start_command(config: RtlSdrConfig) -> Progress {
    Progress::start(start_ops(config), crate::receiver::tuning_verdict(config.center_freq))
}

proof fn lemma_started(
    config: RtlSdrConfig,
    regs: Map<Place, Seq<u8>>,
    replies: Seq<Reply>,
    place: Place,
    bytes: Seq<u8>,
)
    requires
        is_answered(start_command(config), replies),
        answered(start_command(config), replies).finished(),
        place != tuner_place(),
        last_write(start_ops(config), place) == Some(bytes),
    ensures
        holds(after_run(start_command(config), regs, replies), place, bytes),
{
    lemma_start_is_ordinary(config);
    lemma_finished_run(
        start_ops(config),
        crate::receiver::tuning_verdict(config.center_freq),
        place,
        regs,
        replies,
        bytes,
    );
}

/// Once the receiver was started, USB and system block are set up: the control
/// register of the USB block, a largest packet of 512 bytes, little-endian, on
/// the endpoint of the samples, and both control registers of the demodulator.
pub proof fn start_sets_up_usb_and_system(
    config: RtlSdrConfig,
    regs: Map<Place, Seq<u8>>,
    replies: Seq<Reply>,
)
    requires
        is_answered(start_command(config), replies),
        answered(start_command(config), replies).finished(),
    ensures
        ({
            let left = after_run(start_command(config), regs, replies);
            &&& holds(left, usb(0x2000), seq![0x09u8])
            &&& holds(left, usb(0x2158), seq![0x00u8, 0x02])
            &&& holds(left, sys(0x300B), seq![0x22u8])
            &&& holds(left, sys(0x3000), seq![0xE8u8])
            &&& crate::wire::le_value(left[usb(0x2158)]) == 512
        }),
{
    let init = rtl2832u_init_ops();
    lemma_groups(config, tuner_place());
    assert(lpf_ops().len() == 20);
    lemma_bytes(0x09);
    lemma_bytes(0x0200);
    lemma_init_register(config, 0, usb(0x2000));
    assert(payload(init[0]) =~= seq![0x09u8]);
    lemma_started(config, regs, replies, usb(0x2000), seq![0x09u8]);
    lemma_init_register(config, 1, usb(0x2158));
    assert(payload(init[1]) =~= seq![0x00u8, 0x02]);
    lemma_started(config, regs, replies, usb(0x2158), seq![0x00u8, 0x02]);
    lemma_init_register(config, 3, sys(0x300B));
    assert(payload(init[3]) =~= seq![0x22u8]);
    lemma_started(config, regs, replies, sys(0x300B), seq![0x22u8]);
    lemma_init_register(config, 4, sys(0x3000));
    assert(payload(init[4]) =~= seq![0xE8u8]);
    lemma_started(config, regs, replies, sys(0x3000), seq![0xE8u8]);
    reveal_with_fuel(crate::wire::le_value, 3);
    let packet = seq![0x00u8, 0x02];
    assert(packet.drop_first() =~= seq![0x02u8]);
    assert(packet.drop_first().drop_first() =~= Seq::<u8>::empty());
}

proof fn lemma_demod_register(
    config: RtlSdrConfig,
    regs: Map<Place, Seq<u8>>,
    replies: Seq<Reply>,
    k: int,
    page: u16,
    addr: u16,
    val: u16,
)
    requires
        is_answered(start_command(config), replies),
        answered(start_command(config), replies).finished(),
        page <= 1,
        addr < 0x100,
        val < 0x100,
        page == 1 ==> addr != 0x01 && addr != 0x19 && addr != 0x1A && addr != 0x1B && addr != 0x9F
            && addr != 0xA1,
        0 <= k < 43,
        rtl2832u_init_ops()[k] == demod_byte(page, addr, val),
        forall|i: int|
            k < i < 43 ==> place_of(#[trigger] rtl2832u_init_ops()[i]) != Some(demod(page, addr)),
    ensures
        holds(
            after_run(start_command(config), regs, replies),
            demod(page, addr),
            seq![val as u8],
        ),
{
    lemma_bytes(val as u32);
    lemma_init_register(config, k, demod(page, addr));
    lemma_started(config, regs, replies, demod(page, addr), seq![val as u8]);
}

/// Once the receiver was started, the demodulator is set up: its spectrum is
/// inverted, there is no carrier offset, the low-pass filter has its
/// coefficients, the chip is in its mode for sample streams without gain control,
/// and its datapath takes a zero intermediate frequency.
pub proof fn start_sets_up_the_demodulator_registers(
    config: RtlSdrConfig,
    regs: Map<Place, Seq<u8>>,
    replies: Seq<Reply>,
)
    requires
        is_answered(start_command(config), replies),
        answered(start_command(config), replies).finished(),
    ensures
        ({
            let left = after_run(start_command(config), regs, replies);
            let coefficients = seq![
                0xCAu8, 0xDC, 0xD7, 0xD8, 0xE0, 0xF2, 0x0E, 0x35, 0x06, 0x50,
                0x9C, 0x0D, 0x71, 0x11, 0x14, 0x71, 0x74, 0x19, 0x41, 0xA5,
            ];
            &&& holds(left, demod(1, 0x15), seq![0x01u8])
            &&& holds(left, demod(1, 0x16), seq![0x00u8])
            &&& holds(left, demod(1, 0x17), seq![0x00u8])
            &&& holds(left, demod(1, 0x18), seq![0x00u8])
            &&& holds(left, demod(0, 0x19), seq![0x05u8])
            &&& holds(left, demod(1, 0x93), seq![0xF0u8])
            &&& holds(left, demod(1, 0x94), seq![0x0Fu8])
            &&& holds(left, demod(1, 0x11), seq![0x00u8])
            &&& holds(left, demod(1, 0x04), seq![0x00u8])
            &&& holds(left, demod(0, 0x61), seq![0x60u8])
            &&& holds(left, demod(0, 0x06), seq![0x80u8])
            &&& holds(left, demod(1, 0xB1), seq![0x1Bu8])
            &&& holds(left, demod(0, 0x0D), seq![0x83u8])
            &&& forall|k: int|
                0 <= k < 20 ==> #[trigger] holds(
                    left,
                    demod(1, (0x1C + k) as u16),
                    seq![coefficients[k]],
                )
        }),
{
    let init = rtl2832u_init_ops();
    lemma_groups(config, tuner_place());
    assert(lpf_ops().len() == 20);
    lemma_demod_register(config, regs, replies, 7, 1, 0x15, 0x01);
    lemma_demod_register(config, regs, replies, 8, 1, 0x16, 0x00);
    lemma_demod_register(config, regs, replies, 9, 1, 0x17, 0x00);
    lemma_demod_register(config, regs, replies, 10, 1, 0x18, 0x00);
    lemma_demod_register(config, regs, replies, 34, 0, 0x19, 0x05);
    lemma_demod_register(config, regs, replies, 35, 1, 0x93, 0xF0);
    lemma_demod_register(config, regs, replies, 36, 1, 0x94, 0x0F);
    lemma_demod_register(config, regs, replies, 37, 1, 0x11, 0x00);
    lemma_demod_register(config, regs, replies, 38, 1, 0x04, 0x00);
    lemma_demod_register(config, regs, replies, 39, 0, 0x61, 0x60);
    lemma_demod_register(config, regs, replies, 40, 0, 0x06, 0x80);
    lemma_demod_register(config, regs, replies, 41, 1, 0xB1, 0x1B);
    lemma_demod_register(config, regs, replies, 42, 0, 0x0D, 0x83);
    let coefficients = seq![
        0xCAu8, 0xDC, 0xD7, 0xD8, 0xE0, 0xF2, 0x0E, 0x35, 0x06, 0x50,
        0x9C, 0x0D, 0x71, 0x11, 0x14, 0x71, 0x74, 0x19, 0x41, 0xA5,
    ];
    assert forall|k: int| 0 <= k < 20 implies #[trigger] holds(
        after_run(start_command(config), regs, replies),
        demod(1, (0x1C + k) as u16),
        seq![coefficients[k]],
    ) by {
        assert(LPF_COEFS@[k] == coefficients[k]);
        assert(init[14 + k] == lpf_ops()[k]);
        assert forall|i: int| 14 + k < i < 43 implies place_of(#[trigger] init[i]) != Some(
            demod(1, (0x1C + k) as u16),
        ) by {
            if i < 34 {
                assert(init[i] == lpf_ops()[i - 14]);
            }
        }
        lemma_demod_register(
            config,
            regs,
            replies,
            14 + k,
            1,
            (0x1C + k) as u16,
            coefficients[k] as u16,
        );
    }
}

/// Once the receiver was started, the demodulator takes the intermediate
/// frequency of 3.57 MHz, and its resampler the ratio of the crystal frequency to
/// the sample rate: a multiple of four within four units of the exact ratio.
pub proof fn start_sets_up_the_frequencies(
    config: RtlSdrConfig,
    regs: Map<Place, Seq<u8>>,
    replies: Seq<Reply>,
)
    requires
        is_answered(start_command(config), replies),
        answered(start_command(config), replies).finished(),
        config.sample_rate > 450_000,
    ensures
        ({
            let left = after_run(start_command(config), regs, replies);
            let high = left[demod(1, 0x9F)];
            let low = left[demod(1, 0xA1)];
            let ratio = 0x100_0000 * high[0] + 0x1_0000 * high[1] + 0x100 * low[0] + low[1];
            &&& holds(left, demod(1, 0x19), seq![0x38u8])
            &&& holds(left, demod(1, 0x1A), seq![0x11u8])
            &&& holds(left, demod(1, 0x1B), seq![0x12u8])
            &&& left.dom().contains(demod(1, 0x9F)) && high.len() == 2
            &&& left.dom().contains(demod(1, 0xA1)) && low.len() == 2
            &&& ratio % 4 == 0
            &&& 2 * ratio * config.sample_rate <= 2 * 120_795_955_200_000 + config.sample_rate
            &&& 2 * 120_795_955_200_000 + config.sample_rate < 2 * (ratio + 4) * config.sample_rate
        }),
{
    let init = rtl2832u_init_ops();
    let intermediate = if_frequency_ops(R820T_IF_FREQ);
    let rate = sample_rate_ops(config.sample_rate);
    let ready = opening() + init + tuner_setup();
    lemma_groups(config, demod(1, 0x19));
    lemma_groups(config, demod(1, 0x1A));
    lemma_groups(config, demod(1, 0x1B));
    lemma_groups(config, demod(1, 0x9F));
    lemma_groups(config, demod(1, 0xA1));
    assert(power_up_ops(config.sample_rate) =~= ready + intermediate + rate);
    assert(if_word(R820T_IF_FREQ) == 0x381112);
    lemma_bytes(0x38);
    lemma_bytes(0x11);
    lemma_bytes(0x12);
    lemma_start_keeps(config, demod(1, 0x19));
    lemma_write_stays(ready + intermediate, rate, demod(1, 0x19));
    lemma_write_at(ready, intermediate, 0, demod(1, 0x19));
    lemma_started(config, regs, replies, demod(1, 0x19), seq![0x38u8]);
    lemma_start_keeps(config, demod(1, 0x1A));
    lemma_write_stays(ready + intermediate, rate, demod(1, 0x1A));
    lemma_write_at(ready, intermediate, 1, demod(1, 0x1A));
    lemma_started(config, regs, replies, demod(1, 0x1A), seq![0x11u8]);
    lemma_start_keeps(config, demod(1, 0x1B));
    lemma_write_stays(ready + intermediate, rate, demod(1, 0x1B));
    lemma_write_at(ready, intermediate, 2, demod(1, 0x1B));
    lemma_started(config, regs, replies, demod(1, 0x1B), seq![0x12u8]);
    let r = rate_ratio(config.sample_rate);
    assert(0 <= r < 0x1000_0000 && r % 4 == 0);
    let (a, b) = (r / 0x1_0000, r % 0x1_0000);
    lemma_bytes(a as u32);
    lemma_bytes(b as u32);
    let high = seq![(a / 0x100) as u8, (a % 0x100) as u8];
    let low = seq![(b / 0x100) as u8, (b % 0x100) as u8];
    lemma_start_keeps(config, demod(1, 0x9F));
    lemma_write_at(ready + intermediate, rate, 0, demod(1, 0x9F));
    lemma_started(config, regs, replies, demod(1, 0x9F), high);
    lemma_start_keeps(config, demod(1, 0xA1));
    lemma_write_at(ready + intermediate, rate, 1, demod(1, 0xA1));
    lemma_started(config, regs, replies, demod(1, 0xA1), low);
    crate::demod::resampler_ratio_is_close(config.sample_rate);
}

/// Once the receiver was started, the way to the tuner is closed and the endpoint
/// of the samples runs. Where the frequency is one that the tuner cannot be told,
/// the way to the tuner is open and the endpoint is held.
pub proof fn start_lets_samples_flow(
    config: RtlSdrConfig,
    regs: Map<Place, Seq<u8>>,
    replies: Seq<Reply>,
)
    requires
        is_answered(start_command(config), replies),
        answered(start_command(config), replies).finished(),
    ensures
        ({
            let left = after_run(start_command(config), regs, replies);
            if config.center_freq >= 2_280_000 {
                &&& holds(left, usb(0x2148), seq![0x00u8, 0x00])
                &&& holds(left, demod(1, 0x01), seq![0x10u8])
            } else {
                &&& holds(left, usb(0x2148), seq![0x10u8, 0x02])
                &&& holds(left, demod(1, 0x01), seq![0x18u8])
            }
        }),
{
    crate::tuner::tunable_from_lowest_frequency(config.center_freq);
    let init = rtl2832u_init_ops();
    let intermediate = if_frequency_ops(R820T_IF_FREQ);
    let rate = sample_rate_ops(config.sample_rate);
    let up = power_up_ops(config.sample_rate);
    let tune = center_freq_ops(config.center_freq);
    let gain = gain_ops(config.gain);
    let (control, repeater) = (usb(0x2148), demod(1, 0x01));
    lemma_groups(config, control);
    lemma_groups(config, repeater);
    assert(up =~= opening() + init + tuner_setup() + intermediate + rate);
    lemma_bytes(0x0000);
    lemma_bytes(0x0210);
    lemma_bytes(0x10);
    lemma_bytes(0x18);
    if tunable(config.center_freq) {
        lemma_write_at(up + tune + gain, reset_ops(), 1, control);
        assert(payload(reset_ops()[1]) =~= seq![0x00u8, 0x00]);
        lemma_started(config, regs, replies, control, seq![0x00u8, 0x00]);
        lemma_write_stays(up + tune + gain, reset_ops(), repeater);
        assert(gain.len() == 5 && gain[4] == i2c_closed());
        lemma_write_at(up + tune, gain, 4, repeater);
        lemma_started(config, regs, replies, repeater, seq![0x10u8]);
    } else {
        lemma_write_stays(up, tune, control);
        lemma_write_stays(opening() + init + tuner_setup() + intermediate, rate, control);
        lemma_write_stays(opening() + init + tuner_setup(), intermediate, control);
        lemma_write_stays(opening() + init, tuner_setup(), control);
        lemma_write_at(opening(), init, 2, control);
        assert(payload(init[2]) =~= seq![0x10u8, 0x02]);
        lemma_started(config, regs, replies, control, seq![0x10u8, 0x02]);
        lemma_write_at(up, tune, 0, repeater);
        lemma_started(config, regs, replies, repeater, seq![0x18u8]);
    }
}

// ── The order of writes ────────────────────────────────────────────────────

/// What the requests of an operation that were answered with `replies` wrote to
/// some places, in order.
pub open spec fn written_to(
    places: Set<Place>,
    p: Progress,
    replies: Seq<Reply>,
) -> Seq<(Place, Seq<u8>)>
    decreases replies.len(),
{
    if replies.len() == 0 {
        Seq::empty()
    } else {
        write_of(places, p.request().unwrap()) + written_to(
            places,
            p.resumed(replies[0]),
            replies.drop_first(),
        )
    }
}

/// What a request writes to some places.
pub open spec fn write_of(places: Set<Place>, request: Request) -> Seq<(Place, Seq<u8>)> {
    match request {
        Request::ControlOut { value, index, data } if places.contains((index, value)) => seq![
            ((index, value), data),
        ],
        _ => Seq::empty(),
    }
}

/// What an access writes to some places.
spec fn write_by(places: Set<Place>, op: Op) -> Seq<(Place, Seq<u8>)> {
    match place_of(op) {
        Some(place) if places.contains(place) => seq![(place, payload(op))],
        _ => Seq::empty(),
    }
}

/// What accesses write to some places.
spec fn writes_by(places: Set<Place>, ops: Seq<Op>) -> Seq<(Place, Seq<u8>)>
    decreases ops.len(),
{
    if ops.len() == 0 {
        Seq::empty()
    } else {
        write_by(places, ops[0]) + writes_by(places, ops.drop_first())
    }
}

/// What is still to be written.
spec fn writes_left(places: Set<Place>, p: Progress) -> Seq<(Place, Seq<u8>)> {
    if p.pos >= p.ops.len() {
        Seq::empty()
    } else if p.phase > 0 {
        writes_by(places, p.ops.skip(p.pos + 1))
    } else {
        writes_by(places, p.ops.skip(p.pos))
    }
}

proof fn lemma_step_writes(places: Set<Place>, p: Progress, reply: Reply)
    requires
        in_step(p),
        !p.finished(),
        reply is Completed,
        !places.contains(tuner_place()),
    ensures
        in_step(p.resumed(reply)),
        write_of(places, p.request().unwrap()) + writes_left(places, p.resumed(reply))
            == writes_left(places, p),
{
    let op = p.ops[p.pos];
    let next = p.resumed(reply);
    let request = p.request().unwrap();
    let rest = p.ops.skip(p.pos);
    assert(rest[0] == op);
    assert(rest.drop_first() =~= p.ops.skip(p.pos + 1));
    assert(is_ordinary(op));
    lemma_target(op);
    assert(0x0600u16 | 0x10 == 0x610) by (bit_vector);
    if p.phase == 0 {
        match op {
            Op::TunerUpdate { .. } => {},
            Op::AwaitLock { .. } => {},
            _ => {
                assert(request == op.request(0, 0));
            },
        }
        assert(write_of(places, request) =~= write_by(places, op));
    } else {
        assert(write_of(places, request) =~= Seq::empty());
    }
    if next.pos == p.pos + 1 {
        assert(p.ops.skip(p.pos + 1) == next.ops.skip(next.pos));
        if next.pos >= next.ops.len() {
            assert(p.ops.skip(p.pos + 1) =~= Seq::<Op>::empty());
            assert(writes_by(places, p.ops.skip(p.pos + 1)) =~= Seq::empty());
        } else {
            assert(is_ordinary(next.ops[next.pos]));
        }
    }
    let left = writes_left(places, next);
    assert(Seq::<(Place, Seq<u8>)>::empty() + left =~= left);
}

proof fn lemma_run_writes(places: Set<Place>, p: Progress, replies: Seq<Reply>)
    requires
        in_step(p),
        !p.failed,
        is_answered(p, replies),
        !places.contains(tuner_place()),
    ensures
        !answered(p, replies).failed,
        written_to(places, p, replies) + writes_left(places, answered(p, replies)) == writes_left(
            places,
            p,
        ),
    decreases replies.len(),
{
    if replies.len() > 0 {
        let next = p.resumed(replies[0]);
        lemma_step_writes(places, p, replies[0]);
        lemma_run_writes(places, next, replies.drop_first());
        let first = write_of(places, p.request().unwrap());
        let second = written_to(places, next, replies.drop_first());
        let left = writes_left(places, answered(p, replies));
        assert((first + second) + left =~= first + (second + left));
    } else {
        assert(written_to(places, p, replies) + writes_left(places, p) =~= writes_left(places, p));
    }
}

/// An operation that runs to its end writes what its accesses write, in their
/// order.
proof fn lemma_finished_writes(
    places: Set<Place>,
    ops: Seq<Op>,
    verdict: Option<DriverError>,
    replies: Seq<Reply>,
)
    requires
        all_ordinary(ops),
        is_answered(Progress::start(ops, verdict), replies),
        answered(Progress::start(ops, verdict), replies).finished(),
        !places.contains(tuner_place()),
    ensures
        written_to(places, Progress::start(ops, verdict), replies) == writes_by(places, ops),
{
    let p = Progress::start(ops, verdict);
    if ops.len() > 0 {
        assert(is_ordinary(ops[0]));
    }
    lemma_run_writes(places, p, replies);
    assert(ops.skip(0) =~= ops);
    let written = written_to(places, p, replies);
    assert(written + Seq::empty() =~= written);
    if ops.len() == 0 {
        assert(writes_by(places, ops) =~= Seq::empty());
    }
}

proof fn lemma_joined_writes(places: Set<Place>, first: Seq<Op>, second: Seq<Op>)
    ensures
        writes_by(places, first + second) == writes_by(places, first) + writes_by(places, second),
    decreases first.len(),
{
    let rest = writes_by(places, second);
    if first.len() == 0 {
        assert(first + second =~= second);
        assert(Seq::<(Place, Seq<u8>)>::empty() + rest =~= rest);
    } else {
        assert((first + second).drop_first() =~= first.drop_first() + second);
        lemma_joined_writes(places, first.drop_first(), second);
        let head = write_by(places, first[0]);
        let middle = writes_by(places, first.drop_first());
        assert(head + (middle + rest) =~= (head + middle) + rest);
    }
}

proof fn lemma_no_writes(places: Set<Place>, ops: Seq<Op>)
    requires
        forall|i: int|
            0 <= i < ops.len() ==> (place_of(#[trigger] ops[i]) matches Some(place)
                ==> !places.contains(place)),
    ensures
        writes_by(places, ops) == Seq::<(Place, Seq<u8>)>::empty(),
    decreases ops.len(),
{
    if ops.len() > 0 {
        let rest = ops.drop_first();
        assert forall|i: int| 0 <= i < rest.len() implies (place_of(
            #[trigger] rest[i],
        ) matches Some(place) ==> !places.contains(place)) by {
            assert(rest[i] == ops[i + 1]);
        }
        lemma_no_writes(places, rest);
        assert(place_of(ops[0]) matches Some(place) ==> !places.contains(place));
        assert(write_by(places, ops[0]) + writes_by(places, rest) =~= Seq::empty());
    }
}

/// Emptying the buffer holds the endpoint of the samples, and then lets it run.
pub proof fn buffer_is_held_and_let_go(replies: Seq<Reply>)
    requires
        is_answered(Progress::start(reset_ops(), None), replies),
        answered(Progress::start(reset_ops(), None), replies).finished(),
    ensures
        written_to(set![usb(0x2148)], Progress::start(reset_ops(), None), replies) == seq![
            (usb(0x2148), seq![0x10u8, 0x02]),
            (usb(0x2148), seq![0x00u8, 0x00]),
        ],
{
    let places = set![usb(0x2148)];
    lemma_finished_writes(places, reset_ops(), None, replies);
    lemma_reset_writes(places);
}

proof fn lemma_reset_writes(places: Set<Place>)
    requires
        places.contains(usb(0x2148)),
    ensures
        writes_by(places, reset_ops()) == seq![
            (usb(0x2148), seq![0x10u8, 0x02]),
            (usb(0x2148), seq![0x00u8, 0x00]),
        ],
        all_ordinary(reset_ops()),
{
    let ops = reset_ops();
    lemma_bytes(0x0210);
    lemma_bytes(0x0000);
    reveal_with_fuel(writes_by, 3);
    assert(ops.drop_first()[0] == ops[1]);
    assert(ops.drop_first().drop_first() =~= Seq::<Op>::empty());
    assert(payload(ops[0]) =~= seq![0x10u8, 0x02]);
    assert(payload(ops[1]) =~= seq![0x00u8, 0x00]);
    assert(writes_by(places, ops) =~= seq![
        (usb(0x2148), seq![0x10u8, 0x02]),
        (usb(0x2148), seq![0x00u8, 0x00]),
    ]);
}

/// The places whose writes have an order that matters: the control of the samples'
/// endpoint, the ratio of the resampler, and the register that resets the
/// demodulator and opens the way to the tuner.
pub open spec fn ordered_places() -> Set<Place> {
    set![usb(0x2148), demod(1, 0x9F), demod(1, 0xA1), demod(1, 0x01)]
}

/// The two halves of the resampler's ratio for a sample rate, high byte first.
pub open spec fn is_ratio(rate: u32, high: Seq<u8>, low: Seq<u8>) -> bool {
    let ratio = 0x100_0000 * high[0] + 0x1_0000 * high[1] + 0x100 * low[0] + low[1];
    &&& high.len() == 2
    &&& low.len() == 2
    &&& ratio % 4 == 0
    &&& 2 * ratio * rate <= 2 * 120_795_955_200_000 + rate < 2 * (ratio + 4) * rate
}

proof fn lemma_rate_writes(rate: u32) -> (halves: (Seq<u8>, Seq<u8>))
    ensures
        all_ordinary(sample_rate_ops(rate)),
        rate > 450_000 ==> is_ratio(rate, halves.0, halves.1),
        writes_by(ordered_places(), sample_rate_ops(rate)) == seq![
            (demod(1, 0x9F), halves.0),
            (demod(1, 0xA1), halves.1),
            (demod(1, 0x01), seq![0x14u8]),
            (demod(1, 0x01), seq![0x10u8]),
        ],
{
    let ops = sample_rate_ops(rate);
    let r = rate_ratio(rate);
    assert(0 <= r < 0x1000_0000 && r % 4 == 0);
    let (a, b) = (r / 0x1_0000, r % 0x1_0000);
    lemma_bytes(a as u32);
    lemma_bytes(b as u32);
    lemma_bytes(0x14);
    lemma_bytes(0x10);
    let high = seq![(a / 0x100) as u8, (a % 0x100) as u8];
    let low = seq![(b / 0x100) as u8, (b % 0x100) as u8];
    if rate > 450_000 {
        crate::demod::resampler_ratio_is_close(rate);
    }
    reveal_with_fuel(writes_by, 5);
    let second = ops.drop_first();
    let third = second.drop_first();
    let fourth = third.drop_first();
    assert(second[0] == ops[1] && third[0] == ops[2] && fourth[0] == ops[3]);
    assert(fourth.drop_first() =~= Seq::<Op>::empty());
    assert(payload(ops[0]) =~= high);
    assert(payload(ops[1]) =~= low);
    assert(payload(ops[2]) =~= seq![0x14u8]);
    assert(payload(ops[3]) =~= seq![0x10u8]);
    assert(writes_by(ordered_places(), ops) =~= seq![
        (demod(1, 0x9F), high),
        (demod(1, 0xA1), low),
        (demod(1, 0x01), seq![0x14u8]),
        (demod(1, 0x01), seq![0x10u8]),
    ]);
    (high, low)
}

/// Setting the sample rate writes the resampler's ratio, and only then resets the
/// demodulator.
pub proof fn rate_is_set_before_the_reset(rate: u32, replies: Seq<Reply>) -> (halves: (
    Seq<u8>,
    Seq<u8>,
))
    requires
        is_answered(Progress::start(sample_rate_ops(rate), None), replies),
        answered(Progress::start(sample_rate_ops(rate), None), replies).finished(),
        rate > 450_000,
    ensures
        is_ratio(rate, halves.0, halves.1),
        written_to(
            ordered_places(),
            Progress::start(sample_rate_ops(rate), None),
            replies,
        ) == seq![
            (demod(1, 0x9F), halves.0),
            (demod(1, 0xA1), halves.1),
            (demod(1, 0x01), seq![0x14u8]),
            (demod(1, 0x01), seq![0x10u8]),
        ],
{
    let halves = lemma_rate_writes(rate);
    lemma_finished_writes(ordered_places(), sample_rate_ops(rate), None, replies);
    halves
}

proof fn lemma_open_and_close(inner: Seq<Op>)
    requires
        forall|i: int|
            0 <= i < inner.len() ==> place_of(#[trigger] inner[i]) == Some(tuner_place()),
    ensures
        writes_by(ordered_places(), seq![i2c_opened()]) == seq![(demod(1, 0x01), seq![0x18u8])],
        writes_by(ordered_places(), seq![i2c_opened()] + inner + seq![i2c_closed()]) == seq![
            (demod(1, 0x01), seq![0x18u8]),
            (demod(1, 0x01), seq![0x10u8]),
        ],
{
    let places = ordered_places();
    let (open, close) = (seq![i2c_opened()], seq![i2c_closed()]);
    lemma_bytes(0x18);
    lemma_bytes(0x10);
    reveal_with_fuel(writes_by, 2);
    assert(open.drop_first() =~= Seq::<Op>::empty());
    assert(close.drop_first() =~= Seq::<Op>::empty());
    assert(payload(open[0]) =~= seq![0x18u8]);
    assert(payload(close[0]) =~= seq![0x10u8]);
    assert(writes_by(places, open) =~= seq![(demod(1, 0x01), seq![0x18u8])]);
    assert(writes_by(places, close) =~= seq![(demod(1, 0x01), seq![0x10u8])]);
    lemma_no_writes(places, inner);
    lemma_joined_writes(places, open, inner);
    lemma_joined_writes(places, open + inner, close);
    assert(writes_by(places, open + inner + close) =~= seq![
        (demod(1, 0x01), seq![0x18u8]),
        (demod(1, 0x01), seq![0x10u8]),
    ]);
}

proof fn lemma_tune_writes(freq: u32)
    ensures
        all_ordinary(center_freq_ops(freq)),
        writes_by(ordered_places(), center_freq_ops(freq)) == (if tunable(freq) {
            seq![(demod(1, 0x01), seq![0x18u8]), (demod(1, 0x01), seq![0x10u8])]
        } else {
            seq![(demod(1, 0x01), seq![0x18u8])]
        }),
{
    let inner = tuner_freq_ops(freq);
    assert(inner.len() == 6);
    lemma_open_and_close(inner);
    lemma_groups(
        RtlSdrConfig { center_freq: freq, sample_rate: 2_400_000, gain: 0 },
        tuner_place(),
    );
}

proof fn lemma_gain_writes(gain: i32)
    ensures
        all_ordinary(gain_ops(gain)),
        writes_by(ordered_places(), gain_ops(gain)) == seq![
            (demod(1, 0x01), seq![0x18u8]),
            (demod(1, 0x01), seq![0x10u8]),
        ],
{
    let inner = tuner_gain_ops(gain);
    assert(inner.len() == 3);
    lemma_open_and_close(inner);
    lemma_groups(
        RtlSdrConfig { center_freq: 0, sample_rate: 2_400_000, gain },
        tuner_place(),
    );
}

/// Tuning and setting the gain open the way to the tuner first and close it last,
/// and touch nothing else outside the tuner.
pub proof fn tuner_is_opened_and_closed(freq: u32, gain: i32, replies: Seq<Reply>)
    ensures
        ({
            let tune = Progress::start(
                center_freq_ops(freq),
                crate::receiver::tuning_verdict(freq),
            );
            is_answered(tune, replies) && answered(tune, replies).finished() && freq >= 2_280_000
                ==> written_to(ordered_places(), tune, replies) == seq![
                (demod(1, 0x01), seq![0x18u8]),
                (demod(1, 0x01), seq![0x10u8]),
            ]
        }),
        ({
            let change = Progress::start(gain_ops(gain), None);
            is_answered(change, replies) && answered(change, replies).finished() ==> written_to(
                ordered_places(),
                change,
                replies,
            ) == seq![(demod(1, 0x01), seq![0x18u8]), (demod(1, 0x01), seq![0x10u8])]
        }),
{
    let verdict = crate::receiver::tuning_verdict(freq);
    let tune = Progress::start(center_freq_ops(freq), verdict);
    let change = Progress::start(gain_ops(gain), None);
    lemma_tune_writes(freq);
    lemma_gain_writes(gain);
    crate::tuner::tunable_from_lowest_frequency(freq);
    if is_answered(tune, replies) && answered(tune, replies).finished() {
        lemma_finished_writes(ordered_places(), center_freq_ops(freq), verdict, replies);
    }
    if is_answered(change, replies) && answered(change, replies).finished() {
        lemma_finished_writes(ordered_places(), gain_ops(gain), None, replies);
    }
}

proof fn lemma_init_writes()
    ensures
        writes_by(ordered_places(), rtl2832u_init_ops()) == seq![
            (usb(0x2148), seq![0x10u8, 0x02]),
            (demod(1, 0x01), seq![0x14u8]),
            (demod(1, 0x01), seq![0x10u8]),
        ],
{
    let places = ordered_places();
    let init = rtl2832u_init_ops();
    assert(lpf_ops().len() == 20);
    let (a, b) = (init.take(2), init.subrange(2, 3));
    let (c, d) = (init.subrange(3, 5), init.subrange(5, 7));
    let rest = init.skip(7);
    assert(init =~= a + b + c + d + rest);
    lemma_joined_writes(places, a + b + c + d, rest);
    lemma_joined_writes(places, a + b + c, d);
    lemma_joined_writes(places, a + b, c);
    lemma_joined_writes(places, a, b);
    assert(a[0] == init[0] && a[1] == init[1]);
    lemma_no_writes(places, a);
    assert(c[0] == init[3] && c[1] == init[4]);
    lemma_no_writes(places, c);
    assert forall|i: int| 0 <= i < rest.len() implies (place_of(#[trigger] rest[i]) matches Some(
        place,
    ) ==> !places.contains(place)) by {
        assert(rest[i] == init[i + 7]);
        if 7 <= i < 27 {
            assert(rest[i] == lpf_ops()[i - 7]);
        }
    }
    lemma_no_writes(places, rest);
    lemma_bytes(0x0210);
    lemma_bytes(0x14);
    lemma_bytes(0x10);
    reveal_with_fuel(writes_by, 3);
    assert(b[0] == init[2]);
    assert(b.drop_first() =~= Seq::<Op>::empty());
    assert(d[0] == init[5] && d.drop_first()[0] == init[6]);
    assert(d.drop_first().drop_first() =~= Seq::<Op>::empty());
    assert(payload(init[2]) =~= seq![0x10u8, 0x02]);
    assert(payload(init[5]) =~= seq![0x14u8]);
    assert(payload(init[6]) =~= seq![0x10u8]);
    assert(writes_by(places, b) =~= seq![(usb(0x2148), seq![0x10u8, 0x02])]);
    assert(writes_by(places, d) =~= seq![
        (demod(1, 0x01), seq![0x14u8]),
        (demod(1, 0x01), seq![0x10u8]),
    ]);
    assert(writes_by(places, init) =~= seq![
        (usb(0x2148), seq![0x10u8, 0x02]),
        (demod(1, 0x01), seq![0x14u8]),
        (demod(1, 0x01), seq![0x10u8]),
    ]);
}

/// The start holds the endpoint of the samples and resets the demodulator; opens
/// and closes the way to the tuner for its set-up; sets the resampler's ratio and
/// resets the demodulator again; opens and closes the way to the tuner for the
/// frequency and once more for the gain; and at the very end empties the buffer
/// and lets the endpoint run.
pub proof fn start_goes_in_order(config: RtlSdrConfig, replies: Seq<Reply>) -> (halves: (
    Seq<u8>,
    Seq<u8>,
))
    requires
        is_answered(start_command(config), replies),
        answered(start_command(config), replies).finished(),
        config.center_freq >= 2_280_000,
        config.sample_rate > 450_000,
    ensures
        is_ratio(config.sample_rate, halves.0, halves.1),
        ({
            let reset = demod(1, 0x01);
            let control = usb(0x2148);
            written_to(ordered_places(), start_command(config), replies) == seq![
                (control, seq![0x10u8, 0x02]),
                (reset, seq![0x14u8]),
                (reset, seq![0x10u8]),
                (reset, seq![0x18u8]),
                (reset, seq![0x10u8]),
                (demod(1, 0x9F), halves.0),
                (demod(1, 0xA1), halves.1),
                (reset, seq![0x14u8]),
                (reset, seq![0x10u8]),
                (reset, seq![0x18u8]),
                (reset, seq![0x10u8]),
                (reset, seq![0x18u8]),
                (reset, seq![0x10u8]),
                (control, seq![0x10u8, 0x02]),
                (control, seq![0x00u8, 0x00]),
            ]
        }),
{
    let places = ordered_places();
    crate::tuner::tunable_from_lowest_frequency(config.center_freq);
    lemma_start_is_ordinary(config);
    lemma_finished_writes(
        places,
        start_ops(config),
        crate::receiver::tuning_verdict(config.center_freq),
        replies,
    );
    let init = rtl2832u_init_ops();
    let intermediate = if_frequency_ops(R820T_IF_FREQ);
    let rate = sample_rate_ops(config.sample_rate);
    let tune = center_freq_ops(config.center_freq);
    let gain = gain_ops(config.gain);
    let setup = tuner_setup();
    let ready = opening() + init + setup + intermediate + rate;
    assert(start_ops(config) =~= ready + tune + gain + reset_ops());
    lemma_joined_writes(places, ready + tune + gain, reset_ops());
    lemma_joined_writes(places, ready + tune, gain);
    lemma_joined_writes(places, ready, tune);
    lemma_joined_writes(places, opening() + init + setup + intermediate, rate);
    lemma_joined_writes(places, opening() + init + setup, intermediate);
    lemma_joined_writes(places, opening() + init, setup);
    lemma_joined_writes(places, opening(), init);
    lemma_no_writes(places, opening());
    lemma_no_writes(places, intermediate);
    lemma_init_writes();
    lemma_open_and_close(r820t_init_ops());
    let halves = lemma_rate_writes(config.sample_rate);
    lemma_tune_writes(config.center_freq);
    lemma_gain_writes(config.gain);
    lemma_reset_writes(places);
    let reset = demod(1, 0x01);
    let control = usb(0x2148);
    assert(writes_by(places, start_ops(config)) =~= seq![
        (control, seq![0x10u8, 0x02]),
        (reset, seq![0x14u8]),
        (reset, seq![0x10u8]),
        (reset, seq![0x18u8]),
        (reset, seq![0x10u8]),
        (demod(1, 0x9F), halves.0),
        (demod(1, 0xA1), halves.1),
        (reset, seq![0x14u8]),
        (reset, seq![0x10u8]),
        (reset, seq![0x18u8]),
        (reset, seq![0x10u8]),
        (reset, seq![0x18u8]),
        (reset, seq![0x10u8]),
        (control, seq![0x10u8, 0x02]),
        (control, seq![0x00u8, 0x00]),
    ]);
    halves
}

/// The start opens the device, selects its first configuration and claims interface
/// zero, in this order and before anything else.
pub proof fn start_takes_the_device(
    config: RtlSdrConfig,
    first: Reply,
    second: Reply,
    third: Reply,
)
    requires
        first is Completed,
        second is Completed,
        third is Completed,
    ensures
        ({
            let p = start_command(config);
            let q = p.resumed(first);
            let r = q.resumed(second);
            &&& p.request() == Some(Request::Open)
            &&& q.request() == Some(Request::SelectConfiguration { number: 1 })
            &&& r.request() == Some(Request::ClaimInterface { number: 0 })
            &&& r.resumed(third).request() matches Some(Request::ControlOut { .. })
        }),
{
    let ops = start_ops(config);
    let init = rtl2832u_init_ops();
    assert(lpf_ops().len() == 20);
    assert(ops.len() > 3);
    assert(ops[0] == opening()[0] && ops[1] == opening()[1] && ops[2] == opening()[2]);
    assert(ops[3] == init[0]);
}

/// Closing releases interface zero and closes the device, whatever becomes of
/// either, and succeeds.
pub proof fn closing_goes_on_whatever_comes(first: Reply, second: Reply)
    ensures
        ({
            let p = Progress::start(seq![Op::ReleaseInterface { number: 0 }, Op::Close], None);
            let q = p.resumed(first);
            let r = q.resumed(second);
            &&& p.request() == Some(Request::ReleaseInterface { number: 0 })
            &&& q.request() == Some(Request::Close)
            &&& r.request() is None
            &&& r.outcome() is None
        }),
{
}

/// Tuning looks for the lock up to twenty times. It makes 53 requests at most: two
/// to open the way to the tuner, nine for the PLL, two for each look, and two to
/// close the way.
pub proof fn tuning_looks_twenty_times(freq: u32)
    requires
        freq >= 2_280_000,
    ensures
        crate::operation::requests_of(center_freq_ops(freq)) == 2 + 9 + 2 * 20 + 2,
{
    crate::tuner::tunable_from_lowest_frequency(freq);
    let inner = tuner_freq_ops(freq);
    let ops = center_freq_ops(freq);
    assert(ops.len() == 8);
    assert forall|i: int| 0 <= i < 6 implies #[trigger] ops[i + 1] == inner[i] by {}
    lemma_requests(ops, 0);
    lemma_requests(ops, 1);
    lemma_requests(ops, 2);
    lemma_requests(ops, 3);
    lemma_requests(ops, 4);
    lemma_requests(ops, 5);
    lemma_requests(ops, 6);
    lemma_requests(ops, 7);
    assert(ops.skip(8) =~= Seq::<Op>::empty());
    assert(ops.skip(0) =~= ops);
    assert(inner[0] is TunerReg && inner[1] is TunerUpdate && inner[2] is TunerReg && inner[3]
        is TunerReg && inner[4] is TunerUpdate && inner[5] == Op::AwaitLock { attempts: 20 });
    assert(ops[1] == inner[0] && ops[2] == inner[1] && ops[3] == inner[2] && ops[4] == inner[3]
        && ops[5] == inner[4] && ops[6] == inner[5]);
}

proof fn lemma_requests(ops: Seq<Op>, i: int)
    requires
        0 <= i < ops.len(),
    ensures
        crate::operation::requests_of(ops.skip(i)) == ops[i].phases()
            + crate::operation::requests_of(ops.skip(i + 1)),
{
    assert(ops.skip(i).drop_first() =~= ops.skip(i + 1));
}

} // verus!
