//! Operations on the dongle: sequences of register accesses, carried out one
//! USB request at a time.
//!
//! The caller performs each request and hands back its reply; what comes next
//! is decided here.

use vstd::prelude::*;

use crate::transfer::{
    control_out, control_reply, ctrl_in_reply, demod_read, demod_read_reg, demod_write,
    demod_write_reg, read_r820t_reg, read_r820t_regs, select_r820t_reg, set_sys_reg, set_usb_reg,
    tuner_read, tuner_value, tuner_write, write_r820t_reg, Request, UsbRequest, BLOCK_SYS,
    BLOCK_USB, MIN_READ, WRITE_FLAG,
};

verus! {

/// One register access or device command of an operation.
#[allow(inconsistent_fields)]
#[derive(Clone, Copy, Debug, PartialEq, Eq, Structural)]
pub enum Op {
    Open,
    SelectConfiguration { number: u8 },
    ClaimInterface { number: u8 },
    ReleaseInterface { number: u8 },
    Close,
    /// Write `len` bytes of `val` to a register of the USB block.
    UsbReg { addr: u16, val: u32, len: u8 },
    /// Write a register of the system block.
    SysReg { addr: u16, val: u8 },
    /// Write `len` bytes of `val` to a demodulator register, then read the
    /// status back.
    DemodReg { page: u16, addr: u16, val: u16, len: u8 },
    /// Write a tuner register.
    TunerReg { reg: u8, val: u8 },
    /// Read a tuner register, keep the bits of `keep`, set those of `set` and
    /// write the result back.
    TunerUpdate { reg: u8, keep: u8, set: u8 },
    /// Read the tuner's lock flag until it is set, at most `attempts` times.
    AwaitLock { attempts: u8 },
}

/// Demodulator page and register of the status readback.
pub const STATUS_PAGE: u16 = 0x0A;

pub const STATUS_REG: u16 = 0x01;

/// Tuner register with the lock flag, and the flag.
pub const LOCK_REG: u8 = 0x02;

pub const LOCK_FLAG: u8 = 0x40;

impl Op {
    /// Whether the lengths in the access fit the number that they encode, and
    /// there is an attempt to make.
    pub open spec fn valid(self) -> bool {
        match self {
            Op::UsbReg { len, .. } => len <= 4,
            Op::DemodReg { len, .. } => len <= 4,
            Op::AwaitLock { attempts } => attempts > 0,
            _ => true,
        }
    }

    /// How many requests the access makes at most.
    pub open spec fn phases(self) -> int {
        match self {
            Op::DemodReg { .. } => 2,
            Op::TunerUpdate { .. } => 3,
            Op::AwaitLock { attempts } => 2 * attempts,
            _ => 1,
        }
    }

    /// Request number `phase` of the access, where `latched` is the register
    /// value that it read before.
    pub open spec fn request(self, phase: int, latched: u8) -> Request {
        match self {
            Op::Open => Request::Open,
            Op::SelectConfiguration { number } => Request::SelectConfiguration { number },
            Op::ClaimInterface { number } => Request::ClaimInterface { number },
            Op::ReleaseInterface { number } => Request::ReleaseInterface { number },
            Op::Close => Request::Close,
            Op::UsbReg { addr, val, len } => control_out(
                addr,
                BLOCK_USB,
                crate::wire::le_bytes(val, len as nat),
            ),
            Op::SysReg { addr, val } => control_out(addr, BLOCK_SYS, seq![val]),
            Op::DemodReg { page, addr, val, len } => if phase == 0 {
                demod_write(page, addr, val, len as nat)
            } else {
                demod_read(STATUS_PAGE, STATUS_REG)
            },
            Op::TunerReg { reg, val } => tuner_write(seq![reg, val]),
            Op::TunerUpdate { reg, keep, set } => if phase == 0 {
                tuner_write(seq![reg])
            } else if phase == 1 {
                tuner_read(reg)
            } else {
                tuner_write(seq![reg, (latched & keep) | set])
            },
            Op::AwaitLock { .. } => if phase % 2 == 0 {
                tuner_write(seq![LOCK_REG])
            } else {
                tuner_read(LOCK_REG)
            },
        }
    }

    /// How many bytes of the replies to its reads the access wants.
    pub open spec fn wanted(self) -> int {
        match self {
            Op::DemodReg { .. } => 1,
            Op::TunerUpdate { reg, .. } => reg + 1,
            Op::AwaitLock { .. } => LOCK_REG + 1,
            _ => 0,
        }
    }

    /// Whether the access looked for the tuner's lock with request number `phase`
    /// and found it in `reply`, which was kept of the answer.
    pub open spec fn finds_lock(self, phase: int, reply: Seq<u8>) -> bool {
        self is AwaitLock && phase % 2 == 1 && tuner_value(reply, LOCK_REG) & LOCK_FLAG != 0
    }

    /// Whether the access is complete once request number `phase` was answered
    /// and `reply` was kept of the answer.
    pub open spec fn complete(self, phase: int, reply: Seq<u8>) -> bool {
        phase + 1 >= self.phases() || self.finds_lock(phase, reply)
    }

    /// What is known of the tuner's lock once request number `phase` was answered
    /// and `reply` was kept of the answer, where `locked` was known before: an
    /// access that waits for the lock tells when it is complete.
    pub open spec fn lock_seen(self, phase: int, reply: Seq<u8>, locked: Option<bool>) -> Option<
        bool,
    > {
        if self is AwaitLock && self.complete(phase, reply) {
            Some(self.finds_lock(phase, reply))
        } else {
            locked
        }
    }

    /// The register value to remember once request number `phase` was answered
    /// and `reply` was kept of the answer.
    pub open spec fn latch(self, phase: int, reply: Seq<u8>, latched: u8) -> u8 {
        match self {
            Op::TunerUpdate { reg, .. } => if phase == 1 {
                tuner_value(reply, reg)
            } else {
                latched
            },
            _ => latched,
        }
    }

    /// Whether the operation goes on when the request fails: releasing and
    /// closing the device is attempted whatever comes of it.
    pub open spec fn tolerant(self) -> bool {
        self is ReleaseInterface || self is Close
    }
}

/// Why an operation did not succeed.
#[derive(Clone, Copy, Debug, PartialEq, Eq, Structural)]
pub enum DriverError {
    /// A USB request failed.
    Transfer,
    /// The frequency asks for a PLL multiple that is too small.
    PllNintTooSmall,
}

/// What became of a request.
#[derive(Debug)]
pub enum Reply {
    /// It was carried out; a read may have delivered bytes.
    Completed { data: Option<Vec<u8>> },
    Failed,
}

impl Reply {
    /// The bytes that the request delivered.
    pub open spec fn data(self) -> Option<Seq<u8>> {
        match self {
            Reply::Completed { data: Some(bytes) } => Some(bytes@),
            _ => None,
        }
    }
}

/// The state of an operation as contracts speak of it.
pub struct Progress {
    /// The accesses that make up the operation.
    pub ops: Seq<Op>,
    /// How many of them are complete.
    pub pos: int,
    /// How many requests of the current one were answered.
    pub phase: int,
    /// The register value read last.
    pub latched: u8,
    /// Whether the tuner locked, once the operation has waited for that: it did,
    /// or it was looked at as often as it may be and did not.
    pub locked: Option<bool>,
    /// The error that the operation ends with once all accesses are complete.
    pub verdict: Option<DriverError>,
    /// Whether a request failed.
    pub failed: bool,
}

impl Progress {
    /// An operation that has not begun.
    pub open spec fn start(ops: Seq<Op>, verdict: Option<DriverError>) -> Progress {
        Progress { ops, pos: 0, phase: 0, latched: 0, locked: None, verdict, failed: false }
    }

    /// Whether the state can be reached by operations with valid accesses.
    pub open spec fn valid(self) -> bool {
        &&& forall|i: int| 0 <= i < self.ops.len() ==> (#[trigger] self.ops[i]).valid()
        &&& 0 <= self.pos <= self.ops.len()
        &&& self.phase >= 0
        &&& self.pos < self.ops.len() ==> self.phase < self.ops[self.pos].phases()
    }

    /// How many requests the rest of the operation makes at most.
    pub open spec fn requests_left(self) -> int {
        if self.finished() {
            0
        } else {
            requests_of(self.ops.skip(self.pos)) - self.phase
        }
    }

    /// Whether nothing is left to do.
    pub open spec fn finished(self) -> bool {
        self.failed || self.pos >= self.ops.len()
    }

    /// The request to perform next.
    pub open spec fn request(self) -> Option<Request> {
        if self.finished() {
            None
        } else {
            Some(self.ops[self.pos].request(self.phase, self.latched))
        }
    }

    /// The state after the pending request was answered.
    pub open spec fn resumed(self, reply: Reply) -> Progress {
        let op = self.ops[self.pos];
        let kept = control_reply(reply.data(), op.wanted());
        if reply is Failed && !op.tolerant() {
            Progress { failed: true, ..self }
        } else if op.complete(self.phase, kept) {
            Progress {
                pos: self.pos + 1,
                phase: 0,
                latched: op.latch(self.phase, kept, self.latched),
                locked: op.lock_seen(self.phase, kept, self.locked),
                ..self
            }
        } else {
            Progress {
                phase: self.phase + 1,
                latched: op.latch(self.phase, kept, self.latched),
                ..self
            }
        }
    }

    /// How the operation ended, once it is finished.
    pub open spec fn outcome(self) -> Option<DriverError> {
        if self.failed {
            Some(DriverError::Transfer)
        } else {
            self.verdict
        }
    }
}

/// How many requests a sequence of accesses makes at most.
pub open spec fn requests_of(ops: Seq<Op>) -> int
    decreases ops.len(),
{
    if ops.len() == 0 {
        0
    } else {
        ops[0].phases() + requests_of(ops.drop_first())
    }
}

proof fn lemma_requests_of_nonnegative(ops: Seq<Op>)
    ensures
        requests_of(ops) >= 0,
    decreases ops.len(),
{
    if ops.len() > 0 {
        lemma_requests_of_nonnegative(ops.drop_first());
    }
}

/// Whatever is answered, each reply brings the end of an operation closer, and
/// an operation for which requests are left has at least one to make. So every
/// operation ends.
pub proof fn operation_ends(p: Progress, reply: Reply)
    requires
        p.valid(),
        !p.finished(),
    ensures
        p.resumed(reply).valid(),
        0 <= p.resumed(reply).requests_left() < p.requests_left(),
{
    let next = p.resumed(reply);
    let rest = p.ops.skip(p.pos);
    assert(rest[0] == p.ops[p.pos]);
    assert(rest.drop_first() =~= p.ops.skip(p.pos + 1));
    lemma_requests_of_nonnegative(p.ops.skip(p.pos + 1));
    if next.pos < next.ops.len() && next.pos == p.pos + 1 {
        assert(next.ops[next.pos].valid());
    }
}

/// A request that fails ends the operation with an error, unless it releases
/// or closes the device; nothing is asked of the device afterwards.
pub proof fn failure_ends_operation(p: Progress)
    requires
        !p.finished(),
        !p.ops[p.pos].tolerant(),
    ensures
        p.resumed(Reply::Failed).finished(),
        p.resumed(Reply::Failed).request() is None,
        p.resumed(Reply::Failed).outcome() == Some(DriverError::Transfer),
{
}

/// An operation that waits for the tuner's lock ends its wait with the first look
/// that finds the lock, and then knows of it; where no look finds it, the wait
/// ends with the last look, and the operation knows that too.
pub proof fn waiting_tells_whether_the_tuner_locked(p: Progress, reply: Reply)
    requires
        p.valid(),
        !p.finished(),
        p.ops[p.pos] is AwaitLock,
        !(reply is Failed),
    ensures
        ({
            let op = p.ops[p.pos];
            let next = p.resumed(reply);
            let found = op.finds_lock(p.phase, control_reply(reply.data(), op.wanted()));
            &&& next.pos == p.pos + 1 <==> found || p.phase + 1 == op.phases()
            &&& next.pos == p.pos + 1 ==> next.locked == Some(found)
            &&& next.pos == p.pos ==> next.locked == p.locked
        }),
{
}

/// Every write of an operation carries the write flag, and every read asks for
/// eight bytes at least.
pub proof fn requests_keep_protocol(p: Progress)
    ensures
        p.request() matches Some(Request::ControlOut { index, .. }) ==> index & WRITE_FLAG
            == WRITE_FLAG,
        p.request() matches Some(Request::ControlIn { length, .. }) ==> length >= MIN_READ,
{
    assert forall|x: u16| #[trigger] (x | WRITE_FLAG) & WRITE_FLAG == WRITE_FLAG by {
        assert((x | 0x10) & 0x10 == 0x10) by (bit_vector);
    }
}

/// Each write of a demodulator register is followed by a read of the status, which
/// is register 0x01 of page 0x0A.
pub proof fn demodulator_writes_are_followed_by_a_read(p: Progress)
    requires
        p.valid(),
        !p.finished(),
        p.ops[p.pos] is DemodReg,
    ensures
        p.phase == 0 ==> p.request() matches Some(Request::ControlOut { .. }),
        p.phase == 1 ==> p.request() == Some(
            Request::ControlIn { value: 0x0120, index: 0x000A, length: 8 },
        ),
        p.phase <= 1,
        forall|reply: Reply| #![trigger p.resumed(reply)]
            reply is Completed ==> p.resumed(reply).pos == p.pos + p.phase,
{
}

/// A tuner register is changed in three steps: it is selected; it is read along
/// with all before it, its bits in reverse order; and it is written, where the
/// bits to be kept are those that were read.
pub proof fn tuner_updates_read_then_write(p: Progress, data: Vec<u8>)
    requires
        p.valid(),
        !p.finished(),
        p.ops[p.pos] is TunerUpdate,
    ensures
        p.ops[p.pos] matches Op::TunerUpdate { reg, keep, set } && {
            let next = p.resumed(Reply::Completed { data: Some(data) });
            &&& p.phase == 0 ==> p.request() == Some(
                Request::ControlOut { value: 0x34, index: 0x0610, data: seq![reg] },
            ) && next.pos == p.pos && next.phase == 1
            &&& p.phase == 1 ==> {
                &&& p.request() matches Some(Request::ControlIn { value, index, length })
                &&& value == 0x34 && index == 0x0600 && length > reg && length >= 8
                &&& next.pos == p.pos && next.phase == 2
                &&& data@.len() > reg ==> next.request() == Some(
                    Request::ControlOut {
                        value: 0x34,
                        index: 0x0610,
                        data: seq![reg, (crate::wire::reversed(data@[reg as int]) & keep) | set],
                    },
                )
            }
            &&& p.phase == 2 ==> next.pos == p.pos + 1
        },
{
    assert(0x0600u16 | 0x10 == 0x610) by (bit_vector);
    let op = p.ops[p.pos];
    assert(op.valid());
    if let Op::TunerUpdate { reg, .. } = op {
        assert(op.wanted() == reg + 1);
        if data@.len() > reg {
            let kept = control_reply(Some(data@), op.wanted());
            assert(kept[reg as int] == data@[reg as int]);
        }
    }
}

/// The wait for the tuner's lock selects register 0x02 and reads it, in turn. The
/// tuner has locked where bit 6 of the register is set, which is bit 1 of what
/// is read, and then the wait is over.
pub proof fn lock_is_bit_six_of_register_two(p: Progress, data: Vec<u8>)
    requires
        p.valid(),
        !p.finished(),
        p.ops[p.pos] is AwaitLock,
        data@.len() >= 3,
    ensures
        ({
            let next = p.resumed(Reply::Completed { data: Some(data) });
            if p.phase % 2 == 0 {
                &&& p.request() == Some(
                    Request::ControlOut { value: 0x34, index: 0x0610, data: seq![0x02u8] },
                )
                &&& next.pos == p.pos && next.phase == p.phase + 1
            } else {
                &&& p.request() == Some(
                    Request::ControlIn { value: 0x34, index: 0x0600, length: 8 },
                )
                &&& data@[2] & 0x02 != 0 ==> next.pos == p.pos + 1 && next.locked == Some(true)
                &&& data@[2] & 0x02 == 0 && next.pos == p.pos + 1 ==> next.locked == Some(false)
            }
        }),
{
    assert(0x0600u16 | 0x10 == 0x610) by (bit_vector);
    let op = p.ops[p.pos];
    assert(op.valid());
    let kept = control_reply(Some(data@), op.wanted());
    assert(kept[2] == data@[2]);
    let byte = data@[2];
    let value = crate::wire::reversed(byte);
    crate::wire::reversed_moves_each_bit(byte, 6);
    assert((value & 0x40 != 0) == ((value >> 6u8) & 1 == 1)) by (bit_vector);
    assert((byte & 0x02 != 0) == ((byte >> 1u8) & 1 == 1) && ((byte >> 1u8) & 1 == 0 || (byte
        >> 1u8) & 1 == 1)) by (bit_vector);
}

/// An operation under way.
#[derive(Debug)]
pub struct Operation {
    ops: Vec<Op>,
    pos: usize,
    phase: u16,
    latched: u8,
    locked: Option<bool>,
    verdict: Option<DriverError>,
    failed: bool,
}

impl View for Operation {
    type V = Progress;

    closed spec fn view(&self) -> Progress {
        Progress {
            ops: self.ops@,
            pos: self.pos as int,
            phase: self.phase as int,
            latched: self.latched,
            locked: self.locked,
            verdict: self.verdict,
            failed: self.failed,
        }
    }
}

impl Operation {
    #[verifier::type_invariant]
    spec fn well_formed(self) -> bool {
        &&& forall|i: int| 0 <= i < self.ops@.len() ==> (#[trigger] self.ops@[i]).valid()
        &&& self.pos <= self.ops@.len()
        &&& self.pos < self.ops@.len() ==> self.phase < self.ops@[self.pos as int].phases()
    }

    /// An operation made of `ops` that ends with `verdict` where no request
    /// fails.
    pub fn new(ops: Vec<Op>, verdict: Option<DriverError>) -> (res: Operation)
        requires
            forall|i: int| 0 <= i < ops@.len() ==> (#[trigger] ops@[i]).valid(),
        ensures
            res@ == Progress::start(ops@, verdict),
    {
        Operation { ops, pos: 0, phase: 0, latched: 0, locked: None, verdict, failed: false }
    }

    /// How many accesses are complete.
    pub fn completed(&self) -> (res: usize)
        ensures
            res == self@.pos,
    {
        self.pos
    }

    /// Whether the tuner locked, or `None` where the operation has not waited for
    /// that, or not to the end.
    pub fn locked(&self) -> (res: Option<bool>)
        ensures
            res == self@.locked,
    {
        self.locked
    }

    /// The request to perform next, or `None` where the operation is finished.
    pub fn request(&self) -> (res: Option<UsbRequest>)
        ensures
            res is Some <==> !self@.finished(),
            res matches Some(r) ==> Some(r@) == self@.request(),
    {
        proof {
            use_type_invariant(self);
        }
        if self.failed || self.pos >= self.ops.len() {
            return None;
        }
        let phase: u16 = self.phase;
        let op: Op = self.ops[self.pos];
        assert(op.valid());
        Some(
            match op {
                Op::Open => UsbRequest::Open,
                Op::SelectConfiguration { number } => UsbRequest::SelectConfiguration { number },
                Op::ClaimInterface { number } => UsbRequest::ClaimInterface { number },
                Op::ReleaseInterface { number } => UsbRequest::ReleaseInterface { number },
                Op::Close => UsbRequest::Close,
                Op::UsbReg { addr, val, len } => set_usb_reg(addr, val, len),
                Op::SysReg { addr, val } => set_sys_reg(addr, val),
                Op::DemodReg { page, addr, val, len } => if phase == 0 {
                    demod_write_reg(page, addr, val, len)
                } else {
                    demod_read_reg(STATUS_PAGE, STATUS_REG)
                },
                Op::TunerReg { reg, val } => write_r820t_reg(reg, val),
                Op::TunerUpdate { reg, keep, set } => if phase == 0 {
                    select_r820t_reg(reg)
                } else if phase == 1 {
                    read_r820t_regs(reg)
                } else {
                    write_r820t_reg(reg, (self.latched & keep) | set)
                },
                Op::AwaitLock { .. } => if phase % 2 == 0 {
                    select_r820t_reg(LOCK_REG)
                } else {
                    read_r820t_regs(LOCK_REG)
                },
            },
        )
    }

    /// Takes the reply to the pending request.
    pub fn resume(&mut self, reply: Reply)
        requires
            !old(self)@.finished(),
        ensures
            final(self)@ == old(self)@.resumed(reply),
    {
        proof {
            use_type_invariant(&*self);
        }
        let op: Op = self.ops[self.pos];
        let phase: u16 = self.phase;
        let tolerant: bool = match op {
            Op::ReleaseInterface { .. } => true,
            Op::Close => true,
            _ => false,
        };
        let wanted: u16 = match op {
            Op::DemodReg { .. } => 1,
            Op::TunerUpdate { reg, .. } => reg as u16 + 1,
            Op::AwaitLock { .. } => LOCK_REG as u16 + 1,
            _ => 0,
        };
        let data: Vec<u8> = match reply {
            Reply::Completed { data } => ctrl_in_reply(data, wanted),
            Reply::Failed => {
                if !tolerant {
                    self.failed = true;
                    return;
                }
                Vec::new()
            },
        };
        assert(data@ == control_reply(reply.data(), op.wanted()));
        let complete: bool = match op {
            Op::DemodReg { .. } => phase >= 1,
            Op::TunerUpdate { reg, .. } => {
                if phase == 1 {
                    self.latched = read_r820t_reg(&data, reg);
                }
                phase >= 2
            },
            Op::AwaitLock { attempts } => {
                let found: bool = phase % 2 == 1 && read_r820t_reg(&data, LOCK_REG) & LOCK_FLAG
                    != 0;
                let last: bool = phase + 1 >= 2 * (attempts as u16);
                if found || last {
                    self.locked = Some(found);
                }
                found || last
            },
            _ => true,
        };
        assert(self.pos < self.ops.len());
        if complete {
            self.phase = 0;
            self.pos = self.pos + 1;
        } else {
            self.phase = phase + 1;
        }
    }

    /// How the operation ended, or `None` while it is under way.
    pub fn outcome(&self) -> (res: Option<Result<(), DriverError>>)
        ensures
            res is Some <==> self@.finished(),
            res matches Some(r) ==> (match r {
                Ok(_) => self@.outcome() is None,
                Err(e) => self@.outcome() == Some(e),
            }),
    {
        if self.failed {
            Some(Err(DriverError::Transfer))
        } else if self.pos < self.ops.len() {
            None
        } else {
            match self.verdict {
                None => Some(Ok(())),
                Some(e) => Some(Err(e)),
            }
        }
    }
}

} // verus!
