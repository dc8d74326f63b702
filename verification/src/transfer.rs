//! USB requests that drive the dongle, and what their replies mean.

use vstd::prelude::*;

use crate::wire::bit_rev;

verus! {

/// USB vendor of the RTL2832U.
pub const RTL2832_VENDOR_ID: u16 = 0x0bda;

/// USB products of this vendor that hold an RTL2832U.
pub const RTL2832_PRODUCT_IDS: [u16; 2] = [0x2832, 0x2838];

/// Flag in the index of every request that writes.
pub const WRITE_FLAG: u16 = 0x10;

/// Index of the USB block.
pub const BLOCK_USB: u16 = 0x0100;

/// Index of the system block.
pub const BLOCK_SYS: u16 = 0x0200;

/// Index of the I2C block.
pub const BLOCK_I2C: u16 = 0x0600;

/// I2C address of the R820T tuner.
pub const R820T_I2C_ADDR: u8 = 0x34;

/// The shortest read that the device is asked for.
pub const MIN_READ: u16 = 8;

/// Bulk endpoint that delivers the samples.
pub const BULK_ENDPOINT: u8 = 0x01;

/// How many bytes of samples one block holds.
pub const DEFAULT_BLOCK_SIZE: u32 = 131072;

/// A request to the USB device.
#[derive(Debug)]
pub enum UsbRequest {
    Open,
    SelectConfiguration { number: u8 },
    ClaimInterface { number: u8 },
    ReleaseInterface { number: u8 },
    Close,
    /// Vendor control transfer from the host to the device.
    ControlOut { value: u16, index: u16, data: Vec<u8> },
    /// Vendor control transfer from the device to the host.
    ControlIn { value: u16, index: u16, length: u16 },
}

/// A request as contracts speak of it.
pub enum Request {
    Open,
    SelectConfiguration { number: u8 },
    ClaimInterface { number: u8 },
    ReleaseInterface { number: u8 },
    Close,
    ControlOut { value: u16, index: u16, data: Seq<u8> },
    ControlIn { value: u16, index: u16, length: u16 },
}

impl View for UsbRequest {
    type V = Request;

    open spec fn view(&self) -> Request {
        match *self {
            UsbRequest::Open => Request::Open,
            UsbRequest::SelectConfiguration { number } => Request::SelectConfiguration { number },
            UsbRequest::ClaimInterface { number } => Request::ClaimInterface { number },
            UsbRequest::ReleaseInterface { number } => Request::ReleaseInterface { number },
            UsbRequest::Close => Request::Close,
            UsbRequest::ControlOut { value, index, data } => Request::ControlOut {
                value,
                index,
                data: data@,
            },
            UsbRequest::ControlIn { value, index, length } => Request::ControlIn {
                value,
                index,
                length,
            },
        }
    }
}

/// The request that writes `data`.
pub open spec fn control_out(value: u16, index: u16, data: Seq<u8>) -> Request {
    Request::ControlOut { value, index: index | WRITE_FLAG, data }
}

/// The request that reads `len` bytes.
pub open spec fn control_in(value: u16, index: u16, len: int) -> Request {
    Request::ControlIn {
        value,
        index,
        length: (if len < MIN_READ {
            MIN_READ
        } else {
            len as u16
        }),
    }
}

/// A vendor write; the index gets the write flag.
pub fn ctrl_out(value: u16, index: u16, data: Vec<u8>) -> (res: UsbRequest)
    ensures
        res@ == control_out(value, index, data@),
{
    UsbRequest::ControlOut { value, index: index | WRITE_FLAG, data }
}

/// A vendor read of `len` bytes; the device is asked for eight at least.
pub fn ctrl_in(value: u16, index: u16, len: u16) -> (res: UsbRequest)
    ensures
        res@ == control_in(value, index, len as int),
{
    let length: u16 = if len < MIN_READ {
        MIN_READ
    } else {
        len
    };
    UsbRequest::ControlIn { value, index, length }
}

/// What is kept of the reply to a read of `len` bytes: the device may have been
/// asked for more, and may have sent nothing.
pub open spec fn control_reply(data: Option<Seq<u8>>, len: int) -> Seq<u8> {
    match data {
        None => Seq::empty(),
        Some(bytes) => bytes.take(
            if len < bytes.len() {
                len
            } else {
                bytes.len() as int
            },
        ),
    }
}

/// Cuts the reply to a read down to the `len` bytes that were wanted; a reply
/// without data counts as empty.
pub fn ctrl_in_reply(data: Option<Vec<u8>>, len: u16) -> (res: Vec<u8>)
    ensures
        res@ == control_reply(
            match data {
                None => None,
                Some(bytes) => Some(bytes@),
            },
            len as int,
        ),
{
    match data {
        None => Vec::new(),
        Some(bytes) => {
            let mut bytes: Vec<u8> = bytes;
            if (len as usize) < bytes.len() {
                bytes.truncate(len as usize);
            }
            bytes
        },
    }
}

/// The value field of a demodulator access: the register in the high byte,
/// above a constant.
pub open spec fn demod_value(addr: u16) -> u16 {
    ((addr % 0x100) * 0x100 + 0x20) as u16
}

fn demod_value_of(addr: u16) -> (res: u16)
    ensures
        res == demod_value(addr),
{
    (addr % 0x100) * 0x100 + 0x20
}

/// The write of a demodulator register.
pub open spec fn demod_write(page: u16, addr: u16, val: u16, len: nat) -> Request {
    control_out(demod_value(addr), page, crate::wire::be_bytes(val as u32, len))
}

/// The read of a demodulator register.
pub open spec fn demod_read(page: u16, addr: u16) -> Request {
    control_in(demod_value(addr), page, 1)
}

/// The write of one tuner register.
pub open spec fn tuner_write(data: Seq<u8>) -> Request {
    control_out(R820T_I2C_ADDR as u16, BLOCK_I2C, data)
}

/// The read of the tuner registers up to `reg`.
pub open spec fn tuner_read(reg: u8) -> Request {
    control_in(R820T_I2C_ADDR as u16, BLOCK_I2C, reg + 1)
}

/// What a reply to the read of tuner register `reg` says that it holds: the
/// byte at that place with its bits reversed, or 0 where the reply is shorter.
pub open spec fn tuner_value(reply: Seq<u8>, reg: u8) -> u8 {
    if reg < reply.len() {
        crate::wire::reversed(reply[reg as int])
    } else {
        0
    }
}

/// The request that writes a register of the USB block.
pub fn set_usb_reg(addr: u16, val: u32, len: u8) -> (res: UsbRequest)
    requires
        len <= 4,
    ensures
        res@ == control_out(addr, BLOCK_USB, crate::wire::le_bytes(val, len as nat)),
{
    ctrl_out(addr, BLOCK_USB, crate::wire::num_to_le(val, len))
}

/// The request that writes a register of the system block.
pub fn set_sys_reg(addr: u16, val: u8) -> (res: UsbRequest)
    ensures
        res@ == control_out(addr, BLOCK_SYS, seq![val]),
{
    let data: Vec<u8> = vec![val];
    assert(data@ =~= seq![val]);
    ctrl_out(addr, BLOCK_SYS, data)
}

/// The request that writes a demodulator register.
pub fn demod_write_reg(page: u16, addr: u16, val: u16, len: u8) -> (res: UsbRequest)
    requires
        len <= 4,
    ensures
        res@ == demod_write(page, addr, val, len as nat),
{
    ctrl_out(demod_value_of(addr), page, crate::wire::num_to_be(val as u32, len))
}

/// The request that reads a demodulator register.
pub fn demod_read_reg(page: u16, addr: u16) -> (res: UsbRequest)
    ensures
        res@ == demod_read(page, addr),
{
    ctrl_in(demod_value_of(addr), page, 1)
}

/// The request that writes bytes to an I2C device.
pub fn i2c_write(i2c_addr: u8, data: Vec<u8>) -> (res: UsbRequest)
    ensures
        res@ == control_out(i2c_addr as u16, BLOCK_I2C, data@),
{
    ctrl_out(i2c_addr as u16, BLOCK_I2C, data)
}

/// The request that reads bytes from an I2C device.
pub fn i2c_read(i2c_addr: u8, len: u16) -> (res: UsbRequest)
    ensures
        res@ == control_in(i2c_addr as u16, BLOCK_I2C, len as int),
{
    ctrl_in(i2c_addr as u16, BLOCK_I2C, len)
}

/// The request that writes a tuner register.
pub fn write_r820t_reg(reg: u8, val: u8) -> (res: UsbRequest)
    ensures
        res@ == tuner_write(seq![reg, val]),
{
    i2c_write(R820T_I2C_ADDR, vec![reg, val])
}

/// The request that announces which tuner register is read next.
pub fn select_r820t_reg(reg: u8) -> (res: UsbRequest)
    ensures
        res@ == tuner_write(seq![reg]),
{
    let data: Vec<u8> = vec![reg];
    assert(data@ =~= seq![reg]);
    i2c_write(R820T_I2C_ADDR, data)
}

/// The request that reads the tuner registers up to `reg`.
pub fn read_r820t_regs(reg: u8) -> (res: UsbRequest)
    ensures
        res@ == tuner_read(reg),
{
    i2c_read(R820T_I2C_ADDR, reg as u16 + 1)
}

/// The value of tuner register `reg` in what is kept of the reply to
/// `read_r820t_regs`.
pub fn read_r820t_reg(reply: &Vec<u8>, reg: u8) -> (res: u8)
    ensures
        res == tuner_value(reply@, reg),
{
    if (reg as usize) < reply.len() {
        bit_rev(reply[reg as usize])
    } else {
        0
    }
}

} // verus!
