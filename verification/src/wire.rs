//! Byte-level encodings that the RTL2832U and the R820T use on the wire.

use vstd::arithmetic::div_mod::lemma_mod_breakdown;
use vstd::prelude::*;

verus! {

/// The `k`-th power of 256.
pub open spec fn pow256(k: nat) -> nat
    decreases k,
{
    if k == 0 {
        1
    } else {
        256 * pow256((k - 1) as nat)
    }
}

/// Byte `i` of `val`, where byte 0 is the least significant one.
pub open spec fn byte_of(val: u32, i: int) -> u8
    recommends
        0 <= i < 4,
{
    ((val as int / pow256(i as nat) as int) % 256) as u8
}

/// The `len` low bytes of `val`, least significant byte first.
pub open spec fn le_bytes(val: u32, len: nat) -> Seq<u8> {
    Seq::new(len, |i: int| byte_of(val, i))
}

/// The `len` low bytes of `val`, most significant byte first.
pub open spec fn be_bytes(val: u32, len: nat) -> Seq<u8> {
    Seq::new(len, |i: int| byte_of(val, len - 1 - i))
}

/// The number that a byte sequence denotes, least significant byte first.
pub open spec fn le_value(bytes: Seq<u8>) -> nat
    decreases bytes.len(),
{
    if bytes.len() == 0 {
        0
    } else {
        bytes[0] as nat + 256 * le_value(bytes.drop_first())
    }
}

/// `b` with its eight bits in the opposite order: bit `i` goes to bit `7 - i`.
pub open spec fn reversed(b: u8) -> u8 {
    (b & 0x01) << 7 | (b & 0x02) << 5 | (b & 0x04) << 3 | (b & 0x08) << 1 | (b & 0x10) >> 1 | (b
        & 0x20) >> 3 | (b & 0x40) >> 5 | (b & 0x80) >> 7
}

/// Bit reversal of each four-bit number.
const NIBBLE_REVERSED: [u8; 16] = [
    0x0, 0x8, 0x4, 0xC, 0x2, 0xA, 0x6, 0xE, 0x1, 0x9, 0x5, 0xD, 0x3, 0xB, 0x7, 0xF,
];

proof fn lemma_pow256_values()
    ensures
        pow256(0) == 1,
        pow256(1) == 0x100,
        pow256(2) == 0x1_0000,
        pow256(3) == 0x100_0000,
        pow256(4) == 0x1_0000_0000,
{
    reveal_with_fuel(pow256, 5);
}

/// One byte of `val`, picked by shifting.
fn byte_at(val: u32, i: u8) -> (res: u8)
    requires
        i < 4,
    ensures
        res == byte_of(val, i as int),
{
    proof {
        lemma_pow256_values();
        assert(val >> 0u32 == val) by (bit_vector);
        assert(val >> 8u32 == val / 0x100) by (bit_vector);
        assert(val >> 16u32 == val / 0x1_0000) by (bit_vector);
        assert(val >> 24u32 == val / 0x100_0000) by (bit_vector);
    }
    let shift: u32 = 8 * (i as u32);
    let low: u32 = (val >> shift) % 256;
    proof {
        assert(i == 0 || i == 1 || i == 2 || i == 3);
        assert(low == (val as int / pow256(i as nat) as int) % 256) by {
            if i == 0 {
                assert(shift == 0);
            } else if i == 1 {
                assert(shift == 8);
            } else if i == 2 {
                assert(shift == 16);
            } else {
                assert(shift == 24);
            }
        }
    }
    low as u8
}

/// Encodes the `len` low bytes of `val`, least significant byte first.
pub fn num_to_le(val: u32, len: u8) -> (res: Vec<u8>)
    requires
        len <= 4,
    ensures
        res@ == le_bytes(val, len as nat),
{
    let mut res: Vec<u8> = Vec::new();
    let mut i: u8 = 0;
    while i < len
        invariant
            i <= len <= 4,
            res@ == le_bytes(val, i as nat),
        decreases len - i,
    {
        res.push(byte_at(val, i));
        i = i + 1;
    }
    res
}

/// Encodes the `len` low bytes of `val`, most significant byte first.
pub fn num_to_be(val: u32, len: u8) -> (res: Vec<u8>)
    requires
        len <= 4,
    ensures
        res@ == be_bytes(val, len as nat),
{
    let mut res: Vec<u8> = Vec::new();
    let mut i: u8 = len;
    while i > 0
        invariant
            i <= len <= 4,
            res@ == be_bytes(val, len as nat).take(len - i),
        decreases i,
    {
        i = i - 1;
        res.push(byte_at(val, i));
    }
    res
}

/// Reverses the order of the bits of a byte.
pub fn bit_rev(b: u8) -> (res: u8)
    ensures
        res == reversed(b),
{
    let low: u8 = b & 0x0F;
    let high: u8 = b >> 4;
    proof {
        assert(low < 16 && high < 16) by (bit_vector)
            requires
                low == b & 0x0F,
                high == b >> 4,
        ;
    }
    let low_reversed: u8 = NIBBLE_REVERSED[low as usize];
    let high_reversed: u8 = NIBBLE_REVERSED[high as usize];
    proof {
        lemma_nibble_reversed(low);
        lemma_nibble_reversed(high);
        assert((low_reversed << 4) | high_reversed == reversed(b)) by (bit_vector)
            requires
                low == b & 0x0F,
                high == b >> 4,
                low_reversed == (low & 1) << 3 | (low & 2) << 1 | (low & 4) >> 1 | (low & 8) >> 3,
                high_reversed == (high & 1) << 3 | (high & 2) << 1 | (high & 4) >> 1 | (high & 8)
                    >> 3,
        ;
    }
    (low_reversed << 4) | high_reversed
}

proof fn lemma_nibble_reversed(n: u8)
    requires
        n < 16,
    ensures
        NIBBLE_REVERSED@[n as int] == (n & 1) << 3 | (n & 2) << 1 | (n & 4) >> 1 | (n & 8) >> 3,
{
    assert((n & 1) << 3 | (n & 2) << 1 | (n & 4) >> 1 | (n & 8) >> 3 == (if n == 0 { 0u8 }
    else if n == 1 { 8 } else if n == 2 { 4 } else if n == 3 { 0xC } else if n == 4 { 2 }
    else if n == 5 { 0xA } else if n == 6 { 6 } else if n == 7 { 0xE } else if n == 8 { 1 }
    else if n == 9 { 9 } else if n == 10 { 5 } else if n == 11 { 0xD } else if n == 12 { 3 }
    else if n == 13 { 0xB } else if n == 14 { 7 } else { 0xF })) by (bit_vector)
        requires
            n < 16,
    ;
}

/// Reversing the bits of a byte twice gives the byte back.
pub proof fn reversed_is_involution(b: u8)
    ensures
        reversed(reversed(b)) == b,
{
    let r = reversed(b);
    assert(r == reversed(b) ==> reversed(r) == b) by (bit_vector);
}

/// Bit `i` of the reversed byte is bit `7 - i` of the byte.
pub proof fn reversed_moves_each_bit(b: u8, i: u8)
    requires
        i < 8,
    ensures
        (reversed(b) >> i) & 1 == (b >> ((7 - i) as u8)) & 1,
{
    let r = reversed(b);
    let j = (7 - i) as u8;
    assert((r >> i) & 1 == (b >> j) & 1) by (bit_vector)
        requires
            r == reversed(b),
            i < 8,
            j == 7 - i,
    ;
}

/// The big-endian encoding is the little-endian one read backwards.
pub proof fn be_bytes_reverse_le_bytes(val: u32, len: nat)
    ensures
        be_bytes(val, len) == le_bytes(val, len).reverse(),
{
    assert(be_bytes(val, len) =~= le_bytes(val, len).reverse());
}

proof fn lemma_le_value_push(bytes: Seq<u8>, b: u8)
    ensures
        le_value(bytes.push(b)) == le_value(bytes) + pow256(bytes.len()) * b,
    decreases bytes.len(),
{
    if bytes.len() == 0 {
        assert(bytes.push(b).drop_first() =~= bytes);
        reveal_with_fuel(le_value, 2);
        assert(pow256(0) * b == b) by {
            assert(pow256(0) == 1);
        }
    } else {
        assert(bytes.push(b).drop_first() =~= bytes.drop_first().push(b));
        lemma_le_value_push(bytes.drop_first(), b);
        let k = pow256((bytes.len() - 1) as nat);
        assert(256 * (k * b) == (256 * k) * b) by (nonlinear_arith);
    }
}

/// Encoding a number and reading the bytes back gives the number modulo
/// 256 to the power of the number of bytes; all four bytes give it whole.
pub proof fn le_bytes_read_back(val: u32, len: nat)
    requires
        len <= 4,
    ensures
        le_value(le_bytes(val, len)) == val as nat % pow256(len),
        len == 4 ==> le_value(le_bytes(val, len)) == val,
        le_value(be_bytes(val, len).reverse()) == le_value(le_bytes(val, len)),
{
    lemma_pow256_values();
    assert(be_bytes(val, len).reverse() =~= le_bytes(val, len));
    lemma_le_value_of_bytes(val, len);
}

proof fn lemma_le_value_of_bytes(val: u32, len: nat)
    requires
        len <= 4,
    ensures
        le_value(le_bytes(val, len)) == val as nat % pow256(len),
    decreases len,
{
    lemma_pow256_values();
    if len > 0 {
        let k = (len - 1) as nat;
        lemma_le_value_of_bytes(val, k);
        assert(le_bytes(val, len) =~= le_bytes(val, k).push(byte_of(val, k as int)));
        lemma_le_value_push(le_bytes(val, k), byte_of(val, k as int));
        lemma_mod_breakdown(val as int, pow256(k) as int, 256);
        assert(pow256(len) == pow256(k) * 256);
        let low = byte_of(val, k as int);
        assert(low == (val as int / pow256(k) as int) % 256);
    }
}

} // verus!
