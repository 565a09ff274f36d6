//! Big-endian integers, as every message of the protocol writes them.

use vstd::prelude::*;

verus! {

/// The `len` low bytes of `value`, most significant byte first.
pub open spec fn be_bytes(value: nat, len: nat) -> Seq<u8>
    decreases len,
{
    if len == 0 {
        seq![]
    } else {
        be_bytes(value / 256, (len - 1) as nat).push((value % 256) as u8)
    }
}

/// The number that `bytes` spells, most significant byte first.
pub open spec fn be_value(bytes: Seq<u8>) -> nat
    decreases bytes.len(),
{
    if bytes.len() == 0 {
        0
    } else {
        be_value(bytes.drop_last()) * 256 + bytes.last() as nat
    }
}

/// The sixteen bits of `x` in two's complement, read as an unsigned number.
pub open spec fn i16_bits(x: i16) -> nat {
    if x < 0 {
        (x + 0x1_0000) as nat
    } else {
        x as nat
    }
}

/// The signed number whose two's complement bits are `bits`.
pub open spec fn i16_from_bits(bits: nat) -> i16 {
    if bits < 0x8000 {
        bits as i16
    } else {
        (bits - 0x1_0000) as i16
    }
}

/// How many values fit in `len` bytes.
pub open spec fn byte_range(len: nat) -> nat
    decreases len,
{
    if len == 0 {
        1
    } else {
        256 * byte_range((len - 1) as nat)
    }
}

pub proof fn lemma_be_bytes_len(value: nat, len: nat)
    ensures
        be_bytes(value, len).len() == len,
    decreases len,
{
    if len > 0 {
        lemma_be_bytes_len(value / 256, (len - 1) as nat);
    }
}

/// Reading what was written gives the number back, if it fits in the bytes written.
pub proof fn lemma_be_value_of_be_bytes(value: nat, len: nat)
    requires
        value < byte_range(len),
    ensures
        be_value(be_bytes(value, len)) == value,
    decreases len,
{
    if len > 0 {
        lemma_be_value_of_be_bytes(value / 256, (len - 1) as nat);
        let bytes = be_bytes(value, len);
        assert(bytes.drop_last() =~= be_bytes(value / 256, (len - 1) as nat));
    }
}

/// Writing what was read gives the bytes back.
pub proof fn lemma_be_bytes_of_be_value(bytes: Seq<u8>)
    ensures
        be_bytes(be_value(bytes), bytes.len()) == bytes,
        be_value(bytes) < byte_range(bytes.len()),
    decreases bytes.len(),
{
    if bytes.len() > 0 {
        lemma_be_bytes_of_be_value(bytes.drop_last());
        assert(be_value(bytes) / 256 == be_value(bytes.drop_last()));
        assert(bytes.drop_last().push(bytes.last()) =~= bytes);
    } else {
        assert(bytes =~= seq![]);
    }
}

/// What a two-byte field reads as, spelled out.
pub proof fn lemma_be_value_2(bytes: Seq<u8>)
    requires
        bytes.len() == 2,
    ensures
        be_value(bytes) == bytes[0] * 256 + bytes[1],
{
    reveal_with_fuel(be_value, 3);
}

/// What a four-byte field reads as, spelled out.
pub proof fn lemma_be_value_4(bytes: Seq<u8>)
    requires
        bytes.len() == 4,
    ensures
        be_value(bytes) == ((bytes[0] * 256 + bytes[1]) * 256 + bytes[2]) * 256 + bytes[3],
{
    reveal_with_fuel(be_value, 5);
}

/// A number is written as its upper part, then its lower part.
pub proof fn lemma_be_bytes_join(high: nat, low: nat, high_len: nat, low_len: nat)
    requires
        low < byte_range(low_len),
    ensures
        be_bytes(high * byte_range(low_len) + low, high_len + low_len) == be_bytes(high, high_len)
            + be_bytes(low, low_len),
    decreases low_len,
{
    if low_len == 0 {
        assert(high * byte_range(0) == high);
        assert(be_bytes(high, high_len) + be_bytes(low, 0) =~= be_bytes(high, high_len));
    } else {
        let less = (low_len - 1) as nat;
        let value = high * byte_range(low_len) + low;
        let upper = high * byte_range(less);
        assert(high * byte_range(low_len) == 256 * upper) by (nonlinear_arith)
            requires
                byte_range(low_len) == 256 * byte_range(less),
                upper == high * byte_range(less),
        ;
        assert(value / 256 == upper + low / 256 && value % 256 == low % 256);
        lemma_be_bytes_join(high, low / 256, high_len, less);
        assert(be_bytes(value, high_len + low_len) =~= be_bytes(high, high_len) + be_bytes(
            low,
            low_len,
        ));
    }
}

pub proof fn lemma_byte_range()
    ensures
        byte_range(2) == 0x1_0000,
        byte_range(4) == 0x1_0000_0000,
        byte_range(8) == 0x1_0000_0000_0000_0000,
{
    reveal_with_fuel(byte_range, 9);
}

/// The bits of a signed number are its own, and only its own.
pub proof fn lemma_i16_bits(x: i16)
    ensures
        i16_bits(x) < 0x1_0000,
        i16_from_bits(i16_bits(x)) == x,
{
}

/// Reads the two bytes of `data` at `at`.
pub fn read_u16(data: &[u8], at: usize) -> (x: u16)
    requires
        at + 2 <= data@.len(),
    ensures
        x as nat == be_value(data@.subrange(at as int, at + 2)),
{
    proof {
        lemma_be_value_2(data@.subrange(at as int, at + 2));
    }
    data[at] as u16 * 256 + data[at + 1] as u16
}

/// Reads the two bytes of `data` at `at` as a signed number.
pub fn read_i16(data: &[u8], at: usize) -> (x: i16)
    requires
        at + 2 <= data@.len(),
    ensures
        x == i16_from_bits(be_value(data@.subrange(at as int, at + 2))),
{
    let bits = read_u16(data, at);
    if bits < 0x8000 {
        bits as i16
    } else {
        (bits as i32 - 0x1_0000) as i16
    }
}

/// Reads the four bytes of `data` at `at`.
pub fn read_u32(data: &[u8], at: usize) -> (x: u32)
    requires
        at + 4 <= data@.len(),
    ensures
        x as nat == be_value(data@.subrange(at as int, at + 4)),
{
    proof {
        lemma_be_value_4(data@.subrange(at as int, at + 4));
    }
    ((data[at] as u32 * 256 + data[at + 1] as u32) * 256 + data[at + 2] as u32) * 256
        + data[at + 3] as u32
}

/// Appends `x` in two bytes.
pub fn push_u16(buf: &mut Vec<u8>, x: u16)
    ensures
        final(buf)@ == old(buf)@ + be_bytes(x as nat, 2),
{
    proof {
        reveal_with_fuel(be_bytes, 3);
    }
    buf.push((x / 256) as u8);
    buf.push((x % 256) as u8);
}

/// Appends `x` in two bytes, in two's complement.
pub fn push_i16(buf: &mut Vec<u8>, x: i16)
    ensures
        final(buf)@ == old(buf)@ + be_bytes(i16_bits(x), 2),
{
    if x < 0 {
        push_u16(buf, (x as i32 + 0x1_0000) as u16);
    } else {
        push_u16(buf, x as u16);
    }
}

/// Appends `x` in four bytes.
pub fn push_u32(buf: &mut Vec<u8>, x: u32)
    ensures
        final(buf)@ == old(buf)@ + be_bytes(x as nat, 4),
{
    proof {
        reveal_with_fuel(be_bytes, 5);
    }
    buf.push((x / 0x100_0000) as u8);
    buf.push((x / 0x1_0000 % 256) as u8);
    buf.push((x / 256 % 256) as u8);
    buf.push((x % 256) as u8);
}

/// Appends `x` in eight bytes.
pub fn push_u64(buf: &mut Vec<u8>, x: u64)
    ensures
        final(buf)@ == old(buf)@ + be_bytes(x as nat, 8),
{
    proof {
        let high = (x / 0x1_0000_0000) as nat;
        let low = (x % 0x1_0000_0000) as nat;
        lemma_byte_range();
        lemma_be_bytes_join(high, low, 4, 4);
        assert(high * byte_range(4) + low == x);
        assert(old(buf)@ + be_bytes(high, 4) + be_bytes(low, 4) =~= old(buf)@ + be_bytes(
            x as nat,
            8,
        ));
    }
    push_u32(buf, (x / 0x1_0000_0000) as u32);
    push_u32(buf, (x % 0x1_0000_0000) as u32);
}

/// Appends every byte of `bytes`.
pub fn push_bytes(buf: &mut Vec<u8>, bytes: &[u8])
    ensures
        final(buf)@ == old(buf)@ + bytes@,
{
    buf.extend_from_slice(bytes);
}

// ---------------------------------------------------------------------------
// Laws
// ---------------------------------------------------------------------------

/// A signed number and its sixteen bits differ by nothing or by 65536, so each has the other for
/// its own.
pub proof fn law_twos_complement(x: i16, bits: nat)
    requires
        bits < 65536,
    ensures
        i16_bits(x) - x == 0 || i16_bits(x) - x == 65536,
        i16_bits(x) < 65536,
        bits - i16_from_bits(bits) == 0 || bits - i16_from_bits(bits) == 65536,
        i16_from_bits(i16_bits(x)) == x,
        i16_bits(i16_from_bits(bits)) == bits,
{
}

/// The first of the bytes that a number is written in is its highest.
pub proof fn law_high_byte_first(high: u8, rest: Seq<u8>)
    ensures
        be_bytes(be_value(seq![high] + rest), rest.len() + 1)[0] == high,
        be_bytes(be_value(seq![high] + rest), rest.len() + 1).skip(1) == rest,
        be_value(seq![high] + rest) == high * byte_range(rest.len()) + be_value(rest),
    decreases rest.len(),
{
    let bytes = seq![high] + rest;
    lemma_be_bytes_of_be_value(bytes);
    assert(bytes.skip(1) =~= rest);
    if rest.len() == 0 {
        assert(rest =~= seq![]);
        assert(bytes.drop_last() =~= seq![]);
        reveal_with_fuel(be_value, 2);
        assert(high * byte_range(0) == high) by (nonlinear_arith)
            requires
                byte_range(0) == 1,
        ;
    } else {
        let fewer = rest.drop_last();
        law_high_byte_first(high, fewer);
        assert(bytes.drop_last() =~= seq![high] + fewer);
        assert(bytes.last() == rest.last());
        let range = byte_range(fewer.len());
        assert(high * (256 * range) == 256 * (high * range)) by (nonlinear_arith);
    }
}

} // verus!
