//! The bit-level model: the lowest bit of a byte, and big-endian bit
//! sequences of integers and byte strings.

use vstd::arithmetic::div_mod::lemma_div_denominator;
use vstd::arithmetic::power2::{
    lemma2_to64, lemma_pow2_pos, lemma_pow2_strictly_increases, lemma_pow2_unfold, pow2,
};
use vstd::bits::lemma_u32_shr_is_div;
use vstd::prelude::*;

verus! {

/// The least-significant bit of `byte`.
pub open spec fn lsb(byte: u8) -> bool {
    byte % 2 == 1
}

/// `byte` with its least-significant bit replaced by `bit`.
pub open spec fn with_lsb(byte: u8, bit: bool) -> u8 {
    (byte - byte % 2 + if bit { 1int } else { 0int }) as u8
}

/// Reads the least-significant bit of `byte`.
pub fn get_lsb(byte: u8) -> (bit: bool)
    ensures
        bit == lsb(byte),
{
    assert((byte & 1 == 1) == (byte % 2 == 1)) by (bit_vector);
    byte & 1 == 1
}

/// Overwrites the least-significant bit of `byte`, keeping the upper seven.
pub fn set_lsb(byte: u8, bit: bool) -> (out: u8)
    ensures
        out == with_lsb(byte, bit),
    no_unwind
{
    assert((byte | 1) == byte - byte % 2 + 1) by (bit_vector);
    assert((byte & 0xFE) == byte - byte % 2) by (bit_vector);
    if bit {
        byte | 1
    } else {
        byte & 0xFE
    }
}

/// Writing a bit and reading it back yields that bit, the upper seven bits
/// are those of the byte written to, and writing a byte's own bit changes
/// nothing.
pub proof fn lemma_with_lsb(byte: u8, bit: bool)
    ensures
        lsb(with_lsb(byte, bit)) == bit,
        with_lsb(byte, bit) / 2 == byte / 2,
        with_lsb(byte, lsb(byte)) == byte,
{
}

/// The `width` lowest bits of `value`, most significant first.
pub open spec fn bits_be(value: nat, width: nat) -> Seq<bool>
    decreases width,
{
    if width == 0 {
        Seq::empty()
    } else {
        bits_be(value / 2, (width - 1) as nat).push(value % 2 == 1)
    }
}

/// The number that `bits` spell, most significant bit first.
pub open spec fn value_be(bits: Seq<bool>) -> nat
    decreases bits.len(),
{
    if bits.len() == 0 {
        0
    } else {
        2 * value_be(bits.drop_last()) + if bits.last() { 1nat } else { 0nat }
    }
}

/// The bits of every byte of `bytes` in order, each byte most significant
/// bit first.
pub open spec fn bits_of_bytes(bytes: Seq<u8>) -> Seq<bool> {
    Seq::new(8 * bytes.len(), |i: int| bits_be(bytes[i / 8] as nat, 8)[i % 8])
}

/// The bytes that `bits` spell, eight bits to a byte, most significant bit
/// first. Bits beyond the last full group of eight are ignored.
pub open spec fn bytes_of_bits(bits: Seq<bool>) -> Seq<u8> {
    Seq::new((bits.len() / 8) as nat, |j: int| value_be(bits.subrange(8 * j, 8 * j + 8)) as u8)
}

/// `bits_be` yields exactly `width` bits.
pub proof fn lemma_bits_be_len(value: nat, width: nat)
    ensures
        bits_be(value, width).len() == width,
    decreases width,
{
    if width > 0 {
        lemma_bits_be_len(value / 2, (width - 1) as nat);
    }
}

/// The bit at place `i` of `bits_be(value, width)` is the binary digit of
/// `value` that weighs `2^(width - 1 - i)`.
pub proof fn lemma_bits_be_index(value: nat, width: nat, i: int)
    requires
        0 <= i < width,
    ensures
        bits_be(value, width).len() == width,
        bits_be(value, width)[i] == (value / pow2((width - 1 - i) as nat) % 2 == 1),
    decreases width,
{
    let rest = (width - 1) as nat;
    lemma_bits_be_len(value, width);
    lemma_bits_be_len(value / 2, rest);
    if i == width - 1 {
        lemma2_to64();
        assert(value / pow2(0) == value);
    } else {
        let weight = (rest - 1 - i) as nat;
        lemma_bits_be_index(value / 2, rest, i);
        lemma_pow2_pos(weight);
        lemma_pow2_unfold(weight + 1);
        lemma_div_denominator(value as int, 2, pow2(weight) as int);
        assert((width - 1 - i) as nat == weight + 1);
        assert(value / 2 / pow2(weight) == value / pow2(weight + 1));
    }
}

/// A sequence of `n` bits spells a number below `2^n`.
pub proof fn lemma_value_be_bound(bits: Seq<bool>)
    ensures
        value_be(bits) < pow2(bits.len()),
    decreases bits.len(),
{
    if bits.len() == 0 {
        lemma2_to64();
    } else {
        lemma_value_be_bound(bits.drop_last());
        lemma_pow2_unfold(bits.len());
    }
}

/// Spelling a number in `width` bits and reading the bits back returns the
/// number, provided it fits.
pub proof fn lemma_value_of_bits(value: nat, width: nat)
    requires
        value < pow2(width),
    ensures
        value_be(bits_be(value, width)) == value,
    decreases width,
{
    if width == 0 {
        lemma2_to64();
    } else {
        let rest = (width - 1) as nat;
        lemma_pow2_unfold(width);
        lemma_value_of_bits(value / 2, rest);
        lemma_bits_be_len(value / 2, rest);
        assert(bits_be(value, width).drop_last() =~= bits_be(value / 2, rest));
    }
}

/// Reading a bit sequence as a number and spelling that number at the same
/// width returns the sequence.
pub proof fn lemma_bits_of_value(bits: Seq<bool>)
    ensures
        bits_be(value_be(bits), bits.len()) == bits,
    decreases bits.len(),
{
    if bits.len() > 0 {
        lemma_bits_of_value(bits.drop_last());
        assert(value_be(bits) / 2 == value_be(bits.drop_last()));
    }
    assert(bits_be(value_be(bits), bits.len()) =~= bits);
}

/// Turning bytes into bits and regrouping the bits returns the bytes.
pub proof fn lemma_bytes_of_bits_of_bytes(bytes: Seq<u8>)
    ensures
        bits_of_bytes(bytes).len() == 8 * bytes.len(),
        bytes_of_bits(bits_of_bytes(bytes)) == bytes,
{
    let bits = bits_of_bytes(bytes);
    assert forall|j: int| 0 <= j < bytes.len() implies #[trigger] bytes_of_bits(bits)[j]
        == bytes[j] by {
        let group = bits.subrange(8 * j, 8 * j + 8);
        let byte = bytes[j] as nat;
        lemma_bits_be_len(byte, 8);
        assert forall|k: int| 0 <= k < 8 implies group[k] == bits_be(byte, 8)[k] by {
            assert((8 * j + k) / 8 == j);
            assert((8 * j + k) % 8 == k);
        }
        assert(group =~= bits_be(byte, 8));
        lemma2_to64();
        lemma_value_of_bits(byte, 8);
    }
    assert(bytes_of_bits(bits) =~= bytes);
}

/// Regrouping a whole number of bytes' worth of bits and expanding the bytes
/// again returns the bits.
pub proof fn lemma_bits_of_bytes_of_bits(bits: Seq<bool>)
    requires
        bits.len() % 8 == 0,
    ensures
        bytes_of_bits(bits).len() * 8 == bits.len(),
        bits_of_bytes(bytes_of_bits(bits)) == bits,
{
    let bytes = bytes_of_bits(bits);
    assert forall|i: int| 0 <= i < bits.len() implies #[trigger] bits_of_bytes(bytes)[i]
        == bits[i] by {
        let j = i / 8;
        let group = bits.subrange(8 * j, 8 * j + 8);
        lemma_value_be_bound(group);
        lemma2_to64();
        lemma_bits_of_value(group);
        assert(bytes[j] as nat == value_be(group));
        assert(group[i % 8] == bits[i]);
    }
    assert(bits_of_bytes(bytes) =~= bits);
}

/// Appending one byte appends its eight bits.
pub proof fn lemma_bits_of_bytes_push(bytes: Seq<u8>, byte: u8)
    ensures
        bits_of_bytes(bytes.push(byte)) == bits_of_bytes(bytes) + bits_be(byte as nat, 8),
{
    lemma_bits_be_len(byte as nat, 8);
    let whole = bits_of_bytes(bytes.push(byte));
    let parts = bits_of_bytes(bytes) + bits_be(byte as nat, 8);
    assert forall|i: int| 0 <= i < whole.len() implies whole[i] == parts[i] by {
        if i >= 8 * bytes.len() {
            assert(i / 8 == bytes.len());
            assert(i % 8 == i - 8 * bytes.len());
        }
    }
    assert(whole =~= parts);
}

/// Appends the `width` lowest bits of `value` to `out`, most significant
/// first.
pub(crate) fn push_bits_be(out: &mut Vec<bool>, value: u32, width: u32)
    requires
        width <= 32,
    ensures
        final(out)@ == old(out)@ + bits_be(value as nat, width as nat),
{
    let mut k: u32 = width;
    proof {
        lemma_pow2_pos(k as nat);
        assert(out@ =~= old(out)@ + bits_be(value as nat / pow2(k as nat), 0));
    }
    while k > 0
        invariant
            k <= width <= 32,
            out@ == old(out)@ + bits_be(value as nat / pow2(k as nat), (width - k) as nat),
        decreases k,
    {
        let ghost above = value as nat / pow2(k as nat);
        k = k - 1;
        let shifted: u32 = value >> k;
        let bit = shifted & 1 == 1;
        proof {
            let here = value as nat / pow2(k as nat);
            lemma_u32_shr_is_div(value, k);
            assert((shifted & 1 == 1) == (shifted % 2 == 1)) by (bit_vector);
            lemma_pow2_pos(k as nat);
            lemma_pow2_unfold((k + 1) as nat);
            lemma_div_denominator(value as int, pow2(k as nat) as int, 2);
            assert(here / 2 == above);
            assert(bits_be(here, (width - k) as nat) == bits_be(above, (width - k - 1) as nat).push(
                bit,
            ));
            assert(old(out)@ + bits_be(above, (width - k - 1) as nat).push(bit) =~= (old(out)@
                + bits_be(above, (width - k - 1) as nat)).push(bit));
        }
        out.push(bit);
    }
    proof {
        lemma2_to64();
        assert(value as nat / pow2(k as nat) == value as nat);
    }
}

/// Reads the `width` bits of `bits` that start at `start` as a number, most
/// significant bit first.
pub(crate) fn read_value_be(bits: &[bool], start: usize, width: usize) -> (value: u32)
    requires
        width <= 32,
        start + width <= bits@.len(),
    ensures
        value == value_be(bits@.subrange(start as int, start + width)),
{
    let total = bits.len();
    let mut acc: u32 = 0;
    let mut i: usize = 0;
    while i < width
        invariant
            i <= width <= 32,
            start + width <= total == bits@.len(),
            acc == value_be(bits@.subrange(start as int, start + i)),
        decreases width - i,
    {
        proof {
            let seen = bits@.subrange(start as int, start + i);
            let next = bits@.subrange(start as int, start + i + 1);
            assert(next.drop_last() =~= seen);
            lemma_value_be_bound(seen);
            lemma2_to64();
            if i < 31 {
                lemma_pow2_strictly_increases(i as nat, 31);
            }
        }
        acc = if bits[start + i] {
            acc * 2 + 1
        } else {
            acc * 2
        };
        i = i + 1;
    }
    acc
}

/// Appends to `out` the bits of every byte of `bytes`, each byte most
/// significant bit first.
pub(crate) fn push_bytes_bits(out: &mut Vec<bool>, bytes: &[u8])
    ensures
        final(out)@ == old(out)@ + bits_of_bytes(bytes@),
{
    let mut j: usize = 0;
    proof {
        assert(out@ =~= old(out)@ + bits_of_bytes(bytes@.subrange(0, 0)));
    }
    while j < bytes.len()
        invariant
            j <= bytes@.len(),
            out@ == old(out)@ + bits_of_bytes(bytes@.subrange(0, j as int)),
        decreases bytes@.len() - j,
    {
        let byte = bytes[j];
        proof {
            let done = bytes@.subrange(0, j as int);
            lemma_bits_of_bytes_push(done, byte);
            assert(done.push(byte) =~= bytes@.subrange(0, j + 1));
            assert(old(out)@ + (bits_of_bytes(done) + bits_be(byte as nat, 8)) =~= (old(out)@
                + bits_of_bytes(done)) + bits_be(byte as nat, 8));
        }
        push_bits_be(out, byte as u32, 8);
        j = j + 1;
    }
    proof {
        assert(bytes@.subrange(0, j as int) =~= bytes@);
    }
}

/// Expands bytes into bits, each byte most significant bit first.
pub fn bytes_to_bits(bytes: &[u8]) -> (bits: Vec<bool>)
    ensures
        bits@ == bits_of_bytes(bytes@),
{
    let mut bits: Vec<bool> = Vec::new();
    push_bytes_bits(&mut bits, bytes);
    proof {
        assert(Seq::<bool>::empty() + bits_of_bytes(bytes@) =~= bits_of_bytes(bytes@));
    }
    bits
}

/// Regroups bits into bytes, eight to a byte, most significant bit first.
/// Bits beyond the last full group of eight are dropped.
pub fn bits_to_bytes(bits: &[bool]) -> (bytes: Vec<u8>)
    ensures
        bytes@ == bytes_of_bits(bits@),
{
    let total = bits.len();
    let count = total / 8;
    let mut bytes: Vec<u8> = Vec::new();
    let mut j: usize = 0;
    while j < count
        invariant
            j <= count,
            count == total / 8,
            total == bits@.len(),
            bytes@.len() == j,
            forall|k: int| 0 <= k < j ==> bytes@[k] == bytes_of_bits(bits@)[k],
        decreases count - j,
    {
        let value = read_value_be(bits, 8 * j, 8);
        proof {
            lemma_value_be_bound(bits@.subrange(8 * j, 8 * j + 8));
            lemma2_to64();
        }
        bytes.push(value as u8);
        j = j + 1;
    }
    proof {
        assert(bytes@ =~= bytes_of_bits(bits@));
    }
    bytes
}

} // verus!
