//! The channel bitstream: the lowest bits of a buffer's channel bytes, read
//! and written in embedding order.

use crate::bits::{lemma_with_lsb, lsb, with_lsb};
use crate::error::StegoError;
use crate::pixels::{PixelBuffer, PixelGrid};
use vstd::prelude::*;

verus! {

/// The bit that each channel byte carries, in embedding order.
pub open spec fn channel_bits(data: Seq<u8>) -> Seq<bool> {
    Seq::new(data.len(), |i: int| lsb(data[i]))
}

/// `data` after `bits` have been written into the lowest bits of the bytes
/// from place `start` on.
pub open spec fn embed(data: Seq<u8>, start: int, bits: Seq<bool>) -> Seq<u8> {
    Seq::new(
        data.len(),
        |i: int|
            if start <= i < start + bits.len() {
                with_lsb(data[i], bits[i - start])
            } else {
                data[i]
            },
    )
}

/// What was written is what is read back from the same places.
pub proof fn lemma_embed_read_back(data: Seq<u8>, start: int, bits: Seq<bool>)
    requires
        0 <= start,
        start + bits.len() <= data.len(),
    ensures
        channel_bits(embed(data, start, bits)).subrange(start, start + bits.len()) == bits,
{
    let read = channel_bits(embed(data, start, bits)).subrange(start, start + bits.len());
    assert forall|i: int| 0 <= i < bits.len() implies read[i] == bits[i] by {
        lemma_with_lsb(data[start + i], bits[i]);
    }
    assert(read =~= bits);
}

/// Writing changes nothing but the lowest bit of the bytes written to: the
/// length and the upper seven bits of every byte stay, and so does every byte
/// outside the places written.
pub proof fn lemma_embed_changes_only_low_bits(data: Seq<u8>, start: int, bits: Seq<bool>)
    ensures
        embed(data, start, bits).len() == data.len(),
        forall|i: int|
            0 <= i < data.len() ==> #[trigger] embed(data, start, bits)[i] / 2 == data[i] / 2,
        forall|i: int|
            0 <= i < data.len() && !(start <= i < start + bits.len()) ==> #[trigger] embed(
                data,
                start,
                bits,
            )[i] == data[i],
{
    assert forall|i: int| 0 <= i < data.len() implies #[trigger] embed(data, start, bits)[i] / 2
        == data[i] / 2 by {
        if start <= i < start + bits.len() {
            lemma_with_lsb(data[i], bits[i - start]);
        }
    }
}

/// Writing a stretch of bits one after another is writing it at once.
pub proof fn lemma_embed_one_more(data: Seq<u8>, start: int, bits: Seq<bool>, bit: bool)
    requires
        0 <= start,
        start + bits.len() < data.len(),
    ensures
        embed(data, start, bits.push(bit)) == embed(data, start, bits).update(
            start + bits.len(),
            with_lsb(embed(data, start, bits)[start + bits.len()], bit),
        ),
{
    assert(embed(data, start, bits.push(bit)) =~= embed(data, start, bits).update(
        start + bits.len(),
        with_lsb(embed(data, start, bits)[start + bits.len()], bit),
    ));
}

/// What a writer holds: the buffer as written so far and the place of the
/// next bit.
pub struct WriterState {
    pub buffer: PixelGrid,
    pub position: nat,
}

/// Writes bits into a buffer, one channel after another.
pub struct BitWriter {
    buffer: PixelBuffer,
    position: usize,
}

impl View for BitWriter {
    type V = WriterState;

    closed spec fn view(&self) -> WriterState {
        WriterState { buffer: self.buffer@, position: self.position as nat }
    }
}

impl BitWriter {
    #[verifier::type_invariant]
    spec fn inv(self) -> bool {
        self.position <= self.buffer@.data.len()
    }

    /// A writer over `buffer` that starts at its first channel.
    pub fn new(buffer: PixelBuffer) -> (writer: BitWriter)
        ensures
            writer@ == (WriterState { buffer: buffer@, position: 0 }),
    {
        BitWriter { buffer, position: 0 }
    }

    /// The place of the next channel to be written to.
    pub fn position(&self) -> (position: usize)
        ensures
            position == self@.position,
    {
        self.position
    }

    /// The number of channels not yet written to.
    pub fn remaining(&self) -> (left: usize)
        ensures
            left == self@.buffer.data.len() - self@.position,
            self@.position <= self@.buffer.data.len(),
    {
        proof {
            use_type_invariant(self);
        }
        self.buffer.capacity_bits() - self.position
    }

    /// Writes `bits` into the lowest bits of the next channels, in order, and
    /// moves past them. Nothing is written if they do not all fit.
    pub fn write_bits(&mut self, bits: &[bool]) -> (outcome: Result<(), StegoError>)
        ensures
            old(self)@.position <= old(self)@.buffer.data.len(),
            outcome is Ok <==> old(self)@.position + bits@.len() <= old(self)@.buffer.data.len(),
            outcome is Ok ==> final(self)@ == (WriterState {
                buffer: old(self)@.buffer.with_data(
                    embed(old(self)@.buffer.data, old(self)@.position as int, bits@),
                ),
                position: old(self)@.position + bits@.len(),
            }),
            outcome is Err ==> outcome == Err::<(), StegoError>(StegoError::CapacityExceeded)
                && final(self)@ == old(self)@,
    {
        let count = bits.len();
        if count > self.remaining() {
            return Err(StegoError::CapacityExceeded);
        }
        let total = self.buffer.capacity_bits();
        let start = self.position;
        let mut i: usize = 0;
        proof {
            assert(self.buffer@.data =~= embed(self.buffer@.data, start as int, bits@.subrange(0, 0)));
        }
        while i < count
            invariant
                i <= count == bits@.len(),
                start + count <= total == old(self)@.buffer.data.len(),
                self.position == start == old(self)@.position,
                self.buffer@ == old(self)@.buffer.with_data(
                    embed(old(self)@.buffer.data, start as int, bits@.subrange(0, i as int)),
                ),
            decreases count - i,
        {
            proof {
                lemma_embed_one_more(
                    old(self)@.buffer.data,
                    start as int,
                    bits@.subrange(0, i as int),
                    bits@[i as int],
                );
                assert(bits@.subrange(0, i as int).push(bits@[i as int]) =~= bits@.subrange(
                    0,
                    i + 1,
                ));
            }
            self.buffer.set_lsb_at(start + i, bits[i]);
            i = i + 1;
        }
        proof {
            assert(bits@.subrange(0, i as int) =~= bits@);
        }
        self.position = start + count;
        Ok(())
    }

    /// Ends the writing and hands the buffer back.
    pub fn into_buffer(self) -> (buffer: PixelBuffer)
        ensures
            buffer@ == self@.buffer,
    {
        self.buffer
    }
}

/// What a reader holds: the bits of its buffer and the place of the next
/// bit.
pub struct ReaderState {
    pub stream: Seq<bool>,
    pub position: nat,
}

impl ReaderState {
    /// The bits not yet read.
    pub open spec fn rest(self) -> Seq<bool> {
        self.stream.subrange(self.position as int, self.stream.len() as int)
    }
}

/// Reads the bits that a buffer carries, one channel after another.
pub struct BitReader<'a> {
    buffer: &'a PixelBuffer,
    position: usize,
}

impl<'a> View for BitReader<'a> {
    type V = ReaderState;

    closed spec fn view(&self) -> ReaderState {
        ReaderState { stream: channel_bits(self.buffer@.data), position: self.position as nat }
    }
}

impl<'a> BitReader<'a> {
    #[verifier::type_invariant]
    spec fn inv(self) -> bool {
        self.position <= self.buffer@.data.len()
    }

    /// A reader over `buffer` that starts at its first channel.
    pub fn new(buffer: &'a PixelBuffer) -> (reader: BitReader<'a>)
        ensures
            reader@ == (ReaderState { stream: channel_bits(buffer@.data), position: 0 }),
    {
        BitReader { buffer, position: 0 }
    }

    /// The place of the next bit to be read.
    pub fn position(&self) -> (position: usize)
        ensures
            position == self@.position,
    {
        self.position
    }

    /// The number of bits not yet read.
    pub fn remaining(&self) -> (left: usize)
        ensures
            left == self@.stream.len() - self@.position,
            self@.position <= self@.stream.len(),
    {
        proof {
            use_type_invariant(self);
        }
        self.buffer.capacity_bits() - self.position
    }

    /// Reads the next `count` bits, in order, and moves past them. Nothing is
    /// consumed if fewer are left.
    pub fn read_bits(&mut self, count: usize) -> (outcome: Result<Vec<bool>, StegoError>)
        ensures
            old(self)@.position <= old(self)@.stream.len(),
            final(self)@.stream == old(self)@.stream,
            outcome is Ok <==> old(self)@.position + count <= old(self)@.stream.len(),
            outcome matches Ok(bits) ==> bits@ == old(self)@.stream.subrange(
                old(self)@.position as int,
                old(self)@.position + count,
            ) && final(self)@.position == old(self)@.position + count,
            outcome is Err ==> outcome == Err::<Vec<bool>, StegoError>(
                StegoError::CapacityExceeded,
            ) && final(self)@ == old(self)@,
    {
        if count > self.remaining() {
            return Err(StegoError::CapacityExceeded);
        }
        let total = self.buffer.capacity_bits();
        let start = self.position;
        let mut bits: Vec<bool> = Vec::new();
        let mut i: usize = 0;
        while i < count
            invariant
                i <= count,
                start + count <= total == self.buffer@.data.len(),
                bits@ == channel_bits(self.buffer@.data).subrange(start as int, start + i),
            decreases count - i,
        {
            let bit = self.buffer.lsb_at(start + i);
            proof {
                assert(bits@.push(bit) =~= channel_bits(self.buffer@.data).subrange(
                    start as int,
                    start + i + 1,
                ));
            }
            bits.push(bit);
            i = i + 1;
        }
        self.position = start + count;
        Ok(bits)
    }
}

/// Reads the first `count` bits that `buffer` carries.
pub fn read_bits(buffer: &PixelBuffer, count: usize) -> (outcome: Result<Vec<bool>, StegoError>)
    ensures
        outcome is Ok <==> count <= buffer@.data.len(),
        outcome matches Ok(bits) ==> bits@ == channel_bits(buffer@.data).subrange(0, count as int),
        outcome is Err ==> outcome == Err::<Vec<bool>, StegoError>(StegoError::CapacityExceeded),
{
    let mut reader = BitReader::new(buffer);
    reader.read_bits(count)
}

} // verus!
