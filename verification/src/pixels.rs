//! Pixel buffers: a rectangle of pixels, each a fixed number of 8-bit
//! channels, stored row by row.
//!
//! The channel at `(row, col, channel)` is byte
//! `(row * width + col) * channels + channel` of the buffer. This order, rows
//! first, then columns, then the channels of a pixel (red, green, blue, and
//! alpha where there is one), is the order in which bits are embedded.

use crate::bits::{get_lsb, lsb, set_lsb, with_lsb};
use crate::capacity::{
    capacity_bits, max_payload_bytes, spec_capacity_bits, spec_max_payload_bytes,
};
use vstd::arithmetic::div_mod::{
    lemma_fundamental_div_mod, lemma_fundamental_div_mod_converse, lemma_mod_bound,
    lemma_multiply_divide_lt,
};
use vstd::prelude::*;

verus! {

/// What a pixel buffer holds: its shape and its channel bytes in order.
pub struct PixelGrid {
    pub width: nat,
    pub height: nat,
    pub channels: nat,
    pub data: Seq<u8>,
}

impl PixelGrid {
    /// The shape fits the field widths and the data fills it exactly.
    pub open spec fn wf(self) -> bool {
        &&& self.width <= u32::MAX
        &&& self.height <= u32::MAX
        &&& self.channels <= u8::MAX
        &&& self.data.len() == spec_capacity_bits(self.width, self.height, self.channels)
    }

    /// Whether `(row, col, channel)` names a channel of this grid.
    pub open spec fn contains(self, row: nat, col: nat, channel: nat) -> bool {
        row < self.height && col < self.width && channel < self.channels
    }

    /// The place of `(row, col, channel)` in the embedding order.
    pub open spec fn index_of(self, row: nat, col: nat, channel: nat) -> nat {
        (row * self.width + col) * self.channels + channel
    }

    /// The row of the channel at place `index`.
    pub open spec fn row_of(self, index: nat) -> nat {
        index / self.channels / self.width
    }

    /// The column of the channel at place `index`.
    pub open spec fn col_of(self, index: nat) -> nat {
        index / self.channels % self.width
    }

    /// Which channel of its pixel the channel at place `index` is.
    pub open spec fn channel_of(self, index: nat) -> nat {
        index % self.channels
    }

    /// The same grid with other channel bytes.
    pub open spec fn with_data(self, data: Seq<u8>) -> PixelGrid {
        PixelGrid { width: self.width, height: self.height, channels: self.channels, data }
    }
}

/// Every channel of a grid has a place below the number of channel bytes,
/// and the place determines the channel: `row_of`, `col_of` and `channel_of`
/// undo `index_of`.
pub proof fn lemma_index_of_position(grid: PixelGrid, row: nat, col: nat, channel: nat)
    requires
        grid.wf(),
        grid.contains(row, col, channel),
    ensures
        grid.index_of(row, col, channel) < grid.data.len(),
        grid.row_of(grid.index_of(row, col, channel)) == row,
        grid.col_of(grid.index_of(row, col, channel)) == col,
        grid.channel_of(grid.index_of(row, col, channel)) == channel,
{
    let w = grid.width as int;
    let h = grid.height as int;
    let c = grid.channels as int;
    let pixel = row * w + col;
    let index = pixel * c + channel;
    assert(pixel < h * w) by (nonlinear_arith)
        requires
            pixel == row * w + col,
            0 <= row < h,
            0 <= col < w,
    ;
    assert(index < h * w * c && w * h * c == h * w * c) by (nonlinear_arith)
        requires
            index == pixel * c + channel,
            0 <= pixel < h * w,
            0 <= channel < c,
    ;
    lemma_fundamental_div_mod_converse(index, c, pixel, channel as int);
    lemma_fundamental_div_mod_converse(pixel, w, row as int, col as int);
}

/// Every place below the number of channel bytes is the place of exactly one
/// channel of the grid: `index_of` undoes `row_of`, `col_of` and
/// `channel_of`.
pub proof fn lemma_position_of_index(grid: PixelGrid, index: nat)
    requires
        grid.wf(),
        index < grid.data.len(),
    ensures
        grid.contains(grid.row_of(index), grid.col_of(index), grid.channel_of(index)),
        grid.index_of(grid.row_of(index), grid.col_of(index), grid.channel_of(index)) == index,
{
    let w = grid.width as int;
    let h = grid.height as int;
    let c = grid.channels as int;
    assert(0 < w && 0 < h && 0 < c) by (nonlinear_arith)
        requires
            0 <= w,
            0 <= h,
            0 <= c,
            0 < w * h * c,
    ;
    let pixel = index as int / c;
    assert(w * h * c == c * (w * h)) by (nonlinear_arith);
    lemma_multiply_divide_lt(index as int, c, w * h);
    lemma_multiply_divide_lt(pixel, w, h);
    lemma_mod_bound(index as int, c);
    lemma_mod_bound(pixel, w);
    lemma_fundamental_div_mod(index as int, c);
    lemma_fundamental_div_mod(pixel, w);
    assert(pixel >= 0 && pixel / w >= 0) by (nonlinear_arith)
        requires
            pixel == index as int / c,
            index >= 0,
            c > 0,
            w > 0,
    ;
    assert((pixel / w) * w == w * (pixel / w) && pixel * c == c * pixel) by (nonlinear_arith);
}

/// A rectangle of pixels with its channel bytes.
#[derive(Debug, PartialEq, Eq)]
pub struct PixelBuffer {
    width: u32,
    height: u32,
    channels: u8,
    data: Vec<u8>,
}

impl View for PixelBuffer {
    type V = PixelGrid;

    closed spec fn view(&self) -> PixelGrid {
        PixelGrid {
            width: self.width as nat,
            height: self.height as nat,
            channels: self.channels as nat,
            data: self.data@,
        }
    }
}

impl PixelBuffer {
    #[verifier::type_invariant]
    spec fn inv(self) -> bool {
        self.data@.len() == spec_capacity_bits(
            self.width as nat,
            self.height as nat,
            self.channels as nat,
        )
    }

    /// Wraps `data` as a `width` by `height` buffer of `channels` channels
    /// per pixel, if `data` has exactly one byte for each channel.
    pub fn new(width: u32, height: u32, channels: u8, data: Vec<u8>) -> (buffer: Option<
        PixelBuffer,
    >)
        ensures
            buffer is Some <==> data@.len() == spec_capacity_bits(
                width as nat,
                height as nat,
                channels as nat,
            ),
            buffer matches Some(b) ==> b@ == (PixelGrid {
                width: width as nat,
                height: height as nat,
                channels: channels as nat,
                data: data@,
            }) && b@.wf(),
    {
        if data.len() as u128 == capacity_bits(width, height, channels) {
            Some(PixelBuffer { width, height, channels, data })
        } else {
            None
        }
    }

    /// The number of pixels in a row.
    pub fn width(&self) -> (width: u32)
        ensures
            width == self@.width,
    {
        self.width
    }

    /// The number of rows.
    pub fn height(&self) -> (height: u32)
        ensures
            height == self@.height,
    {
        self.height
    }

    /// The number of channels in a pixel.
    pub fn channels(&self) -> (channels: u8)
        ensures
            channels == self@.channels,
    {
        self.channels
    }

    /// The channel bytes in embedding order.
    pub fn as_bytes(&self) -> (bytes: &[u8])
        ensures
            bytes@ == self@.data,
            self@.wf(),
    {
        proof {
            use_type_invariant(self);
        }
        self.data.as_slice()
    }

    /// Gives up the buffer for its channel bytes.
    pub fn into_bytes(self) -> (bytes: Vec<u8>)
        ensures
            bytes@ == self@.data,
            self@.wf(),
    {
        proof {
            use_type_invariant(&self);
        }
        self.data
    }

    /// The number of bits this buffer can carry: one for each channel byte.
    pub fn capacity_bits(&self) -> (bits: usize)
        ensures
            bits == self@.data.len(),
            bits == spec_capacity_bits(self@.width, self@.height, self@.channels),
    {
        proof {
            use_type_invariant(self);
        }
        self.data.len()
    }

    /// The largest payload, in bytes, that this buffer can carry behind the
    /// frame header; negative when not even the header fits.
    pub fn max_payload_bytes(&self) -> (limit: i128)
        ensures
            limit == spec_max_payload_bytes(self@.data.len()),
    {
        proof {
            use_type_invariant(self);
        }
        max_payload_bytes(self.width, self.height, self.channels)
    }

    /// Wraps `data`, which the caller knows to have one byte for each
    /// channel.
    pub(crate) fn from_parts(width: u32, height: u32, channels: u8, data: Vec<u8>) -> (buffer:
        PixelBuffer)
        requires
            data@.len() == spec_capacity_bits(width as nat, height as nat, channels as nat),
        ensures
            buffer@ == (PixelGrid {
                width: width as nat,
                height: height as nat,
                channels: channels as nat,
                data: data@,
            }),
            buffer@.wf(),
    {
        PixelBuffer { width, height, channels, data }
    }

    /// The place in the embedding order of the channel at
    /// `(row, col, channel)`, if the buffer has such a channel.
    pub fn channel_index(&self, row: u32, col: u32, channel: u8) -> (index: Option<usize>)
        ensures
            index is Some <==> self@.contains(row as nat, col as nat, channel as nat),
            index matches Some(i) ==> i == self@.index_of(row as nat, col as nat, channel as nat)
                && i < self@.data.len(),
    {
        if row >= self.height || col >= self.width || channel >= self.channels {
            return None;
        }
        let total = self.data.len();
        proof {
            use_type_invariant(self);
            lemma_index_of_position(self@, row as nat, col as nat, channel as nat);
            let w = self.width as int;
            let c = self.channels as int;
            let pixel = row * w + col;
            assert(0 <= row * w <= pixel && pixel <= pixel * c) by (nonlinear_arith)
                requires
                    pixel == row * w + col,
                    0 <= row,
                    0 <= col,
                    0 <= w,
                    1 <= c,
            ;
        }
        let pixel = row as usize * self.width as usize + col as usize;
        Some(pixel * self.channels as usize + channel as usize)
    }

    /// The row, column and channel of the byte at place `index` in the
    /// embedding order, if the buffer has that many bytes.
    pub fn position_of(&self, index: usize) -> (position: Option<(u32, u32, u8)>)
        ensures
            position is Some <==> index < self@.data.len(),
            position matches Some((row, col, channel)) ==> {
                &&& row == self@.row_of(index as nat)
                &&& col == self@.col_of(index as nat)
                &&& channel == self@.channel_of(index as nat)
                &&& self@.contains(row as nat, col as nat, channel as nat)
                &&& self@.index_of(row as nat, col as nat, channel as nat) == index
            },
    {
        if index >= self.data.len() {
            return None;
        }
        proof {
            use_type_invariant(self);
            lemma_position_of_index(self@, index as nat);
        }
        let channels = self.channels as usize;
        let width = self.width as usize;
        let pixel = index / channels;
        Some(((pixel / width) as u32, (pixel % width) as u32, (index % channels) as u8))
    }

    /// The byte of the channel at `(row, col, channel)`, if the buffer has
    /// such a channel.
    pub fn get(&self, row: u32, col: u32, channel: u8) -> (value: Option<u8>)
        ensures
            value is Some <==> self@.contains(row as nat, col as nat, channel as nat),
            value matches Some(v) ==> v == self@.data[self@.index_of(
                row as nat,
                col as nat,
                channel as nat,
            ) as int],
    {
        match self.channel_index(row, col, channel) {
            Some(index) => Some(self.data[index]),
            None => None,
        }
    }

    /// The least-significant bit of the byte at place `index`.
    pub(crate) fn lsb_at(&self, index: usize) -> (bit: bool)
        requires
            index < self@.data.len(),
        ensures
            bit == lsb(self@.data[index as int]),
    {
        get_lsb(self.data[index])
    }

    /// Overwrites the least-significant bit of the byte at place `index`.
    pub(crate) fn set_lsb_at(&mut self, index: usize, bit: bool)
        requires
            index < old(self)@.data.len(),
        ensures
            final(self)@ == old(self)@.with_data(
                old(self)@.data.update(index as int, with_lsb(old(self)@.data[index as int], bit)),
            ),
        no_unwind
    {
        proof {
            use_type_invariant(&*self);
        }
        let byte = set_lsb(self.data[index], bit);
        self.data[index] = byte;
    }
}

impl Clone for PixelBuffer {
    /// A separate buffer with the same shape and bytes.
    fn clone(&self) -> (copy: PixelBuffer)
        ensures
            copy@ == self@,
    {
        proof {
            use_type_invariant(self);
        }
        let data = self.data.clone();
        assert(data@ =~= self.data@);
        PixelBuffer { width: self.width, height: self.height, channels: self.channels, data }
    }
}

} // verus!
